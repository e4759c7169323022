use graph_store::{
    create_table, get_nodes_by_row_id, get_num_rows, insert_graph_node_with_back_edges,
    insert_graph_nodes, GraphNode, IndexShape, StoreError,
};

fn node(guid: u64, vector: Vec<u8>, adj_list: Vec<u32>) -> GraphNode {
    GraphNode { guid: Some(guid), vector, adj_list }
}

fn shape() -> IndexShape {
    IndexShape { ndim: 2, degree: 3 }
}

/// Five nodes under row ids 1..=5, each adjacency referencing only ids at
/// most one below its own (an acyclic bootstrap).
fn bootstrap() -> rusqlite::Connection {
    let mut conn = rusqlite::Connection::open_in_memory().unwrap();
    create_table(&mut conn).unwrap();
    let nodes = vec![
        node(10, vec![1, 1], vec![0, 0, 0]),
        node(20, vec![2, 2], vec![1, 1, 1]),
        node(30, vec![3, 3], vec![1, 2, 1]),
        node(40, vec![4, 4], vec![2, 3, 1]),
        node(50, vec![5, 5], vec![3, 4, 2]),
    ];
    insert_graph_nodes(&mut conn, nodes, &shape()).unwrap();
    conn
}

fn diff_positions(a: &[u32], b: &[u32]) -> Vec<usize> {
    assert_eq!(a.len(), b.len());
    (0..a.len()).filter(|&i| a[i] != b[i]).collect()
}

#[test]
fn back_edge_scenario() {
    let mut conn = bootstrap();
    let before = get_nodes_by_row_id(&conn, &vec![1, 2, 3, 4, 5]).unwrap();

    let new_id =
        insert_graph_node_with_back_edges(&mut conn, node(60, vec![6, 6], vec![1, 2, 3]), &shape())
            .unwrap();
    assert_eq!(new_id, 6);
    assert_eq!(get_num_rows(&conn).unwrap(), 6);

    let after = get_nodes_by_row_id(&conn, &vec![1, 2, 3, 4, 5]).unwrap();
    // nodes 1, 2, 3: exactly one adjacency slot now holds the new id
    for i in 0..3 {
        let changed = diff_positions(&before[i].adj_list, &after[i].adj_list);
        assert!(changed.len() <= 1);
        assert!(after[i].adj_list.contains(&(new_id as u32)));
        for &p in &changed {
            assert_eq!(after[i].adj_list[p], new_id as u32);
        }
        assert_eq!(before[i].vector, after[i].vector);
        assert_eq!(before[i].guid, after[i].guid);
    }
    // nodes 4 and 5 are untouched
    assert_eq!(before[3], after[3]);
    assert_eq!(before[4], after[4]);
}

#[test]
fn back_edge_new_node_is_persisted() {
    let mut conn = bootstrap();
    insert_graph_node_with_back_edges(&mut conn, node(60, vec![6, 6], vec![1, 2, 3]), &shape())
        .unwrap();
    let fetched = get_nodes_by_row_id(&conn, &vec![6]).unwrap();
    assert_eq!(fetched.len(), 1);
    assert_eq!(fetched[0].guid, Some(60));
    assert_eq!(fetched[0].vector, vec![6, 6]);
    assert_eq!(fetched[0].adj_list, vec![1, 2, 3]);
}

#[test]
fn back_edge_duplicate_targets_touch_one_slot() {
    let mut conn = bootstrap();
    let before = get_nodes_by_row_id(&conn, &vec![2]).unwrap();
    let new_id =
        insert_graph_node_with_back_edges(&mut conn, node(60, vec![6, 6], vec![2, 2, 2]), &shape())
            .unwrap();
    let after = get_nodes_by_row_id(&conn, &vec![2]).unwrap();
    let changed = diff_positions(&before[0].adj_list, &after[0].adj_list);
    assert!(changed.len() <= 1);
    assert!(after[0].adj_list.contains(&(new_id as u32)));
}

#[test]
fn back_edge_missing_neighbor_rolls_back() {
    let mut conn = bootstrap();
    assert_eq!(
        insert_graph_node_with_back_edges(
            &mut conn,
            node(60, vec![6, 6], vec![99, 99, 99]),
            &shape()
        )
        .unwrap_err(),
        StoreError::BackEdgeUpdateFailed
    );
    // the new node row was rolled back with the failed maintenance
    assert_eq!(get_num_rows(&conn).unwrap(), 5);
    assert!(get_nodes_by_row_id(&conn, &vec![6]).unwrap().is_empty());
}

#[test]
fn back_edge_empty_adjacency_error() {
    let mut conn = bootstrap();
    // artificially corrupt node 1 to hold a zero-length adjacency list
    conn.execute(
        "UPDATE IndexTable SET adj_list = ?1 WHERE vertex_id = ?2",
        (Vec::<u8>::new(), 1u64),
    )
    .unwrap();
    assert_eq!(
        insert_graph_node_with_back_edges(
            &mut conn,
            node(60, vec![6, 6], vec![1, 2, 3]),
            &shape()
        )
        .unwrap_err(),
        StoreError::EmptyAdjacencyError
    );
    assert_eq!(get_num_rows(&conn).unwrap(), 5);
}

#[test]
fn back_edge_misshaped_node_encoding_error() {
    let mut conn = bootstrap();
    assert_eq!(
        insert_graph_node_with_back_edges(&mut conn, node(60, vec![6], vec![1, 2, 3]), &shape())
            .unwrap_err(),
        StoreError::EncodingError
    );
    assert_eq!(get_num_rows(&conn).unwrap(), 5);
}
