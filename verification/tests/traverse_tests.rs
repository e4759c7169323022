use graph_store::{create_table, insert_graph_nodes, traverse, GraphNode, IndexShape, StoreError};

fn node(guid: u64, vector: Vec<u8>, adj_list: Vec<u32>) -> GraphNode {
    GraphNode { guid: Some(guid), vector, adj_list }
}

fn shape() -> IndexShape {
    IndexShape { ndim: 2, degree: 3 }
}

/// A closed graph: four nodes, every adjacency entry names an existing node.
fn closed_graph() -> rusqlite::Connection {
    let mut conn = rusqlite::Connection::open_in_memory().unwrap();
    create_table(&mut conn).unwrap();
    let nodes = vec![
        node(10, vec![1, 1], vec![2, 3, 4]),
        node(20, vec![2, 2], vec![1, 3, 4]),
        node(30, vec![3, 3], vec![1, 2, 4]),
        node(40, vec![4, 4], vec![1, 2, 3]),
    ];
    insert_graph_nodes(&mut conn, nodes, &shape()).unwrap();
    conn
}

#[test]
fn traversal_visits_one_frontier_per_hop() {
    let conn = closed_graph();
    let hops = 5;
    let frontiers = traverse(&conn, 1, hops).unwrap();
    assert_eq!(frontiers.len(), hops as usize + 1);
    assert_eq!(frontiers[0], vec![2, 3, 4]);
    for f in &frontiers {
        assert_eq!(f.len(), 3);
        for id in f {
            assert!((1..=4).contains(id));
        }
    }
}

#[test]
fn traversal_zero_hops_returns_initial_frontier() {
    let conn = closed_graph();
    let frontiers = traverse(&conn, 2, 0).unwrap();
    assert_eq!(frontiers.len(), 1);
    assert_eq!(frontiers[0], vec![1, 3, 4]);
}

#[test]
fn traversal_missing_start_is_not_found() {
    let conn = closed_graph();
    assert_eq!(traverse(&conn, 99, 3).unwrap_err(), StoreError::NotFoundError);
}

#[test]
fn traversal_empty_frontier_fails_at_first_encounter() {
    let mut conn = rusqlite::Connection::open_in_memory().unwrap();
    create_table(&mut conn).unwrap();
    // every walk from node 1 reaches node 2, whose adjacency is corrupted
    let nodes = vec![
        node(10, vec![1, 1], vec![2, 2, 2]),
        node(20, vec![2, 2], vec![1, 1, 1]),
    ];
    insert_graph_nodes(&mut conn, nodes, &shape()).unwrap();
    conn.execute(
        "UPDATE IndexTable SET adj_list = ?1 WHERE vertex_id = ?2",
        (Vec::<u8>::new(), 2u64),
    )
    .unwrap();

    // one hop still succeeds: the frontier after it is node 2's (empty) list
    let frontiers = traverse(&conn, 1, 1).unwrap();
    assert_eq!(frontiers.len(), 2);
    assert_eq!(frontiers[1], Vec::<u64>::new());

    // the second hop would sample from the empty frontier and fails fast
    assert_eq!(traverse(&conn, 1, 2).unwrap_err(), StoreError::EmptyFrontierError);
}

#[test]
fn traversal_on_dangling_frontier_is_empty_frontier_error() {
    let mut conn = rusqlite::Connection::open_in_memory().unwrap();
    create_table(&mut conn).unwrap();
    // node 1's adjacency names only absent nodes: the fetch matches nothing
    let nodes = vec![node(10, vec![1, 1], vec![7, 8, 9])];
    insert_graph_nodes(&mut conn, nodes, &shape()).unwrap();
    assert_eq!(traverse(&conn, 1, 1).unwrap_err(), StoreError::EmptyFrontierError);
}
