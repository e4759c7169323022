use graph_store::{
    create_table, get_nodes_by_row_id, get_num_rows, insert_graph_node_with_back_edges,
    insert_graph_nodes, GraphNode, IndexShape, StoreError,
};

fn node(guid: u64, vector: Vec<u8>, adj_list: Vec<u32>) -> GraphNode {
    GraphNode { guid: Some(guid), vector, adj_list }
}

fn fresh() -> rusqlite::Connection {
    let mut conn = rusqlite::Connection::open_in_memory().unwrap();
    create_table(&mut conn).unwrap();
    conn
}

fn shape() -> IndexShape {
    IndexShape { ndim: 2, degree: 3 }
}

#[test]
fn create_table_twice_is_schema_error() {
    let mut conn = rusqlite::Connection::open_in_memory().unwrap();
    assert!(create_table(&mut conn).is_ok());
    assert_eq!(create_table(&mut conn).unwrap_err(), StoreError::SchemaError);
}

#[test]
fn insert_without_schema_is_query_error() {
    let mut conn = rusqlite::Connection::open_in_memory().unwrap();
    let nodes = vec![node(1, vec![0, 0], vec![1, 1, 1])];
    assert_eq!(
        insert_graph_nodes(&mut conn, nodes, &shape()).unwrap_err(),
        StoreError::QueryError
    );
}

#[test]
fn insert_batch_and_fetch() {
    let mut conn = fresh();
    let nodes = vec![
        node(10, vec![1, 2], vec![2, 3, 2]),
        node(20, vec![3, 4], vec![1, 3, 1]),
        node(30, vec![5, 6], vec![1, 2, 1]),
    ];
    insert_graph_nodes(&mut conn, nodes, &shape()).unwrap();
    assert_eq!(get_num_rows(&conn).unwrap(), 3);

    let fetched = get_nodes_by_row_id(&conn, &vec![1, 2, 3]).unwrap();
    assert_eq!(fetched.len(), 3);
    assert_eq!(fetched[0].guid, Some(10));
    assert_eq!(fetched[0].vector, vec![1, 2]);
    assert_eq!(fetched[0].adj_list, vec![2, 3, 2]);
    assert_eq!(fetched[2].guid, Some(30));

    let subset = get_nodes_by_row_id(&conn, &vec![2]).unwrap();
    assert_eq!(subset.len(), 1);
    assert_eq!(subset[0].guid, Some(20));
}

#[test]
fn fetch_ignores_absent_ids() {
    let mut conn = fresh();
    let nodes = vec![node(10, vec![1, 2], vec![1, 1, 1])];
    insert_graph_nodes(&mut conn, nodes, &shape()).unwrap();
    let fetched = get_nodes_by_row_id(&conn, &vec![1, 7, 99]).unwrap();
    assert_eq!(fetched.len(), 1);
    assert_eq!(fetched[0].guid, Some(10));
}

#[test]
fn fetch_order_is_store_order_not_request_order() {
    let mut conn = fresh();
    let nodes = vec![
        node(10, vec![1, 2], vec![1, 1, 1]),
        node(20, vec![3, 4], vec![1, 1, 1]),
    ];
    insert_graph_nodes(&mut conn, nodes, &shape()).unwrap();
    let fetched = get_nodes_by_row_id(&conn, &vec![2, 1]).unwrap();
    assert_eq!(fetched[0].guid, Some(10));
    assert_eq!(fetched[1].guid, Some(20));
}

#[test]
fn empty_fetch_set_returns_empty_without_error() {
    let conn = fresh();
    let fetched = get_nodes_by_row_id(&conn, &Vec::new()).unwrap();
    assert!(fetched.is_empty());
}

#[test]
fn batch_atomicity_on_encoding_failure() {
    let mut conn = fresh();
    let nodes = vec![
        node(10, vec![1, 2], vec![1, 1, 1]),
        node(20, vec![3, 4, 5], vec![1, 1, 1]), // wrong vector length
        node(30, vec![5, 6], vec![1, 1, 1]),
    ];
    assert_eq!(
        insert_graph_nodes(&mut conn, nodes, &shape()).unwrap_err(),
        StoreError::EncodingError
    );
    assert_eq!(get_num_rows(&conn).unwrap(), 0);
}

#[test]
fn batch_rejects_wrong_degree() {
    let mut conn = fresh();
    let nodes = vec![node(10, vec![1, 2], vec![1, 1])]; // degree 2, not 3
    assert_eq!(
        insert_graph_nodes(&mut conn, nodes, &shape()).unwrap_err(),
        StoreError::EncodingError
    );
    assert_eq!(get_num_rows(&conn).unwrap(), 0);
}

#[test]
fn fixed_shape_after_inserts() {
    let mut conn = fresh();
    let nodes = vec![
        node(10, vec![1, 2], vec![1, 1, 1]),
        node(20, vec![3, 4], vec![1, 1, 1]),
    ];
    insert_graph_nodes(&mut conn, nodes, &shape()).unwrap();
    insert_graph_node_with_back_edges(&mut conn, node(30, vec![5, 6], vec![1, 2, 1]), &shape())
        .unwrap();
    let fetched = get_nodes_by_row_id(&conn, &vec![1, 2, 3]).unwrap();
    assert_eq!(fetched.len(), 3);
    for n in fetched {
        assert_eq!(n.vector.len(), shape().ndim);
        assert_eq!(n.adj_list.len(), shape().degree);
    }
}

#[test]
fn row_ids_are_strictly_increasing() {
    let mut conn = fresh();
    let nodes = vec![
        node(10, vec![1, 2], vec![1, 1, 1]),
        node(20, vec![3, 4], vec![1, 1, 1]),
        node(30, vec![5, 6], vec![1, 1, 1]),
    ];
    insert_graph_nodes(&mut conn, nodes, &shape()).unwrap();
    let id4 =
        insert_graph_node_with_back_edges(&mut conn, node(40, vec![7, 8], vec![1, 2, 3]), &shape())
            .unwrap();
    assert_eq!(id4, 4);
    // a failed insertion is rolled back and does not consume the id
    assert_eq!(
        insert_graph_node_with_back_edges(
            &mut conn,
            node(50, vec![9, 9], vec![99, 99, 99]),
            &shape()
        )
        .unwrap_err(),
        StoreError::BackEdgeUpdateFailed
    );
    let id5 =
        insert_graph_node_with_back_edges(&mut conn, node(50, vec![9, 9], vec![1, 2, 3]), &shape())
            .unwrap();
    assert!(id5 > id4);
    assert_eq!(id5, 5);
}
