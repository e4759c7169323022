//! Persistence, maintenance and traversal layer for a fixed-degree graph of
//! quantized vectors, backed by an embedded transactional record store.

pub mod backend;
pub mod codec;
pub mod errors;
pub mod graph_node;
pub mod model;
pub mod sqltext;
pub mod table;

pub use codec::vec_u32_to_u8;
pub use codec::vec_u8_to_u32;
pub use errors::StoreError;
pub use graph_node::{GraphNode, IndexShape};
pub use sqltext::vec_u64_to_set_str;
pub use table::{
    create_table, get_nodes_by_row_id, get_num_rows, insert_graph_node_with_back_edges,
    insert_graph_nodes, traverse,
};
