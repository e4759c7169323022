//! The core entity: a graph node holding a quantized vector and a
//! fixed-degree adjacency list.

use vstd::prelude::*;

verus! {

/// A node of the persisted graph. `guid` is the caller-supplied logical
/// identifier (independent of the store-assigned row id and not enforced
/// unique); `vector` holds `ndim` quantized coordinates; `adj_list` names
/// `degree` out-neighbors by row id.
#[derive(Debug, PartialEq, Eq)]
pub struct GraphNode {
    pub guid: Option<u64>,
    pub vector: Vec<u8>,
    pub adj_list: Vec<u32>,
}

/// The shape configured for an index instance: every persisted node holds a
/// vector of `ndim` bytes and an adjacency list of exactly `degree` entries,
/// constant for the lifetime of the instance.
#[derive(Debug, Clone, Copy, PartialEq, Eq, Structural)]
pub struct IndexShape {
    pub ndim: usize,
    pub degree: usize,
}

impl GraphNode {
    /// Whether this node has the configured shape.
    pub open spec fn shaped(self, shape: IndexShape) -> bool {
        self.vector@.len() == shape.ndim && self.adj_list@.len() == shape.degree
    }
}

} // verus!
