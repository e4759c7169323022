//! Error taxonomy of the storage, maintenance and traversal layer.

use vstd::prelude::*;

verus! {

/// Every store-touching operation reports one of these kinds; no failure is
/// silently swallowed.
#[derive(Debug, Clone, Copy, PartialEq, Eq, Structural)]
pub enum StoreError {
    /// The schema already exists where it was to be created, or is missing
    /// where it was expected.
    SchemaError,
    /// A byte buffer's length is not a multiple of the fixed element width,
    /// or a node's field does not have the configured shape.
    EncodingError,
    /// The underlying record store failed (I/O, constraint violation,
    /// transaction conflict).
    QueryError,
    /// A requested identifier was not found where one was required.
    NotFoundError,
    /// A traversal frontier held no candidate to sample from.
    EmptyFrontierError,
    /// A neighbor's adjacency list was empty when a back-edge slot was to be
    /// drawn from it.
    EmptyAdjacencyError,
    /// A step of the back-edge maintenance sequence failed; the whole
    /// insertion was rolled back.
    BackEdgeUpdateFailed,
}

impl StoreError {
    /// A short human-readable description of the error kind.
    pub fn describe(&self) -> &'static str {
        match self {
            StoreError::SchemaError => "schema already exists or is missing",
            StoreError::EncodingError => "byte buffer has an invalid length or shape",
            StoreError::QueryError => "underlying record store failure",
            StoreError::NotFoundError => "a requested identifier was not found",
            StoreError::EmptyFrontierError => "traversal frontier is empty",
            StoreError::EmptyAdjacencyError => "a neighbor's adjacency list is empty",
            StoreError::BackEdgeUpdateFailed => "back-edge maintenance failed; rolled back",
        }
    }
}

} // verus!
