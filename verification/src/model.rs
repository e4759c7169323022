//! Mathematical model of the persisted table: a sequence of rows in the
//! store's natural (row id) order, together with the invariants that every
//! store built by this library maintains.

use vstd::prelude::*;

use crate::codec::{spec_decode, spec_encode};
use crate::graph_node::{GraphNode, IndexShape};

verus! {

/// One persisted row: the store-assigned identifier, the caller-supplied
/// logical identifier, the vector bytes and the encoded adjacency bytes.
pub struct RowModel {
    pub row_id: u64,
    pub guid: Option<u64>,
    pub vector: Seq<u8>,
    pub adj: Seq<u8>,
}

/// An executable row as it comes back from the record store, before the
/// adjacency bytes are decoded.
pub struct RawRow {
    pub row_id: u64,
    pub guid: Option<u64>,
    pub vector: Vec<u8>,
    pub adj: Vec<u8>,
}

impl RawRow {
    /// The abstract row this raw row stands for.
    pub open spec fn model(self) -> RowModel {
        RowModel { row_id: self.row_id, guid: self.guid, vector: self.vector@, adj: self.adj@ }
    }
}

/// Row ids are strictly increasing along the store's natural order: each id
/// is assigned once, never reused, and rows keep assignment order.
pub open spec fn store_wf(rows: Seq<RowModel>) -> bool {
    forall|i: int, j: int| 0 <= i < j < rows.len() ==> rows[i].row_id < rows[j].row_id
}

/// The row id the store assigns to the next inserted row: one more than the
/// largest id in use, or 1 for an empty store.
pub open spec fn spec_next_id(rows: Seq<RowModel>) -> int {
    if rows.len() == 0 {
        1
    } else {
        rows.last().row_id + 1
    }
}

/// `rows` after overwriting the adjacency bytes of the row with id `id` (if
/// present) with `adj`; all other rows are untouched.
pub open spec fn spec_set_adj(rows: Seq<RowModel>, id: u64, adj: Seq<u8>) -> Seq<RowModel> {
    Seq::new(
        rows.len(),
        |i: int|
            if rows[i].row_id == id {
                RowModel { row_id: rows[i].row_id, guid: rows[i].guid, vector: rows[i].vector, adj }
            } else {
                rows[i]
            },
    )
}

/// The rows whose id is a member of `ids`, in store order.
pub open spec fn spec_matching(rows: Seq<RowModel>, ids: Seq<u64>) -> Seq<RowModel> {
    rows.filter(|m: RowModel| ids.contains(m.row_id))
}

/// Whether `node` is what fetching the persisted row `row` yields: the guid
/// and vector carry over and the adjacency bytes decode to the node's
/// adjacency list (so the row's adjacency had a whole number of entries).
pub open spec fn fetched_from(node: GraphNode, row: RowModel) -> bool {
    &&& node.guid == row.guid
    &&& node.vector@ == row.vector
    &&& row.adj.len() % 4 == 0
    &&& node.adj_list@ == spec_decode(row.adj)
}

/// The row that persisting `node` under row id `id` creates: the adjacency
/// list is packed into little-endian bytes, the other fields carry over.
pub open spec fn node_row(node: GraphNode, id: u64) -> RowModel {
    RowModel { row_id: id, guid: node.guid, vector: node.vector@, adj: spec_encode(node.adj_list@) }
}

/// `rows` extended by one row per node, in order, under the consecutive row
/// ids the store assigns: `spec_next_id(rows)`, then one more each.
pub open spec fn spec_append_nodes(rows: Seq<RowModel>, nodes: Seq<GraphNode>) -> Seq<RowModel> {
    rows + Seq::new(nodes.len(), |i: int| node_row(nodes[i], (spec_next_id(rows) + i) as u64))
}

/// Every persisted row has the configured shape: `ndim` vector bytes and
/// `degree` encoded adjacency entries (four bytes each).
pub open spec fn rows_shaped(rows: Seq<RowModel>, shape: IndexShape) -> bool {
    forall|i: int|
        0 <= i < rows.len() ==> (#[trigger] rows[i]).vector.len() == shape.ndim && rows[i].adj.len()
            == 4 * shape.degree
}

/// Adjacency entries widened to row ids.
pub open spec fn spec_widen(s: Seq<u32>) -> Seq<u64> {
    s.map_values(|x: u32| x as u64)
}

/// One hop of a random walk: some persisted row whose id is in the current
/// frontier `from` was drawn, and `to` is its decoded adjacency list.
pub open spec fn frontier_step(rows: Seq<RowModel>, from: Seq<u64>, to: Seq<u64>) -> bool {
    exists|m: RowModel|
        #[trigger] rows.contains(m) && from.contains(m.row_id) && m.adj.len() % 4 == 0 && to
            == spec_widen(spec_decode(m.adj))
}

/// Every row matched by an id set is one of the store's rows, and its id is
/// in the set.
pub proof fn lemma_matching_in_rows(rows: Seq<RowModel>, ids: Seq<u64>)
    ensures
        forall|i: int|
            0 <= i < spec_matching(rows, ids).len() ==> rows.contains(
                #[trigger] spec_matching(rows, ids)[i],
            ) && ids.contains(spec_matching(rows, ids)[i].row_id),
    decreases rows.len(),
{
    let pred = |m: RowModel| ids.contains(m.row_id);
    let f = rows.filter(pred);
    reveal(Seq::filter);
    if rows.len() > 0 {
        lemma_matching_in_rows(rows.drop_last(), ids);
        let g = rows.drop_last().filter(pred);
        assert forall|i: int| 0 <= i < f.len() implies rows.contains(#[trigger] f[i])
            && ids.contains(f[i].row_id) by {
            if pred(rows.last()) && i == f.len() - 1 {
                assert(f[i] == rows.last());
                assert(rows[rows.len() - 1] == rows.last());
            } else {
                assert(f[i] == g[i]);
                assert(rows.drop_last().contains(g[i]));
                let w = choose|w: int|
                    0 <= w < rows.drop_last().len() && rows.drop_last()[w] == g[i];
                assert(rows[w] == g[i]);
            }
        }
    }
}

/// Fixed shape: every node fetched out of a shaped store has the configured
/// shape -- `ndim` vector bytes and exactly `degree` adjacency entries.
pub proof fn lemma_fetched_nodes_shaped(
    rows: Seq<RowModel>,
    ids: Seq<u64>,
    nodes: Seq<GraphNode>,
    shape: IndexShape,
)
    requires
        rows_shaped(rows, shape),
        nodes.len() == spec_matching(rows, ids).len(),
        forall|i: int|
            0 <= i < nodes.len() ==> fetched_from(#[trigger] nodes[i], spec_matching(rows, ids)[i]),
    ensures
        forall|i: int| 0 <= i < nodes.len() ==> (#[trigger] nodes[i]).shaped(shape),
{
    lemma_matching_in_rows(rows, ids);
    assert forall|i: int| 0 <= i < nodes.len() implies (#[trigger] nodes[i]).shaped(shape) by {
        let m = spec_matching(rows, ids)[i];
        assert(rows.contains(m));
        let w = choose|w: int| 0 <= w < rows.len() && rows[w] == m;
        assert(rows[w].vector.len() == shape.ndim && rows[w].adj.len() == 4 * shape.degree);
        assert(m.adj.len() == 4 * (m.adj.len() / 4) + m.adj.len() % 4);
        assert(nodes[i].adj_list@.len() == spec_decode(m.adj).len());
    }
}

/// In a well-formed store the last row carries the largest id, so every id
/// in use is below the next one to be assigned.
pub proof fn lemma_next_id_exceeds_all(rows: Seq<RowModel>)
    requires
        store_wf(rows),
    ensures
        forall|i: int| 0 <= i < rows.len() ==> (#[trigger] rows[i]).row_id < spec_next_id(rows),
{
    assert forall|i: int| 0 <= i < rows.len() implies (#[trigger] rows[i]).row_id < spec_next_id(
        rows,
    ) by {
        if i < rows.len() - 1 {
            assert(rows[i].row_id < rows[rows.len() - 1].row_id);
        }
    }
}

/// Whether some row in `rows` carries the id `id`.
pub open spec fn has_row(rows: Seq<RowModel>, id: u64) -> bool {
    exists|i: int| 0 <= i < rows.len() && (#[trigger] rows[i]).row_id == id
}

/// Whether the adjacency list `adj` names the row id `id` (adjacency entries
/// are 32-bit, so only ids that fit are ever named).
pub open spec fn is_target(adj: Seq<u32>, id: u64) -> bool {
    exists|k: int| 0 <= k < adj.len() && adj[k] as u64 == id
}

/// Whether `after` is `before` with exactly one adjacency slot overwritten
/// by the back-edge id `n32`: some slot `j` was drawn, whatever id occupied
/// it was discarded, and every other field and slot is untouched.
pub open spec fn back_edge_applied(before: RowModel, after: RowModel, n32: u32) -> bool {
    &&& after.row_id == before.row_id
    &&& after.guid == before.guid
    &&& after.vector == before.vector
    &&& before.adj.len() % 4 == 0
    &&& spec_decode(before.adj).len() > 0
    &&& exists|j: int|
        0 <= j < spec_decode(before.adj).len() && after.adj == spec_encode(
            spec_decode(before.adj).update(j, n32),
        )
}

/// Overwriting one adjacency slot never changes a row's shape: the adjacency
/// keeps the same number of entries, so a shaped store stays shaped.
pub proof fn lemma_applied_rows_shaped(
    mid: Seq<RowModel>,
    fin: Seq<RowModel>,
    adj: Seq<u32>,
    n32: u32,
    shape: IndexShape,
)
    requires
        mid.len() == fin.len(),
        rows_shaped(mid, shape),
        forall|i: int|
            0 <= i < mid.len() ==> if is_target(adj, (#[trigger] mid[i]).row_id) {
                back_edge_applied(mid[i], fin[i], n32)
            } else {
                fin[i] == mid[i]
            },
    ensures
        rows_shaped(fin, shape),
{
    assert forall|i: int| 0 <= i < fin.len() implies (#[trigger] fin[i]).vector.len() == shape.ndim
        && fin[i].adj.len() == 4 * shape.degree by {
        if is_target(adj, mid[i].row_id) {
            assert(back_edge_applied(mid[i], fin[i], n32));
            let j = choose|j: int|
                0 <= j < spec_decode(mid[i].adj).len() && fin[i].adj == spec_encode(
                    spec_decode(mid[i].adj).update(j, n32),
                );
            assert(fin[i].adj.len() == 4 * spec_decode(mid[i].adj).len());
            assert(mid[i].adj.len() == 4 * (mid[i].adj.len() / 4) + mid[i].adj.len() % 4);
        }
    }
}

/// Appending a batch under consecutive fresh ids keeps the store well
/// formed: row ids stay strictly increasing, every id assigned to the batch
/// lies above every id already in use, and the next id moves past the batch.
pub proof fn lemma_append_nodes_wf(rows: Seq<RowModel>, nodes: Seq<GraphNode>)
    requires
        store_wf(rows),
        spec_next_id(rows) + nodes.len() <= 0x7fff_ffff_ffff_ffff,
    ensures
        store_wf(spec_append_nodes(rows, nodes)),
        spec_append_nodes(rows, nodes).len() == rows.len() + nodes.len(),
        spec_next_id(spec_append_nodes(rows, nodes)) == spec_next_id(rows) + nodes.len(),
        forall|i: int, j: int|
            0 <= i < rows.len() && rows.len() <= j < rows.len() + nodes.len()
                ==> (#[trigger] spec_append_nodes(rows, nodes)[i]).row_id < (
            #[trigger] spec_append_nodes(rows, nodes)[j]).row_id,
{
    let app = spec_append_nodes(rows, nodes);
    let next0 = spec_next_id(rows);
    lemma_next_id_exceeds_all(rows);
    assert forall|i: int, j: int| 0 <= i < j < app.len() implies (#[trigger] app[i]).row_id < (
    #[trigger] app[j]).row_id by {
        if j >= rows.len() {
            assert(app[j].row_id == next0 + (j - rows.len()));
            if i >= rows.len() {
                assert(app[i].row_id == next0 + (i - rows.len()));
            } else {
                assert(app[i] == rows[i]);
                assert(rows[i].row_id < next0);
            }
        }
    }
    if nodes.len() > 0 {
        assert(app.last().row_id == next0 + (nodes.len() - 1));
    }
}

/// Appending shaped nodes to a shaped store keeps every row shaped; each new
/// row's adjacency bytes are the four-byte encoding of `degree` entries.
pub proof fn lemma_append_nodes_shaped(
    rows: Seq<RowModel>,
    nodes: Seq<GraphNode>,
    shape: IndexShape,
)
    requires
        rows_shaped(rows, shape),
        forall|i: int| 0 <= i < nodes.len() ==> (#[trigger] nodes[i]).shaped(shape),
    ensures
        rows_shaped(spec_append_nodes(rows, nodes), shape),
{
    let app = spec_append_nodes(rows, nodes);
    assert forall|i: int| 0 <= i < app.len() implies (#[trigger] app[i]).vector.len() == shape.ndim
        && app[i].adj.len() == 4 * shape.degree by {
        if i >= rows.len() {
            assert(app[i] == node_row(nodes[i - rows.len()], (spec_next_id(rows) + (i
                - rows.len())) as u64));
            assert(nodes[i - rows.len()].shaped(shape));
        } else {
            assert(app[i] == rows[i]);
        }
    }
}

} // verus!
