//! The node store: schema management, atomic batch insertion, membership
//! fetch by row id, row count, back-edge-aware single insertion, and the
//! bounded random-walk traversal engine.

use vstd::prelude::*;

use crate::backend::{
    begin_tx, commit_tx, exec_create_table, insert_row, pick_index, query_count, query_node,
    query_nodes_in, rollback_tx, store_in_tx, store_ready, store_rows, store_saved, table_exists,
    update_adj,
};
use crate::codec::{spec_decode, vec_u32_to_u8, vec_u8_to_u32};
use crate::errors::StoreError;
use crate::graph_node::{GraphNode, IndexShape};
use crate::model::{
    back_edge_applied, fetched_from, has_row, is_target, lemma_applied_rows_shaped,
    lemma_append_nodes_shaped, lemma_append_nodes_wf, lemma_next_id_exceeds_all, node_row,
    frontier_step, lemma_matching_in_rows, rows_shaped, spec_append_nodes, spec_matching,
    spec_next_id, spec_set_adj, spec_widen, store_wf, RawRow, RowModel,
};
use crate::sqltext::vec_u64_to_set_str;

verus! {

/// Initializes the persisted table. Fails with `SchemaError` if the schema
/// already exists (and with `QueryError` on an underlying store failure);
/// on success the store is empty and ready.
pub fn create_table(conn: &mut rusqlite::Connection) -> (r: Result<(), StoreError>)
    ensures
        r is Ok ==> !store_ready(*old(conn)) && store_ready(*final(conn)) && store_rows(
            *final(conn),
        ) == Seq::<RowModel>::empty() && store_in_tx(*final(conn)) == store_in_tx(*old(conn)),
        r == Err::<(), StoreError>(StoreError::SchemaError) ==> store_ready(*old(conn)),
        store_ready(*old(conn)) ==> r is Err,
        r is Err ==> *final(conn) == *old(conn),
{
    match table_exists(conn) {
        Err(_) => Err(StoreError::QueryError),
        Ok(true) => Err(StoreError::SchemaError),
        Ok(false) => match exec_create_table(conn) {
            Ok(()) => Ok(()),
            Err(_) => Err(StoreError::QueryError),
        },
    }
}

/// Inserts the whole batch inside one transaction: either every node
/// becomes durably visible, under consecutive fresh row ids, or none does.
/// A node that does not have the configured shape is rejected with
/// `EncodingError` (if and only if one is present); an underlying store
/// failure surfaces as `QueryError`. On any error the store is unchanged.
pub fn insert_graph_nodes(
    conn: &mut rusqlite::Connection,
    graph_nodes: Vec<GraphNode>,
    shape: &IndexShape,
) -> (r: Result<(), StoreError>)
    requires
        store_wf(store_rows(*old(conn))),
        !store_in_tx(*old(conn)),
        spec_next_id(store_rows(*old(conn))) + graph_nodes@.len() <= 0x7fff_ffff_ffff_ffff,
    ensures
        r is Ok ==> store_rows(*final(conn)) == spec_append_nodes(
            store_rows(*old(conn)),
            graph_nodes@,
        ),
        r is Ok ==> forall|i: int|
            0 <= i < graph_nodes@.len() ==> (#[trigger] graph_nodes@[i]).shaped(*shape),
        r == Err::<(), StoreError>(StoreError::EncodingError) <==> exists|i: int|
            0 <= i < graph_nodes@.len() && !(#[trigger] graph_nodes@[i]).shaped(*shape),
        r is Err ==> store_rows(*final(conn)) == store_rows(*old(conn)),
        r matches Err(e) ==> (e == StoreError::EncodingError || e == StoreError::QueryError),
        store_wf(store_rows(*final(conn))),
        !store_in_tx(*final(conn)),
        store_ready(*final(conn)) == store_ready(*old(conn)),
        rows_shaped(store_rows(*old(conn)), *shape) && r is Ok ==> rows_shaped(
            store_rows(*final(conn)),
            *shape,
        ),
{
    let n = graph_nodes.len();
    let mut k: usize = 0;
    while k < n
        invariant
            n == graph_nodes@.len(),
            k <= n,
            forall|i: int| 0 <= i < k ==> (#[trigger] graph_nodes@[i]).shaped(*shape),
            *conn == *old(conn),
            store_wf(store_rows(*conn)),
            !store_in_tx(*conn),
        decreases n - k,
    {
        let node = &graph_nodes[k];
        if node.vector.len() != shape.ndim || node.adj_list.len() != shape.degree {
            return Err(StoreError::EncodingError);
        }
        k = k + 1;
    }
    if let Err(_) = begin_tx(conn) {
        return Err(StoreError::QueryError);
    }
    let ghost rows0 = store_rows(*old(conn));
    let ghost next0 = spec_next_id(rows0);
    let mut k: usize = 0;
    while k < n
        invariant
            n == graph_nodes@.len(),
            k <= n,
            forall|i: int| 0 <= i < n ==> (#[trigger] graph_nodes@[i]).shaped(*shape),
            rows0 == store_rows(*old(conn)),
            next0 == spec_next_id(rows0),
            store_wf(rows0),
            next0 + n <= 0x7fff_ffff_ffff_ffff,
            store_in_tx(*conn),
            store_saved(*conn) == rows0,
            store_ready(*conn) == store_ready(*old(conn)),
            store_rows(*conn) == spec_append_nodes(rows0, graph_nodes@.take(k as int)),
        decreases n - k,
    {
        proof {
            lemma_append_nodes_wf(rows0, graph_nodes@.take(k as int));
        }
        let node = &graph_nodes[k];
        let encoded = vec_u32_to_u8(&node.adj_list);
        match insert_row(conn, node.guid, &node.vector, &encoded) {
            Ok(id) => {
                proof {
                    let tk = graph_nodes@.take(k as int);
                    let tk1 = graph_nodes@.take((k + 1) as int);
                    assert(id == next0 + k);
                    assert(tk1[k as int] == graph_nodes@[k as int]);
                    assert(spec_append_nodes(rows0, tk1) =~= spec_append_nodes(rows0, tk).push(
                        node_row(graph_nodes@[k as int], id),
                    ));
                }
            },
            Err(_) => {
                rollback_tx(conn);
                return Err(StoreError::QueryError);
            },
        }
        k = k + 1;
    }
    proof {
        assert(graph_nodes@.take(n as int) =~= graph_nodes@);
    }
    match commit_tx(conn) {
        Ok(()) => {
            proof {
                lemma_append_nodes_wf(rows0, graph_nodes@);
                if rows_shaped(rows0, *shape) {
                    lemma_append_nodes_shaped(rows0, graph_nodes@, *shape);
                }
            }
            Ok(())
        },
        Err(_) => Err(StoreError::QueryError),
    }
}

/// A verified byte-for-byte copy of a buffer.
fn copy_bytes(src: &Vec<u8>) -> (r: Vec<u8>)
    ensures
        r@ == src@,
{
    let mut out: Vec<u8> = Vec::new();
    let mut k: usize = 0;
    while k < src.len()
        invariant
            k <= src@.len(),
            out@ =~= src@.take(k as int),
        decreases src@.len() - k,
    {
        out.push(src[k]);
        assert(out@ =~= src@.take((k + 1) as int));
        k = k + 1;
    }
    proof {
        assert(src@.take(src@.len() as int) =~= src@);
    }
    out
}

/// Returns every persisted node whose row id is in `row_ids`, in the store's
/// natural (row id) order -- not in the order of `row_ids`. Absent ids are
/// simply omitted; callers needing exact-match semantics compare the
/// returned count against the requested one. An empty id set matches
/// nothing and succeeds without touching the store.
pub fn get_nodes_by_row_id(conn: &rusqlite::Connection, row_ids: &Vec<u64>) -> (r: Result<
    Vec<GraphNode>,
    StoreError,
>)
    requires
        store_wf(store_rows(*conn)),
    ensures
        row_ids@.len() == 0 ==> (r matches Ok(v) && v@.len() == 0),
        r matches Ok(v) ==> v@.len() == spec_matching(store_rows(*conn), row_ids@).len() && forall|
            i: int,
        |
            0 <= i < v@.len() ==> fetched_from(
                #[trigger] v@[i],
                spec_matching(store_rows(*conn), row_ids@)[i],
            ),
        r matches Err(e) ==> e == StoreError::QueryError || e == StoreError::EncodingError,
        r == Err::<Vec<GraphNode>, StoreError>(StoreError::EncodingError) ==> exists|i: int|
            0 <= i < spec_matching(store_rows(*conn), row_ids@).len() && (
            #[trigger] spec_matching(store_rows(*conn), row_ids@)[i]).adj.len() % 4 != 0,
{
    if row_ids.len() == 0 {
        proof {
            let pred = |m: RowModel| row_ids@.contains(m.row_id);
            if spec_matching(store_rows(*conn), row_ids@).len() > 0 {
                store_rows(*conn).lemma_filter_pred(pred, 0);
                assert(pred(spec_matching(store_rows(*conn), row_ids@)[0]));
            }
        }
        return Ok(Vec::new());
    }
    let set_expr = vec_u64_to_set_str(row_ids);
    let raws = match query_nodes_in(conn, row_ids, &set_expr) {
        Ok(v) => v,
        Err(_) => {
            return Err(StoreError::QueryError);
        },
    };
    let ghost matched = spec_matching(store_rows(*conn), row_ids@);
    proof {
        assert(raws@.map_values(|raw: RawRow| raw.model()) == matched);
    }
    let mut out: Vec<GraphNode> = Vec::new();
    let mut k: usize = 0;
    let n = raws.len();
    while k < n
        invariant
            n == raws@.len(),
            k <= n,
            matched == spec_matching(store_rows(*conn), row_ids@),
            raws@.map_values(|raw: RawRow| raw.model()) == matched,
            out@.len() == k,
            forall|i: int| 0 <= i < k ==> fetched_from(#[trigger] out@[i], matched[i]),
        decreases n - k,
    {
        let raw = &raws[k];
        proof {
            assert(matched[k as int] == raws@.map_values(|raw: RawRow| raw.model())[k as int]);
        }
        let adj_list = match vec_u8_to_u32(&raw.adj) {
            Ok(a) => a,
            Err(_) => {
                return Err(StoreError::EncodingError);
            },
        };
        let node = GraphNode { guid: raw.guid, vector: copy_bytes(&raw.vector), adj_list };
        out.push(node);
        k = k + 1;
    }
    Ok(out)
}

/// Whether `x` occurs in `v`.
fn contains_u64(v: &Vec<u64>, x: u64) -> (b: bool)
    ensures
        b == v@.contains(x),
{
    let mut k: usize = 0;
    while k < v.len()
        invariant
            k <= v@.len(),
            forall|i: int| 0 <= i < k ==> v@[i] != x,
        decreases v@.len() - k,
    {
        if v[k] == x {
            return true;
        }
        k = k + 1;
    }
    false
}

/// The distinct row ids named by an adjacency list, widened to 64 bits, in
/// order of first occurrence.
fn dedup_targets(adj_list: &Vec<u32>) -> (r: Vec<u64>)
    ensures
        forall|id: u64| r@.contains(id) <==> is_target(adj_list@, id),
        forall|a: int, b: int| 0 <= a < b < r@.len() ==> r@[a] != r@[b],
{
    let mut out: Vec<u64> = Vec::new();
    let mut k: usize = 0;
    while k < adj_list.len()
        invariant
            k <= adj_list@.len(),
            forall|id: u64| out@.contains(id) <==> is_target(adj_list@.take(k as int), id),
            forall|a: int, b: int| 0 <= a < b < out@.len() ==> out@[a] != out@[b],
        decreases adj_list@.len() - k,
    {
        let t = adj_list[k] as u64;
        let ghost pre = out@;
        if !contains_u64(&out, t) {
            out.push(t);
        }
        proof {
            let tk1 = adj_list@.take((k + 1) as int);
            assert(tk1[k as int] == adj_list@[k as int]);
            assert forall|id: u64| out@.contains(id) implies is_target(tk1, id) by {
                if pre.contains(id) {
                    assert(is_target(adj_list@.take(k as int), id));
                    let w = choose|w: int|
                        0 <= w < k && adj_list@.take(k as int)[w] as u64 == id;
                    assert(tk1[w] as u64 == id);
                } else {
                    assert(id == t);
                }
            }
            assert forall|id: u64| is_target(tk1, id) implies out@.contains(id) by {
                let w = choose|w: int| 0 <= w < tk1.len() && tk1[w] as u64 == id;
                if w < k {
                    assert(adj_list@.take(k as int)[w] as u64 == id);
                    assert(pre.contains(id));
                    let u = choose|u: int| 0 <= u < pre.len() && pre[u] == id;
                    assert(out@[u] == id);
                } else {
                    assert(id == t);
                    if pre.contains(t) {
                        let u = choose|u: int| 0 <= u < pre.len() && pre[u] == t;
                        assert(out@[u] == t);
                    } else {
                        assert(out@[out@.len() - 1] == t);
                    }
                }
            }
        }
        k = k + 1;
    }
    proof {
        assert(adj_list@.take(adj_list@.len() as int) =~= adj_list@);
    }
    out
}

/// Inserts `graph_node`, then for every distinct row id named by its
/// adjacency list overwrites one uniformly drawn slot of that neighbor's
/// adjacency list with the new node's row id. This is a deliberately lossy
/// connectivity-repair heuristic: it approximates mutual reachability in
/// O(degree) work per insertion, but the overwritten slot may have held any
/// existing edge, which is silently discarded. The insertion and all
/// neighbor mutations form one transaction: on any failure the store is
/// left exactly as it was. A mis-shaped node is rejected with
/// `EncodingError`; a neighbor with an empty adjacency list with
/// `EmptyAdjacencyError`; any failing maintenance step (including a missing
/// neighbor or an unrepresentable back-edge id) with `BackEdgeUpdateFailed`.
pub fn insert_graph_node_with_back_edges(
    conn: &mut rusqlite::Connection,
    graph_node: GraphNode,
    shape: &IndexShape,
) -> (r: Result<u64, StoreError>)
    requires
        store_wf(store_rows(*old(conn))),
        !store_in_tx(*old(conn)),
        spec_next_id(store_rows(*old(conn))) < 0x7fff_ffff_ffff_ffff,
    ensures
        r matches Ok(n) ==> ({
            let rows1 = store_rows(*old(conn));
            let mid = rows1.push(node_row(graph_node, n));
            let fin = store_rows(*final(conn));
            &&& n == spec_next_id(rows1)
            &&& n <= 0xffff_ffff
            &&& fin.len() == mid.len()
            &&& forall|i: int|
                0 <= i < mid.len() ==> if is_target(
                    graph_node.adj_list@,
                    (#[trigger] mid[i]).row_id,
                ) {
                    back_edge_applied(mid[i], fin[i], n as u32)
                } else {
                    fin[i] == mid[i]
                }
            &&& forall|k: int|
                0 <= k < graph_node.adj_list@.len() ==> has_row(
                    mid,
                    (#[trigger] graph_node.adj_list@[k]) as u64,
                )
            &&& graph_node.shaped(*shape)
        }),
        r is Err ==> store_rows(*final(conn)) == store_rows(*old(conn)),
        r == Err::<u64, StoreError>(StoreError::EncodingError) <==> !graph_node.shaped(*shape),
        r matches Err(e) ==> (e == StoreError::EncodingError || e == StoreError::QueryError || e
            == StoreError::EmptyAdjacencyError || e == StoreError::BackEdgeUpdateFailed),
        store_wf(store_rows(*final(conn))),
        !store_in_tx(*final(conn)),
        store_ready(*final(conn)) == store_ready(*old(conn)),
        r is Ok && rows_shaped(store_rows(*old(conn)), *shape) ==> rows_shaped(
            store_rows(*final(conn)),
            *shape,
        ),
{
    if graph_node.vector.len() != shape.ndim || graph_node.adj_list.len() != shape.degree {
        return Err(StoreError::EncodingError);
    }
    let targets = dedup_targets(&graph_node.adj_list);
    if let Err(_) = begin_tx(conn) {
        return Err(StoreError::QueryError);
    }
    let ghost rows1 = store_rows(*old(conn));
    let encoded = vec_u32_to_u8(&graph_node.adj_list);
    let n = match insert_row(conn, graph_node.guid, &graph_node.vector, &encoded) {
        Ok(id) => id,
        Err(_) => {
            rollback_tx(conn);
            return Err(StoreError::BackEdgeUpdateFailed);
        },
    };
    if n > 0xffff_ffff {
        rollback_tx(conn);
        return Err(StoreError::BackEdgeUpdateFailed);
    }
    let n32 = n as u32;
    let ghost mid = rows1.push(node_row(graph_node, n));
    proof {
        lemma_next_id_exceeds_all(rows1);
        assert forall|i: int, j: int| 0 <= i < j < mid.len() implies (#[trigger] mid[i]).row_id < (
        #[trigger] mid[j]).row_id by {
            if j == mid.len() - 1 {
                assert(mid[i] == rows1[i]);
            }
        }
        assert(store_wf(mid));
    }
    let mut kt: usize = 0;
    while kt < targets.len()
        invariant
            kt <= targets@.len(),
            graph_node.shaped(*shape),
            forall|id: u64| targets@.contains(id) <==> is_target(graph_node.adj_list@, id),
            forall|a: int, b: int| 0 <= a < b < targets@.len() ==> targets@[a] != targets@[b],
            rows1 == store_rows(*old(conn)),
            store_wf(rows1),
            n == spec_next_id(rows1),
            n <= 0xffff_ffff,
            n32 == n as u32,
            mid == rows1.push(node_row(graph_node, n)),
            store_wf(mid),
            store_in_tx(*conn),
            store_saved(*conn) == rows1,
            store_ready(*conn) == store_ready(*old(conn)),
            store_rows(*conn).len() == mid.len(),
            forall|i: int|
                0 <= i < mid.len() ==> (#[trigger] store_rows(*conn)[i]).row_id == mid[i].row_id,
            store_wf(store_rows(*conn)),
            forall|i: int|
                0 <= i < mid.len() ==> if targets@.take(kt as int).contains(
                    (#[trigger] mid[i]).row_id,
                ) {
                    back_edge_applied(mid[i], store_rows(*conn)[i], n32)
                } else {
                    store_rows(*conn)[i] == mid[i]
                },
            forall|k: int| 0 <= k < kt ==> has_row(mid, #[trigger] targets@[k]),
        decreases targets@.len() - kt,
    {
        let t = targets[kt];
        let raw = match query_node(&*conn, t) {
            Ok(Some(raw)) => raw,
            Ok(None) => {
                rollback_tx(conn);
                return Err(StoreError::BackEdgeUpdateFailed);
            },
            Err(_) => {
                rollback_tx(conn);
                return Err(StoreError::BackEdgeUpdateFailed);
            },
        };
        let ghost cur = store_rows(*conn);
        let ghost it = choose|i: int| 0 <= i < cur.len() && cur[i] == raw.model();
        proof {
            assert(cur.contains(raw.model()));
            assert(0 <= it < cur.len() && cur[it] == raw.model());
            assert(cur[it].row_id == t);
            assert(mid[it].row_id == t);
            assert(!targets@.take(kt as int).contains(t)) by {
                if targets@.take(kt as int).contains(t) {
                    let w = choose|w: int|
                        0 <= w < kt && targets@.take(kt as int)[w] == t;
                    assert(targets@[w] == targets@[kt as int]);
                }
            }
            assert(cur[it] == mid[it]);
        }
        let mut adj_t = match vec_u8_to_u32(&raw.adj) {
            Ok(a) => a,
            Err(_) => {
                rollback_tx(conn);
                return Err(StoreError::BackEdgeUpdateFailed);
            },
        };
        if adj_t.len() == 0 {
            rollback_tx(conn);
            return Err(StoreError::EmptyAdjacencyError);
        }
        let j = pick_index(adj_t.len());
        adj_t.set(j, n32);
        let new_bytes = vec_u32_to_u8(&adj_t);
        match update_adj(conn, t, &new_bytes) {
            Ok(()) => {
                proof {
                    let newrows = store_rows(*conn);
                    assert(newrows == spec_set_adj(cur, t, new_bytes@));
                    assert(newrows[it].adj == new_bytes@);
                    assert(adj_t@ == spec_decode(mid[it].adj).update(j as int, n32));
                    assert(back_edge_applied(mid[it], newrows[it], n32));
                    assert forall|i: int| 0 <= i < mid.len() && i != it implies newrows[i]
                        == cur[i] by {
                        assert(mid[i].row_id != t);
                        assert(cur[i].row_id != t);
                    }
                    let tk1 = targets@.take((kt + 1) as int);
                    assert(tk1 =~= targets@.take(kt as int).push(t));
                    assert forall|i: int| 0 <= i < mid.len() implies (if tk1.contains(
                        (#[trigger] mid[i]).row_id,
                    ) {
                        back_edge_applied(mid[i], newrows[i], n32)
                    } else {
                        newrows[i] == mid[i]
                    }) by {
                        if i == it {
                            assert(tk1[kt as int] == t);
                            assert(tk1.contains(mid[it].row_id));
                        } else {
                            assert(newrows[i] == cur[i]);
                            if tk1.contains(mid[i].row_id) {
                                let w = choose|w: int|
                                    0 <= w < tk1.len() && tk1[w] == mid[i].row_id;
                                if w < kt {
                                    assert(targets@.take(kt as int)[w] == mid[i].row_id);
                                    assert(targets@.take(kt as int).contains(mid[i].row_id));
                                } else {
                                    assert(mid[i].row_id == t);
                                }
                            } else {
                                assert(!targets@.take(kt as int).contains(mid[i].row_id)) by {
                                    if targets@.take(kt as int).contains(mid[i].row_id) {
                                        let w = choose|w: int|
                                            0 <= w < kt && targets@.take(kt as int)[w] == mid[
                                                i].row_id;
                                        assert(tk1[w] == mid[i].row_id);
                                    }
                                }
                            }
                        }
                    }
                    assert forall|k: int| 0 <= k < kt + 1 implies has_row(
                        mid,
                        #[trigger] targets@[k],
                    ) by {
                        if k == kt {
                            assert(mid[it].row_id == targets@[kt as int]);
                        }
                    }
                }
            },
            Err(_) => {
                rollback_tx(conn);
                return Err(StoreError::BackEdgeUpdateFailed);
            },
        }
        kt = kt + 1;
    }
    match commit_tx(conn) {
        Ok(()) => {
            proof {
                let fin = store_rows(*conn);
                assert(targets@.take(targets@.len() as int) =~= targets@);
                assert forall|i: int| 0 <= i < mid.len() implies (if is_target(
                    graph_node.adj_list@,
                    (#[trigger] mid[i]).row_id,
                ) {
                    back_edge_applied(mid[i], fin[i], n as u32)
                } else {
                    fin[i] == mid[i]
                }) by {
                    assert(targets@.contains(mid[i].row_id) <==> is_target(
                        graph_node.adj_list@,
                        mid[i].row_id,
                    ));
                }
                assert forall|k: int| 0 <= k < graph_node.adj_list@.len() implies has_row(
                    mid,
                    (#[trigger] graph_node.adj_list@[k]) as u64,
                ) by {
                    let id = graph_node.adj_list@[k] as u64;
                    assert(is_target(graph_node.adj_list@, id));
                    assert(targets@.contains(id));
                    let w = choose|w: int| 0 <= w < targets@.len() && targets@[w] == id;
                    assert(0 <= w < kt);
                    assert(has_row(mid, targets@[w]));
                }
                assert forall|i: int, j: int| 0 <= i < j < fin.len() implies (
                #[trigger] fin[i]).row_id < (#[trigger] fin[j]).row_id by {
                    assert(fin[i].row_id == mid[i].row_id);
                    assert(fin[j].row_id == mid[j].row_id);
                }
                if rows_shaped(rows1, *shape) {
                    assert forall|i: int| 0 <= i < mid.len() implies (
                    #[trigger] mid[i]).vector.len() == shape.ndim && mid[i].adj.len() == 4
                        * shape.degree by {
                        if i < rows1.len() {
                            assert(mid[i] == rows1[i]);
                        }
                    }
                    lemma_applied_rows_shaped(mid, fin, graph_node.adj_list@, n as u32, *shape);
                }
            }
            Ok(n)
        },
        Err(_) => Err(StoreError::BackEdgeUpdateFailed),
    }
}

/// Widens adjacency entries to row ids.
fn widen_adj(v: &Vec<u32>) -> (r: Vec<u64>)
    ensures
        r@ == spec_widen(v@),
{
    let mut out: Vec<u64> = Vec::new();
    let mut k: usize = 0;
    while k < v.len()
        invariant
            k <= v@.len(),
            out@ =~= spec_widen(v@.take(k as int)),
        decreases v@.len() - k,
    {
        out.push(v[k] as u64);
        assert(out@ =~= spec_widen(v@.take((k + 1) as int)));
        k = k + 1;
    }
    proof {
        assert(v@.take(v@.len() as int) =~= v@);
    }
    out
}

/// Runs a bounded random walk: fetches the start node, takes its adjacency
/// list as the initial frontier, and then `hops` times fetches all nodes the
/// frontier names in one batched lookup, draws one of them uniformly, and
/// replaces the frontier with the drawn node's adjacency list. Returns every
/// frontier visited (the initial one plus one per hop). A missing start node
/// fails with `NotFoundError`; a frontier with no candidate to draw from
/// fails fast with `EmptyFrontierError` at the hop where it is first seen.
pub fn traverse(conn: &rusqlite::Connection, start_row_id: u64, hops: u32) -> (r: Result<
    Vec<Vec<u64>>,
    StoreError,
>)
    requires
        store_wf(store_rows(*conn)),
    ensures
        r matches Ok(fs) ==> ({
            &&& fs@.len() == hops + 1
            &&& has_row(store_rows(*conn), start_row_id)
            &&& frontier_step(store_rows(*conn), seq![start_row_id], fs@[0]@)
            &&& forall|h: int|
                0 <= h < hops ==> frontier_step(
                    store_rows(*conn),
                    fs@[h]@,
                    #[trigger] fs@[h + 1]@,
                )
        }),
        r == Err::<Vec<Vec<u64>>, StoreError>(StoreError::NotFoundError) ==> !has_row(
            store_rows(*conn),
            start_row_id,
        ),
        r matches Err(e) ==> (e == StoreError::QueryError || e == StoreError::EncodingError || e
            == StoreError::NotFoundError || e == StoreError::EmptyFrontierError),
{
    let mut start_ids: Vec<u64> = Vec::new();
    start_ids.push(start_row_id);
    let start_nodes = match get_nodes_by_row_id(conn, &start_ids) {
        Ok(v) => v,
        Err(e) => {
            return Err(e);
        },
    };
    let ghost rows = store_rows(*conn);
    let ghost matched0 = spec_matching(rows, start_ids@);
    proof {
        lemma_matching_in_rows(rows, start_ids@);
        if start_nodes@.len() == 0 {
            if has_row(rows, start_row_id) {
                let i = choose|i: int| 0 <= i < rows.len() && rows[i].row_id == start_row_id;
                assert(start_ids@[0] == start_row_id);
                assert(start_ids@.contains(rows[i].row_id));
                rows.lemma_filter_contains(|m: RowModel| start_ids@.contains(m.row_id), i);
            }
        }
    }
    if start_nodes.len() == 0 {
        return Err(StoreError::NotFoundError);
    }
    let first = widen_adj(&start_nodes[0].adj_list);
    proof {
        let m0 = matched0[0];
        assert(rows.contains(m0));
        assert(start_ids@.contains(m0.row_id));
        assert(start_ids@[0] == start_row_id);
        assert(fetched_from(start_nodes@[0], m0));
        assert(seq![start_row_id].contains(m0.row_id)) by {
            assert(start_ids@.contains(m0.row_id));
            let w = choose|w: int| 0 <= w < start_ids@.len() && start_ids@[w] == m0.row_id;
            assert(seq![start_row_id][0] == start_row_id);
        }
        assert(frontier_step(rows, seq![start_row_id], first@));
        assert(has_row(rows, start_row_id)) by {
            let i = choose|i: int| 0 <= i < rows.len() && rows[i] == m0;
            assert(rows[i].row_id == start_row_id);
        }
    }
    let mut frontiers: Vec<Vec<u64>> = Vec::new();
    frontiers.push(first);
    let mut h: u32 = 0;
    while h < hops
        invariant
            store_wf(rows),
            rows == store_rows(*conn),
            h <= hops,
            frontiers@.len() == h + 1,
            has_row(rows, start_row_id),
            frontier_step(rows, seq![start_row_id], frontiers@[0]@),
            forall|g: int|
                0 <= g < h ==> frontier_step(rows, frontiers@[g]@, #[trigger] frontiers@[g + 1]@),
        decreases hops - h,
    {
        let cur = &frontiers[frontiers.len() - 1];
        let nodes = match get_nodes_by_row_id(conn, cur) {
            Ok(v) => v,
            Err(e) => {
                return Err(e);
            },
        };
        if nodes.len() == 0 {
            return Err(StoreError::EmptyFrontierError);
        }
        let pick = pick_index(nodes.len());
        let next = widen_adj(&nodes[pick].adj_list);
        proof {
            let matched = spec_matching(rows, cur@);
            lemma_matching_in_rows(rows, cur@);
            let m = matched[pick as int];
            assert(rows.contains(m));
            assert(cur@.contains(m.row_id));
            assert(fetched_from(nodes@[pick as int], m));
            assert(frontier_step(rows, frontiers@[h as int]@, next@));
        }
        frontiers.push(next);
        proof {
            assert forall|g: int| 0 <= g < h + 1 implies frontier_step(
                rows,
                frontiers@[g]@,
                #[trigger] frontiers@[g + 1]@,
            ) by {}
        }
        h = h + 1;
    }
    Ok(frontiers)
}

/// The number of persisted nodes.
pub fn get_num_rows(conn: &rusqlite::Connection) -> (r: Result<u64, StoreError>)
    ensures
        r matches Ok(n) ==> n == store_rows(*conn).len(),
        r is Err ==> r == Err::<u64, StoreError>(StoreError::QueryError),
{
    match query_count(conn) {
        Ok(n) => Ok(n),
        Err(_) => Err(StoreError::QueryError),
    }
}

} // verus!
