//! The trusted boundary to the embedded record store and to the random
//! source. Everything else in the crate is verified against the contracts
//! stated here; each item's doc comment names the outside function it relies
//! on.
//!
//! The store is modelled by four uninterpreted observations of a connection:
//! the rows it currently sees (in row id order), the committed rows it would
//! fall back to on a rollback, whether an explicit transaction is open, and
//! whether the table exists. Mutating wrappers take `&mut` and say how each
//! observation moves; reading wrappers take `&` and leave them all in place.

use vstd::prelude::*;

use rusqlite::OptionalExtension;
use rand::Rng;

use crate::model::{RawRow, RowModel, spec_next_id, spec_set_adj, store_wf};
use crate::sqltext::spec_set_str;

verus! {

#[verifier::external_type_specification]
#[verifier::external_body]
pub struct ExConnection(rusqlite::Connection);

#[verifier::external_type_specification]
#[verifier::external_body]
pub struct ExSqlError(rusqlite::Error);

/// The rows the connection currently sees, in row id order. Inside an open
/// transaction this includes the connection's own uncommitted writes.
pub uninterp spec fn store_rows(c: rusqlite::Connection) -> Seq<RowModel>;

/// The committed rows: what the store holds again after a rollback.
pub uninterp spec fn store_saved(c: rusqlite::Connection) -> Seq<RowModel>;

/// Whether an explicit transaction is open on the connection.
pub uninterp spec fn store_in_tx(c: rusqlite::Connection) -> bool;

/// Whether the table has been created on this connection's database.
pub uninterp spec fn store_ready(c: rusqlite::Connection) -> bool;

/// Relies on rusqlite's `Connection::query_row` over `sqlite_master`, the
/// catalog where SQLite lists every table by name.
#[verifier::external_body]
pub(crate) fn table_exists(conn: &rusqlite::Connection) -> (r: Result<bool, rusqlite::Error>)
    ensures
        r matches Ok(b) ==> b == store_ready(*conn),
{
    conn.query_row(
        "SELECT EXISTS(SELECT 1 FROM sqlite_master WHERE type = 'table' AND name = 'IndexTable')",
        [],
        |row| row.get(0),
    )
}

/// Relies on rusqlite's `Connection::execute` running `CREATE TABLE`, which
/// fails if the table already exists and otherwise creates it empty.
#[verifier::external_body]
pub(crate) fn exec_create_table(conn: &mut rusqlite::Connection) -> (r: Result<
    (),
    rusqlite::Error,
>)
    ensures
        r is Ok ==> !store_ready(*old(conn)) && store_ready(*final(conn)) && store_rows(
            *final(conn),
        ) == Seq::<RowModel>::empty() && store_in_tx(*final(conn)) == store_in_tx(*old(conn))
            && store_saved(*final(conn)) == store_saved(*old(conn)),
        r is Err ==> *final(conn) == *old(conn),
{
    conn.execute(
        "CREATE TABLE IndexTable (vertex_id INTEGER PRIMARY KEY, guid INTEGER, vector BLOB, adj_list BLOB)",
        [],
    ).map(|_| ())
}

/// Relies on rusqlite's `Connection::execute_batch` running `BEGIN`: it opens
/// an explicit transaction and changes no data; on failure nothing changes.
#[verifier::external_body]
pub(crate) fn begin_tx(conn: &mut rusqlite::Connection) -> (r: Result<(), rusqlite::Error>)
    requires
        !store_in_tx(*old(conn)),
    ensures
        r is Ok ==> store_in_tx(*final(conn)) && store_rows(*final(conn)) == store_rows(
            *old(conn),
        ) && store_saved(*final(conn)) == store_rows(*old(conn)) && store_ready(*final(conn))
            == store_ready(*old(conn)),
        r is Err ==> *final(conn) == *old(conn),
{
    conn.execute_batch("BEGIN")
}

/// Relies on rusqlite's `Connection::execute_batch` running `COMMIT`. On
/// success the seen rows become the committed rows. If `COMMIT` fails the
/// body issues a `ROLLBACK`, so either way the transaction is closed; on the
/// failing path the store holds the previously committed rows again.
#[verifier::external_body]
pub(crate) fn commit_tx(conn: &mut rusqlite::Connection) -> (r: Result<(), rusqlite::Error>)
    requires
        store_in_tx(*old(conn)),
    ensures
        r is Ok ==> !store_in_tx(*final(conn)) && store_rows(*final(conn)) == store_rows(
            *old(conn),
        ) && store_saved(*final(conn)) == store_rows(*old(conn)) && store_ready(*final(conn))
            == store_ready(*old(conn)),
        r is Err ==> !store_in_tx(*final(conn)) && store_rows(*final(conn)) == store_saved(
            *old(conn),
        ) && store_saved(*final(conn)) == store_saved(*old(conn)) && store_ready(*final(conn))
            == store_ready(*old(conn)),
{
    match conn.execute_batch("COMMIT") {
        Ok(()) => Ok(()),
        Err(e) => {
            let _ = conn.execute_batch("ROLLBACK");
            Err(e)
        },
    }
}

/// Relies on rusqlite's `Connection::execute_batch` running `ROLLBACK`: it
/// closes the open transaction and restores the committed rows.
#[verifier::external_body]
pub(crate) fn rollback_tx(conn: &mut rusqlite::Connection)
    requires
        store_in_tx(*old(conn)),
    ensures
        !store_in_tx(*final(conn)),
        store_rows(*final(conn)) == store_saved(*old(conn)),
        store_saved(*final(conn)) == store_saved(*old(conn)),
        store_ready(*final(conn)) == store_ready(*old(conn)),
{
    let _ = conn.execute_batch("ROLLBACK");
}

/// Relies on rusqlite's `Connection::query_row` running `INSERT ... RETURNING
/// vertex_id`. `vertex_id` aliases SQLite's rowid, which for a table that
/// never deletes is assigned as one more than the largest rowid in use (1 for
/// an empty table) as long as that stays below `i64::MAX` -- the `requires`
/// keeps it there. A failed statement changes nothing.
#[verifier::external_body]
pub(crate) fn insert_row(
    conn: &mut rusqlite::Connection,
    guid: Option<u64>,
    vector: &Vec<u8>,
    adj: &Vec<u8>,
) -> (r: Result<u64, rusqlite::Error>)
    requires
        store_wf(store_rows(*old(conn))),
        spec_next_id(store_rows(*old(conn))) < 0x7fff_ffff_ffff_ffff,
    ensures
        r matches Ok(id) ==> id == spec_next_id(store_rows(*old(conn))) && store_rows(
            *final(conn),
        ) == store_rows(*old(conn)).push(
            RowModel { row_id: id, guid, vector: vector@, adj: adj@ },
        ) && store_in_tx(*final(conn)) == store_in_tx(*old(conn)) && store_saved(*final(conn))
            == store_saved(*old(conn)) && store_ready(*final(conn)) == store_ready(*old(conn)),
        r is Err ==> *final(conn) == *old(conn),
{
    conn.query_row(
        "INSERT INTO IndexTable (guid, vector, adj_list) VALUES (?1, ?2, ?3) RETURNING vertex_id",
        (&guid, vector, adj),
        |row| row.get(0),
    )
}

/// Relies on rusqlite's `Connection::execute` running `UPDATE ... WHERE
/// vertex_id = ?`: it overwrites the adjacency bytes of the row with that id,
/// if present, and touches nothing else. A failed statement changes nothing.
#[verifier::external_body]
pub(crate) fn update_adj(conn: &mut rusqlite::Connection, row_id: u64, adj: &Vec<u8>) -> (r: Result<
    (),
    rusqlite::Error,
>)
    ensures
        r is Ok ==> store_rows(*final(conn)) == spec_set_adj(
            store_rows(*old(conn)),
            row_id,
            adj@,
        ) && store_in_tx(*final(conn)) == store_in_tx(*old(conn)) && store_saved(*final(conn))
            == store_saved(*old(conn)) && store_ready(*final(conn)) == store_ready(*old(conn)),
        r is Err ==> *final(conn) == *old(conn),
{
    conn.execute("UPDATE IndexTable SET adj_list = ?1 WHERE vertex_id = ?2", (adj, row_id)).map(
        |_| (),
    )
}

/// Relies on rusqlite's `Connection::query_row` running `SELECT COUNT(*)`.
#[verifier::external_body]
pub(crate) fn query_count(conn: &rusqlite::Connection) -> (r: Result<u64, rusqlite::Error>)
    ensures
        r matches Ok(n) ==> n == store_rows(*conn).len(),
{
    conn.query_row("SELECT COUNT(*) FROM IndexTable", [], |row| row.get(0))
}

/// Relies on rusqlite's `Connection::query_row` with `.optional()` running
/// `SELECT ... WHERE vertex_id = ?`: it returns the row with that id if one
/// exists (ids are unique, being the table's primary key), `None` otherwise.
#[verifier::external_body]
pub(crate) fn query_node(conn: &rusqlite::Connection, row_id: u64) -> (r: Result<
    Option<RawRow>,
    rusqlite::Error,
>)
    requires
        store_wf(store_rows(*conn)),
    ensures
        r matches Ok(opt) ==> match opt {
            Some(raw) => raw.model().row_id == row_id && store_rows(*conn).contains(raw.model()),
            None => forall|i: int|
                0 <= i < store_rows(*conn).len() ==> (#[trigger] store_rows(*conn)[i]).row_id
                    != row_id,
        },
{
    conn.query_row(
        "SELECT vertex_id, guid, vector, adj_list FROM IndexTable WHERE vertex_id = ?1",
        (row_id,),
        |row| {
            Ok(RawRow { row_id: row.get(0)?, guid: row.get(1)?, vector: row.get(2)?, adj: row.get(3)? })
        },
    ).optional()
}

/// Relies on rusqlite's `Statement::query_map` running `SELECT ... WHERE
/// vertex_id IN (...) ORDER BY vertex_id`, with the parenthesised id list
/// rendered by `vec_u64_to_set_str`: it returns exactly the rows whose id is
/// in the list, ascending -- which, in a well-formed store, is the store
/// order of the matching rows. Ids above `i64::MAX` match no row.
#[verifier::external_body]
pub(crate) fn query_nodes_in(
    conn: &rusqlite::Connection,
    ids: &Vec<u64>,
    set_expr: &String,
) -> (r: Result<Vec<RawRow>, rusqlite::Error>)
    requires
        ids@.len() > 0,
        set_expr@ == spec_set_str(ids@),
        store_wf(store_rows(*conn)),
    ensures
        r matches Ok(v) ==> v@.map_values(|raw: RawRow| raw.model()) == store_rows(*conn).filter(
            |m: RowModel| ids@.contains(m.row_id),
        ),
{
    let sql = format!(
        "SELECT vertex_id, guid, vector, adj_list FROM IndexTable WHERE vertex_id IN {} ORDER BY vertex_id",
        set_expr,
    );
    let mut stmt = conn.prepare(&sql)?;
    let iter = stmt.query_map([], |row| {
        Ok(RawRow { row_id: row.get(0)?, guid: row.get(1)?, vector: row.get(2)?, adj: row.get(3)? })
    })?;
    iter.collect()
}

/// Relies on rand's `Rng::gen_range` over a thread-local generator: it
/// returns an index below `n`, drawn uniformly. Nothing more is promised of
/// the draw; callers must hold for every admissible index.
#[verifier::external_body]
pub(crate) fn pick_index(n: usize) -> (r: usize)
    requires
        n > 0,
    ensures
        r < n,
{
    rand::thread_rng().gen_range(0..n)
}

/// Relies on `String::from_utf8`: a buffer of ASCII bytes is valid UTF-8 and
/// becomes the string holding exactly those characters.
#[verifier::external_body]
pub(crate) fn ascii_to_string(bytes: Vec<u8>) -> (r: String)
    requires
        forall|i: int| 0 <= i < bytes@.len() ==> bytes@[i] < 128,
    ensures
        r@ == bytes@.map_values(|b: u8| b as char),
{
    String::from_utf8(bytes).unwrap_or_default()
}

} // verus!
