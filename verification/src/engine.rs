//! The trusted boundary to the storage engine.  Everything the store
//! knows about the engine is stated here, over a ghost model of the
//! connection's tables (`db_of`), and believed rather than proved:
//! the contracts say what rusqlite's documented API and SQLite's
//! documented statement semantics give for the five statement shapes
//! the synthesizer emits, and nothing more.
//!
//! The model assumes the connection is used as the store uses it: its
//! tables are ordinary rowid tables of the shape `create_table`
//! makes.  A connection prepared out of band — a TEMP table shadowing
//! a target name, a view, a virtual table, or a table whose columns
//! carry non-TEXT affinity — is outside the model, and the contracts
//! say nothing about statements that touch such objects.

use vstd::prelude::*;

use crate::model::{
    bytes_of, delete_effect, matching_payloads, row_of, update_effect, Db, DbTable,
};
use crate::sql::{
    names_of, payload_col, spec_sql_create, spec_sql_delete, spec_sql_insert, spec_sql_select,
    spec_sql_update, wf_columns, wf_names,
};
use crate::value::{is_sql_ident, DbValue, Value};

verus! {

#[verifier::external_type_specification]
#[verifier::external_body]
pub struct ExConnection(rusqlite::Connection);

#[verifier::external_type_specification]
#[verifier::external_body]
pub struct ExRusqliteError(rusqlite::Error);

/// The tables held by a connection, by name: each with the column
/// list it was created with and its rows in rowid order.  This is the
/// one name through which every engine contract speaks.  Keys are
/// exact character sequences; that is faithful only because every
/// contract admits solely lowercase identifiers (`is_sql_ident`), on
/// which the engine's ASCII-case-insensitive identifier resolution
/// coincides with exact equality.
pub uninterp spec fn db_of(c: rusqlite::Connection) -> Db;

/// Which of the four mutating statement shapes `run_stmt` executes.
pub enum StmtKind {
    Create,
    Insert,
    Update,
    Delete,
}

/// The statement text belonging to a statement description.
pub open spec fn stmt_sql(
    kind: StmtKind,
    table: Seq<char>,
    cols: Seq<Seq<char>>,
    wheres: Seq<Seq<char>>,
) -> Seq<char> {
    match kind {
        StmtKind::Create => spec_sql_create(table, cols),
        StmtKind::Insert => spec_sql_insert(table, cols),
        StmtKind::Update => spec_sql_update(table, cols, wheres),
        StmtKind::Delete => spec_sql_delete(table, wheres),
    }
}

/// Shape of the bound values each statement kind expects: index
/// values in declared column order, the payload blob after them
/// (insert and update), then the predicate values (update and
/// delete).
pub open spec fn stmt_wf(
    kind: StmtKind,
    table: Seq<char>,
    cols: Seq<Seq<char>>,
    wheres: Seq<Seq<char>>,
    vals: Seq<DbValue>,
) -> bool {
    &&& is_sql_ident(table)
    &&& wf_names(wheres)
    &&& match kind {
        StmtKind::Create => wf_columns(cols) && vals.len() == 0 && wheres.len() == 0,
        StmtKind::Insert => wf_columns(cols) && vals.len() == cols.len() + 1 && vals.last()
            is Bytes && wheres.len() == 0,
        StmtKind::Update => wf_columns(cols) && vals.len() == cols.len() + 1 + wheres.len()
            && vals[cols.len() as int] is Bytes,
        StmtKind::Delete => cols.len() == 0 && vals.len() == wheres.len(),
    }
}

/// What the engine itself requires for the statement to succeed:
/// create fails on an existing table, the others need the table.
pub open spec fn stmt_possible(db: Db, kind: StmtKind, table: Seq<char>) -> bool {
    match kind {
        StmtKind::Create => !db.contains_key(table),
        StmtKind::Insert => db.contains_key(table),
        StmtKind::Update => db.contains_key(table),
        StmtKind::Delete => db.contains_key(table),
    }
}

/// What a successful statement does to the connection's tables.
pub open spec fn stmt_effect(
    db: Db,
    kind: StmtKind,
    table: Seq<char>,
    cols: Seq<Seq<char>>,
    wheres: Seq<Seq<char>>,
    vals: Seq<DbValue>,
) -> Db {
    match kind {
        StmtKind::Create => db.insert(
            table,
            DbTable { cols: cols + seq![payload_col()], rows: Seq::empty() },
        ),
        StmtKind::Insert => db.insert(
            table,
            DbTable {
                cols: db[table].cols,
                rows: db[table].rows.push(
                    row_of(cols, vals.take(cols.len() as int), bytes_of(vals.last())),
                ),
            },
        ),
        StmtKind::Update => db.insert(
            table,
            DbTable {
                cols: db[table].cols,
                rows: update_effect(
                    db[table].rows,
                    wheres,
                    vals.skip(cols.len() + 1 as int),
                    row_of(cols, vals.take(cols.len() as int), bytes_of(vals[cols.len() as int])),
                ),
            },
        ),
        StmtKind::Delete => db.insert(
            table,
            DbTable { cols: db[table].cols, rows: delete_effect(db[table].rows, wheres, vals) },
        ),
    }
}

/// Relies on rusqlite's `Connection::execute` (one SQL statement,
/// positionally bound parameters, `Ok` exactly when the engine
/// executed it) together with SQLite's documented semantics of the
/// four statement shapes named by `kind`: CREATE TABLE adds an empty
/// table and fails if the name exists; INSERT appends one row whose
/// text-typed columns store the bound values after text conversion
/// and whose payload column stores the blob; UPDATE overwrites every
/// row matching the AND-joined equality predicates with the same
/// assignments; DELETE removes exactly the matching rows.  The
/// update statement's unnumbered WHERE placeholders take the indices
/// after the highest numbered one, so the bound values line up as
/// index values, payload, then predicates.  A failed statement leaves
/// the database unchanged (statement-level atomicity).  The engine
/// resolves table and column names ASCII-case-insensitively; the
/// `requires` admit only lowercase identifiers, on which that
/// resolution is exact equality, so the model's exact-sequence keys
/// are faithful.  They also exclude the implicit-rowid aliases
/// (`wf_name`), so every admitted column or predicate name refers to
/// a declared column, never to the engine's rowid.
#[verifier::external_body]
pub(crate) fn run_stmt(
    conn: &mut rusqlite::Connection,
    sql: &String,
    vals: Vec<Value>,
    kind: StmtKind,
    table: &str,
    cols: &Vec<String>,
    wheres: &Vec<String>,
) -> (r: Result<usize, rusqlite::Error>)
    requires
        stmt_wf(kind, table@, names_of(cols@), names_of(wheres@), vals@.map_values(|v: Value| v@)),
        sql@ == stmt_sql(kind, table@, names_of(cols@), names_of(wheres@)),
    ensures
        r is Ok ==> stmt_possible(db_of(*old(conn)), kind, table@) && db_of(*final(conn)) == stmt_effect(
            db_of(*old(conn)),
            kind,
            table@,
            names_of(cols@),
            names_of(wheres@),
            vals@.map_values(|v: Value| v@),
        ),
        r is Err ==> db_of(*final(conn)) == db_of(*old(conn)),
        (kind is Create && db_of(*old(conn)).contains_key(table@)) ==> r is Err,
{
    let ps = rusqlite::params_from_iter(vals.into_iter().map(|v| match v {
        Value::Integer(i) => rusqlite::types::Value::Integer(i),
        Value::Text(s) => rusqlite::types::Value::Text(s),
        Value::Blob(b) => rusqlite::types::Value::Blob(b),
    }));
    conn.execute(sql.as_str(), ps)
}

/// Relies on rusqlite's `Connection::prepare`, `Statement::query`,
/// `Rows::next` and `Row::get` (column 0 of each returned row, here
/// the blob the statement projects), together with SQLite's
/// documented SELECT semantics: the statement yields one row per
/// stored row matching the AND-joined equality predicates — all rows
/// when there is no WHERE clause — in an order the engine does not
/// specify, which is why only the multiset of payloads is stated.
/// The `requires` admit only lowercase identifiers and exclude the
/// implicit-rowid aliases, so every predicate names a declared
/// column.
#[verifier::external_body]
pub(crate) fn run_query(
    conn: &rusqlite::Connection,
    sql: &String,
    vals: Vec<Value>,
    table: &str,
    wheres: &Vec<String>,
) -> (r: Result<Vec<Vec<u8>>, rusqlite::Error>)
    requires
        is_sql_ident(table@),
        wf_names(names_of(wheres@)),
        vals@.len() == wheres@.len(),
        sql@ == spec_sql_select(table@, names_of(wheres@)),
    ensures
        r matches Ok(bs) ==> db_of(*conn).contains_key(table@) && bs@.map_values(
            |b: Vec<u8>| b@,
        ).to_multiset() == matching_payloads(
            db_of(*conn)[table@].rows,
            names_of(wheres@),
            vals@.map_values(|v: Value| v@),
        ).to_multiset(),
{
    let ps = rusqlite::params_from_iter(vals.into_iter().map(|v| match v {
        Value::Integer(i) => rusqlite::types::Value::Integer(i),
        Value::Text(s) => rusqlite::types::Value::Text(s),
        Value::Blob(b) => rusqlite::types::Value::Blob(b),
    }));
    let mut stmt = conn.prepare(sql.as_str())?;
    let mut rows = stmt.query(ps)?;
    let mut out: Vec<Vec<u8>> = Vec::new();
    while let Some(row) = rows.next()? {
        out.push(row.get(0)?);
    }
    Ok(out)
}

} // verus!
