//! The ghost model of the storage engine's state: what tables a
//! connection holds, which rows each table holds, and what the five
//! statement shapes the synthesizer emits do to them.

use vstd::prelude::*;

use crate::traits::Storable;
use crate::value::{cell_of, Cell, DbValue};

verus! {

/// One persisted row: the indexed-column cells, keyed by column name,
/// and the payload bytes.  A column in which the row holds NULL is
/// absent from the map, so an equality predicate never matches it.
#[verifier::ext_equal]
pub struct DbRow {
    pub cells: Map<Seq<char>, Cell>,
    pub payload: Seq<u8>,
}

/// One table: the column list it was created with (indexed columns in
/// declared order, then the payload column) and its rows, in rowid
/// order.
#[verifier::ext_equal]
pub struct DbTable {
    pub cols: Seq<Seq<char>>,
    pub rows: Seq<DbRow>,
}

/// The engine's state behind one connection: its tables, by name.
pub type Db = Map<Seq<char>, DbTable>;

/// Does a row satisfy every predicate?  Each predicate is an equality
/// between one column's cell and the bound value after the engine's
/// text conversion; the empty list matches every row.
pub open spec fn row_matches(r: DbRow, names: Seq<Seq<char>>, vals: Seq<DbValue>) -> bool {
    forall|i: int|
        0 <= i < names.len() ==> r.cells.contains_key(#[trigger] names[i]) && r.cells[names[i]]
            == cell_of(vals[i])
}

/// The cells of a row bound with the given columns and values.
pub open spec fn cells_of(cols: Seq<Seq<char>>, vals: Seq<DbValue>) -> Map<Seq<char>, Cell> {
    Map::new(|c: Seq<char>| cols.contains(c), |c: Seq<char>| cell_of(vals[cols.index_of(c)]))
}

/// The row appended by an insert with the given columns, index
/// values and payload.
pub open spec fn row_of(cols: Seq<Seq<char>>, vals: Seq<DbValue>, payload: Seq<u8>) -> DbRow {
    DbRow { cells: cells_of(cols, vals), payload }
}

/// The row the store persists for a record.
pub open spec fn spec_row_of<T: Storable>(m: T::V) -> DbRow {
    row_of(T::spec_columns(), T::spec_index_values(m), T::encoded(m))
}

/// The payloads of the rows a filtered select touches, in row order.
pub open spec fn matching_payloads(
    rows: Seq<DbRow>,
    names: Seq<Seq<char>>,
    vals: Seq<DbValue>,
) -> Seq<Seq<u8>> {
    rows.filter(|r: DbRow| row_matches(r, names, vals)).map_values(|r: DbRow| r.payload)
}

/// Effect of an update: every matching row is overwritten with the
/// same replacement row, in place; the others stay.
pub open spec fn update_effect(
    rows: Seq<DbRow>,
    names: Seq<Seq<char>>,
    vals: Seq<DbValue>,
    new_row: DbRow,
) -> Seq<DbRow> {
    rows.map_values(
        |r: DbRow|
            if row_matches(r, names, vals) {
                new_row
            } else {
                r
            },
    )
}

/// Effect of a delete: the matching rows leave, the others stay.
pub open spec fn delete_effect(rows: Seq<DbRow>, names: Seq<Seq<char>>, vals: Seq<DbValue>) -> Seq<
    DbRow,
> {
    rows.filter(|r: DbRow| !row_matches(r, names, vals))
}

/// The payload carried by a blob value.
pub open spec fn bytes_of(v: DbValue) -> Seq<u8> {
    match v {
        DbValue::Bytes(b) => b,
        DbValue::Int(_) => Seq::empty(),
        DbValue::Text(_) => Seq::empty(),
    }
}

} // verus!
