//! The runtime facade: generic create / insert / select / update /
//! delete for records of one `Storable` type against a caller-named
//! table, implemented for the engine's connection handle.

use vstd::prelude::*;

use crate::engine::{db_of, run_query, run_stmt, StmtKind};
use crate::model::{
    bytes_of, delete_effect, matching_payloads, spec_row_of, update_effect, Db, DbTable,
};
use crate::sql::{names_of, payload_col};
use crate::traits::{
    index_names, index_values, lemma_pred_names_wf, pred_names, pred_values, Storable,
};
use crate::value::{is_sql_ident, DbValue, Value};

verus! {

/// Errors surfaced by the store.  "Zero rows matched" is never an
/// error: a select with no match succeeds with an empty sequence, a
/// delete with no match succeeds having removed nothing.
#[derive(Debug)]
pub enum StoreError {
    /// The create-table statement failed — in particular, when the
    /// table already exists; the engine's own error is carried.
    Schema(rusqlite::Error),
    /// A stored payload did not decode back into the record type.
    Decode,
    /// The engine reported failure; its error is passed through
    /// unmodified.
    Engine(rusqlite::Error),
}

/// The store facade.  Each operation executes exactly one statement
/// produced by the query synthesizer; its effect on the engine state
/// is stated over the ghost table model `Self::db()`.
pub trait Store<T: Storable>: Sized {
    /// The engine state behind this handle: tables by name.
    spec fn db(&self) -> Db;

    /// Create a new table for the record type under the given name.
    /// Fails if the table already exists; a failure changes nothing.
    fn create_table(&mut self, table_name: &str) -> (r: Result<(), StoreError>)
        requires
            is_sql_ident(table_name@),
        ensures
            match r {
                Ok(()) => !old(self).db().contains_key(table_name@) && final(self).db() == old(
                    self,
                ).db().insert(
                    table_name@,
                    DbTable {
                        cols: T::spec_columns() + seq![payload_col()],
                        rows: Seq::empty(),
                    },
                ),
                Err(e) => final(self).db() == old(self).db() && e is Schema,
            },
            old(self).db().contains_key(table_name@) ==> r is Err,
    ;

    /// Insert a record: appends one row holding the record's indexed
    /// values and its encoded payload.
    fn insert(&mut self, table_name: &str, t: &T) -> (r: Result<(), StoreError>)
        requires
            is_sql_ident(table_name@),
        ensures
            match r {
                Ok(()) => old(self).db().contains_key(table_name@) && T::wf(t@) && final(self).db() == old(self).db().insert(
                    table_name@,
                    DbTable {
                        cols: old(self).db()[table_name@].cols,
                        rows: old(self).db()[table_name@].rows.push(spec_row_of::<T>(t@)),
                    },
                ),
                Err(e) => final(self).db() == old(self).db() && e is Engine,
            },
    ;

    /// Select the records matching every given predicate (all records
    /// when none is given), in an order the engine does not specify.
    /// Zero matches is success with an empty sequence.
    fn select(&self, table_name: &str, indicies: &[T::Indicies]) -> (r: Result<
        Vec<T>,
        StoreError,
    >)
        requires
            is_sql_ident(table_name@),
        ensures
            match r {
                Ok(v) => self.db().contains_key(table_name@) && v@.map_values(
                    |rec: T| T::encoded(rec@),
                ).to_multiset() == matching_payloads(
                    self.db()[table_name@].rows,
                    index_names(indicies@),
                    index_values(indicies@),
                ).to_multiset() && (forall|i: int|
                    0 <= i < v@.len() ==> T::wf(#[trigger] v@[i]@)),
                Err(e) => e is Engine || (e is Decode && exists|p: Seq<u8>|
                    matching_payloads(
                        self.db()[table_name@].rows,
                        index_names(indicies@),
                        index_values(indicies@),
                    ).contains(p) && T::decoded(p) is None),
            },
    ;

    /// Replace every row matching the predicates with the same
    /// replacement record — a full-row overwrite of its indexed
    /// columns and payload.  With no predicates, every row.
    fn update(&mut self, table_name: &str, indicies: &[T::Indicies], t: &T) -> (r: Result<
        (),
        StoreError,
    >)
        requires
            is_sql_ident(table_name@),
        ensures
            match r {
                Ok(()) => old(self).db().contains_key(table_name@) && T::wf(t@) && final(self).db() == old(self).db().insert(
                    table_name@,
                    DbTable {
                        cols: old(self).db()[table_name@].cols,
                        rows: update_effect(
                            old(self).db()[table_name@].rows,
                            index_names(indicies@),
                            index_values(indicies@),
                            spec_row_of::<T>(t@),
                        ),
                    },
                ),
                Err(e) => final(self).db() == old(self).db() && e is Engine,
            },
    ;

    /// Delete every row matching the predicates; with none, every
    /// row.  Zero matches is success, not an error.
    fn delete(&mut self, table_name: &str, indicies: &[T::Indicies]) -> (r: Result<
        (),
        StoreError,
    >)
        requires
            is_sql_ident(table_name@),
        ensures
            match r {
                Ok(()) => old(self).db().contains_key(table_name@) && final(self).db() == old(
                    self,
                ).db().insert(
                    table_name@,
                    DbTable {
                        cols: old(self).db()[table_name@].cols,
                        rows: delete_effect(
                            old(self).db()[table_name@].rows,
                            index_names(indicies@),
                            index_values(indicies@),
                        ),
                    },
                ),
                Err(e) => final(self).db() == old(self).db() && e is Engine,
            },
    ;
}

/// Decode every returned payload row back into a record; fails with
/// `Decode` exactly when some payload does not decode.
pub fn decode_payloads<T: Storable>(blobs: &Vec<Vec<u8>>) -> (r: Result<Vec<T>, StoreError>)
    ensures
        match r {
            Ok(v) => v@.len() == blobs@.len() && (forall|i: int|
                0 <= i < v@.len() ==> T::decoded(blobs@[i]@) == Some(#[trigger] v@[i]@)),
            Err(e) => e is Decode && exists|i: int|
                0 <= i < blobs@.len() && T::decoded(#[trigger] blobs@[i]@) is None,
        },
{
    let mut out: Vec<T> = Vec::new();
    let mut i: usize = 0;
    while i < blobs.len()
        invariant
            0 <= i <= blobs@.len(),
            out@.len() == i,
            forall|j: int| 0 <= j < i ==> T::decoded(blobs@[j]@) == Some(#[trigger] out@[j]@),
        decreases blobs@.len() - i,
    {
        match T::decode(&blobs[i]) {
            Some(rec) => {
                out.push(rec);
            },
            None => {
                return Err(StoreError::Decode);
            },
        }
        i = i + 1;
    }
    Ok(out)
}

/// Generic store implementation for all `Storable` types, directly on
/// the engine's connection handle.
impl<T: Storable> Store<T> for rusqlite::Connection {
    open spec fn db(&self) -> Db {
        db_of(*self)
    }

    fn create_table(&mut self, table_name: &str) -> (r: Result<(), StoreError>) {
        let sql = T::sql_create(table_name);
        let cols = T::columns();
        let wheres: Vec<String> = Vec::new();
        let vals: Vec<Value> = Vec::new();
        proof {
            T::schema_wf();
            assert(vals@.map_values(|v: Value| v@) =~= Seq::<DbValue>::empty());
            assert(names_of(wheres@) =~= Seq::<Seq<char>>::empty());
        }
        match run_stmt(self, &sql, vals, StmtKind::Create, table_name, &cols, &wheres) {
            Ok(_) => Ok(()),
            Err(e) => Err(StoreError::Schema(e)),
        }
    }

    fn insert(&mut self, table_name: &str, t: &T) -> (r: Result<(), StoreError>) {
        let sql = T::sql_insert(table_name);
        let cols = T::columns();
        let wheres: Vec<String> = Vec::new();
        let mut vals = t.params();
        let payload = t.encode();
        vals.push(Value::Blob(payload));
        let ghost vv = vals@.map_values(|v: Value| v@);
        proof {
            T::schema_wf();
            T::projection_wf(t@);
            assert(vv =~= T::spec_index_values(t@).push(DbValue::Bytes(T::encoded(t@))));
            assert(names_of(wheres@) =~= Seq::<Seq<char>>::empty());
            assert(vv.last() == DbValue::Bytes(T::encoded(t@)));
            assert(vv.take(T::spec_columns().len() as int) =~= T::spec_index_values(t@));
        }
        match run_stmt(self, &sql, vals, StmtKind::Insert, table_name, &cols, &wheres) {
            Ok(_) => {
                proof {
                    assert(bytes_of(vv.last()) == T::encoded(t@));
                }
                Ok(())
            },
            Err(e) => Err(StoreError::Engine(e)),
        }
    }

    fn select(&self, table_name: &str, indicies: &[T::Indicies]) -> (r: Result<
        Vec<T>,
        StoreError,
    >) {
        let sql = T::sql_select(table_name, indicies);
        let wheres = pred_names(indicies);
        let vals = pred_values(indicies);
        proof {
            lemma_pred_names_wf(indicies@);
            assert(vals@.map_values(|v: Value| v@).len() == vals@.len());
            assert(names_of(wheres@).len() == wheres@.len());
            assert(vals@.len() == wheres@.len());
        }
        match run_query(self, &sql, vals, table_name, &wheres) {
            Ok(blobs) => {
                let ghost bv = blobs@.map_values(|b: Vec<u8>| b@);
                match decode_payloads::<T>(&blobs) {
                    Ok(v) => {
                        proof {
                            assert forall|i: int| 0 <= i < v@.len() implies T::encoded(
                                #[trigger] v@[i]@,
                            ) == bv[i] && T::wf(v@[i]@) by {
                                T::decode_canonical(bv[i], v@[i]@);
                            }
                            assert(v@.map_values(|rec: T| T::encoded(rec@)) =~= bv);
                        }
                        Ok(v)
                    },
                    Err(e) => {
                        proof {
                            let i = choose|i: int|
                                0 <= i < blobs@.len() && T::decoded(#[trigger] blobs@[i]@) is None;
                            let ghost mp = matching_payloads(
                                db_of(*self)[table_name@].rows,
                                index_names(indicies@),
                                index_values(indicies@),
                            );
                            bv.to_multiset_ensures();
                            mp.to_multiset_ensures();
                            assert(bv[i] == bv.index(i));
                            assert(bv.contains(bv[i]));
                            assert(bv.to_multiset().count(bv[i]) > 0);
                            assert(mp.to_multiset().count(bv[i]) > 0);
                            assert(mp.contains(bv[i]));
                        }
                        Err(e)
                    },
                }
            },
            Err(e) => Err(StoreError::Engine(e)),
        }
    }

    fn update(&mut self, table_name: &str, indicies: &[T::Indicies], t: &T) -> (r: Result<
        (),
        StoreError,
    >) {
        let sql = T::sql_update(table_name, indicies);
        let cols = T::columns();
        let wheres = pred_names(indicies);
        let mut vals = t.params();
        let payload = t.encode();
        vals.push(Value::Blob(payload));
        let mut pv = pred_values(indicies);
        vals.append(&mut pv);
        let ghost vv = vals@.map_values(|v: Value| v@);
        let ghost n = T::spec_columns().len() as int;
        proof {
            T::schema_wf();
            T::projection_wf(t@);
            lemma_pred_names_wf(indicies@);
            assert(vv =~= T::spec_index_values(t@).push(DbValue::Bytes(T::encoded(t@)))
                + index_values(indicies@));
            assert(vv[n] == DbValue::Bytes(T::encoded(t@)));
            assert(vv.take(n) =~= T::spec_index_values(t@));
            assert(vv.skip(n + 1) =~= index_values(indicies@));
        }
        match run_stmt(self, &sql, vals, StmtKind::Update, table_name, &cols, &wheres) {
            Ok(_) => {
                proof {
                    assert(bytes_of(vv[n]) == T::encoded(t@));
                }
                Ok(())
            },
            Err(e) => Err(StoreError::Engine(e)),
        }
    }

    fn delete(&mut self, table_name: &str, indicies: &[T::Indicies]) -> (r: Result<
        (),
        StoreError,
    >) {
        let sql = T::sql_delete(table_name, indicies);
        let cols: Vec<String> = Vec::new();
        let wheres = pred_names(indicies);
        let vals = pred_values(indicies);
        proof {
            lemma_pred_names_wf(indicies@);
            assert(names_of(cols@) =~= Seq::<Seq<char>>::empty());
        }
        match run_stmt(self, &sql, vals, StmtKind::Delete, table_name, &cols, &wheres) {
            Ok(_) => Ok(()),
            Err(e) => Err(StoreError::Engine(e)),
        }
    }
}

} // verus!
