use vstd::prelude::*;

use crate::sql::{
    names_of, spec_sql_create, spec_sql_delete, spec_sql_insert, spec_sql_select, spec_sql_update,
    wf_columns, wf_name,
};
use crate::value::{DbValue, Value};

verus! {

/// An index value: identifies exactly one indexed column of a record
/// type and carries a concrete value, used both as an equality
/// predicate and as a bind parameter.
pub trait IndexValue: Sized {
    /// The column this value belongs to.
    spec fn spec_name(&self) -> Seq<char>;

    /// The carried value.
    spec fn spec_value(&self) -> DbValue;

    /// Column names are valid statement identifiers and name neither
    /// the payload column nor the engine's implicit rowid.
    proof fn name_wf(&self)
        ensures
            wf_name(self.spec_name()),
    ;

    /// Fetch the column name for the index.
    fn name(&self) -> (r: &'static str)
        ensures
            r@ == self.spec_name(),
    ;

    /// Fetch the value for the associated index.
    fn value(&self) -> (r: Value)
        ensures
            r@ == self.spec_value(),
    ;
}

/// The column names named by a predicate list, in list order.
pub open spec fn index_names<I: IndexValue>(ps: Seq<I>) -> Seq<Seq<char>> {
    ps.map_values(|p: I| p.spec_name())
}

/// The values carried by a predicate list, in list order.
pub open spec fn index_values<I: IndexValue>(ps: Seq<I>) -> Seq<DbValue> {
    ps.map_values(|p: I| p.spec_value())
}

/// A record type that can be persisted: an ordered list of indexed
/// columns (a projection of its fields) plus a serialized payload
/// carrying the whole record.  The payload is the sole source of
/// truth; the indexed columns exist only for filtering.
///
/// Contracts are stated over the record's mathematical view
/// `Self::V`; two records are the same to the store exactly when
/// their views agree.
pub trait Storable: View + Sized {
    /// The per-type enumeration of index values.
    type Indicies: IndexValue;

    /// Ordered indexed column names of this record type.
    spec fn spec_columns() -> Seq<Seq<char>>;

    /// The record's indexed-field values, in declared column order.
    spec fn spec_index_values(m: Self::V) -> Seq<DbValue>;

    /// The record's full serialized byte form.
    spec fn encoded(m: Self::V) -> Seq<u8>;

    /// Which record, if any, a byte string deserializes to.
    spec fn decoded(b: Seq<u8>) -> Option<Self::V>;

    /// Machine-level representability of the record: its textual
    /// fields fit the codec's length prefixes.
    spec fn wf(m: Self::V) -> bool;

    /// The schema is well formed: at least one indexed column, all
    /// valid identifiers, pairwise distinct, none the payload column.
    proof fn schema_wf()
        ensures
            wf_columns(Self::spec_columns()),
            Self::spec_columns().len() < usize::MAX,
    ;

    /// The projection provides one value per indexed column.
    proof fn projection_wf(m: Self::V)
        ensures
            Self::spec_index_values(m).len() == Self::spec_columns().len(),
    ;

    /// Decoding an encoded record yields the record back: the codec
    /// loses nothing.
    proof fn codec_round_trip(m: Self::V)
        requires
            Self::wf(m),
        ensures
            Self::decoded(Self::encoded(m)) == Some(m),
    ;

    /// A byte string decodes only to the record it is the encoding
    /// of, and every decoded record is representable.
    proof fn decode_canonical(b: Seq<u8>, m: Self::V)
        requires
            Self::decoded(b) == Some(m),
        ensures
            Self::encoded(m) == b,
            Self::wf(m),
    ;

    /// The indexed column names, in declared order.
    fn columns() -> (r: Vec<String>)
        ensures
            names_of(r@) == Self::spec_columns(),
    ;

    /// Fetch the bind-parameter values for this record's indexed
    /// fields, in declared column order.
    fn params(&self) -> (r: Vec<Value>)
        ensures
            r@.map_values(|v: Value| v@) == Self::spec_index_values(self@),
    ;

    /// Serialize the whole record.
    fn encode(&self) -> (r: Vec<u8>)
        ensures
            r@ == Self::encoded(self@),
            Self::wf(self@),
    ;

    /// Deserialize a payload back into a record.
    fn decode(b: &Vec<u8>) -> (r: Option<Self>)
        ensures
            match r {
                Some(rec) => Self::decoded(b@) == Some(rec@),
                None => Self::decoded(b@) is None,
            },
    ;

    /// Generate the create-table statement.
    fn sql_create(table_name: &str) -> (r: String)
        ensures
            r@ == spec_sql_create(table_name@, Self::spec_columns()),
    ;

    /// Generate the insert statement.
    fn sql_insert(table_name: &str) -> (r: String)
        ensures
            r@ == spec_sql_insert(table_name@, Self::spec_columns()),
    ;

    /// Generate the select statement for the given predicates.
    fn sql_select(table_name: &str, indicies: &[Self::Indicies]) -> (r: String)
        ensures
            r@ == spec_sql_select(table_name@, index_names(indicies@)),
    ;

    /// Generate the update statement for the given predicates.
    fn sql_update(table_name: &str, indicies: &[Self::Indicies]) -> (r: String)
        ensures
            r@ == spec_sql_update(table_name@, Self::spec_columns(), index_names(indicies@)),
    ;

    /// Generate the delete statement for the given predicates.
    fn sql_delete(table_name: &str, indicies: &[Self::Indicies]) -> (r: String)
        ensures
            r@ == spec_sql_delete(table_name@, index_names(indicies@)),
    ;
}

/// Collect the owned column names of a predicate list.
pub fn pred_names<I: IndexValue>(ps: &[I]) -> (r: Vec<String>)
    ensures
        names_of(r@) == index_names(ps@),
{
    let mut out: Vec<String> = Vec::new();
    let mut i: usize = 0;
    while i < ps.len()
        invariant
            0 <= i <= ps@.len(),
            names_of(out@) == index_names(ps@.take(i as int)),
        decreases ps@.len() - i,
    {
        let n = ps[i].name();
        out.push(n.to_owned());
        proof {
            assert(names_of(out@) =~= index_names(ps@.take(i as int)).push(ps@[i as int].spec_name()));
            assert(ps@.take(i as int).push(ps@[i as int]) =~= ps@.take(i as int + 1));
            assert(index_names(ps@.take(i as int + 1)) =~= index_names(ps@.take(i as int)).push(
                ps@[i as int].spec_name(),
            ));
        }
        i = i + 1;
    }
    proof {
        assert(ps@.take(ps@.len() as int) =~= ps@);
    }
    out
}

/// Collect the bind-parameter values of a predicate list.
pub fn pred_values<I: IndexValue>(ps: &[I]) -> (r: Vec<Value>)
    ensures
        r@.map_values(|v: Value| v@) == index_values(ps@),
{
    let mut out: Vec<Value> = Vec::new();
    let mut i: usize = 0;
    while i < ps.len()
        invariant
            0 <= i <= ps@.len(),
            out@.map_values(|v: Value| v@) == index_values(ps@.take(i as int)),
        decreases ps@.len() - i,
    {
        let v = ps[i].value();
        out.push(v);
        proof {
            assert(out@.map_values(|v: Value| v@) =~= index_values(ps@.take(i as int)).push(
                ps@[i as int].spec_value(),
            ));
            assert(ps@.take(i as int).push(ps@[i as int]) =~= ps@.take(i as int + 1));
            assert(index_values(ps@.take(i as int + 1)) =~= index_values(ps@.take(i as int)).push(
                ps@[i as int].spec_value(),
            ));
        }
        i = i + 1;
    }
    proof {
        assert(ps@.take(ps@.len() as int) =~= ps@);
    }
    out
}

/// Every predicate column is a well-formed name.
pub proof fn lemma_pred_names_wf<I: IndexValue>(ps: Seq<I>)
    ensures
        crate::sql::wf_names(index_names(ps)),
{
    assert forall|i: int| 0 <= i < index_names(ps).len() implies wf_name(
        #[trigger] index_names(ps)[i],
    ) by {
        ps[i].name_wf();
    }
}

} // verus!
