//! Sample record types registered with the store.  Each record type
//! declares its indexed columns, its per-column index-value
//! enumeration, and its lowering to and from the codec's value
//! sequences — the specialization that a registration step supplies
//! once per type.

use vstd::prelude::*;

use crate::codec::{
    dec_values, decode_values, enc_values, encode_values, lemma_values_canonical,
    lemma_values_round, wf_values,
};
use crate::sql::{
    names_of, payload_col, sql_create_stmt, sql_delete_stmt, sql_insert_stmt, sql_select_stmt,
    sql_update_stmt, wf_columns, wf_name,
};
use crate::traits::{pred_names, IndexValue, Storable};
use crate::value::{is_sql_ident, DbValue, Value};

verus! {

/// The two column names the sample record types declare are valid
/// identifiers and name neither the payload column nor one of the
/// engine's implicit-rowid aliases.
proof fn lemma_base_names_wf()
    ensures
        wf_name("id"@),
        wf_name("name"@),
        "id"@ != "name"@,
{
    reveal_strlit("id");
    reveal_strlit("name");
    reveal_strlit("__object");
    reveal_strlit("rowid");
    reveal_strlit("oid");
    reveal_strlit("_rowid_");
    assert(is_sql_ident("id"@));
    assert(is_sql_ident("name"@));
    assert("id"@.len() != payload_col().len());
    assert("name"@.len() != payload_col().len());
    assert("id"@.len() != "rowid"@.len() && "id"@.len() != "oid"@.len() && "id"@.len()
        != "_rowid_"@.len());
    assert("name"@.len() != "rowid"@.len() && "name"@.len() != "oid"@.len() && "name"@.len()
        != "_rowid_"@.len());
    assert("id"@.len() != "name"@.len());
}

// ------------------------------------------------------------------
// Example: two indexed fields (id, name) and one plain field.
// ------------------------------------------------------------------

/// A record with indexed `id` and `name` columns and an unindexed
/// description.
#[derive(Clone, Debug, PartialEq)]
pub struct Example {
    pub id: i64,
    pub name: String,
    pub description: String,
}

/// The mathematical content of an `Example`.
#[verifier::ext_equal]
pub struct ExampleModel {
    pub id: int,
    pub name: Seq<char>,
    pub description: Seq<char>,
}

impl View for Example {
    type V = ExampleModel;

    open spec fn view(&self) -> ExampleModel {
        ExampleModel { id: self.id as int, name: self.name@, description: self.description@ }
    }
}

/// All fields of an `Example`, in declaration order, as codec values.
pub open spec fn example_fields(m: ExampleModel) -> Seq<DbValue> {
    seq![DbValue::Int(m.id), DbValue::Text(m.name), DbValue::Text(m.description)]
}

/// The records whose field lowering is the given value sequence.
pub open spec fn example_of_fields(vs: Seq<DbValue>) -> Option<ExampleModel> {
    if vs.len() == 3 {
        match (vs[0], vs[1], vs[2]) {
            (DbValue::Int(i), DbValue::Text(n), DbValue::Text(d)) => {
                if i64::MIN <= i <= i64::MAX {
                    Some(ExampleModel { id: i, name: n, description: d })
                } else {
                    None
                }
            },
            _ => None,
        }
    } else {
        None
    }
}

/// Indicies available for querying `Example` objects.
#[derive(Clone, Debug, PartialEq)]
pub enum ExampleIndicies {
    Id(i64),
    Name(String),
}

impl IndexValue for ExampleIndicies {
    open spec fn spec_name(&self) -> Seq<char> {
        match self {
            ExampleIndicies::Id(_) => "id"@,
            ExampleIndicies::Name(_) => "name"@,
        }
    }

    open spec fn spec_value(&self) -> DbValue {
        match self {
            ExampleIndicies::Id(v) => DbValue::Int(*v as int),
            ExampleIndicies::Name(s) => DbValue::Text(s@),
        }
    }

    proof fn name_wf(&self) {
        lemma_base_names_wf();
    }

    fn name(&self) -> (r: &'static str) {
        match self {
            ExampleIndicies::Id(_) => "id",
            ExampleIndicies::Name(_) => "name",
        }
    }

    fn value(&self) -> (r: Value) {
        match self {
            ExampleIndicies::Id(v) => Value::Integer(*v),
            ExampleIndicies::Name(s) => Value::Text(s.clone()),
        }
    }
}

impl Storable for Example {
    type Indicies = ExampleIndicies;

    open spec fn spec_columns() -> Seq<Seq<char>> {
        seq!["id"@, "name"@]
    }

    open spec fn spec_index_values(m: ExampleModel) -> Seq<DbValue> {
        seq![DbValue::Int(m.id), DbValue::Text(m.name)]
    }

    open spec fn encoded(m: ExampleModel) -> Seq<u8> {
        enc_values(example_fields(m))
    }

    open spec fn decoded(b: Seq<u8>) -> Option<ExampleModel> {
        match dec_values(b) {
            Some(vs) => example_of_fields(vs),
            None => None,
        }
    }

    open spec fn wf(m: ExampleModel) -> bool {
        &&& i64::MIN <= m.id <= i64::MAX
        &&& m.name.len() <= u64::MAX
        &&& m.description.len() <= u64::MAX
    }

    proof fn schema_wf() {
        lemma_base_names_wf();
        assert(wf_columns(Self::spec_columns()));
    }

    proof fn projection_wf(m: ExampleModel) {
    }

    proof fn codec_round_trip(m: ExampleModel) {
        assert(wf_values(example_fields(m)));
        lemma_values_round(example_fields(m));
        assert(example_of_fields(example_fields(m)) == Some(m));
    }

    proof fn decode_canonical(b: Seq<u8>, m: ExampleModel) {
        match dec_values(b) {
            Some(vs) => {
                lemma_values_canonical(b, vs);
                assert(vs =~= example_fields(m));
            },
            None => {
                assert(false);
            },
        }
    }

    fn columns() -> (r: Vec<String>) {
        let mut out: Vec<String> = Vec::new();
        out.push("id".to_owned());
        out.push("name".to_owned());
        proof {
            assert(names_of(out@) =~= Self::spec_columns());
        }
        out
    }

    fn params(&self) -> (r: Vec<Value>) {
        let mut out: Vec<Value> = Vec::new();
        out.push(Value::Integer(self.id));
        out.push(Value::Text(self.name.clone()));
        proof {
            assert(out@.map_values(|v: Value| v@) =~= Self::spec_index_values(self@));
        }
        out
    }

    fn encode(&self) -> (r: Vec<u8>) {
        let mut vals: Vec<Value> = Vec::new();
        vals.push(Value::Integer(self.id));
        vals.push(Value::Text(self.name.clone()));
        vals.push(Value::Text(self.description.clone()));
        let r = encode_values(&vals);
        proof {
            assert(vals@.map_values(|x: Value| x@) =~= example_fields(self@));
        }
        r
    }

    fn decode(b: &Vec<u8>) -> (r: Option<Self>) {
        match decode_values(b) {
            Some(vs) => {
                if vs.len() != 3 {
                    proof {
                        assert(Self::decoded(b@) is None);
                    }
                    return None;
                }
                let v0 = &vs[0];
                let v1 = &vs[1];
                let v2 = &vs[2];
                match (v0, v1, v2) {
                    (Value::Integer(i), Value::Text(n), Value::Text(d)) => {
                        let rec = Example { id: *i, name: n.clone(), description: d.clone() };
                        proof {
                            assert(Self::decoded(b@) == Some(rec@));
                        }
                        Some(rec)
                    },
                    _ => {
                        proof {
                            assert(Self::decoded(b@) is None);
                        }
                        None
                    },
                }
            },
            None => None,
        }
    }

    fn sql_create(table_name: &str) -> (r: String) {
        sql_create_stmt(table_name, &Self::columns())
    }

    fn sql_insert(table_name: &str) -> (r: String) {
        proof {
            Self::schema_wf();
        }
        sql_insert_stmt(table_name, &Self::columns())
    }

    fn sql_select(table_name: &str, indicies: &[Self::Indicies]) -> (r: String) {
        sql_select_stmt(table_name, &pred_names(indicies))
    }

    fn sql_update(table_name: &str, indicies: &[Self::Indicies]) -> (r: String) {
        proof {
            Self::schema_wf();
        }
        sql_update_stmt(table_name, &Self::columns(), &pred_names(indicies))
    }

    fn sql_delete(table_name: &str, indicies: &[Self::Indicies]) -> (r: String) {
        sql_delete_stmt(table_name, &pred_names(indicies))
    }
}

// ------------------------------------------------------------------
// User: one indexed field (name) and three plain fields.
// ------------------------------------------------------------------

/// A record with an indexed `name` column; id, email and description
/// are carried only in the payload.
#[derive(Clone, Debug, PartialEq)]
pub struct User {
    pub id: i64,
    pub name: String,
    pub email: String,
    pub description: String,
}

/// The mathematical content of a `User`.
#[verifier::ext_equal]
pub struct UserModel {
    pub id: int,
    pub name: Seq<char>,
    pub email: Seq<char>,
    pub description: Seq<char>,
}

impl View for User {
    type V = UserModel;

    open spec fn view(&self) -> UserModel {
        UserModel {
            id: self.id as int,
            name: self.name@,
            email: self.email@,
            description: self.description@,
        }
    }
}

/// All fields of a `User`, in declaration order, as codec values.
pub open spec fn user_fields(m: UserModel) -> Seq<DbValue> {
    seq![
        DbValue::Int(m.id),
        DbValue::Text(m.name),
        DbValue::Text(m.email),
        DbValue::Text(m.description),
    ]
}

/// The records whose field lowering is the given value sequence.
pub open spec fn user_of_fields(vs: Seq<DbValue>) -> Option<UserModel> {
    if vs.len() == 4 {
        match (vs[0], vs[1], vs[2], vs[3]) {
            (DbValue::Int(i), DbValue::Text(n), DbValue::Text(e), DbValue::Text(d)) => {
                if i64::MIN <= i <= i64::MAX {
                    Some(UserModel { id: i, name: n, email: e, description: d })
                } else {
                    None
                }
            },
            _ => None,
        }
    } else {
        None
    }
}

/// Indicies available for querying `User` objects.
#[derive(Clone, Debug, PartialEq)]
pub enum UserIndicies {
    Name(String),
}

impl IndexValue for UserIndicies {
    open spec fn spec_name(&self) -> Seq<char> {
        match self {
            UserIndicies::Name(_) => "name"@,
        }
    }

    open spec fn spec_value(&self) -> DbValue {
        match self {
            UserIndicies::Name(s) => DbValue::Text(s@),
        }
    }

    proof fn name_wf(&self) {
        lemma_base_names_wf();
    }

    fn name(&self) -> (r: &'static str) {
        match self {
            UserIndicies::Name(_) => "name",
        }
    }

    fn value(&self) -> (r: Value) {
        match self {
            UserIndicies::Name(s) => Value::Text(s.clone()),
        }
    }
}

impl Storable for User {
    type Indicies = UserIndicies;

    open spec fn spec_columns() -> Seq<Seq<char>> {
        seq!["name"@]
    }

    open spec fn spec_index_values(m: UserModel) -> Seq<DbValue> {
        seq![DbValue::Text(m.name)]
    }

    open spec fn encoded(m: UserModel) -> Seq<u8> {
        enc_values(user_fields(m))
    }

    open spec fn decoded(b: Seq<u8>) -> Option<UserModel> {
        match dec_values(b) {
            Some(vs) => user_of_fields(vs),
            None => None,
        }
    }

    open spec fn wf(m: UserModel) -> bool {
        &&& i64::MIN <= m.id <= i64::MAX
        &&& m.name.len() <= u64::MAX
        &&& m.email.len() <= u64::MAX
        &&& m.description.len() <= u64::MAX
    }

    proof fn schema_wf() {
        lemma_base_names_wf();
        assert(wf_columns(Self::spec_columns()));
    }

    proof fn projection_wf(m: UserModel) {
    }

    proof fn codec_round_trip(m: UserModel) {
        assert(wf_values(user_fields(m)));
        lemma_values_round(user_fields(m));
        assert(user_of_fields(user_fields(m)) == Some(m));
    }

    proof fn decode_canonical(b: Seq<u8>, m: UserModel) {
        match dec_values(b) {
            Some(vs) => {
                lemma_values_canonical(b, vs);
                assert(vs =~= user_fields(m));
            },
            None => {
                assert(false);
            },
        }
    }

    fn columns() -> (r: Vec<String>) {
        let mut out: Vec<String> = Vec::new();
        out.push("name".to_owned());
        proof {
            assert(names_of(out@) =~= Self::spec_columns());
        }
        out
    }

    fn params(&self) -> (r: Vec<Value>) {
        let mut out: Vec<Value> = Vec::new();
        out.push(Value::Text(self.name.clone()));
        proof {
            assert(out@.map_values(|v: Value| v@) =~= Self::spec_index_values(self@));
        }
        out
    }

    fn encode(&self) -> (r: Vec<u8>) {
        let mut vals: Vec<Value> = Vec::new();
        vals.push(Value::Integer(self.id));
        vals.push(Value::Text(self.name.clone()));
        vals.push(Value::Text(self.email.clone()));
        vals.push(Value::Text(self.description.clone()));
        let r = encode_values(&vals);
        proof {
            assert(vals@.map_values(|x: Value| x@) =~= user_fields(self@));
        }
        r
    }

    fn decode(b: &Vec<u8>) -> (r: Option<Self>) {
        match decode_values(b) {
            Some(vs) => {
                if vs.len() != 4 {
                    proof {
                        assert(Self::decoded(b@) is None);
                    }
                    return None;
                }
                let v0 = &vs[0];
                let v1 = &vs[1];
                let v2 = &vs[2];
                let v3 = &vs[3];
                match (v0, v1, v2, v3) {
                    (Value::Integer(i), Value::Text(n), Value::Text(e), Value::Text(d)) => {
                        let rec = User {
                            id: *i,
                            name: n.clone(),
                            email: e.clone(),
                            description: d.clone(),
                        };
                        proof {
                            assert(Self::decoded(b@) == Some(rec@));
                        }
                        Some(rec)
                    },
                    _ => {
                        proof {
                            assert(Self::decoded(b@) is None);
                        }
                        None
                    },
                }
            },
            None => None,
        }
    }

    fn sql_create(table_name: &str) -> (r: String) {
        sql_create_stmt(table_name, &Self::columns())
    }

    fn sql_insert(table_name: &str) -> (r: String) {
        proof {
            Self::schema_wf();
        }
        sql_insert_stmt(table_name, &Self::columns())
    }

    fn sql_select(table_name: &str, indicies: &[Self::Indicies]) -> (r: String) {
        sql_select_stmt(table_name, &pred_names(indicies))
    }

    fn sql_update(table_name: &str, indicies: &[Self::Indicies]) -> (r: String) {
        proof {
            Self::schema_wf();
        }
        sql_update_stmt(table_name, &Self::columns(), &pred_names(indicies))
    }

    fn sql_delete(table_name: &str, indicies: &[Self::Indicies]) -> (r: String) {
        sql_delete_stmt(table_name, &pred_names(indicies))
    }
}

} // verus!
