use vstd::prelude::*;
use vstd::string::StringExecFns;

use crate::codec::chars_to_string;
use crate::value::{dec_digits, digit_char, is_sql_ident};

verus! {

/// Column name of the payload column that stores each record's full
/// serialized form, appended after the indexed columns of every table.
pub open spec fn payload_col() -> Seq<char> {
    "__object"@
}

/// Executable counterpart of `payload_col`.
pub fn object_key() -> (r: &'static str)
    ensures
        r@ == payload_col(),
{
    "__object"
}

/// A name the engine reserves for the implicit rowid of every
/// ordinary table: when no declared column carries it, the engine
/// resolves it to the rowid instead of failing, which would step
/// outside the declared-column model.  Such names are therefore
/// excluded from column and predicate names altogether.
pub open spec fn is_rowid_alias(s: Seq<char>) -> bool {
    s == "rowid"@ || s == "oid"@ || s == "_rowid_"@
}

/// A column or predicate name the model can account for: a valid
/// identifier that names neither the payload column nor the engine's
/// implicit rowid.
pub open spec fn wf_name(s: Seq<char>) -> bool {
    &&& is_sql_ident(s)
    &&& s != payload_col()
    &&& !is_rowid_alias(s)
}

/// A well-formed ordered column layout: at least one indexed column,
/// all names well formed and pairwise distinct.
pub open spec fn wf_columns(cols: Seq<Seq<char>>) -> bool {
    &&& cols.len() > 0
    &&& (forall|i: int| 0 <= i < cols.len() ==> wf_name(#[trigger] cols[i]))
    &&& (forall|i: int, j: int| 0 <= i < j < cols.len() ==> cols[i] != cols[j])
}

/// Well-formed predicate column names.
pub open spec fn wf_names(names: Seq<Seq<char>>) -> bool {
    forall|i: int| 0 <= i < names.len() ==> wf_name(#[trigger] names[i])
}

/// The views of a vector of owned column names.
pub open spec fn names_of(v: Seq<String>) -> Seq<Seq<char>> {
    v.map_values(|s: String| s@)
}

// ------------------------------------------------------------------
// Statement text, defined column by column.
// ------------------------------------------------------------------

/// One `<col> VARCHAR NOT NULL, ` declaration per indexed column.
pub open spec fn spec_fields_decl(cols: Seq<Seq<char>>) -> Seq<char>
    decreases cols.len(),
{
    if cols.len() == 0 {
        Seq::empty()
    } else {
        cols[0] + " VARCHAR NOT NULL, "@ + spec_fields_decl(cols.drop_first())
    }
}

/// One `<col>, ` entry per indexed column.
pub open spec fn spec_name_items(cols: Seq<Seq<char>>) -> Seq<char>
    decreases cols.len(),
{
    if cols.len() == 0 {
        Seq::empty()
    } else {
        cols[0] + ", "@ + spec_name_items(cols.drop_first())
    }
}

/// `count` positionally numbered placeholders `?start, ?start+1, ...`,
/// each followed by a comma separator.
pub open spec fn spec_ph_items(start: int, count: int) -> Seq<char>
    decreases count,
{
    if count <= 0 {
        Seq::empty()
    } else {
        "?"@ + dec_digits(start) + ", "@ + spec_ph_items(start + 1, count - 1)
    }
}

/// One `<col> = ?n, ` assignment per indexed column, numbered from
/// `start`.
pub open spec fn spec_set_items(cols: Seq<Seq<char>>, start: int) -> Seq<char>
    decreases cols.len(),
{
    if cols.len() == 0 {
        Seq::empty()
    } else {
        cols[0] + " = ?"@ + dec_digits(start) + ", "@ + spec_set_items(cols.drop_first(), start + 1)
    }
}

/// Predicate clauses `<col> = ?`, joined with `AND`: every predicate
/// must hold of a row for the row to be touched (intersection, never
/// union).
pub open spec fn spec_conds(names: Seq<Seq<char>>) -> Seq<char>
    decreases names.len(),
{
    if names.len() == 0 {
        Seq::empty()
    } else if names.len() == 1 {
        names[0] + " = ?"@
    } else {
        names[0] + " = ?"@ + " AND "@ + spec_conds(names.drop_first())
    }
}

/// The WHERE clause for a predicate list; absent when the list is
/// empty (an unfiltered statement).
pub open spec fn spec_where(names: Seq<Seq<char>>) -> Seq<char> {
    if names.len() == 0 {
        Seq::empty()
    } else {
        " WHERE "@ + spec_conds(names)
    }
}

/// `CREATE TABLE <t> (<col> VARCHAR NOT NULL, ..., __object BLOB NOT NULL);`
pub open spec fn spec_sql_create(t: Seq<char>, cols: Seq<Seq<char>>) -> Seq<char> {
    "CREATE TABLE "@ + t + " ("@ + spec_fields_decl(cols) + payload_col() + " BLOB NOT NULL);"@
}

/// `INSERT INTO <t> (<cols>, __object) VALUES (?1, ..., ?n+1);`
pub open spec fn spec_sql_insert(t: Seq<char>, cols: Seq<Seq<char>>) -> Seq<char> {
    "INSERT INTO "@ + t + " ("@ + spec_name_items(cols) + payload_col() + ") VALUES ("@
        + spec_ph_items(1, cols.len() as int) + "?"@ + dec_digits(cols.len() + 1 as int) + ");"@
}

/// `SELECT __object FROM <t>[ WHERE <conds>];` — only the payload
/// column is ever projected.
pub open spec fn spec_sql_select(t: Seq<char>, names: Seq<Seq<char>>) -> Seq<char> {
    "SELECT "@ + payload_col() + " FROM "@ + t + spec_where(names) + ";"@
}

/// `UPDATE <t> SET <col> = ?1, ..., __object = ?n+1[ WHERE <conds>];`
/// — a full-row replace: every indexed column and the payload are
/// assigned, whatever the predicates target.
pub open spec fn spec_sql_update(t: Seq<char>, cols: Seq<Seq<char>>, names: Seq<Seq<char>>) -> Seq<
    char,
> {
    "UPDATE "@ + t + " SET "@ + spec_set_items(cols, 1) + payload_col() + " = ?"@ + dec_digits(
        cols.len() + 1 as int,
    ) + spec_where(names) + ";"@
}

/// `DELETE FROM <t>[ WHERE <conds>];`
pub open spec fn spec_sql_delete(t: Seq<char>, names: Seq<Seq<char>>) -> Seq<char> {
    "DELETE FROM "@ + t + spec_where(names) + ";"@
}

// ------------------------------------------------------------------
// Unfolding the column-by-column definitions from the back, as the
// executable builders extend their output.
// ------------------------------------------------------------------

proof fn lemma_fields_decl_push(cols: Seq<Seq<char>>, x: Seq<char>)
    ensures
        spec_fields_decl(cols.push(x)) == spec_fields_decl(cols) + x + " VARCHAR NOT NULL, "@,
    decreases cols.len(),
{
    if cols.len() == 0 {
        assert(cols.push(x).drop_first() =~= cols);
        assert(spec_fields_decl(cols) == Seq::<char>::empty());
        assert(cols.push(x)[0] == x);
        assert(spec_fields_decl(cols.push(x)) == x + " VARCHAR NOT NULL, "@ + spec_fields_decl(
            cols,
        ));
        assert(spec_fields_decl(cols.push(x)) =~= spec_fields_decl(cols) + x
            + " VARCHAR NOT NULL, "@);
    } else {
        lemma_fields_decl_push(cols.drop_first(), x);
        assert(cols.push(x).drop_first() =~= cols.drop_first().push(x));
        assert(spec_fields_decl(cols.push(x)) == cols[0] + " VARCHAR NOT NULL, "@
            + spec_fields_decl(cols.drop_first().push(x)));
        assert(spec_fields_decl(cols.push(x)) =~= spec_fields_decl(cols) + x
            + " VARCHAR NOT NULL, "@);
    }
}

proof fn lemma_name_items_push(cols: Seq<Seq<char>>, x: Seq<char>)
    ensures
        spec_name_items(cols.push(x)) == spec_name_items(cols) + x + ", "@,
    decreases cols.len(),
{
    if cols.len() == 0 {
        assert(cols.push(x).drop_first() =~= cols);
        assert(spec_name_items(cols) == Seq::<char>::empty());
        assert(cols.push(x)[0] == x);
        assert(spec_name_items(cols.push(x)) == x + ", "@ + spec_name_items(cols));
        assert(spec_name_items(cols.push(x)) =~= spec_name_items(cols) + x + ", "@);
    } else {
        lemma_name_items_push(cols.drop_first(), x);
        assert(cols.push(x).drop_first() =~= cols.drop_first().push(x));
        assert(spec_name_items(cols.push(x)) == cols[0] + ", "@ + spec_name_items(
            cols.drop_first().push(x),
        ));
        assert(spec_name_items(cols.push(x)) =~= spec_name_items(cols) + x + ", "@);
    }
}

proof fn lemma_ph_items_snoc(start: int, count: int)
    requires
        count >= 0,
    ensures
        spec_ph_items(start, count + 1) == spec_ph_items(start, count) + "?"@ + dec_digits(
            start + count,
        ) + ", "@,
    decreases count,
{
    if count == 0 {
        assert(spec_ph_items(start, 0) == Seq::<char>::empty());
        assert(spec_ph_items(start + 1, 0) == Seq::<char>::empty());
        assert(spec_ph_items(start, 1) == "?"@ + dec_digits(start) + ", "@ + spec_ph_items(
            start + 1,
            0,
        ));
        assert(spec_ph_items(start, 1) =~= spec_ph_items(start, 0) + "?"@ + dec_digits(start)
            + ", "@);
    } else {
        lemma_ph_items_snoc(start + 1, count - 1);
        assert(spec_ph_items(start, count + 1) == "?"@ + dec_digits(start) + ", "@ + spec_ph_items(
            start + 1,
            count,
        ));
        assert(spec_ph_items(start, count) == "?"@ + dec_digits(start) + ", "@ + spec_ph_items(
            start + 1,
            count - 1,
        ));
        assert(spec_ph_items(start, count + 1) =~= spec_ph_items(start, count) + "?"@ + dec_digits(
            start + count,
        ) + ", "@);
    }
}

proof fn lemma_set_items_push(cols: Seq<Seq<char>>, x: Seq<char>, start: int)
    ensures
        spec_set_items(cols.push(x), start) == spec_set_items(cols, start) + x + " = ?"@
            + dec_digits(start + cols.len()) + ", "@,
    decreases cols.len(),
{
    if cols.len() == 0 {
        assert(cols.push(x).drop_first() =~= cols);
        assert(spec_set_items(cols, start + 1) == Seq::<char>::empty());
        assert(spec_set_items(cols, start) == Seq::<char>::empty());
        assert(cols.push(x)[0] == x);
        assert(spec_set_items(cols.push(x), start) == x + " = ?"@ + dec_digits(start) + ", "@
            + spec_set_items(cols, start + 1));
        assert(spec_set_items(cols.push(x), start) =~= spec_set_items(cols, start) + x + " = ?"@
            + dec_digits(start + cols.len()) + ", "@);
    } else {
        lemma_set_items_push(cols.drop_first(), x, start + 1);
        assert(cols.push(x).drop_first() =~= cols.drop_first().push(x));
        assert(spec_set_items(cols.push(x), start) == cols[0] + " = ?"@ + dec_digits(start) + ", "@
            + spec_set_items(cols.drop_first().push(x), start + 1));
        assert(spec_set_items(cols, start) == cols[0] + " = ?"@ + dec_digits(start) + ", "@
            + spec_set_items(cols.drop_first(), start + 1));
        assert(start + 1 + cols.drop_first().len() == start + cols.len());
        assert(spec_set_items(cols.push(x), start) =~= spec_set_items(cols, start) + x + " = ?"@
            + dec_digits(start + cols.len()) + ", "@);
    }
}

// ------------------------------------------------------------------
// Executable statement builders.
// ------------------------------------------------------------------

/// One decimal digit as a character.
fn digit_of(d: usize) -> (r: char)
    requires
        d < 10,
    ensures
        r == digit_char(d as int),
{
    if d == 0 {
        '0'
    } else if d == 1 {
        '1'
    } else if d == 2 {
        '2'
    } else if d == 3 {
        '3'
    } else if d == 4 {
        '4'
    } else if d == 5 {
        '5'
    } else if d == 6 {
        '6'
    } else if d == 7 {
        '7'
    } else if d == 8 {
        '8'
    } else {
        '9'
    }
}

/// The decimal text of a number: digits most significant first, no
/// sign, no leading zeros.  Digits are collected least significant
/// first, then emitted in reverse.
fn usize_text(n: usize) -> (r: String)
    ensures
        r@ == dec_digits(n as int),
{
    let mut rev: Vec<char> = Vec::new();
    let mut m: usize = n;
    proof {
        assert(rev@.reverse() =~= Seq::<char>::empty());
        assert(dec_digits(n as int) =~= dec_digits(m as int) + rev@.reverse());
    }
    while m >= 10
        invariant
            dec_digits(n as int) == dec_digits(m as int) + rev@.reverse(),
        decreases m,
    {
        let ghost prev = rev@;
        let d = digit_of(m % 10);
        rev.push(d);
        let q = m / 10;
        proof {
            assert(dec_digits(m as int) == dec_digits(q as int).push(digit_char((m % 10) as int)));
            assert(rev@.reverse() =~= seq![d] + prev.reverse());
            assert(dec_digits(q as int) + rev@.reverse() =~= dec_digits(m as int) + prev.reverse());
        }
        m = q;
    }
    let ghost prev = rev@;
    let d = digit_of(m);
    rev.push(d);
    proof {
        assert(dec_digits(m as int) =~= seq![d]);
        assert(rev@.reverse() =~= seq![d] + prev.reverse());
        assert(rev@.reverse() =~= dec_digits(n as int));
    }
    let mut cs: Vec<char> = Vec::new();
    let mut i: usize = 0;
    while i < rev.len()
        invariant
            0 <= i <= rev@.len(),
            rev@.len() > 0,
            cs@ == rev@.reverse().take(i as int),
        decreases rev@.len() - i,
    {
        let c = rev[rev.len() - 1 - i];
        proof {
            assert(rev@.reverse()[i as int] == rev@[rev@.len() - 1 - i as int]);
            assert(rev@.reverse().take(i as int).push(rev@.reverse()[i as int]) =~= rev@.reverse()
                .take(i as int + 1));
        }
        cs.push(c);
        i = i + 1;
    }
    proof {
        assert(rev@.reverse().take(rev@.len() as int) =~= rev@.reverse());
        assert(cs@ == dec_digits(n as int));
    }
    chars_to_string(&cs)
}

/// Append the WHERE clause for the given predicate column names (no
/// clause at all when there are none).
fn push_where(s: &mut String, names: &Vec<String>)
    ensures
        final(s)@ == old(s)@ + spec_where(names_of(names@)),
{
    let ghost base = s@;
    let ghost nv = names_of(names@);
    if names.len() == 0 {
        proof {
            assert(s@ =~= base + spec_where(nv));
        }
        return ;
    }
    s.append(" WHERE ");
    let mut i: usize = 0;
    while i < names.len()
        invariant
            0 <= i <= names.len(),
            nv == names_of(names@),
            i == 0 ==> s@ == base + " WHERE "@,
            i > 0 ==> s@ == base + " WHERE "@ + spec_conds(nv.take(i as int)),
        decreases names.len() - i,
    {
        if i > 0 {
            s.append(" AND ");
        }
        s.append(names[i].as_str());
        s.append(" = ?");
        proof {
            lemma_conds_push(nv.take(i as int), nv[i as int]);
            assert(nv.take(i as int).push(nv[i as int]) =~= nv.take(i as int + 1));
            assert(s@ =~= base + " WHERE "@ + spec_conds(nv.take(i as int + 1)));
        }
        i = i + 1;
    }
    proof {
        assert(nv.take(nv.len() as int) =~= nv);
        assert(s@ =~= base + spec_where(nv));
    }
}

/// Build the create-table statement for the given table name and
/// indexed column list.
pub fn sql_create_stmt(table_name: &str, cols: &Vec<String>) -> (r: String)
    ensures
        r@ == spec_sql_create(table_name@, names_of(cols@)),
{
    let ghost cv = names_of(cols@);
    let mut s = String::new();
    s.append("CREATE TABLE ");
    s.append(table_name);
    s.append(" (");
    let ghost base = s@;
    let mut i: usize = 0;
    while i < cols.len()
        invariant
            0 <= i <= cols.len(),
            cv == names_of(cols@),
            base == "CREATE TABLE "@ + table_name@ + " ("@,
            s@ == base + spec_fields_decl(cv.take(i as int)),
        decreases cols.len() - i,
    {
        s.append(cols[i].as_str());
        s.append(" VARCHAR NOT NULL, ");
        proof {
            lemma_fields_decl_push(cv.take(i as int), cv[i as int]);
            assert(cv.take(i as int).push(cv[i as int]) =~= cv.take(i as int + 1));
            assert(s@ =~= base + spec_fields_decl(cv.take(i as int + 1)));
        }
        i = i + 1;
    }
    s.append(object_key());
    s.append(" BLOB NOT NULL);");
    proof {
        assert(cv.take(cv.len() as int) =~= cv);
        assert(s@ =~= spec_sql_create(table_name@, cv));
    }
    s
}

/// Build the insert statement: indexed columns in declared order, then
/// the payload column, with positional placeholders `?1..?n+1`.
pub fn sql_insert_stmt(table_name: &str, cols: &Vec<String>) -> (r: String)
    requires
        cols@.len() < usize::MAX,
    ensures
        r@ == spec_sql_insert(table_name@, names_of(cols@)),
{
    let ghost cv = names_of(cols@);
    let mut s = String::new();
    s.append("INSERT INTO ");
    s.append(table_name);
    s.append(" (");
    let ghost base = s@;
    let mut i: usize = 0;
    while i < cols.len()
        invariant
            0 <= i <= cols.len(),
            cv == names_of(cols@),
            base == "INSERT INTO "@ + table_name@ + " ("@,
            s@ == base + spec_name_items(cv.take(i as int)),
        decreases cols.len() - i,
    {
        s.append(cols[i].as_str());
        s.append(", ");
        proof {
            lemma_name_items_push(cv.take(i as int), cv[i as int]);
            assert(cv.take(i as int).push(cv[i as int]) =~= cv.take(i as int + 1));
            assert(s@ =~= base + spec_name_items(cv.take(i as int + 1)));
        }
        i = i + 1;
    }
    s.append(object_key());
    s.append(") VALUES (");
    let ghost base2 = s@;
    proof {
        assert(cv.take(cv.len() as int) =~= cv);
    }
    let mut j: usize = 0;
    while j < cols.len()
        invariant
            0 <= j <= cols.len(),
            cv == names_of(cols@),
            base2 == "INSERT INTO "@ + table_name@ + " ("@ + spec_name_items(cv) + payload_col()
                + ") VALUES ("@,
            s@ == base2 + spec_ph_items(1, j as int),
        decreases cols.len() - j,
    {
        s.append("?");
        let t = usize_text(j + 1);
        s.append(t.as_str());
        s.append(", ");
        proof {
            lemma_ph_items_snoc(1, j as int);
            assert(s@ =~= base2 + spec_ph_items(1, j as int + 1));
        }
        j = j + 1;
    }
    s.append("?");
    let t = usize_text(cols.len() + 1);
    s.append(t.as_str());
    s.append(");");
    proof {
        assert(s@ =~= spec_sql_insert(table_name@, cv));
    }
    s
}

/// Build the select statement: always projects only the payload
/// column, filtered by the predicate columns if any are given.
pub fn sql_select_stmt(table_name: &str, wheres: &Vec<String>) -> (r: String)
    ensures
        r@ == spec_sql_select(table_name@, names_of(wheres@)),
{
    let mut s = String::new();
    s.append("SELECT ");
    s.append(object_key());
    s.append(" FROM ");
    s.append(table_name);
    push_where(&mut s, wheres);
    s.append(";");
    proof {
        assert(s@ =~= spec_sql_select(table_name@, names_of(wheres@)));
    }
    s
}

/// Build the update statement: a full-row replace assigning every
/// indexed column and the payload, filtered by the predicate columns.
pub fn sql_update_stmt(table_name: &str, cols: &Vec<String>, wheres: &Vec<String>) -> (r: String)
    requires
        cols@.len() < usize::MAX,
    ensures
        r@ == spec_sql_update(table_name@, names_of(cols@), names_of(wheres@)),
{
    let ghost cv = names_of(cols@);
    let mut s = String::new();
    s.append("UPDATE ");
    s.append(table_name);
    s.append(" SET ");
    let ghost base = s@;
    let mut i: usize = 0;
    while i < cols.len()
        invariant
            0 <= i <= cols.len(),
            cv == names_of(cols@),
            base == "UPDATE "@ + table_name@ + " SET "@,
            s@ == base + spec_set_items(cv.take(i as int), 1),
        decreases cols.len() - i,
    {
        s.append(cols[i].as_str());
        s.append(" = ?");
        let t = usize_text(i + 1);
        s.append(t.as_str());
        s.append(", ");
        proof {
            lemma_set_items_push(cv.take(i as int), cv[i as int], 1);
            assert(cv.take(i as int).push(cv[i as int]) =~= cv.take(i as int + 1));
            assert(s@ =~= base + spec_set_items(cv.take(i as int + 1), 1));
        }
        i = i + 1;
    }
    s.append(object_key());
    s.append(" = ?");
    let t = usize_text(cols.len() + 1);
    s.append(t.as_str());
    proof {
        assert(cv.take(cv.len() as int) =~= cv);
    }
    push_where(&mut s, wheres);
    s.append(";");
    proof {
        assert(s@ =~= spec_sql_update(table_name@, cv, names_of(wheres@)));
    }
    s
}

/// Build the delete statement: removes the matching rows, or every
/// row when no predicate is given.
pub fn sql_delete_stmt(table_name: &str, wheres: &Vec<String>) -> (r: String)
    ensures
        r@ == spec_sql_delete(table_name@, names_of(wheres@)),
{
    let mut s = String::new();
    s.append("DELETE FROM ");
    s.append(table_name);
    push_where(&mut s, wheres);
    s.append(";");
    proof {
        assert(s@ =~= spec_sql_delete(table_name@, names_of(wheres@)));
    }
    s
}

proof fn lemma_conds_push(names: Seq<Seq<char>>, x: Seq<char>)
    ensures
        spec_conds(names.push(x)) == if names.len() == 0 {
            x + " = ?"@
        } else {
            spec_conds(names) + " AND "@ + x + " = ?"@
        },
    decreases names.len(),
{
    if names.len() == 0 {
        assert(names.push(x)[0] == x);
        assert(spec_conds(names.push(x)) == x + " = ?"@);
    } else if names.len() == 1 {
        assert(names.push(x).drop_first() =~= Seq::<Seq<char>>::empty().push(x));
        assert(Seq::<Seq<char>>::empty().push(x)[0] == x);
        assert(spec_conds(Seq::<Seq<char>>::empty().push(x)) == x + " = ?"@);
        assert(spec_conds(names.push(x)) == names[0] + " = ?"@ + " AND "@ + spec_conds(
            Seq::<Seq<char>>::empty().push(x),
        ));
        assert(spec_conds(names) == names[0] + " = ?"@);
        assert(spec_conds(names.push(x)) =~= spec_conds(names) + " AND "@ + x + " = ?"@);
    } else {
        lemma_conds_push(names.drop_first(), x);
        assert(names.push(x).drop_first() =~= names.drop_first().push(x));
        assert(spec_conds(names.push(x)) == names[0] + " = ?"@ + " AND "@ + spec_conds(
            names.drop_first().push(x),
        ));
        assert(spec_conds(names) == names[0] + " = ?"@ + " AND "@ + spec_conds(names.drop_first()));
        assert(spec_conds(names.push(x)) =~= spec_conds(names) + " AND "@ + x + " = ?"@);
    }
}

} // verus!
