use vstd::prelude::*;

verus! {

/// A scalar value that the storage engine's parameter mechanism can
/// represent: an integer, a text string, or a byte blob.  Index values
/// carry one of these; the payload column always carries a blob.
#[derive(Clone, Debug, PartialEq)]
pub enum Value {
    Integer(i64),
    Text(String),
    Blob(Vec<u8>),
}

/// The mathematical counterpart of `Value`, used in specifications and
/// in the ghost model of the database contents.
pub enum DbValue {
    Int(int),
    Text(Seq<char>),
    Bytes(Seq<u8>),
}

impl View for Value {
    type V = DbValue;

    open spec fn view(&self) -> DbValue {
        match self {
            Value::Integer(i) => DbValue::Int(*i as int),
            Value::Text(s) => DbValue::Text(s@),
            Value::Blob(b) => DbValue::Bytes(b@),
        }
    }
}

/// Decimal digit as a character; meaningful for 0 through 9.
pub open spec fn digit_char(d: int) -> char {
    if d == 0 {
        '0'
    } else if d == 1 {
        '1'
    } else if d == 2 {
        '2'
    } else if d == 3 {
        '3'
    } else if d == 4 {
        '4'
    } else if d == 5 {
        '5'
    } else if d == 6 {
        '6'
    } else if d == 7 {
        '7'
    } else if d == 8 {
        '8'
    } else {
        '9'
    }
}

/// Decimal representation of a non-negative integer, most significant
/// digit first, no leading zeros (except for 0 itself).
pub open spec fn dec_digits(n: int) -> Seq<char>
    recommends
        n >= 0,
    decreases n,
{
    if n < 10 {
        seq![digit_char(n)]
    } else {
        dec_digits(n / 10).push(digit_char(n % 10))
    }
}

/// Decimal representation of a signed integer, as the engine renders
/// integers converted to text.
pub open spec fn int_text(i: int) -> Seq<char> {
    if i < 0 {
        seq!['-'] + dec_digits(-i)
    } else {
        dec_digits(i)
    }
}

/// What a generic variable-length text column actually holds after the
/// engine's value conversion: binding an integer into such a column
/// stores its decimal text; text stays text; blobs keep their bytes.
pub enum Cell {
    Txt(Seq<char>),
    Bin(Seq<u8>),
}

/// The engine's conversion of a bound value into a text-typed column,
/// applied both when storing and when comparing.  Equality of cells is
/// therefore exactly the engine's equality on such columns.
pub open spec fn cell_of(v: DbValue) -> Cell {
    match v {
        DbValue::Int(i) => Cell::Txt(int_text(i)),
        DbValue::Text(s) => Cell::Txt(s),
        DbValue::Bytes(b) => Cell::Bin(b),
    }
}

/// A `DbValue` that an exec-level `Value` can hold: the integer fits
/// the engine's signed 64-bit integers, and lengths fit the codec's
/// 64-bit length prefixes.
pub open spec fn wf_value(v: DbValue) -> bool {
    match v {
        DbValue::Int(i) => i64::MIN <= i <= i64::MAX,
        DbValue::Text(s) => s.len() <= u64::MAX,
        DbValue::Bytes(b) => b.len() <= u64::MAX,
    }
}

/// Character allowed inside a statement identifier.  Uppercase ASCII
/// letters are deliberately excluded: the engine resolves identifiers
/// ASCII-case-insensitively, so admitting only lowercase names makes
/// two admitted names equal exactly when the engine treats them as
/// the same, and the ghost model may key tables and columns by the
/// exact character sequence.
pub open spec fn is_ident_char(c: char) -> bool {
    (('a' as int) <= (c as int) <= ('z' as int)) || (('0' as int) <= (c as int) <= ('9' as int))
        || c == '_'
}

/// A name that can be spliced into statement text without changing
/// the statement's shape, and on which the engine's identifier
/// resolution agrees with exact equality: non-empty, made of
/// lowercase ASCII letters, digits and underscores, and not starting
/// with a digit.
pub open spec fn is_sql_ident(s: Seq<char>) -> bool {
    &&& s.len() > 0
    &&& (forall|i: int| 0 <= i < s.len() ==> is_ident_char(s[i]))
    &&& !(('0' as int) <= (s[0] as int) <= ('9' as int))
}

} // verus!
