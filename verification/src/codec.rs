//! The binary codec for record payloads.  A record is lowered to the
//! ordered sequence of its field values, and that sequence is framed
//! as: an 8-byte little-endian count, then each value with a one-byte
//! tag.  Integers carry a sign byte and an 8-byte magnitude, text and
//! blobs an 8-byte length; text characters are stored as 4-byte
//! little-endian scalar values.  The encoding is canonical: decoding
//! succeeds exactly on encoder output, and recovers the input.
//!
//! The wire format is this library's own: payloads written by any
//! other serializer are not readable here, and these payloads are not
//! readable elsewhere.

use vstd::bytes::{
    spec_u32_from_le_bytes, spec_u32_to_le_bytes, spec_u64_from_le_bytes, spec_u64_to_le_bytes,
};
use vstd::prelude::*;

use crate::value::{wf_value, DbValue, Value};

verus! {

/// Tag byte of an integer value.
pub open spec fn tag_int() -> u8 {
    0u8
}

/// Tag byte of a text value.
pub open spec fn tag_text() -> u8 {
    1u8
}

/// Tag byte of a blob value.
pub open spec fn tag_bytes() -> u8 {
    2u8
}

/// A code point that is a valid Unicode scalar value, i.e. a `char`.
pub open spec fn valid_scalar(c: u32) -> bool {
    vstd::utf8::is_scalar(c)
}

/// Every value in the sequence is representable.
pub open spec fn wf_values(vs: Seq<DbValue>) -> bool {
    forall|i: int| 0 <= i < vs.len() ==> wf_value(#[trigger] vs[i])
}

// ------------------------------------------------------------------
// Encoding.
// ------------------------------------------------------------------

/// Characters as consecutive 4-byte little-endian scalar values.
pub open spec fn enc_chars(s: Seq<char>) -> Seq<u8>
    decreases s.len(),
{
    if s.len() == 0 {
        Seq::empty()
    } else {
        spec_u32_to_le_bytes(s[0] as u32) + enc_chars(s.drop_first())
    }
}

/// One tagged value.
pub open spec fn enc_value(v: DbValue) -> Seq<u8> {
    match v {
        DbValue::Int(i) => if i >= 0 {
            seq![tag_int(), 0u8] + spec_u64_to_le_bytes(i as u64)
        } else {
            seq![tag_int(), 1u8] + spec_u64_to_le_bytes((-i - 1) as u64)
        },
        DbValue::Text(s) => seq![tag_text()] + spec_u64_to_le_bytes(s.len() as u64) + enc_chars(s),
        DbValue::Bytes(b) => seq![tag_bytes()] + spec_u64_to_le_bytes(b.len() as u64) + b,
    }
}

/// The values, one after another.
pub open spec fn enc_list(vs: Seq<DbValue>) -> Seq<u8>
    decreases vs.len(),
{
    if vs.len() == 0 {
        Seq::empty()
    } else {
        enc_value(vs[0]) + enc_list(vs.drop_first())
    }
}

/// The full frame: count, then the values.
pub open spec fn enc_values(vs: Seq<DbValue>) -> Seq<u8> {
    spec_u64_to_le_bytes(vs.len() as u64) + enc_list(vs)
}

// ------------------------------------------------------------------
// Decoding.  Every parser is strict: it accepts exactly the bytes the
// encoder produces, so the encoding is canonical.
// ------------------------------------------------------------------

/// Parse exactly `n` characters from exactly `4 * n` bytes.
pub open spec fn dec_chars(b: Seq<u8>, n: int) -> Option<Seq<char>>
    decreases n,
{
    if n <= 0 {
        if n == 0 && b.len() == 0 {
            Some(Seq::empty())
        } else {
            None
        }
    } else if b.len() < 4 {
        None
    } else {
        let c = spec_u32_from_le_bytes(b.take(4));
        if valid_scalar(c) {
            match dec_chars(b.skip(4), n - 1) {
                Some(s) => Some(seq![c as char] + s),
                None => None,
            }
        } else {
            None
        }
    }
}

/// Parse one tagged value from the front of `b`; returns the value
/// and how many bytes it occupied.
pub open spec fn dec_value(b: Seq<u8>) -> Option<(DbValue, int)> {
    if b.len() < 1 {
        None
    } else if b[0] == tag_int() {
        if b.len() < 10 {
            None
        } else {
            let sign = b[1];
            let mag = spec_u64_from_le_bytes(b.subrange(2, 10));
            if mag > i64::MAX as u64 {
                None
            } else if sign == 0 {
                Some((DbValue::Int(mag as int), 10))
            } else if sign == 1 {
                Some((DbValue::Int(-(mag as int) - 1), 10))
            } else {
                None
            }
        }
    } else if b[0] == tag_text() {
        if b.len() < 9 {
            None
        } else {
            let n = spec_u64_from_le_bytes(b.subrange(1, 9)) as int;
            if b.len() < 9 + 4 * n {
                None
            } else {
                match dec_chars(b.subrange(9, 9 + 4 * n), n) {
                    Some(s) => Some((DbValue::Text(s), 9 + 4 * n)),
                    None => None,
                }
            }
        }
    } else if b[0] == tag_bytes() {
        if b.len() < 9 {
            None
        } else {
            let n = spec_u64_from_le_bytes(b.subrange(1, 9)) as int;
            if b.len() < 9 + n {
                None
            } else {
                Some((DbValue::Bytes(b.subrange(9, 9 + n)), 9 + n))
            }
        }
    } else {
        None
    }
}

/// Parse exactly `n` values, consuming all of `b`.
pub open spec fn dec_list(b: Seq<u8>, n: int) -> Option<Seq<DbValue>>
    decreases n,
{
    if n <= 0 {
        if n == 0 && b.len() == 0 {
            Some(Seq::empty())
        } else {
            None
        }
    } else {
        match dec_value(b) {
            Some((v, used)) => match dec_list(b.skip(used), n - 1) {
                Some(vs) => Some(seq![v] + vs),
                None => None,
            },
            None => None,
        }
    }
}

/// Parse a full frame, consuming all of `b`.
pub open spec fn dec_values(b: Seq<u8>) -> Option<Seq<DbValue>> {
    if b.len() < 8 {
        None
    } else {
        dec_list(b.skip(8), spec_u64_from_le_bytes(b.take(8)) as int)
    }
}

// ------------------------------------------------------------------
// The codec laws: decoding recovers exactly what was encoded, and
// decoding succeeds only on encoder output.
// ------------------------------------------------------------------

proof fn lemma_enc_chars_len(s: Seq<char>)
    ensures
        enc_chars(s).len() == 4 * s.len(),
    decreases s.len(),
{
    vstd::bytes::lemma_auto_spec_u32_to_from_le_bytes();
    if s.len() > 0 {
        lemma_enc_chars_len(s.drop_first());
    }
}

proof fn lemma_enc_chars_round(s: Seq<char>)
    ensures
        dec_chars(enc_chars(s), s.len() as int) == Some(s),
    decreases s.len(),
{
    vstd::bytes::lemma_auto_spec_u32_to_from_le_bytes();
    if s.len() == 0 {
        assert(s =~= Seq::<char>::empty());
    } else {
        let b = enc_chars(s);
        lemma_enc_chars_len(s.drop_first());
        assert(b.take(4) =~= spec_u32_to_le_bytes(s[0] as u32));
        assert(b.skip(4) =~= enc_chars(s.drop_first()));
        let c = spec_u32_from_le_bytes(b.take(4));
        assert(spec_u32_to_le_bytes(s[0] as u32).len() == 4);
        assert(c == s[0] as u32);
        vstd::utf8::char_is_scalar(s[0]);
        assert(valid_scalar(c));
        vstd::utf8::char_u32_cast(s[0], c);
        assert(c as char == s[0]);
        lemma_enc_chars_round(s.drop_first());
        assert(seq![s[0]] + s.drop_first() =~= s);
    }
}

proof fn lemma_chars_canonical(b: Seq<u8>, n: int, s: Seq<char>)
    requires
        dec_chars(b, n) == Some(s),
    ensures
        s.len() == n,
        b.len() == 4 * n,
        enc_chars(s) == b,
    decreases n,
{
    vstd::bytes::lemma_auto_spec_u32_to_from_le_bytes();
    if n <= 0 {
        assert(enc_chars(s) =~= b);
    } else {
        let c = spec_u32_from_le_bytes(b.take(4));
        match dec_chars(b.skip(4), n - 1) {
            Some(tail) => {
                lemma_chars_canonical(b.skip(4), n - 1, tail);
                assert(s == seq![c as char] + tail);
                assert(s[0] == c as char);
                assert(s.drop_first() =~= tail);
                vstd::utf8::char_u32_cast(c as char, (c as char) as u32);
                assert(((c as char) as u32) as char == c as char);
                vstd::utf8::char_is_scalar(c as char);
                assert(s[0] as u32 == c) by {
                    assert(valid_scalar(c));
                }
                assert(spec_u32_to_le_bytes(c) == b.take(4));
                assert(enc_chars(s) =~= b);
            },
            None => {
                assert(false);
            },
        }
    }
}

proof fn lemma_value_round(v: DbValue, rest: Seq<u8>)
    requires
        wf_value(v),
    ensures
        dec_value(enc_value(v) + rest) == Some((v, enc_value(v).len() as int)),
{
    vstd::bytes::lemma_auto_spec_u64_to_from_le_bytes();
    let b = enc_value(v) + rest;
    match v {
        DbValue::Int(i) => {
            if i >= 0 {
                let mag = i as u64;
                assert(b[0] == tag_int());
                assert(b[1] == 0u8);
                assert(b.subrange(2, 10) =~= spec_u64_to_le_bytes(mag));
                assert(spec_u64_from_le_bytes(b.subrange(2, 10)) == mag);
                assert(mag <= i64::MAX as u64);
                assert(mag as int == i);
            } else {
                let mag = (-i - 1) as u64;
                assert(b[0] == tag_int());
                assert(b[1] == 1u8);
                assert(b.subrange(2, 10) =~= spec_u64_to_le_bytes(mag));
                assert(spec_u64_from_le_bytes(b.subrange(2, 10)) == mag);
                assert(mag <= i64::MAX as u64);
                assert(-(mag as int) - 1 == i);
            }
        },
        DbValue::Text(s) => {
            lemma_enc_chars_len(s);
            assert(b[0] == tag_text());
            assert(b.subrange(1, 9) =~= spec_u64_to_le_bytes(s.len() as u64));
            let n = spec_u64_from_le_bytes(b.subrange(1, 9)) as int;
            assert(n == s.len());
            assert(b.len() >= 9 + 4 * n);
            assert(b.subrange(9, 9 + 4 * n) =~= enc_chars(s));
            lemma_enc_chars_round(s);
            assert(dec_chars(b.subrange(9, 9 + 4 * n), n) == Some(s));
            assert(enc_value(v).len() == 9 + 4 * n);
        },
        DbValue::Bytes(bytes) => {
            assert(b[0] == tag_bytes());
            assert(b.subrange(1, 9) =~= spec_u64_to_le_bytes(bytes.len() as u64));
            let n = spec_u64_from_le_bytes(b.subrange(1, 9)) as int;
            assert(n == bytes.len());
            assert(b.subrange(9, 9 + n) =~= bytes);
            assert(enc_value(v).len() == 9 + n);
        },
    }
}

proof fn lemma_value_canonical(b: Seq<u8>, v: DbValue, used: int)
    requires
        dec_value(b) == Some((v, used)),
    ensures
        wf_value(v),
        1 <= used <= b.len(),
        enc_value(v) == b.take(used),
{
    vstd::bytes::lemma_auto_spec_u64_to_from_le_bytes();
    if b[0] == tag_int() {
        let sign = b[1];
        let mag = spec_u64_from_le_bytes(b.subrange(2, 10));
        assert(spec_u64_to_le_bytes(mag) == b.subrange(2, 10));
        if sign == 0 {
            assert(v == DbValue::Int(mag as int));
            assert(mag as int >= 0);
            assert(enc_value(v) =~= b.take(10));
        } else {
            assert(v == DbValue::Int(-(mag as int) - 1));
            assert(-(mag as int) - 1 < 0);
            assert((-(-(mag as int) - 1) - 1) as u64 == mag);
            assert(enc_value(v) =~= b.take(10));
        }
    } else if b[0] == tag_text() {
        let n = spec_u64_from_le_bytes(b.subrange(1, 9)) as int;
        assert(spec_u64_to_le_bytes(spec_u64_from_le_bytes(b.subrange(1, 9))) == b.subrange(1, 9));
        match dec_chars(b.subrange(9, 9 + 4 * n), n) {
            Some(s) => {
                lemma_chars_canonical(b.subrange(9, 9 + 4 * n), n, s);
                assert(v == DbValue::Text(s));
                assert(s.len() == n);
                assert(s.len() as u64 == spec_u64_from_le_bytes(b.subrange(1, 9)));
                assert(enc_value(v) =~= b.take(9 + 4 * n));
            },
            None => {
                assert(false);
            },
        }
    } else if b[0] == tag_bytes() {
        let n = spec_u64_from_le_bytes(b.subrange(1, 9)) as int;
        assert(spec_u64_to_le_bytes(spec_u64_from_le_bytes(b.subrange(1, 9))) == b.subrange(1, 9));
        assert(v == DbValue::Bytes(b.subrange(9, 9 + n)));
        assert(b.subrange(9, 9 + n).len() == n);
        assert(b.subrange(9, 9 + n).len() as u64 == spec_u64_from_le_bytes(b.subrange(1, 9)));
        assert(enc_value(v) =~= b.take(9 + n));
    } else {
        assert(false);
    }
}

proof fn lemma_list_round(vs: Seq<DbValue>)
    requires
        wf_values(vs),
    ensures
        dec_list(enc_list(vs), vs.len() as int) == Some(vs),
    decreases vs.len(),
{
    if vs.len() == 0 {
        assert(vs =~= Seq::<DbValue>::empty());
    } else {
        let b = enc_list(vs);
        assert(wf_value(vs[0]));
        lemma_value_round(vs[0], enc_list(vs.drop_first()));
        let used = enc_value(vs[0]).len() as int;
        assert(b == enc_value(vs[0]) + enc_list(vs.drop_first()));
        assert(dec_value(b) == Some((vs[0], used)));
        assert(b.skip(used) =~= enc_list(vs.drop_first()));
        assert(wf_values(vs.drop_first()));
        lemma_list_round(vs.drop_first());
        assert(seq![vs[0]] + vs.drop_first() =~= vs);
    }
}

proof fn lemma_list_canonical(b: Seq<u8>, n: int, vs: Seq<DbValue>)
    requires
        dec_list(b, n) == Some(vs),
    ensures
        vs.len() == n,
        wf_values(vs),
        enc_list(vs) == b,
    decreases n,
{
    if n <= 0 {
        assert(enc_list(vs) =~= b);
    } else {
        match dec_value(b) {
            Some((v, used)) => {
                lemma_value_canonical(b, v, used);
                match dec_list(b.skip(used), n - 1) {
                    Some(tail) => {
                        lemma_list_canonical(b.skip(used), n - 1, tail);
                        assert(vs == seq![v] + tail);
                        assert(vs[0] == v);
                        assert(vs.drop_first() =~= tail);
                        assert(enc_list(vs) == enc_value(v) + enc_list(tail));
                        assert(b =~= b.take(used) + b.skip(used));
                        assert(enc_list(vs) =~= b);
                    },
                    None => {
                        assert(false);
                    },
                }
            },
            None => {
                assert(false);
            },
        }
    }
}

/// Decoding recovers exactly what was encoded: the codec loses
/// nothing.
pub proof fn lemma_values_round(vs: Seq<DbValue>)
    requires
        wf_values(vs),
        vs.len() <= u64::MAX,
    ensures
        dec_values(enc_values(vs)) == Some(vs),
{
    vstd::bytes::lemma_auto_spec_u64_to_from_le_bytes();
    let b = enc_values(vs);
    assert(b.take(8) =~= spec_u64_to_le_bytes(vs.len() as u64));
    assert(spec_u64_from_le_bytes(b.take(8)) as int == vs.len());
    assert(b.skip(8) =~= enc_list(vs));
    lemma_list_round(vs);
}

// ------------------------------------------------------------------
// Executable encoder.
// ------------------------------------------------------------------

/// Relies on `str::chars` (std): yields exactly the string's
/// characters in order, i.e. the string's view.
#[verifier::external_body]
fn str_chars(s: &str) -> (r: Vec<char>)
    ensures
        r@ == s@,
{
    s.chars().collect()
}

/// Relies on `String`'s `FromIterator<char>` (std): concatenates
/// exactly the given characters into a string.
#[verifier::external_body]
pub(crate) fn chars_to_string(cs: &Vec<char>) -> (r: String)
    ensures
        r@ == cs@,
{
    cs.iter().collect()
}

/// Relies on `char::from_u32` (std): `Some` exactly on Unicode scalar
/// values, returning the character with that code.
pub assume_specification[ char::from_u32 ](i: u32) -> (r: Option<char>)
    ensures
        valid_scalar(i) ==> r == Some(i as char),
        !valid_scalar(i) ==> r is None,
;

proof fn lemma_enc_chars_snoc(s: Seq<char>, c: char)
    ensures
        enc_chars(s.push(c)) == enc_chars(s) + spec_u32_to_le_bytes(c as u32),
    decreases s.len(),
{
    if s.len() == 0 {
        assert(s.push(c).drop_first() =~= s);
        assert(enc_chars(s) =~= Seq::<u8>::empty());
        assert(s.push(c)[0] == c);
        assert(enc_chars(s.push(c)) =~= enc_chars(s) + spec_u32_to_le_bytes(c as u32));
    } else {
        lemma_enc_chars_snoc(s.drop_first(), c);
        assert(s.push(c).drop_first() =~= s.drop_first().push(c));
        assert(enc_chars(s.push(c)) == spec_u32_to_le_bytes(s.push(c)[0] as u32) + enc_chars(
            s.drop_first().push(c),
        ));
        assert(s.push(c)[0] == s[0]);
        assert(enc_chars(s.push(c)) =~= enc_chars(s) + spec_u32_to_le_bytes(c as u32));
    }
}

proof fn lemma_enc_list_snoc(vs: Seq<DbValue>, v: DbValue)
    ensures
        enc_list(vs.push(v)) == enc_list(vs) + enc_value(v),
    decreases vs.len(),
{
    if vs.len() == 0 {
        assert(vs.push(v).drop_first() =~= vs);
        assert(enc_list(vs) =~= Seq::<u8>::empty());
        assert(vs.push(v)[0] == v);
        assert(enc_list(vs.push(v)) =~= enc_list(vs) + enc_value(v));
    } else {
        lemma_enc_list_snoc(vs.drop_first(), v);
        assert(vs.push(v).drop_first() =~= vs.drop_first().push(v));
        assert(enc_list(vs.push(v)) == enc_value(vs.push(v)[0]) + enc_list(
            vs.drop_first().push(v),
        ));
        assert(vs.push(v)[0] == vs[0]);
        assert(enc_list(vs.push(v)) =~= enc_list(vs) + enc_value(v));
    }
}

/// Append the encoding of one value.  Every value an exec `Value`
/// holds is representable, and the encoder observes that.
fn encode_value(v: &Value, out: &mut Vec<u8>)
    ensures
        final(out)@ == old(out)@ + enc_value(v@),
        wf_value(v@),
{
    match v {
        Value::Integer(i) => {
            out.push(0u8);
            if *i >= 0 {
                out.push(0u8);
                let mut bs = vstd::bytes::u64_to_le_bytes(*i as u64);
                out.append(&mut bs);
                assert(out@ =~= old(out)@ + enc_value(v@));
            } else {
                out.push(1u8);
                let m: i64 = -(*i + 1);
                let mut bs = vstd::bytes::u64_to_le_bytes(m as u64);
                out.append(&mut bs);
                assert(m as u64 == (-(*i as int) - 1) as u64);
                assert(out@ =~= old(out)@ + enc_value(v@));
            }
        },
        Value::Text(s) => {
            out.push(1u8);
            let cs = str_chars(s.as_str());
            let mut lb = vstd::bytes::u64_to_le_bytes(cs.len() as u64);
            out.append(&mut lb);
            let ghost base = out@;
            assert(base == old(out)@ + seq![1u8] + spec_u64_to_le_bytes(s@.len() as u64));
            let mut k: usize = 0;
            while k < cs.len()
                invariant
                    0 <= k <= cs@.len(),
                    cs@ == s@,
                    base == old(out)@ + seq![1u8] + spec_u64_to_le_bytes(s@.len() as u64),
                    out@ == base + enc_chars(s@.take(k as int)),
                decreases cs@.len() - k,
            {
                let code = cs[k] as u32;
                let mut cb = vstd::bytes::u32_to_le_bytes(code);
                out.append(&mut cb);
                proof {
                    lemma_enc_chars_snoc(s@.take(k as int), s@[k as int]);
                    assert(s@.take(k as int).push(s@[k as int]) =~= s@.take(k as int + 1));
                }
                k = k + 1;
            }
            proof {
                assert(s@.take(s@.len() as int) =~= s@);
                assert(out@ =~= old(out)@ + enc_value(v@));
            }
        },
        Value::Blob(b) => {
            out.push(2u8);
            let mut lb = vstd::bytes::u64_to_le_bytes(b.len() as u64);
            out.append(&mut lb);
            let ghost base = out@;
            let mut k: usize = 0;
            while k < b.len()
                invariant
                    0 <= k <= b@.len(),
                    base == old(out)@ + seq![2u8] + spec_u64_to_le_bytes(b@.len() as u64),
                    out@ == base + b@.take(k as int),
                decreases b@.len() - k,
            {
                let byte = b[k];
                out.push(byte);
                proof {
                    assert(b@.take(k as int).push(b@[k as int]) =~= b@.take(k as int + 1));
                }
                k = k + 1;
            }
            proof {
                assert(b@.take(b@.len() as int) =~= b@);
                assert(out@ =~= old(out)@ + enc_value(v@));
            }
        },
    }
}

/// Encode an ordered sequence of values as one payload frame.
pub fn encode_values(vals: &Vec<Value>) -> (r: Vec<u8>)
    ensures
        r@ == enc_values(vals@.map_values(|x: Value| x@)),
        wf_values(vals@.map_values(|x: Value| x@)),
{
    let ghost vv = vals@.map_values(|x: Value| x@);
    let mut out = vstd::bytes::u64_to_le_bytes(vals.len() as u64);
    let ghost base = out@;
    let mut i: usize = 0;
    while i < vals.len()
        invariant
            0 <= i <= vals@.len(),
            vv == vals@.map_values(|x: Value| x@),
            base == spec_u64_to_le_bytes(vv.len() as u64),
            out@ == base + enc_list(vv.take(i as int)),
            forall|j: int| 0 <= j < i ==> wf_value(#[trigger] vv[j]),
        decreases vals@.len() - i,
    {
        encode_value(&vals[i], &mut out);
        proof {
            lemma_enc_list_snoc(vv.take(i as int), vv[i as int]);
            assert(vv.take(i as int).push(vv[i as int]) =~= vv.take(i as int + 1));
        }
        i = i + 1;
    }
    proof {
        assert(vv.take(vv.len() as int) =~= vv);
        assert(out@ =~= enc_values(vv));
    }
    out
}

// ------------------------------------------------------------------
// Executable decoder.
// ------------------------------------------------------------------

/// Decode one tagged value starting at byte `pos`.
fn decode_value(b: &Vec<u8>, pos: usize) -> (r: Option<(Value, usize)>)
    requires
        pos <= b@.len(),
    ensures
        match r {
            Some(p) => {
                &&& dec_value(b@.skip(pos as int)) == Some((p.0@, p.1 as int))
                &&& 1 <= p.1
                &&& pos + p.1 <= b@.len()
            },
            None => dec_value(b@.skip(pos as int)) is None,
        },
{
    let ghost tail = b@.skip(pos as int);
    let n_avail = b.len() - pos;
    if n_avail < 1 {
        return None;
    }
    let tag = b[pos];
    assert(tail[0] == b@[pos as int]);
    if tag == 0u8 {
        if n_avail < 10 {
            return None;
        }
        let sign = b[pos + 1];
        assert(tail[1] == b@[pos as int + 1]);
        let magslice = vstd::slice::slice_subrange(b.as_slice(), pos + 2, pos + 10);
        let mag = vstd::bytes::u64_from_le_bytes(magslice);
        proof {
            assert(magslice@ =~= tail.subrange(2, 10));
        }
        if mag > 0x7FFF_FFFF_FFFF_FFFFu64 {
            return None;
        }
        if sign == 0u8 {
            Some((Value::Integer(mag as i64), 10))
        } else if sign == 1u8 {
            let val: i64 = -(mag as i64) - 1;
            Some((Value::Integer(val), 10))
        } else {
            None
        }
    } else if tag == 1u8 {
        if n_avail < 9 {
            return None;
        }
        let lenslice = vstd::slice::slice_subrange(b.as_slice(), pos + 1, pos + 9);
        let n = vstd::bytes::u64_from_le_bytes(lenslice);
        proof {
            assert(lenslice@ =~= tail.subrange(1, 9));
        }
        let avail = n_avail - 9;
        if (avail as u128) < (n as u128) * 4 {
            assert(tail.len() < 9 + 4 * (n as int));
            return None;
        }
        assert(4 * (n as int) <= avail as int);
        let nn = n as usize;
        assert(nn as int == n as int);
        let ghost charsub = tail.subrange(9, 9 + 4 * (n as int));
        let mut cs: Vec<char> = Vec::new();
        let mut k: usize = 0;
        proof {
            assert(avail as int == b@.len() - pos - 9);
            assert(pos + 9 + 4 * (nn as int) <= b@.len());
            assert(charsub.skip(0) =~= charsub);
            match dec_chars(charsub, nn as int) {
                Some(t) => {
                    assert(cs@ + t =~= t);
                },
                None => {},
            }
        }
        while k < nn
            invariant
                0 <= k <= nn,
                nn as int == n as int,
                b@.len() <= usize::MAX,
                pos + 9 + 4 * nn <= b@.len(),
                tail == b@.skip(pos as int),
                tail.len() == b@.len() - pos,
                tail.len() >= 9 + 4 * (nn as int),
                tail[0] == 1u8,
                n == spec_u64_from_le_bytes(tail.subrange(1, 9)),
                charsub == tail.subrange(9, 9 + 4 * (nn as int)),
                charsub.len() == 4 * nn,
                cs@.len() == k,
                dec_chars(charsub, nn as int) == (match dec_chars(
                    charsub.skip(4 * k as int),
                    nn - k,
                ) {
                    Some(t) => Some(cs@ + t),
                    None => None::<Seq<char>>,
                }),
            decreases nn - k,
        {
            let off = pos + 9 + 4 * k;
            let csl = vstd::slice::slice_subrange(b.as_slice(), off, off + 4);
            let code = vstd::bytes::u32_from_le_bytes(csl);
            proof {
                assert(csl@ =~= charsub.skip(4 * k as int).take(4));
            }
            let okc = code < 0xD800u32 || (code >= 0xE000u32 && code <= 0x10FFFFu32);
            proof {
                assert(okc == valid_scalar(code));
            }
            if !okc {
                proof {
                    assert(dec_chars(charsub.skip(4 * k as int), nn - k) is None);
                }
                return None;
            }
            let ch = char::from_u32(code).unwrap();
            cs.push(ch);
            proof {
                assert(charsub.skip(4 * k as int).skip(4) =~= charsub.skip(4 * (k as int + 1)));
                match dec_chars(charsub.skip(4 * (k as int + 1)), nn - k - 1) {
                    Some(t) => {
                        assert(dec_chars(charsub.skip(4 * k as int), nn - k) == Some(
                            seq![code as char] + t,
                        ));
                        assert(cs@ == cs@.subrange(0, k as int) + seq![ch]) by {
                            assert(cs@.subrange(0, k as int) =~= cs@.drop_last());
                            assert(cs@ =~= cs@.drop_last().push(ch));
                        }
                        assert(cs@.drop_last() + (seq![code as char] + t) =~= cs@ + t);
                    },
                    None => {},
                }
            }
            k = k + 1;
        }
        proof {
            assert(charsub.skip(4 * (nn as int)).len() == 0);
            assert(charsub.skip(4 * (nn as int)) =~= Seq::<u8>::empty());
            assert(dec_chars(charsub.skip(4 * (nn as int)), 0) == Some(Seq::<char>::empty()));
            assert(cs@ + Seq::<char>::empty() =~= cs@);
            assert(dec_chars(charsub, nn as int) == Some(cs@));
        }
        let text = chars_to_string(&cs);
        Some((Value::Text(text), 9 + 4 * nn))
    } else if tag == 2u8 {
        if n_avail < 9 {
            return None;
        }
        let lenslice = vstd::slice::slice_subrange(b.as_slice(), pos + 1, pos + 9);
        let n = vstd::bytes::u64_from_le_bytes(lenslice);
        proof {
            assert(lenslice@ =~= tail.subrange(1, 9));
        }
        let avail = n_avail - 9;
        if (n as u128) > (avail as u128) {
            assert(tail.len() < 9 + n as int);
            return None;
        }
        let nn = n as usize;
        let bs = vstd::slice::slice_subrange(b.as_slice(), pos + 9, pos + 9 + nn);
        let blob = vstd::slice::slice_to_vec(bs);
        proof {
            assert(bs@ =~= tail.subrange(9, 9 + n as int));
        }
        Some((Value::Blob(blob), 9 + nn))
    } else {
        None
    }
}

/// Decode a payload frame back into its ordered sequence of values;
/// `None` exactly when the bytes are not a frame the encoder produces.
pub fn decode_values(b: &Vec<u8>) -> (r: Option<Vec<Value>>)
    ensures
        match r {
            Some(v) => dec_values(b@) == Some(v@.map_values(|x: Value| x@)),
            None => dec_values(b@) is None,
        },
{
    if b.len() < 8 {
        return None;
    }
    let lenslice = vstd::slice::slice_subrange(b.as_slice(), 0, 8);
    let n = vstd::bytes::u64_from_le_bytes(lenslice);
    proof {
        assert(lenslice@ =~= b@.take(8));
    }
    let mut acc: Vec<Value> = Vec::new();
    let mut pos: usize = 8;
    let mut k: u64 = 0;
    while k < n
        invariant
            8 <= pos <= b@.len(),
            b@.len() <= usize::MAX,
            0 <= k <= n,
            n == spec_u64_from_le_bytes(b@.take(8)),
            b@.len() >= 8,
            acc@.len() == k,
            dec_list(b@.skip(8), n as int) == (match dec_list(b@.skip(pos as int), n - k) {
                Some(t) => Some(acc@.map_values(|x: Value| x@) + t),
                None => None::<Seq<DbValue>>,
            }),
        decreases n - k,
    {
        match decode_value(b, pos) {
            Some(p) => {
                let (v, used) = p;
                let ghost accv = acc@.map_values(|x: Value| x@);
                proof {
                    assert(b@.skip(pos as int).skip(used as int) =~= b@.skip(
                        pos as int + used as int,
                    ));
                    match dec_list(b@.skip(pos as int + used as int), n - k - 1) {
                        Some(t) => {
                            assert(dec_list(b@.skip(pos as int), n - k) == Some(seq![v@] + t));
                            assert(accv + (seq![v@] + t) =~= accv.push(v@) + t);
                        },
                        None => {},
                    }
                }
                acc.push(v);
                proof {
                    assert(acc@.map_values(|x: Value| x@) =~= accv.push(v@));
                }
                pos = pos + used;
            },
            None => {
                proof {
                    assert(dec_list(b@.skip(pos as int), n - k) is None);
                }
                return None;
            },
        }
        k = k + 1;
    }
    if pos == b.len() {
        proof {
            assert(b@.skip(pos as int).len() == 0);
            assert(b@.skip(pos as int) =~= Seq::<u8>::empty());
            assert(dec_list(b@.skip(pos as int), 0) == Some(Seq::<DbValue>::empty()));
            assert(acc@.map_values(|x: Value| x@) + Seq::<DbValue>::empty() =~= acc@.map_values(
                |x: Value| x@,
            ));
        }
        Some(acc)
    } else {
        proof {
            assert(b@.skip(pos as int).len() > 0);
            assert(dec_list(b@.skip(pos as int), 0) is None);
        }
        None
    }
}

/// Decoding succeeds only on encoder output, and identifies it: the
/// encoding is canonical.
pub proof fn lemma_values_canonical(b: Seq<u8>, vs: Seq<DbValue>)
    requires
        dec_values(b) == Some(vs),
    ensures
        wf_values(vs),
        vs.len() <= u64::MAX,
        enc_values(vs) == b,
{
    vstd::bytes::lemma_auto_spec_u64_to_from_le_bytes();
    let n = spec_u64_from_le_bytes(b.take(8)) as int;
    lemma_list_canonical(b.skip(8), n, vs);
    assert(spec_u64_to_le_bytes(spec_u64_from_le_bytes(b.take(8))) == b.take(8));
    assert(vs.len() as u64 == spec_u64_from_le_bytes(b.take(8)));
    assert(enc_values(vs) =~= b);
}

} // verus!
