//! Canonical serialization of a JSON value to its compact byte form:
//! `null`, `true`/`false`, decimal numbers, quoted-and-escaped strings,
//! `[..]` with comma-separated elements, `{..}` with comma-separated
//! `"key":value` members.
use vstd::prelude::*;
use crate::value::JsonValue;

verus! {

pub const COMMA: u8 = 44;

pub const COLON: u8 = 58;

pub const LBRACKET: u8 = 91;

pub const RBRACKET: u8 = 93;

pub const LBRACE: u8 = 123;

pub const RBRACE: u8 = 125;

/// The decimal digits of `n`, most significant first, as ASCII bytes.
pub open spec fn dec_digits(n: nat) -> Seq<u8>
    decreases n,
{
    if n < 10 {
        seq![(48 + n) as u8]
    } else {
        dec_digits(n / 10).push((48 + n % 10) as u8)
    }
}

/// The decimal representation of an integer as ASCII bytes: a leading
/// minus sign for negative values, then the digits.
pub open spec fn dec_bytes(n: int) -> Seq<u8> {
    if n < 0 {
        seq![45u8] + dec_digits((-n) as nat)
    } else {
        dec_digits(n as nat)
    }
}

/// The bytes of the JSON string literal for the characters `s`: an opening
/// quote, the characters escaped as serde_json escapes them, a closing
/// quote. A function of the characters alone.
pub uninterp spec fn json_string_bytes(s: Seq<char>) -> Seq<u8>;

/// The canonical compact serialization of a value.
pub open spec fn ser(v: JsonValue) -> Seq<u8>
    decreases v,
{
    match v {
        JsonValue::Null => seq![110u8, 117u8, 108u8, 108u8],
        JsonValue::Bool(b) => if b {
            seq![116u8, 114u8, 117u8, 101u8]
        } else {
            seq![102u8, 97u8, 108u8, 115u8, 101u8]
        },
        JsonValue::Number(n) => dec_bytes(n as int),
        JsonValue::String(s) => json_string_bytes(s@),
        JsonValue::Array(elems) => seq![LBRACKET] + ser_items(elems@, elems@.len() as int)
            + seq![RBRACKET],
        JsonValue::Object(members) => seq![LBRACE] + ser_members(members@, members@.len() as int)
            + seq![RBRACE],
    }
}

/// The serialization of the first `i` elements of an array body, with a
/// comma before every element but the first.
pub open spec fn ser_items(s: Seq<JsonValue>, i: int) -> Seq<u8>
    decreases s, i,
{
    if i <= 0 || i > s.len() {
        Seq::empty()
    } else {
        ser_items(s, i - 1) + (if i == 1 {
            Seq::<u8>::empty()
        } else {
            seq![COMMA]
        }) + ser(s[i - 1])
    }
}

/// The serialization of the first `i` members of an object body: each as
/// serialized key, a colon, serialized value, with a comma before every
/// member but the first.
pub open spec fn ser_members(ms: Seq<(String, JsonValue)>, i: int) -> Seq<u8>
    decreases ms, i,
{
    if i <= 0 || i > ms.len() {
        Seq::empty()
    } else {
        ser_members(ms, i - 1) + (if i == 1 {
            Seq::<u8>::empty()
        } else {
            seq![COMMA]
        }) + json_string_bytes(ms[i - 1].0@) + seq![COLON] + ser(ms[i - 1].1)
    }
}

/// Relies on serde_json::to_vec for an i64: it writes the decimal digits
/// of the value (via itoa) with a leading minus sign when negative, and
/// never fails for an integer.
#[verifier::external_body]
fn number_json_bytes(n: i64) -> (r: Vec<u8>)
    ensures
        r@ == dec_bytes(n as int),
{
    serde_json::to_vec(&n).unwrap()
}

/// Relies on serde_json::to_vec for a string slice: it writes one JSON
/// string literal whose bytes depend on the characters alone, and never
/// fails for a string.
#[verifier::external_body]
fn string_json_bytes(s: &str) -> (r: Vec<u8>)
    ensures
        r@ == json_string_bytes(s@),
{
    serde_json::to_vec(s).unwrap()
}

/// Serializes a value to its canonical compact byte form. Total: every
/// value in the model has a serialization.
pub fn serialize_value(value: &JsonValue) -> (out: Vec<u8>)
    ensures
        out@ == ser(*value),
    decreases *value,
{
    match value {
        JsonValue::Null => {
            let mut out: Vec<u8> = Vec::new();
            out.push(110);
            out.push(117);
            out.push(108);
            out.push(108);
            proof {
                assert(out@ =~= ser(*value));
            }
            out
        },
        JsonValue::Bool(b) => {
            let mut out: Vec<u8> = Vec::new();
            if *b {
                out.push(116);
                out.push(114);
                out.push(117);
                out.push(101);
            } else {
                out.push(102);
                out.push(97);
                out.push(108);
                out.push(115);
                out.push(101);
            }
            proof {
                assert(out@ =~= ser(*value));
            }
            out
        },
        JsonValue::Number(n) => number_json_bytes(*n),
        JsonValue::String(s) => string_json_bytes(s.as_str()),
        JsonValue::Array(elems) => {
            let mut out: Vec<u8> = Vec::new();
            out.push(LBRACKET);
            let n = elems.len();
            let mut i: usize = 0;
            while i < n
                invariant
                    i <= n,
                    n == elems@.len(),
                    *value == JsonValue::Array(*elems),
                    out@ =~= seq![LBRACKET] + ser_items(elems@, i as int),
                decreases n - i,
            {
                if i > 0 {
                    out.push(COMMA);
                }
                proof {
                    assert(decreases_to!(*value => value->Array_0));
                    assert(value->Array_0 == *elems);
                    assert(decreases_to!(*elems => elems@));
                    assert(decreases_to!(elems@ => elems@[i as int]));
                }
                let mut item = serialize_value(&elems[i]);
                out.append(&mut item);
                i = i + 1;
            }
            out.push(RBRACKET);
            proof {
                assert(out@ =~= ser(*value));
            }
            out
        },
        JsonValue::Object(members) => {
            let mut out: Vec<u8> = Vec::new();
            out.push(LBRACE);
            let n = members.len();
            let mut i: usize = 0;
            while i < n
                invariant
                    i <= n,
                    n == members@.len(),
                    *value == JsonValue::Object(*members),
                    out@ =~= seq![LBRACE] + ser_members(members@, i as int),
                decreases n - i,
            {
                if i > 0 {
                    out.push(COMMA);
                }
                let mut key_bytes = string_json_bytes(members[i].0.as_str());
                out.append(&mut key_bytes);
                out.push(COLON);
                proof {
                    assert(decreases_to!(*value => value->Object_0));
                    assert(value->Object_0 == *members);
                    assert(decreases_to!(*members => members@));
                    assert(decreases_to!(members@ => members@[i as int]));
                    assert(decreases_to!(members@[i as int] => members@[i as int].1));
                }
                let mut item = serialize_value(&members[i].1);
                out.append(&mut item);
                i = i + 1;
            }
            out.push(RBRACE);
            proof {
                assert(out@ =~= ser(*value));
            }
            out
        },
    }
}

} // verus!
