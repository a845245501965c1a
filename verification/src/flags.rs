//! The type classifier: maps a JSON value's variant to a fixed bit in a
//! flags word, and renders a flags word as the list of matched type names.
use vstd::prelude::*;
use crate::value::JsonValue;

verus! {

pub const FLAG_NULL: u128 = 0x01;

pub const FLAG_BOOL: u128 = 0x02;

pub const FLAG_NUMBER: u128 = 0x04;

pub const FLAG_STRING: u128 = 0x08;

pub const FLAG_ARRAY: u128 = 0x10;

pub const FLAG_OBJECT: u128 = 0x20;

/// The flags word of a value: the single bit assigned to its JSON type.
pub open spec fn flags_of(v: JsonValue) -> u128 {
    match v {
        JsonValue::Null => FLAG_NULL,
        JsonValue::Bool(_) => FLAG_BOOL,
        JsonValue::Number(_) => FLAG_NUMBER,
        JsonValue::String(_) => FLAG_STRING,
        JsonValue::Array(_) => FLAG_ARRAY,
        JsonValue::Object(_) => FLAG_OBJECT,
    }
}

/// Classifies a value: total over the six JSON types, pure, and it always
/// returns the bit that `flags_of` assigns to the value's type.
pub fn get_flags(value: &JsonValue) -> (flags: u128)
    ensures
        flags == flags_of(*value),
{
    match value {
        JsonValue::Null => FLAG_NULL,
        JsonValue::Bool(_) => FLAG_BOOL,
        JsonValue::Number(_) => FLAG_NUMBER,
        JsonValue::String(_) => FLAG_STRING,
        JsonValue::Array(_) => FLAG_ARRAY,
        JsonValue::Object(_) => FLAG_OBJECT,
    }
}

/// The type names whose bits are set in `f`, in the fixed order
/// null, bool, number, string, array, object.
pub open spec fn flag_names(f: u128) -> Seq<Seq<char>> {
    (if f & FLAG_NULL != 0 { seq!["null"@] } else { Seq::empty() })
    + (if f & FLAG_BOOL != 0 { seq!["bool"@] } else { Seq::empty() })
    + (if f & FLAG_NUMBER != 0 { seq!["number"@] } else { Seq::empty() })
    + (if f & FLAG_STRING != 0 { seq!["string"@] } else { Seq::empty() })
    + (if f & FLAG_ARRAY != 0 { seq!["array"@] } else { Seq::empty() })
    + (if f & FLAG_OBJECT != 0 { seq!["object"@] } else { Seq::empty() })
}

/// Renders a flags word as the names of the set type bits, for a
/// presentation layer to consume.
pub fn flags_to_vec(flags_bitfield: u128) -> (flags: Vec<String>)
    ensures
        flags.deep_view() == flag_names(flags_bitfield),
{
    let mut flags: Vec<String> = Vec::new();
    if flags_bitfield & FLAG_NULL != 0 {
        flags.push("null".to_string());
    }
    if flags_bitfield & FLAG_BOOL != 0 {
        flags.push("bool".to_string());
    }
    if flags_bitfield & FLAG_NUMBER != 0 {
        flags.push("number".to_string());
    }
    if flags_bitfield & FLAG_STRING != 0 {
        flags.push("string".to_string());
    }
    if flags_bitfield & FLAG_ARRAY != 0 {
        flags.push("array".to_string());
    }
    if flags_bitfield & FLAG_OBJECT != 0 {
        flags.push("object".to_string());
    }
    proof {
        assert(flags.deep_view() =~~= flag_names(flags_bitfield));
    }
    flags
}

} // verus!
