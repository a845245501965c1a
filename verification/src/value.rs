//! The in-memory JSON value model that the flattener walks.
//!
//! Numbers are modeled as 64-bit signed integers; object members keep
//! the order in which they were inserted, and the traversal follows
//! that order.
use vstd::prelude::*;

verus! {

/// A parsed JSON value: one of the six JSON types.
pub enum JsonValue {
    Null,
    Bool(bool),
    Number(i64),
    String(String),
    Array(Vec<JsonValue>),
    Object(Vec<(String, JsonValue)>),
}

/// Number of nodes in the value tree: 1 for a scalar, 1 plus the sum
/// over the children for an array or an object.
pub open spec fn node_count(v: JsonValue) -> nat
    decreases v,
{
    match v {
        JsonValue::Array(elems) => 1 + node_count_seq(elems@, elems@.len() as int),
        JsonValue::Object(members) => 1 + node_count_members(members@, members@.len() as int),
        _ => 1,
    }
}

/// Sum of `node_count` over the first `i` elements of `s`.
pub open spec fn node_count_seq(s: Seq<JsonValue>, i: int) -> nat
    decreases s, i,
{
    if i <= 0 || i > s.len() {
        0
    } else {
        node_count_seq(s, i - 1) + node_count(s[i - 1])
    }
}

/// Sum of `node_count` over the values of the first `i` members of `ms`.
pub open spec fn node_count_members(ms: Seq<(String, JsonValue)>, i: int) -> nat
    decreases ms, i,
{
    if i <= 0 || i > ms.len() {
        0
    } else {
        node_count_members(ms, i - 1) + node_count(ms[i - 1].1)
    }
}

/// Every value tree has at least its root node.
pub proof fn lemma_node_count_pos(v: JsonValue)
    ensures
        node_count(v) >= 1,
{
}

/// The running node count over a prefix grows with the prefix.
pub proof fn lemma_node_count_seq_mono(s: Seq<JsonValue>, i: int, j: int)
    requires
        0 <= i <= j <= s.len(),
    ensures
        node_count_seq(s, i) <= node_count_seq(s, j),
    decreases j - i,
{
    if i < j {
        lemma_node_count_seq_mono(s, i, j - 1);
    }
}

/// The running node count over a member prefix grows with the prefix.
pub proof fn lemma_node_count_members_mono(ms: Seq<(String, JsonValue)>, i: int, j: int)
    requires
        0 <= i <= j <= ms.len(),
    ensures
        node_count_members(ms, i) <= node_count_members(ms, j),
    decreases j - i,
{
    if i < j {
        lemma_node_count_members_mono(ms, i, j - 1);
    }
}

} // verus!
