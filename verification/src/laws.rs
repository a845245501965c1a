//! The laws of the flattening: what holds of every walk — one fragment
//! per node, indices contiguous and increasing, parents earlier in the
//! sequence and structurally enclosing their children, one type bit per
//! fragment, and a deterministic content hash.
use vstd::prelude::*;
use crate::flags::flags_of;
use crate::flatten::flat;
use crate::flatten::flat_members;
use crate::flatten::flat_seq;
use crate::flatten::frag_model;
use crate::flatten::lemma_flat_len;
use crate::flatten::lemma_flat_members_len;
use crate::flatten::lemma_flat_seq_len;
use crate::hash::md5_hex;
use crate::ser::ser;
use crate::util::u128_le_bytes;
use crate::value::JsonValue;
use crate::value::lemma_node_count_pos;
use crate::value::node_count;
use crate::value::node_count_members;
use crate::value::node_count_seq;

verus! {

/// The direct child values of a node: the elements of an array, the
/// member values of an object, nothing for a scalar.
pub open spec fn child_values(v: JsonValue) -> Seq<JsonValue> {
    match v {
        JsonValue::Array(elems) => elems@,
        JsonValue::Object(members) => members@.map_values(|m: (String, JsonValue)| m.1),
        _ => Seq::empty(),
    }
}

/// `c` is a direct child value of `p`.
pub open spec fn is_direct_child(p: JsonValue, c: JsonValue) -> bool {
    exists|i: int| 0 <= i < child_values(p).len() && child_values(p)[i] == c
}

/// The sub-value at pre-order position `k` of the tree rooted at `v`.
pub open spec fn node_at(v: JsonValue, k: int) -> JsonValue
    decreases v,
{
    if k <= 0 {
        v
    } else {
        match v {
            JsonValue::Array(elems) => node_at_seq(elems@, elems@.len() as int, k - 1),
            JsonValue::Object(members) => node_at_members(members@, members@.len() as int, k - 1),
            _ => v,
        }
    }
}

/// The sub-value at offset `k` of the concatenated walks of the first `i`
/// elements of `s`.
pub open spec fn node_at_seq(s: Seq<JsonValue>, i: int, k: int) -> JsonValue
    decreases s, i,
{
    if i <= 0 || i > s.len() {
        JsonValue::Null
    } else if k < node_count_seq(s, i - 1) {
        node_at_seq(s, i - 1, k)
    } else {
        node_at(s[i - 1], k - node_count_seq(s, i - 1))
    }
}

/// The sub-value at offset `k` of the concatenated walks of the values of
/// the first `i` members of `ms`.
pub open spec fn node_at_members(ms: Seq<(String, JsonValue)>, i: int, k: int) -> JsonValue
    decreases ms, i,
{
    if i <= 0 || i > ms.len() {
        JsonValue::Null
    } else if k < node_count_members(ms, i - 1) {
        node_at_members(ms, i - 1, k)
    } else {
        node_at(ms[i - 1].1, k - node_count_members(ms, i - 1))
    }
}

/// The parent link of the node at pre-order position `k` of the walk of
/// `v` rooted at index `idx` with root parent link `parent`.
pub open spec fn parent_idx(v: JsonValue, idx: int, parent: Option<int>, k: int) -> Option<int>
    decreases v,
{
    if k <= 0 {
        parent
    } else {
        match v {
            JsonValue::Array(elems) => parent_idx_seq(
                elems@,
                elems@.len() as int,
                idx + 1,
                idx,
                k - 1,
            ),
            JsonValue::Object(members) => parent_idx_members(
                members@,
                members@.len() as int,
                idx + 1,
                idx,
                k - 1,
            ),
            _ => parent,
        }
    }
}

/// The parent link of the node at offset `k` of the concatenated walks of
/// the first `i` elements of `s`, whose first element is rooted at `idx`
/// inside the container at index `par`.
pub open spec fn parent_idx_seq(s: Seq<JsonValue>, i: int, idx: int, par: int, k: int) -> Option<
    int,
>
    decreases s, i,
{
    if i <= 0 || i > s.len() {
        None
    } else if k < node_count_seq(s, i - 1) {
        parent_idx_seq(s, i - 1, idx, par, k)
    } else {
        parent_idx(
            s[i - 1],
            idx + node_count_seq(s, i - 1),
            Some(par),
            k - node_count_seq(s, i - 1),
        )
    }
}

/// The member counterpart of `parent_idx_seq`.
pub open spec fn parent_idx_members(
    ms: Seq<(String, JsonValue)>,
    i: int,
    idx: int,
    par: int,
    k: int,
) -> Option<int>
    decreases ms, i,
{
    if i <= 0 || i > ms.len() {
        None
    } else if k < node_count_members(ms, i - 1) {
        parent_idx_members(ms, i - 1, idx, par, k)
    } else {
        parent_idx(
            ms[i - 1].1,
            idx + node_count_members(ms, i - 1),
            Some(par),
            k - node_count_members(ms, i - 1),
        )
    }
}

/// Every fragment of a walk is exactly the fragment of its sub-value: the
/// one at position `k` carries the serialization, flags and hash of the
/// `k`-th pre-order node, index `idx + k`, and the parent link that
/// `parent_idx` assigns.
pub proof fn lemma_flat_at(v: JsonValue, idx: int, parent: Option<int>, k: int)
    requires
        0 <= k < node_count(v),
    ensures
        flat(v, idx, parent).len() == node_count(v),
        flat(v, idx, parent)[k] == frag_model(node_at(v, k), idx + k, parent_idx(v, idx, parent, k)),
    decreases v,
{
    lemma_flat_len(v, idx, parent);
    if k > 0 {
        match v {
            JsonValue::Array(elems) => {
                lemma_flat_seq_len(elems@, elems@.len() as int, idx + 1, idx);
                lemma_flat_seq_at(elems@, elems@.len() as int, idx + 1, idx, k - 1);
            },
            JsonValue::Object(members) => {
                lemma_flat_members_len(members@, members@.len() as int, idx + 1, idx);
                lemma_flat_members_at(members@, members@.len() as int, idx + 1, idx, k - 1);
            },
            _ => {},
        }
    }
}

/// `lemma_flat_at` over the concatenated walks of an element prefix.
pub proof fn lemma_flat_seq_at(s: Seq<JsonValue>, i: int, idx: int, par: int, k: int)
    requires
        0 <= i <= s.len(),
        0 <= k < node_count_seq(s, i),
    ensures
        flat_seq(s, i, idx, par)[k] == frag_model(
            node_at_seq(s, i, k),
            idx + k,
            parent_idx_seq(s, i, idx, par, k),
        ),
    decreases s, i,
{
    let ncs1 = node_count_seq(s, i - 1);
    lemma_flat_seq_len(s, i - 1, idx, par);
    if k < ncs1 {
        lemma_flat_seq_at(s, i - 1, idx, par, k);
    } else {
        lemma_flat_at(s[i - 1], idx + ncs1, Some(par), k - ncs1);
    }
}

/// `lemma_flat_at` over the concatenated walks of a member prefix.
pub proof fn lemma_flat_members_at(ms: Seq<(String, JsonValue)>, i: int, idx: int, par: int, k: int)
    requires
        0 <= i <= ms.len(),
        0 <= k < node_count_members(ms, i),
    ensures
        flat_members(ms, i, idx, par)[k] == frag_model(
            node_at_members(ms, i, k),
            idx + k,
            parent_idx_members(ms, i, idx, par, k),
        ),
    decreases ms, i,
{
    let ncs1 = node_count_members(ms, i - 1);
    lemma_flat_members_len(ms, i - 1, idx, par);
    if k < ncs1 {
        lemma_flat_members_at(ms, i - 1, idx, par, k);
    } else {
        lemma_flat_at(ms[i - 1].1, idx + ncs1, Some(par), k - ncs1);
    }
}

/// Every non-root node of a walk has a parent link, and it points into
/// the walk, strictly before the node's own index.
pub proof fn lemma_parent_idx_range(v: JsonValue, idx: int, parent: Option<int>, k: int)
    requires
        1 <= k < node_count(v),
    ensures
        parent_idx(v, idx, parent, k) matches Some(p) && idx <= p < idx + k,
    decreases v,
{
    match v {
        JsonValue::Array(elems) => {
            lemma_parent_idx_seq_range(elems@, elems@.len() as int, idx + 1, idx, k - 1);
        },
        JsonValue::Object(members) => {
            lemma_parent_idx_members_range(members@, members@.len() as int, idx + 1, idx, k - 1);
        },
        _ => {},
    }
}

/// `lemma_parent_idx_range` over an element prefix.
pub proof fn lemma_parent_idx_seq_range(s: Seq<JsonValue>, i: int, idx: int, par: int, k: int)
    requires
        0 <= i <= s.len(),
        0 <= k < node_count_seq(s, i),
        par == idx - 1,
    ensures
        parent_idx_seq(s, i, idx, par, k) matches Some(p) && par <= p < idx + k,
    decreases s, i,
{
    let ncs1 = node_count_seq(s, i - 1);
    if k < ncs1 {
        lemma_parent_idx_seq_range(s, i - 1, idx, par, k);
    } else {
        if k > ncs1 {
            lemma_parent_idx_range(s[i - 1], idx + ncs1, Some(par), k - ncs1);
        }
    }
}

/// `lemma_parent_idx_range` over a member prefix.
pub proof fn lemma_parent_idx_members_range(
    ms: Seq<(String, JsonValue)>,
    i: int,
    idx: int,
    par: int,
    k: int,
)
    requires
        0 <= i <= ms.len(),
        0 <= k < node_count_members(ms, i),
        par == idx - 1,
    ensures
        parent_idx_members(ms, i, idx, par, k) matches Some(p) && par <= p < idx + k,
    decreases ms, i,
{
    let ncs1 = node_count_members(ms, i - 1);
    if k < ncs1 {
        lemma_parent_idx_members_range(ms, i - 1, idx, par, k);
    } else {
        if k > ncs1 {
            lemma_parent_idx_range(ms[i - 1].1, idx + ncs1, Some(par), k - ncs1);
        }
    }
}

/// The node a non-root node's parent link points at structurally contains
/// it: the child is one of the parent's direct child values.
pub proof fn lemma_parent_contains(v: JsonValue, idx: int, parent: Option<int>, k: int)
    requires
        1 <= k < node_count(v),
    ensures
        parent_idx(v, idx, parent, k) matches Some(p) && is_direct_child(
            node_at(v, p - idx),
            node_at(v, k),
        ),
    decreases v,
{
    lemma_parent_idx_range(v, idx, parent, k);
    match v {
        JsonValue::Array(elems) => {
            let s = elems@;
            let n = s.len() as int;
            lemma_parent_idx_seq_range(s, n, idx + 1, idx, k - 1);
            lemma_contains_seq(s, n, idx + 1, idx, k - 1);
            let p = parent_idx_seq(s, n, idx + 1, idx, k - 1)->Some_0;
            if p == idx {
                let j = choose|j: int| 0 <= j < n && node_at_seq(s, n, k - 1) == s[j];
                assert(child_values(v)[j] == s[j]);
            }
        },
        JsonValue::Object(members) => {
            let ms = members@;
            let n = ms.len() as int;
            lemma_parent_idx_members_range(ms, n, idx + 1, idx, k - 1);
            lemma_contains_members(ms, n, idx + 1, idx, k - 1);
            let p = parent_idx_members(ms, n, idx + 1, idx, k - 1)->Some_0;
            if p == idx {
                let j = choose|j: int| 0 <= j < n && node_at_members(ms, n, k - 1) == ms[j].1;
                assert(child_values(v)[j] == ms[j].1);
            }
        },
        _ => {},
    }
}

/// `lemma_parent_contains` over an element prefix: the parent is either
/// the enclosing container itself (then the node is one of the elements)
/// or a node inside the same prefix walk that directly contains it.
pub proof fn lemma_contains_seq(s: Seq<JsonValue>, i: int, idx: int, par: int, k: int)
    requires
        0 <= i <= s.len(),
        0 <= k < node_count_seq(s, i),
        par == idx - 1,
    ensures
        parent_idx_seq(s, i, idx, par, k) matches Some(p) ==> (if p == par {
            exists|j: int| 0 <= j < i && node_at_seq(s, i, k) == s[j]
        } else {
            is_direct_child(node_at_seq(s, i, p - idx), node_at_seq(s, i, k))
        }),
    decreases s, i,
{
    let ncs1 = node_count_seq(s, i - 1);
    lemma_parent_idx_seq_range(s, i, idx, par, k);
    let p = parent_idx_seq(s, i, idx, par, k)->Some_0;
    if k < ncs1 {
        lemma_parent_idx_seq_range(s, i - 1, idx, par, k);
        lemma_contains_seq(s, i - 1, idx, par, k);
        if p == par {
            let j = choose|j: int| 0 <= j < i - 1 && node_at_seq(s, i - 1, k) == s[j];
            assert(0 <= j < i && node_at_seq(s, i, k) == s[j]);
        } else {
            assert(p - idx < k);
            assert(node_at_seq(s, i, p - idx) == node_at_seq(s, i - 1, p - idx));
        }
    } else {
        let off = k - ncs1;
        if off == 0 {
            assert(node_at_seq(s, i, k) == node_at(s[i - 1], 0));
            assert(node_at_seq(s, i, k) == s[i - 1]);
        } else {
            lemma_parent_idx_range(s[i - 1], idx + ncs1, Some(par), off);
            lemma_parent_contains(s[i - 1], idx + ncs1, Some(par), off);
            assert(p - idx >= ncs1);
            assert(node_at_seq(s, i, p - idx) == node_at(s[i - 1], p - idx - ncs1));
            assert(node_at_seq(s, i, k) == node_at(s[i - 1], off));
        }
    }
}

/// `lemma_parent_contains` over a member prefix.
pub proof fn lemma_contains_members(ms: Seq<(String, JsonValue)>, i: int, idx: int, par: int, k: int)
    requires
        0 <= i <= ms.len(),
        0 <= k < node_count_members(ms, i),
        par == idx - 1,
    ensures
        parent_idx_members(ms, i, idx, par, k) matches Some(p) ==> (if p == par {
            exists|j: int| 0 <= j < i && node_at_members(ms, i, k) == ms[j].1
        } else {
            is_direct_child(node_at_members(ms, i, p - idx), node_at_members(ms, i, k))
        }),
    decreases ms, i,
{
    let ncs1 = node_count_members(ms, i - 1);
    lemma_parent_idx_members_range(ms, i, idx, par, k);
    let p = parent_idx_members(ms, i, idx, par, k)->Some_0;
    if k < ncs1 {
        lemma_parent_idx_members_range(ms, i - 1, idx, par, k);
        lemma_contains_members(ms, i - 1, idx, par, k);
        if p == par {
            let j = choose|j: int| 0 <= j < i - 1 && node_at_members(ms, i - 1, k) == ms[j].1;
            assert(0 <= j < i && node_at_members(ms, i, k) == ms[j].1);
        } else {
            assert(p - idx < k);
            assert(node_at_members(ms, i, p - idx) == node_at_members(ms, i - 1, p - idx));
        }
    } else {
        let off = k - ncs1;
        if off == 0 {
            assert(node_at_members(ms, i, k) == node_at(ms[i - 1].1, 0));
            assert(node_at_members(ms, i, k) == ms[i - 1].1);
        } else {
            lemma_parent_idx_range(ms[i - 1].1, idx + ncs1, Some(par), off);
            lemma_parent_contains(ms[i - 1].1, idx + ncs1, Some(par), off);
            assert(p - idx >= ncs1);
            assert(node_at_members(ms, i, p - idx) == node_at(ms[i - 1].1, p - idx - ncs1));
            assert(node_at_members(ms, i, k) == node_at(ms[i - 1].1, off));
        }
    }
}

/// Index uniqueness and ordering: in any walk the fragment at position
/// `k` carries index `idx + k`, so indices are pairwise distinct and
/// strictly increasing in sequence order.
pub proof fn lemma_index_uniqueness(v: JsonValue, idx: int, parent: Option<int>)
    ensures
        forall|k: int|
            0 <= k < flat(v, idx, parent).len() ==> (#[trigger] flat(v, idx, parent)[k]).index == idx
                + k,
{
    lemma_flat_len(v, idx, parent);
    assert forall|k: int| 0 <= k < flat(v, idx, parent).len() implies (#[trigger] flat(
        v,
        idx,
        parent,
    )[k]).index == idx + k by {
        lemma_flat_at(v, idx, parent, k);
    }
}

/// The root has no parent, and it is the only such fragment: in the walk
/// of a whole document the first fragment's parent link is `None` and
/// every later fragment has one.
pub proof fn lemma_root_has_no_parent(v: JsonValue, idx: int)
    ensures
        flat(v, idx, None::<int>)[0].parent is None,
        forall|k: int|
            1 <= k < flat(v, idx, None::<int>).len() ==> (#[trigger] flat(
                v,
                idx,
                None::<int>,
            )[k]).parent is Some,
{
    lemma_flat_len(v, idx, None::<int>);
    lemma_node_count_pos(v);
    lemma_flat_at(v, idx, None::<int>, 0);
    assert forall|k: int| 1 <= k < flat(v, idx, None::<int>).len() implies (#[trigger] flat(
        v,
        idx,
        None::<int>,
    )[k]).parent is Some by {
        lemma_flat_at(v, idx, None::<int>, k);
        lemma_parent_idx_range(v, idx, None::<int>, k);
    }
}

/// Parent validity: every non-root fragment's parent link names the index
/// of a fragment strictly earlier in the sequence, and the sub-value that
/// earlier fragment was produced from directly contains the sub-value the
/// non-root fragment was produced from.
pub proof fn lemma_parent_validity(v: JsonValue, idx: int, k: int)
    requires
        1 <= k < node_count(v),
    ensures
        flat(v, idx, None::<int>)[k].parent matches Some(p) && {
            let fs = flat(v, idx, None::<int>);
            &&& idx <= p < idx + k
            &&& fs[p - idx].index == p
            &&& is_direct_child(node_at(v, p - idx), node_at(v, k))
            &&& fs[p - idx].data == ser(node_at(v, p - idx))
            &&& fs[k].data == ser(node_at(v, k))
        },
{
    lemma_flat_at(v, idx, None::<int>, k);
    lemma_parent_idx_range(v, idx, None::<int>, k);
    lemma_parent_contains(v, idx, None::<int>, k);
    let p = parent_idx(v, idx, None::<int>, k)->Some_0;
    lemma_flat_at(v, idx, None::<int>, p - idx);
}

/// A flags word with exactly one bit set.
pub open spec fn exactly_one_bit(f: u128) -> bool {
    f != 0 && f & ((f - 1) as u128) == 0
}

/// The flags word of every value has exactly one bit set.
pub proof fn lemma_one_bit_flags(v: JsonValue)
    ensures
        exactly_one_bit(flags_of(v)),
{
    assert(0x01u128 & 0x00u128 == 0) by (bit_vector);
    assert(0x02u128 & 0x01u128 == 0) by (bit_vector);
    assert(0x04u128 & 0x03u128 == 0) by (bit_vector);
    assert(0x08u128 & 0x07u128 == 0) by (bit_vector);
    assert(0x10u128 & 0x0fu128 == 0) by (bit_vector);
    assert(0x20u128 & 0x1fu128 == 0) by (bit_vector);
}

/// Type-flag correctness: each fragment's flags word has exactly one bit
/// set, and it is the bit of the JSON type of the sub-value that produced
/// the fragment.
pub proof fn lemma_type_flag_correctness(v: JsonValue, idx: int, parent: Option<int>, k: int)
    requires
        0 <= k < node_count(v),
    ensures
        flat(v, idx, parent)[k].flags == flags_of(node_at(v, k)),
        exactly_one_bit(flat(v, idx, parent)[k].flags),
{
    lemma_flat_at(v, idx, parent, k);
    lemma_one_bit_flags(node_at(v, k));
}

/// Hash determinism: the content hash is a function of the serialized
/// bytes and the flags word alone, so hashing the same bytes with the
/// same flags twice yields the same digest. (That changing a byte changes
/// the digest holds only with overwhelming probability and is not stated.)
pub proof fn lemma_hash_determinism(data1: Seq<u8>, flags1: u128, data2: Seq<u8>, flags2: u128)
    requires
        data1 == data2,
        flags1 == flags2,
    ensures
        md5_hex(data1 + u128_le_bytes(flags1)) == md5_hex(data2 + u128_le_bytes(flags2)),
{
}

} // verus!
