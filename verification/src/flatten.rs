//! The tree walker: flattens a JSON value into one fragment per node, in
//! pre-order, each fragment carrying its serialized bytes, its type flags,
//! its traversal index, its parent's index, and a content hash.
use vstd::prelude::*;
use crate::flags::flags_of;
use crate::flags::get_flags;
use crate::hash::hash_bytes;
use crate::hash::md5_hex;
use crate::ser::ser;
use crate::ser::serialize_value;
use crate::util::append_as_bytes;
use crate::util::u128_le_bytes;
use crate::value::JsonValue;
use crate::value::node_count;
use crate::value::node_count_members;
use crate::value::node_count_seq;
use crate::value::lemma_node_count_members_mono;
use crate::value::lemma_node_count_pos;
use crate::value::lemma_node_count_seq_mono;

verus! {

/// The largest node count a document may have: one more node would not
/// fit the 8-bit fragment index.
pub const MAX_NODES: usize = 256;

/// One fragment per visited tree node.
pub struct JsonFragment {
    /// The canonical serialized bytes of the subtree rooted at this node.
    pub data: Vec<u8>,
    /// A bitmask with exactly one bit set: the node's JSON type.
    pub flags: u128,
    /// The node's position in the zero-based pre-order traversal.
    pub index: u8,
    /// The index of the enclosing array or object; `None` for the root.
    pub parent: Option<u8>,
    /// Hex digest of `data` followed by `flags` as little-endian bytes.
    pub hash: String,
}

/// The error a flattening call can return: the document has more nodes
/// than the 8-bit fragment index can number. Nothing else fails: every
/// value in the model serializes.
#[derive(Clone, Copy, Debug, PartialEq, Eq, Structural)]
pub enum FlattenError {
    IndexOverflow,
}

/// The traversal result: fragments in pre-order traversal order.
pub struct JsonData {
    pub fragments: Vec<JsonFragment>,
}

/// The mathematical content of a fragment.
pub ghost struct FragModel {
    pub data: Seq<u8>,
    pub flags: u128,
    pub index: int,
    pub parent: Option<int>,
    pub hash: Seq<char>,
}

/// An 8-bit parent link as a mathematical one.
pub open spec fn opt_index(p: Option<u8>) -> Option<int> {
    match p {
        Some(x) => Some(x as int),
        None => None,
    }
}

impl JsonFragment {
    /// The fragment's mathematical content.
    pub open spec fn model(self) -> FragModel {
        FragModel {
            data: self.data@,
            flags: self.flags,
            index: self.index as int,
            parent: opt_index(self.parent),
            hash: self.hash@,
        }
    }

    /// The first `max` data bytes (all of them if there are fewer), and
    /// whether any were left out — what a debug rendering shows before an
    /// ellipsis marker.
    pub fn data_preview(&self, max: usize) -> (r: (Vec<u8>, bool))
        ensures
            r.0@ == self.data@.take(
                if self.data@.len() <= max {
                    self.data@.len() as int
                } else {
                    max as int
                },
            ),
            r.1 == (self.data@.len() > max),
    {
        let len = self.data.len();
        let n = if len < max {
            len
        } else {
            max
        };
        let mut out: Vec<u8> = Vec::new();
        let mut i: usize = 0;
        while i < n
            invariant
                i <= n,
                n <= self.data@.len(),
                out@ =~= self.data@.take(i as int),
            decreases n - i,
        {
            out.push(self.data[i]);
            i = i + 1;
        }
        (out, len > max)
    }
}

/// The models of a fragment sequence.
pub open spec fn frag_models(fs: Seq<JsonFragment>) -> Seq<FragModel> {
    fs.map_values(|f: JsonFragment| f.model())
}

/// The buffer the content hash is computed over: the node's serialized
/// bytes followed by the flags word as 16 little-endian bytes.
pub open spec fn hash_input(v: JsonValue) -> Seq<u8> {
    ser(v) + u128_le_bytes(flags_of(v))
}

/// The fragment that node `v` produces at index `idx` under `parent`.
pub open spec fn frag_model(v: JsonValue, idx: int, parent: Option<int>) -> FragModel {
    FragModel {
        data: ser(v),
        flags: flags_of(v),
        index: idx,
        parent,
        hash: md5_hex(hash_input(v)),
    }
}

/// The fragments of the pre-order walk of `v`: the root fragment at index
/// `idx` with parent link `parent`, then the walks of the children in
/// order, each child's parent link set to `idx`.
pub open spec fn flat(v: JsonValue, idx: int, parent: Option<int>) -> Seq<FragModel>
    decreases v,
{
    match v {
        JsonValue::Array(elems) => seq![frag_model(v, idx, parent)] + flat_seq(
            elems@,
            elems@.len() as int,
            idx + 1,
            idx,
        ),
        JsonValue::Object(members) => seq![frag_model(v, idx, parent)] + flat_members(
            members@,
            members@.len() as int,
            idx + 1,
            idx,
        ),
        _ => seq![frag_model(v, idx, parent)],
    }
}

/// The concatenated walks of the first `i` elements of an array body,
/// where `idx` is the traversal index of the first element and `parent`
/// the index of the enclosing array.
pub open spec fn flat_seq(s: Seq<JsonValue>, i: int, idx: int, parent: int) -> Seq<FragModel>
    decreases s, i,
{
    if i <= 0 || i > s.len() {
        Seq::empty()
    } else {
        flat_seq(s, i - 1, idx, parent) + flat(
            s[i - 1],
            idx + node_count_seq(s, i - 1),
            Some(parent),
        )
    }
}

/// The concatenated walks of the values of the first `i` object members.
pub open spec fn flat_members(
    ms: Seq<(String, JsonValue)>,
    i: int,
    idx: int,
    parent: int,
) -> Seq<FragModel>
    decreases ms, i,
{
    if i <= 0 || i > ms.len() {
        Seq::empty()
    } else {
        flat_members(ms, i - 1, idx, parent) + flat(
            ms[i - 1].1,
            idx + node_count_members(ms, i - 1),
            Some(parent),
        )
    }
}

/// A walk produces one fragment per node of the value tree.
pub proof fn lemma_flat_len(v: JsonValue, idx: int, parent: Option<int>)
    ensures
        flat(v, idx, parent).len() == node_count(v),
    decreases v,
{
    match v {
        JsonValue::Array(elems) => {
            lemma_flat_seq_len(elems@, elems@.len() as int, idx + 1, idx);
        },
        JsonValue::Object(members) => {
            lemma_flat_members_len(members@, members@.len() as int, idx + 1, idx);
        },
        _ => {},
    }
}

/// The walks of an element prefix produce one fragment per node summed
/// over the prefix.
pub proof fn lemma_flat_seq_len(s: Seq<JsonValue>, i: int, idx: int, parent: int)
    ensures
        flat_seq(s, i, idx, parent).len() == node_count_seq(s, i),
    decreases s, i,
{
    if 0 < i <= s.len() {
        lemma_flat_seq_len(s, i - 1, idx, parent);
        lemma_flat_len(s[i - 1], idx + node_count_seq(s, i - 1), Some(parent));
    }
}

/// The walks of a member prefix produce one fragment per node summed over
/// the prefix.
pub proof fn lemma_flat_members_len(ms: Seq<(String, JsonValue)>, i: int, idx: int, parent: int)
    ensures
        flat_members(ms, i, idx, parent).len() == node_count_members(ms, i),
    decreases ms, i,
{
    if 0 < i <= ms.len() {
        lemma_flat_members_len(ms, i - 1, idx, parent);
        lemma_flat_len(ms[i - 1].1, idx + node_count_members(ms, i - 1), Some(parent));
    }
}

/// Computes a fragment's content hash: the digest of the serialized bytes
/// followed by the flags word as little-endian bytes.
pub fn fragment_hash(data: &Vec<u8>, flags: u128) -> (r: String)
    ensures
        r@ == md5_hex(data@ + u128_le_bytes(flags)),
{
    let mut buf: Vec<u8> = Vec::new();
    append_as_bytes(&mut buf, data);
    append_as_bytes(&mut buf, flags);
    proof {
        assert(buf@ =~= data@ + u128_le_bytes(flags));
    }
    hash_bytes(buf.as_slice())
}

/// Visits `value` and its descendants in pre-order, appending one fragment
/// per node to `fragments`. `index` is the traversal counter: the next
/// free index on entry, and on success the next free index after the
/// subtree. Fails exactly when the subtree does not fit the remaining
/// 8-bit indices; on success the appended fragments are exactly the walk
/// of `value`.
pub fn json_tree_walker(
    value: &JsonValue,
    parent: Option<u8>,
    fragments: &mut Vec<JsonFragment>,
    index: &mut usize,
) -> (r: Result<(), FlattenError>)
    ensures
        match r {
            Ok(()) => {
                &&& *old(index) + node_count(*value) <= MAX_NODES
                &&& *final(index) == *old(index) + node_count(*value)
                &&& frag_models(final(fragments)@) == frag_models(old(fragments)@) + flat(
                    *value,
                    *old(index) as int,
                    opt_index(parent),
                )
            },
            Err(e) => {
                &&& *old(index) + node_count(*value) > MAX_NODES
                &&& e == FlattenError::IndexOverflow
            },
        },
    decreases *value,
{
    let ghost frags_in = fragments@;
    let current_index: usize = *index;
    if current_index >= MAX_NODES {
        proof {
            lemma_node_count_pos(*value);
        }
        return Err(FlattenError::IndexOverflow);
    }
    let data = serialize_value(value);
    let flags = get_flags(value);
    let hash = fragment_hash(&data, flags);
    *index = current_index + 1;
    let current_parent_id = Some(current_index as u8);
    let current = JsonFragment { data, flags, parent, index: current_index as u8, hash };
    proof {
        assert(current.model() == frag_model(*value, current_index as int, opt_index(parent)));
    }
    fragments.push(current);
    proof {
        assert(frag_models(fragments@) =~= frag_models(frags_in).push(
            frag_model(*value, current_index as int, opt_index(parent)),
        ));
    }
    match value {
        JsonValue::Array(elems) => {
            let n = elems.len();
            let mut i: usize = 0;
            proof {
                assert(frag_models(fragments@) =~= frag_models(frags_in).push(
                    frag_model(*value, current_index as int, opt_index(parent)),
                ) + flat_seq(elems@, 0, current_index as int + 1, current_index as int));
            }
            while i < n
                invariant
                    i <= n,
                    n == elems@.len(),
                    *value == JsonValue::Array(*elems),
                    current_index == *old(index),
                    current_index < MAX_NODES,
                    current_parent_id == Some(current_index as u8),
                    *index == current_index + 1 + node_count_seq(elems@, i as int),
                    *index <= MAX_NODES,
                    frag_models(fragments@) == frag_models(frags_in).push(
                        frag_model(*value, current_index as int, opt_index(parent)),
                    ) + flat_seq(elems@, i as int, current_index as int + 1, current_index as int),
                decreases n - i,
            {
                proof {
                    assert(decreases_to!(*value => value->Array_0));
                    assert(value->Array_0 == *elems);
                    assert(decreases_to!(*elems => elems@));
                    assert(decreases_to!(elems@ => elems@[i as int]));
                }
                let r = json_tree_walker(&elems[i], current_parent_id, fragments, index);
                match r {
                    Ok(()) => {},
                    Err(e) => {
                        proof {
                            lemma_node_count_seq_mono(elems@, i as int + 1, n as int);
                            assert(node_count_seq(elems@, i as int + 1) == node_count_seq(
                                elems@,
                                i as int,
                            ) + node_count(elems@[i as int]));
                            assert(node_count(*value) == 1 + node_count_seq(elems@, n as int));
                        }
                        return Err(e);
                    },
                }
                i = i + 1;
                proof {
                    assert(frag_models(fragments@) =~= frag_models(frags_in).push(
                        frag_model(*value, current_index as int, opt_index(parent)),
                    ) + flat_seq(
                        elems@,
                        i as int,
                        current_index as int + 1,
                        current_index as int,
                    ));
                }
            }
            proof {
                assert(frag_models(fragments@) =~= frag_models(frags_in) + flat(
                    *value,
                    current_index as int,
                    opt_index(parent),
                ));
            }
        },
        JsonValue::Object(members) => {
            let n = members.len();
            let mut i: usize = 0;
            proof {
                assert(frag_models(fragments@) =~= frag_models(frags_in).push(
                    frag_model(*value, current_index as int, opt_index(parent)),
                ) + flat_members(members@, 0, current_index as int + 1, current_index as int));
            }
            while i < n
                invariant
                    i <= n,
                    n == members@.len(),
                    *value == JsonValue::Object(*members),
                    current_index == *old(index),
                    current_index < MAX_NODES,
                    current_parent_id == Some(current_index as u8),
                    *index == current_index + 1 + node_count_members(members@, i as int),
                    *index <= MAX_NODES,
                    frag_models(fragments@) == frag_models(frags_in).push(
                        frag_model(*value, current_index as int, opt_index(parent)),
                    ) + flat_members(
                        members@,
                        i as int,
                        current_index as int + 1,
                        current_index as int,
                    ),
                decreases n - i,
            {
                proof {
                    assert(decreases_to!(*value => value->Object_0));
                    assert(value->Object_0 == *members);
                    assert(decreases_to!(*members => members@));
                    assert(decreases_to!(members@ => members@[i as int]));
                    assert(decreases_to!(members@[i as int] => members@[i as int].1));
                }
                let r = json_tree_walker(&members[i].1, current_parent_id, fragments, index);
                match r {
                    Ok(()) => {},
                    Err(e) => {
                        proof {
                            lemma_node_count_members_mono(members@, i as int + 1, n as int);
                            assert(node_count_members(members@, i as int + 1) == node_count_members(
                                members@,
                                i as int,
                            ) + node_count(members@[i as int].1));
                            assert(node_count(*value) == 1 + node_count_members(
                                members@,
                                n as int,
                            ));
                        }
                        return Err(e);
                    },
                }
                i = i + 1;
                proof {
                    assert(frag_models(fragments@) =~= frag_models(frags_in).push(
                        frag_model(*value, current_index as int, opt_index(parent)),
                    ) + flat_members(
                        members@,
                        i as int,
                        current_index as int + 1,
                        current_index as int,
                    ));
                }
            }
            proof {
                assert(frag_models(fragments@) =~= frag_models(frags_in) + flat(
                    *value,
                    current_index as int,
                    opt_index(parent),
                ));
            }
        },
        _ => {
            proof {
                assert(frag_models(fragments@) =~= frag_models(frags_in) + flat(
                    *value,
                    current_index as int,
                    opt_index(parent),
                ));
            }
        },
    }
    Ok(())
}

/// The sole entry point: flattens an already-parsed JSON value into one
/// fragment per node, in pre-order, the root fragment first with no
/// parent. Succeeds exactly when the document's node count fits the 8-bit
/// index space; on overflow the whole call fails and no partial result is
/// returned.
pub fn parse_json(json: &JsonValue) -> (r: Result<JsonData, FlattenError>)
    ensures
        node_count(*json) <= MAX_NODES ==> (r matches Ok(d) && frag_models(d.fragments@) == flat(
            *json,
            0,
            None::<int>,
        ) && d.fragments@.len() == node_count(*json)),
        node_count(*json) > MAX_NODES ==> (r matches Err(e) && e == FlattenError::IndexOverflow),
{
    let mut fragments: Vec<JsonFragment> = Vec::new();
    let mut index: usize = 0;
    let r = json_tree_walker(json, None, &mut fragments, &mut index);
    match r {
        Ok(()) => {
            proof {
                assert(frag_models(fragments@) =~= flat(*json, 0, None::<int>));
                lemma_flat_len(*json, 0, None::<int>);
                assert(fragments@.len() == frag_models(fragments@).len());
            }
            Ok(JsonData { fragments })
        },
        Err(e) => Err(e),
    }
}

} // verus!
