//! Flattens a JSON value tree into an ordered sequence of fragments,
//! one per node, each carrying the node's serialized bytes, a type
//! bitmask, a pre-order index, a link to its parent's index, and a
//! content hash over the bytes and the bitmask.
use vstd::prelude::*;

mod flags;
mod flatten;
mod hash;
mod laws;
mod ser;
mod util;
mod value;

verus! {

pub use crate::flags::flags_to_vec;
pub use crate::flags::get_flags;
pub use crate::flatten::parse_json;
pub use crate::flatten::FlattenError;
pub use crate::flatten::JsonData;
pub use crate::flatten::JsonFragment;
pub use crate::hash::hash_bytes;
pub use crate::util::append_as_bytes;
pub use crate::util::IntoBytes;
pub use crate::value::JsonValue;

} // verus!
