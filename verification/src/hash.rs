//! The content hasher: a deterministic hex digest over a byte buffer.
use vstd::prelude::*;

verus! {

/// The lowercase hex digest that `hash_bytes` returns for a byte buffer:
/// a function of the bytes alone.
pub uninterp spec fn md5_hex(bytes: Seq<u8>) -> Seq<char>;

/// Relies on md5::compute (a pure function of the input bytes) and on the
/// md5 crate's LowerHex rendering of the digest, which writes each of the
/// 16 digest bytes as two lowercase hex digits, 32 characters in all.
#[verifier::external_body]
pub fn hash_bytes(bytes: &[u8]) -> (r: String)
    ensures
        r@ == md5_hex(bytes@),
        r@.len() == 32,
{
    format!("{:x}", md5::compute(bytes))
}

} // verus!
