//! Byte-conversion utilities: a small closed trait over the types that the
//! hashing scheme turns into bytes, and a helper that appends a value's
//! bytes to a buffer.
use vstd::prelude::*;
use vstd::slice::slice_to_vec;
use vstd::utf8::encode_utf8;

verus! {

/// The little-endian bytes of a 32-bit word, least significant first.
pub open spec fn u32_le_bytes(x: u32) -> Seq<u8> {
    Seq::new(4, |i: int| ((x >> ((8 * i) as u32)) & 0xff) as u8)
}

/// The little-endian bytes of a 128-bit word, least significant first.
pub open spec fn u128_le_bytes(x: u128) -> Seq<u8> {
    Seq::new(16, |i: int| ((x >> ((8 * i) as u128)) & 0xff) as u8)
}

/// A 32-bit signed integer reinterpreted as its two's-complement word.
pub open spec fn i32_as_u32(x: i32) -> u32 {
    if x >= 0 {
        x as u32
    } else {
        ((x as int) + 0x1_0000_0000) as u32
    }
}

/// A value that can be turned into a byte sequence for hashing.
pub trait IntoBytes: Sized {
    /// The bytes that `into_bytes` produces.
    spec fn bytes_spec(self) -> Seq<u8>;

    fn into_bytes(self) -> (r: Vec<u8>)
        ensures
            r@ == self.bytes_spec(),
    ;
}

impl IntoBytes for u8 {
    open spec fn bytes_spec(self) -> Seq<u8> {
        seq![self]
    }

    fn into_bytes(self) -> (r: Vec<u8>) {
        let mut v: Vec<u8> = Vec::new();
        v.push(self);
        proof {
            assert(v@ =~= seq![self]);
        }
        v
    }
}

impl IntoBytes for i32 {
    open spec fn bytes_spec(self) -> Seq<u8> {
        u32_le_bytes(i32_as_u32(self))
    }

    fn into_bytes(self) -> (r: Vec<u8>) {
        let u: u32 = if self >= 0 {
            self as u32
        } else {
            ((self as i64) + 0x1_0000_0000i64) as u32
        };
        assert(u == i32_as_u32(self));
        let mut v: Vec<u8> = Vec::new();
        let mut i: usize = 0;
        while i < 4
            invariant
                i <= 4,
                v@ =~= u32_le_bytes(u).take(i as int),
            decreases 4 - i,
        {
            let b: u8 = ((u >> (8 * (i as u32))) & 0xff) as u8;
            v.push(b);
            i = i + 1;
        }
        proof {
            assert(v@ =~= u32_le_bytes(u));
        }
        v
    }
}

impl IntoBytes for u128 {
    open spec fn bytes_spec(self) -> Seq<u8> {
        u128_le_bytes(self)
    }

    fn into_bytes(self) -> (r: Vec<u8>) {
        let mut v: Vec<u8> = Vec::new();
        let mut i: usize = 0;
        while i < 16
            invariant
                i <= 16,
                v@ =~= u128_le_bytes(self).take(i as int),
            decreases 16 - i,
        {
            let b: u8 = ((self >> (8 * (i as u128))) & 0xff) as u8;
            v.push(b);
            i = i + 1;
        }
        proof {
            assert(v@ =~= u128_le_bytes(self));
        }
        v
    }
}

impl IntoBytes for &str {
    open spec fn bytes_spec(self) -> Seq<u8> {
        encode_utf8(self@)
    }

    fn into_bytes(self) -> (r: Vec<u8>) {
        slice_to_vec(self.as_bytes())
    }
}

impl IntoBytes for String {
    open spec fn bytes_spec(self) -> Seq<u8> {
        encode_utf8(self@)
    }

    fn into_bytes(self) -> (r: Vec<u8>) {
        slice_to_vec(self.as_str().as_bytes())
    }
}

impl IntoBytes for Vec<u8> {
    open spec fn bytes_spec(self) -> Seq<u8> {
        self@
    }

    fn into_bytes(self) -> (r: Vec<u8>) {
        self
    }
}

impl IntoBytes for &Vec<u8> {
    open spec fn bytes_spec(self) -> Seq<u8> {
        self@
    }

    fn into_bytes(self) -> (r: Vec<u8>) {
        slice_to_vec(self.as_slice())
    }
}

impl IntoBytes for &[u8] {
    open spec fn bytes_spec(self) -> Seq<u8> {
        self@
    }

    fn into_bytes(self) -> (r: Vec<u8>) {
        slice_to_vec(self)
    }
}

/// Appends a value's bytes to the buffer, leaving what was there in place.
pub fn append_as_bytes<T: IntoBytes>(v: &mut Vec<u8>, value: T)
    ensures
        final(v)@ == old(v)@ + value.bytes_spec(),
{
    let mut bytes = value.into_bytes();
    v.append(&mut bytes);
}

} // verus!
