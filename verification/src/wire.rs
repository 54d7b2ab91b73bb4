//! Little-endian integer images.
//!
//! The on-disk record layout is fixed little-endian, independent of the
//! host's byte order, so the encoding is spelled out here and verified
//! rather than taken from the host.

use vstd::prelude::*;

verus! {

/// The 8-byte little-endian image of a `u64`.
pub open spec fn le64(x: u64) -> Seq<u8> {
    seq![
        (x & 0xff) as u8,
        ((x >> 8) & 0xff) as u8,
        ((x >> 16) & 0xff) as u8,
        ((x >> 24) & 0xff) as u8,
        ((x >> 32) & 0xff) as u8,
        ((x >> 40) & 0xff) as u8,
        ((x >> 48) & 0xff) as u8,
        ((x >> 56) & 0xff) as u8,
    ]
}

/// The `u64` an 8-byte little-endian image stands for.
pub open spec fn le64_val(s: Seq<u8>) -> u64
    recommends
        s.len() == 8,
{
    (s[0] as u64) | (s[1] as u64) << 8 | (s[2] as u64) << 16 | (s[3] as u64) << 24 | (
    s[4] as u64) << 32 | (s[5] as u64) << 40 | (s[6] as u64) << 48 | (s[7] as u64) << 56
}

/// The 4-byte little-endian image of a `u32`.
pub open spec fn le32(x: u32) -> Seq<u8> {
    seq![(x & 0xff) as u8, ((x >> 8) & 0xff) as u8, ((x >> 16) & 0xff) as u8, ((x >> 24) & 0xff) as u8]
}

/// The `u32` a 4-byte little-endian image stands for.
pub open spec fn le32_val(s: Seq<u8>) -> u32
    recommends
        s.len() == 4,
{
    (s[0] as u32) | (s[1] as u32) << 8 | (s[2] as u32) << 16 | (s[3] as u32) << 24
}

/// Reading back the image of a value gives the value.
pub proof fn lemma_le64_roundtrip(x: u64)
    ensures
        le64(x).len() == 8,
        le64_val(le64(x)) == x,
{
    assert((((x & 0xff) as u8) as u64) | ((((x >> 8) & 0xff) as u8) as u64) << 8 | ((((x >> 16)
        & 0xff) as u8) as u64) << 16 | ((((x >> 24) & 0xff) as u8) as u64) << 24 | ((((x >> 32)
        & 0xff) as u8) as u64) << 32 | ((((x >> 40) & 0xff) as u8) as u64) << 40 | ((((x >> 48)
        & 0xff) as u8) as u64) << 48 | ((((x >> 56) & 0xff) as u8) as u64) << 56 == x)
        by (bit_vector);
}

/// Re-encoding the value an 8-byte image stands for gives the same image.
pub proof fn lemma_le64_image(s: Seq<u8>)
    requires
        s.len() == 8,
    ensures
        le64(le64_val(s)) == s,
{
    let b0 = s[0];
    let b1 = s[1];
    let b2 = s[2];
    let b3 = s[3];
    let b4 = s[4];
    let b5 = s[5];
    let b6 = s[6];
    let b7 = s[7];
    let x = le64_val(s);
    assert(x == (b0 as u64) | (b1 as u64) << 8 | (b2 as u64) << 16 | (b3 as u64) << 24 | (
    b4 as u64) << 32 | (b5 as u64) << 40 | (b6 as u64) << 48 | (b7 as u64) << 56);
    assert({
        let v = (b0 as u64) | (b1 as u64) << 8 | (b2 as u64) << 16 | (b3 as u64) << 24 | (
        b4 as u64) << 32 | (b5 as u64) << 40 | (b6 as u64) << 48 | (b7 as u64) << 56;
        (v & 0xff) as u8 == b0 && ((v >> 8) & 0xff) as u8 == b1 && ((v >> 16) & 0xff) as u8 == b2
            && ((v >> 24) & 0xff) as u8 == b3 && ((v >> 32) & 0xff) as u8 == b4 && ((v >> 40)
            & 0xff) as u8 == b5 && ((v >> 48) & 0xff) as u8 == b6 && ((v >> 56) & 0xff) as u8 == b7
    }) by (bit_vector);
    assert(le64(x) =~= s);
}

/// Reading back the image of a value gives the value.
pub proof fn lemma_le32_roundtrip(x: u32)
    ensures
        le32(x).len() == 4,
        le32_val(le32(x)) == x,
{
    assert((((x & 0xff) as u8) as u32) | ((((x >> 8) & 0xff) as u8) as u32) << 8 | ((((x >> 16)
        & 0xff) as u8) as u32) << 16 | ((((x >> 24) & 0xff) as u8) as u32) << 24 == x)
        by (bit_vector);
}

/// Re-encoding the value a 4-byte image stands for gives the same image.
pub proof fn lemma_le32_image(s: Seq<u8>)
    requires
        s.len() == 4,
    ensures
        le32(le32_val(s)) == s,
{
    let b0 = s[0];
    let b1 = s[1];
    let b2 = s[2];
    let b3 = s[3];
    let x = le32_val(s);
    assert(x == (b0 as u32) | (b1 as u32) << 8 | (b2 as u32) << 16 | (b3 as u32) << 24);
    assert({
        let v = (b0 as u32) | (b1 as u32) << 8 | (b2 as u32) << 16 | (b3 as u32) << 24;
        (v & 0xff) as u8 == b0 && ((v >> 8) & 0xff) as u8 == b1 && ((v >> 16) & 0xff) as u8 == b2
            && ((v >> 24) & 0xff) as u8 == b3
    }) by (bit_vector);
    assert(le32(x) =~= s);
}

/// The all-zero image stands for zero.
pub proof fn lemma_le_zero()
    ensures
        le64_val(Seq::new(8, |i: int| 0u8)) == 0u64,
        le32_val(Seq::new(4, |i: int| 0u8)) == 0u32,
{
    assert((0u64 | 0u64 << 8 | 0u64 << 16 | 0u64 << 24 | 0u64 << 32 | 0u64 << 40 | 0u64 << 48
        | 0u64 << 56) == 0u64) by (bit_vector);
    assert((0u32 | 0u32 << 8 | 0u32 << 16 | 0u32 << 24) == 0u32) by (bit_vector);
    assert((0u8 as u64) == 0u64);
    assert((0u8 as u32) == 0u32);
}

/// Serialize a `u64` into its little-endian image.
pub fn le64_write(x: u64) -> (v: Vec<u8>)
    ensures
        v@ == le64(x),
{
    proof {
        assert((x & 0xff) < 256 && ((x >> 8) & 0xff) < 256 && ((x >> 16) & 0xff) < 256 && ((x
            >> 24) & 0xff) < 256 && ((x >> 32) & 0xff) < 256 && ((x >> 40) & 0xff) < 256 && ((x
            >> 48) & 0xff) < 256 && ((x >> 56) & 0xff) < 256) by (bit_vector);
    }
    let mut v: Vec<u8> = Vec::new();
    v.push((x & 0xff) as u8);
    v.push(((x >> 8) & 0xff) as u8);
    v.push(((x >> 16) & 0xff) as u8);
    v.push(((x >> 24) & 0xff) as u8);
    v.push(((x >> 32) & 0xff) as u8);
    v.push(((x >> 40) & 0xff) as u8);
    v.push(((x >> 48) & 0xff) as u8);
    v.push(((x >> 56) & 0xff) as u8);
    proof {
        assert(v@ =~= le64(x));
    }
    v
}

/// Serialize a `u32` into its little-endian image.
pub fn le32_write(x: u32) -> (v: Vec<u8>)
    ensures
        v@ == le32(x),
{
    proof {
        assert((x & 0xff) < 256 && ((x >> 8) & 0xff) < 256 && ((x >> 16) & 0xff) < 256 && ((x
            >> 24) & 0xff) < 256) by (bit_vector);
    }
    let mut v: Vec<u8> = Vec::new();
    v.push((x & 0xff) as u8);
    v.push(((x >> 8) & 0xff) as u8);
    v.push(((x >> 16) & 0xff) as u8);
    v.push(((x >> 24) & 0xff) as u8);
    proof {
        assert(v@ =~= le32(x));
    }
    v
}

/// Deserialize a `u64` from its little-endian image.
pub fn le64_read(s: &[u8]) -> (x: u64)
    requires
        s@.len() == 8,
    ensures
        x == le64_val(s@),
{
    let b0 = *vstd::slice::slice_index_get(s, 0);
    let b1 = *vstd::slice::slice_index_get(s, 1);
    let b2 = *vstd::slice::slice_index_get(s, 2);
    let b3 = *vstd::slice::slice_index_get(s, 3);
    let b4 = *vstd::slice::slice_index_get(s, 4);
    let b5 = *vstd::slice::slice_index_get(s, 5);
    let b6 = *vstd::slice::slice_index_get(s, 6);
    let b7 = *vstd::slice::slice_index_get(s, 7);
    (b0 as u64) | (b1 as u64) << 8 | (b2 as u64) << 16 | (b3 as u64) << 24 | (b4 as u64) << 32 | (
    b5 as u64) << 40 | (b6 as u64) << 48 | (b7 as u64) << 56
}

/// Deserialize a `u32` from its little-endian image.
pub fn le32_read(s: &[u8]) -> (x: u32)
    requires
        s@.len() == 4,
    ensures
        x == le32_val(s@),
{
    let b0 = *vstd::slice::slice_index_get(s, 0);
    let b1 = *vstd::slice::slice_index_get(s, 1);
    let b2 = *vstd::slice::slice_index_get(s, 2);
    let b3 = *vstd::slice::slice_index_get(s, 3);
    (b0 as u32) | (b1 as u32) << 8 | (b2 as u32) << 16 | (b3 as u32) << 24
}

} // verus!
