use crate::wire::{
    le32, le32_read, le32_val, le32_write, le64, le64_read, le64_val, le64_write,
    lemma_le32_image, lemma_le32_roundtrip, lemma_le64_image, lemma_le64_roundtrip,
    lemma_le_zero,
};
use vstd::prelude::*;

verus! {

/// One fixed-stride spatial record: a Hilbert curve key together with the
/// coordinates it was derived from. The key is stored alongside the
/// coordinates so readers never recompute it.
#[derive(Clone, Copy, Debug, PartialEq, Eq, Structural)]
pub struct Point {
    pub key: u64,
    pub x: u32,
    pub y: u32,
}

/// Number of bytes one record occupies on disk: 8 for `key`, 4 for `x`,
/// 4 for `y`, little-endian, no padding.
pub const POINT_STRIDE: usize = 16;

/// The on-disk image of one record: little-endian `key`, then `x`, then `y`.
pub open spec fn point_to_bytes_spec(p: Point) -> Seq<u8> {
    le64(p.key) + le32(p.x) + le32(p.y)
}

/// The record read back from a 16-byte on-disk image.
pub open spec fn point_from_bytes_spec(s: Seq<u8>) -> Point
    recommends
        s.len() == POINT_STRIDE,
{
    Point {
        key: le64_val(s.subrange(0, 8)),
        x: le32_val(s.subrange(8, 12)),
        y: le32_val(s.subrange(12, 16)),
    }
}

/// The record whose image is all zero bytes: key 0 at the origin. Fresh
/// mapped regions hold this record in every slot.
pub open spec fn zero_point() -> Point {
    Point { key: 0, x: 0, y: 0 }
}

/// Encoding a record and reading it back is the identity.
pub proof fn lemma_point_bytes_roundtrip(p: Point)
    ensures
        point_to_bytes_spec(p).len() == POINT_STRIDE,
        point_from_bytes_spec(point_to_bytes_spec(p)) == p,
{
    lemma_le64_roundtrip(p.key);
    lemma_le32_roundtrip(p.x);
    lemma_le32_roundtrip(p.y);
    let b = point_to_bytes_spec(p);
    assert(b.subrange(0, 8) =~= le64(p.key));
    assert(b.subrange(8, 12) =~= le32(p.x));
    assert(b.subrange(12, 16) =~= le32(p.y));
}

/// Reading a 16-byte image and encoding the record again reproduces the
/// very same bytes: a record has exactly one on-disk image.
pub proof fn lemma_bytes_point_roundtrip(s: Seq<u8>)
    requires
        s.len() == POINT_STRIDE,
    ensures
        point_to_bytes_spec(point_from_bytes_spec(s)) == s,
{
    lemma_le64_image(s.subrange(0, 8));
    lemma_le32_image(s.subrange(8, 12));
    lemma_le32_image(s.subrange(12, 16));
    let p = point_from_bytes_spec(s);
    assert(point_to_bytes_spec(p) =~= s);
}

/// A slot of all zero bytes reads back as the zero record.
pub proof fn lemma_zero_point_bytes()
    ensures
        point_from_bytes_spec(Seq::new(POINT_STRIDE as nat, |i: int| 0u8)) == zero_point(),
{
    let z = Seq::new(POINT_STRIDE as nat, |i: int| 0u8);
    lemma_le_zero();
    assert(z.subrange(0, 8) =~= Seq::new(8, |i: int| 0u8));
    assert(z.subrange(8, 12) =~= Seq::new(4, |i: int| 0u8));
    assert(z.subrange(12, 16) =~= Seq::new(4, |i: int| 0u8));
}

/// Serialize one record into its 16-byte on-disk image.
pub fn point_to_bytes(p: &Point) -> (v: Vec<u8>)
    ensures
        v@ == point_to_bytes_spec(*p),
        v@.len() == POINT_STRIDE,
{
    proof {
        lemma_point_bytes_roundtrip(*p);
    }
    let mut v = le64_write(p.key);
    let mut bx = le32_write(p.x);
    let mut by = le32_write(p.y);
    v.append(&mut bx);
    v.append(&mut by);
    v
}

/// Deserialize one record from its 16-byte on-disk image.
pub fn point_from_bytes(s: &[u8]) -> (p: Point)
    requires
        s@.len() == POINT_STRIDE,
    ensures
        p == point_from_bytes_spec(s@),
{
    let kb = vstd::slice::slice_subrange(s, 0, 8);
    let xb = vstd::slice::slice_subrange(s, 8, 12);
    let yb = vstd::slice::slice_subrange(s, 12, 16);
    Point { key: le64_read(kb), x: le32_read(xb), y: le32_read(yb) }
}

} // verus!
