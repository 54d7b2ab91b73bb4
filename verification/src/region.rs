//! The mapped byte region backing a record file.
//!
//! The region is a `memmap2::MmapMut`: either an anonymous mapping made here,
//! or a file-backed mapping made by the caller and handed in. Verified code
//! sees it only through the trusted items below, whose contracts speak of the
//! region's contents as a byte sequence.

use crate::errors::StoreError;
use memmap2::MmapMut;
use vstd::prelude::*;

verus! {

#[verifier::external_type_specification]
#[verifier::external_body]
pub struct ExMmapMut(MmapMut);

/// The bytes the mapping currently holds.
pub uninterp spec fn region_bytes(m: MmapMut) -> Seq<u8>;

/// Relies on `memmap2::MmapMut::map_anon`: a fresh anonymous mapping of
/// `len` bytes, zero-initialized; zero-length mappings are supported.
#[verifier::external_body]
pub fn region_map_anon(len: usize) -> (r: Result<MmapMut, StoreError>)
    ensures
        r matches Ok(m) ==> region_bytes(m) == Seq::new(len as nat, |i: int| 0u8),
{
    MmapMut::map_anon(len).map_err(|_| StoreError::Io)
}

/// Relies on `<MmapMut as Deref>::deref`: the mapping viewed as a byte
/// slice, whose length is the mapping's length.
#[verifier::external_body]
pub fn region_len(m: &MmapMut) -> (n: usize)
    ensures
        n == region_bytes(*m).len(),
{
    m.len()
}

/// Relies on `<[u8]>::copy_from_slice` over the mapping's mutable slice
/// view: overwrites exactly the `src.len()` bytes starting at `offset`.
#[verifier::external_body]
pub fn region_write(m: &mut MmapMut, offset: usize, src: &[u8])
    requires
        offset + src@.len() <= region_bytes(*old(m)).len(),
    ensures
        region_bytes(*final(m)) == region_bytes(*old(m)).subrange(0, offset as int) + src@
            + region_bytes(*old(m)).subrange(
            offset + src@.len(),
            region_bytes(*old(m)).len() as int,
        ),
{
    m[offset..offset + src.len()].copy_from_slice(src);
}

/// Relies on `<[u8]>::to_vec` over the mapping's slice view: copies out the
/// `len` bytes starting at `offset`.
#[verifier::external_body]
pub fn region_read(m: &MmapMut, offset: usize, len: usize) -> (v: Vec<u8>)
    requires
        offset + len <= region_bytes(*m).len(),
    ensures
        v@ == region_bytes(*m).subrange(offset as int, offset + len),
{
    m[offset..offset + len].to_vec()
}

/// Relies on `memmap2::MmapMut::flush`: when it returns `Ok`, outstanding
/// changes to a file-backed mapping are durably stored. The contents of the
/// mapping are not touched.
#[verifier::external_body]
pub fn region_flush(m: &MmapMut) -> (r: Result<(), StoreError>)
    ensures
        r matches Err(e) ==> e == StoreError::Io,
{
    m.flush().map_err(|_| StoreError::Io)
}

} // verus!
