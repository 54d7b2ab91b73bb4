//! A fixed-capacity array of records backed by a mapped byte region, with
//! bounds-checked access. The region is never exposed raw: every read and
//! write goes through an accessor that validates the index first.

use crate::errors::StoreError;
use crate::point::{
    lemma_bytes_point_roundtrip, lemma_point_bytes_roundtrip, lemma_zero_point_bytes,
    point_from_bytes, point_from_bytes_spec, point_to_bytes, point_to_bytes_spec, zero_point,
    Point, POINT_STRIDE,
};
use crate::region::{
    region_bytes, region_flush, region_len, region_map_anon, region_read, region_write,
};
use memmap2::MmapMut;
use vstd::prelude::*;

verus! {

/// The records a byte region holds, one per 16-byte stride.
pub open spec fn records_of(b: Seq<u8>) -> Seq<Point> {
    Seq::new(
        b.len() / (POINT_STRIDE as nat),
        |i: int|
            point_from_bytes_spec(
                b.subrange((POINT_STRIDE as int) * i, (POINT_STRIDE as int) * i + 16),
            ),
    )
}

/// Splicing one record's image into a region rewrites exactly that slot.
pub proof fn lemma_records_of_splice(b: Seq<u8>, i: int, rb: Seq<u8>)
    requires
        b.len() % (POINT_STRIDE as nat) == 0,
        0 <= i,
        16 * i + 16 <= b.len(),
        rb.len() == POINT_STRIDE,
    ensures
        records_of(b.subrange(0, 16 * i) + rb + b.subrange(16 * i + 16, b.len() as int))
            == records_of(b).update(i, point_from_bytes_spec(rb)),
{
    let b2 = b.subrange(0, 16 * i) + rb + b.subrange(16 * i + 16, b.len() as int);
    assert(b2.len() == b.len());
    let n = b.len() / (POINT_STRIDE as nat);
    assert(b.len() == 16 * n) by {
        vstd::arithmetic::div_mod::lemma_fundamental_div_mod(b.len() as int, 16);
    }
    assert(i < n);
    assert forall|j: int| 0 <= j < n implies records_of(b2)[j] == records_of(b).update(
        i,
        point_from_bytes_spec(rb),
    )[j] by {
        if j == i {
            assert(b2.subrange(16 * j, 16 * j + 16) =~= rb);
        } else {
            assert(b2.subrange(16 * j, 16 * j + 16) =~= b.subrange(16 * j, 16 * j + 16));
        }
    }
    assert(records_of(b2) =~= records_of(b).update(i, point_from_bytes_spec(rb)));
}

/// Regions of equal length holding the same records are byte-identical:
/// a record sequence has exactly one on-disk image of a given length.
pub proof fn lemma_records_of_injective(b1: Seq<u8>, b2: Seq<u8>)
    requires
        b1.len() % (POINT_STRIDE as nat) == 0,
        b1.len() == b2.len(),
        records_of(b1) == records_of(b2),
    ensures
        b1 == b2,
{
    let n = b1.len() / (POINT_STRIDE as nat);
    assert(b1.len() == 16 * n) by {
        vstd::arithmetic::div_mod::lemma_fundamental_div_mod(b1.len() as int, 16);
    }
    assert forall|k: int| 0 <= k < b1.len() implies b1[k] == b2[k] by {
        let j = k / 16;
        vstd::arithmetic::div_mod::lemma_fundamental_div_mod(k, 16);
        assert(0 <= j < n);
        let s1 = b1.subrange(16 * j, 16 * j + 16);
        let s2 = b2.subrange(16 * j, 16 * j + 16);
        assert(records_of(b1)[j] == records_of(b2)[j]);
        assert(records_of(b1)[j] == point_from_bytes_spec(s1));
        assert(records_of(b2)[j] == point_from_bytes_spec(s2));
        lemma_bytes_point_roundtrip(s1);
        lemma_bytes_point_roundtrip(s2);
        assert(s1 == s2);
        assert(b1[k] == s1[k - 16 * j]);
        assert(b2[k] == s2[k - 16 * j]);
    }
    assert(b1 =~= b2);
}

/// A memory-mapped, fixed-stride array of records. Capacity is fixed when
/// the region is made and equals the region's length divided by the stride.
pub struct MappedRecordFile {
    region: MmapMut,
    capacity: usize,
}

impl MappedRecordFile {
    /// The raw bytes of the backing region, in slot order.
    pub closed spec fn bytes(self) -> Seq<u8> {
        region_bytes(self.region)
    }

    /// Structural invariant: the region is exactly `capacity` strides long.
    pub closed spec fn wf(self) -> bool {
        self.bytes().len() == (self.capacity as nat) * 16
    }

    /// The records the file holds, in slot order.
    pub open spec fn records(self) -> Seq<Point> {
        records_of(self.bytes())
    }

    proof fn lemma_wf_facts(self)
        requires
            self.wf(),
        ensures
            self.records().len() == self.capacity as nat,
            self.bytes().len() % (POINT_STRIDE as nat) == 0,
            self.bytes().len() == 16 * (self.capacity as nat),
    {
        let c = self.capacity as int;
        assert((c * 16) / 16 == c && (c * 16) % 16 == 0) by (nonlinear_arith);
    }

    /// A well-formed file's byte length is exactly its records laid out
    /// stride by stride.
    pub proof fn lemma_wf_stride(self)
        requires
            self.wf(),
        ensures
            self.bytes().len() == 16 * self.records().len(),
            self.bytes().len() % (POINT_STRIDE as nat) == 0,
    {
        self.lemma_wf_facts();
    }

    /// Creates a file of `capacity` zeroed records over a fresh anonymous
    /// mapping. Fails with `Io` when the byte size cannot be represented —
    /// always, before any mapping call — or when the mapping cannot be
    /// reserved.
    pub fn create(capacity: usize) -> (r: Result<MappedRecordFile, StoreError>)
        ensures
            r matches Ok(f) ==> f.wf() && f.records() == Seq::new(
                capacity as nat,
                |i: int| zero_point(),
            ),
            r matches Err(e) ==> e == StoreError::Io,
            (capacity as nat) * (POINT_STRIDE as nat) > usize::MAX as nat ==> r is Err,
    {
        let bytes_len = match capacity.checked_mul(POINT_STRIDE) {
            Some(n) => n,
            None => {
                return Err(StoreError::Io);
            },
        };
        let region = match region_map_anon(bytes_len) {
            Ok(m) => m,
            Err(_) => {
                return Err(StoreError::Io);
            },
        };
        let f = MappedRecordFile { region, capacity };
        proof {
            let z = Seq::new(bytes_len as nat, |i: int| 0u8);
            assert(f.bytes() == z);
            assert(f.wf());
            f.lemma_wf_facts();
            lemma_zero_point_bytes();
            assert forall|j: int| 0 <= j < capacity as nat implies records_of(z)[j]
                == zero_point() by {
                assert(z.subrange(16 * j, 16 * j + 16) =~= Seq::new(
                    POINT_STRIDE as nat,
                    |i: int| 0u8,
                ));
            }
            assert(records_of(z) =~= Seq::new(capacity as nat, |i: int| zero_point()));
        }
        Ok(f)
    }

    /// Wraps an existing mapping, typically file-backed and made by the
    /// caller, as a record file; capacity is inferred from the region's
    /// length. Fails with `Format` when that length is not a multiple of
    /// the record stride.
    pub fn from_region(region: MmapMut) -> (r: Result<MappedRecordFile, StoreError>)
        ensures
            region_bytes(region).len() % (POINT_STRIDE as nat) == 0 ==> (r matches Ok(f) && f.wf()
                && f.records() == records_of(region_bytes(region))),
            region_bytes(region).len() % (POINT_STRIDE as nat) != 0 ==> (r matches Err(e) && e
                == StoreError::Format),
    {
        let len = region_len(&region);
        if len % POINT_STRIDE != 0 {
            return Err(StoreError::Format);
        }
        let capacity = len / POINT_STRIDE;
        proof {
            vstd::arithmetic::div_mod::lemma_fundamental_div_mod(len as int, 16);
        }
        Ok(MappedRecordFile { region, capacity })
    }

    /// Number of record slots; fixed when the region was made.
    pub fn capacity(&self) -> (n: usize)
        requires
            self.wf(),
        ensures
            n as nat == self.records().len(),
    {
        proof {
            self.lemma_wf_facts();
        }
        self.capacity
    }

    /// Bounds-checked read of slot `index`: a copy of the record there.
    pub fn get(&self, index: usize) -> (r: Result<Point, StoreError>)
        requires
            self.wf(),
        ensures
            (index as nat) < self.records().len() ==> (r matches Ok(q) && q == self.records()[index as int]),
            (index as nat) >= self.records().len() ==> (r matches Err(e) && e
                == StoreError::OutOfBounds),
    {
        proof {
            self.lemma_wf_facts();
        }
        if index >= self.capacity {
            return Err(StoreError::OutOfBounds);
        }
        // the mapping's length, a usize, bounds the slot's byte offset
        let n = region_len(&self.region);
        proof {
            assert(16 * (index as int) + 16 <= n as int);
        }
        let off = index * POINT_STRIDE;
        let v = region_read(&self.region, off, POINT_STRIDE);
        let q = point_from_bytes(v.as_slice());
        proof {
            assert(v@ =~= self.bytes().subrange(16 * (index as int), 16 * (index as int) + 16));
        }
        Ok(q)
    }

    /// Bounds-checked in-place write of slot `index`.
    pub fn set(&mut self, index: usize, p: Point) -> (r: Result<(), StoreError>)
        requires
            old(self).wf(),
        ensures
            final(self).wf(),
            (index as nat) < old(self).records().len() ==> (r is Ok && final(self).records()
                == old(self).records().update(index as int, p)),
            (index as nat) >= old(self).records().len() ==> (r matches Err(e) && e
                == StoreError::OutOfBounds && final(self).records() == old(self).records()),
    {
        proof {
            self.lemma_wf_facts();
        }
        if index >= self.capacity {
            return Err(StoreError::OutOfBounds);
        }
        // the mapping's length, a usize, bounds the slot's byte offset
        let n = region_len(&self.region);
        proof {
            assert(16 * (index as int) + 16 <= n as int);
        }
        let rb = point_to_bytes(&p);
        let off = index * POINT_STRIDE;
        region_write(&mut self.region, off, rb.as_slice());
        proof {
            lemma_point_bytes_roundtrip(p);
            lemma_records_of_splice(old(self).bytes(), index as int, point_to_bytes_spec(p));
            assert(self.bytes() == old(self).bytes().subrange(0, 16 * (index as int))
                + point_to_bytes_spec(p) + old(self).bytes().subrange(
                16 * (index as int) + 16,
                old(self).bytes().len() as int,
            ));
        }
        Ok(())
    }

    /// Copies all records out, in slot order.
    pub fn to_vec(&self) -> (v: Vec<Point>)
        requires
            self.wf(),
        ensures
            v@ == self.records(),
    {
        proof {
            self.lemma_wf_facts();
        }
        let mut v: Vec<Point> = Vec::new();
        let n = self.capacity;
        for i in 0..n
            invariant
                self.wf(),
                n == self.capacity,
                n as nat == self.records().len(),
                v@ == self.records().take(i as int),
        {
            let q = match self.get(i) {
                Ok(q) => q,
                Err(_) => {
                    proof {
                        assert(false);
                    }
                    return v;
                },
            };
            v.push(q);
            proof {
                assert(v@ =~= self.records().take(i as int + 1));
            }
        }
        proof {
            assert(v@ =~= self.records());
        }
        v
    }

    /// Copies the raw on-disk image out, byte for byte.
    pub fn to_bytes(&self) -> (v: Vec<u8>)
        ensures
            v@ == self.bytes(),
    {
        let n = region_len(&self.region);
        let v = region_read(&self.region, 0, n);
        proof {
            assert(v@ =~= self.bytes());
        }
        v
    }

    /// Forces pending writes of a file-backed region to the backing medium;
    /// durability is not guaranteed until this returns `Ok`.
    pub fn flush(&self) -> (r: Result<(), StoreError>)
        ensures
            r matches Err(e) ==> e == StoreError::Io,
    {
        region_flush(&self.region)
    }
}

} // verus!
