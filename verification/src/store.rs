//! The user-facing store: accepts raw coordinates, computes their Hilbert
//! keys with the full-width codec, reorders them through the pipeline, and
//! exposes indexed and range-adjacent read access over the resulting file.

use crate::codec::{hilbert_index, HilbertCodec, MAX_ORDER};
use crate::errors::StoreError;
use crate::pipeline::{lemma_reorder_round_trip, reordered, ExecutionStrategy, ReorderPipeline};
use crate::point::Point;
use crate::record_file::{records_of, MappedRecordFile};
use crate::region::region_bytes;
use memmap2::MmapMut;
use vstd::prelude::*;

verus! {

/// Keys never descend with rank: what the pipeline guarantees of every
/// file it writes, and what `open_region` checks of a file it is handed.
pub open spec fn keys_ascending(recs: Seq<Point>) -> bool {
    forall|r1: int, r2: int|
        0 <= r1 < r2 < recs.len() ==> (#[trigger] recs[r1]).key <= (#[trigger] recs[r2]).key
}

proof fn lemma_adjacent_implies_ascending(recs: Seq<Point>, r1: int, r2: int)
    requires
        forall|k: int| 0 < k < recs.len() ==> (#[trigger] recs[k]).key >= recs[k - 1].key,
        0 <= r1 <= r2 < recs.len(),
    ensures
        recs[r1].key <= recs[r2].key,
    decreases r2 - r1,
{
    if r1 < r2 {
        lemma_adjacent_implies_ascending(recs, r1, r2 - 1);
    }
}

/// The records a coordinate list stands for, each carrying the key the
/// full-width codec computes for it.
pub open spec fn keyed_points(coords: Seq<(u32, u32)>) -> Seq<Point> {
    Seq::new(
        coords.len(),
        |i: int|
            Point {
                key: hilbert_index(MAX_ORDER, coords[i].0, coords[i].1),
                x: coords[i].0,
                y: coords[i].1,
            },
    )
}

/// The lower edge of the key window around `key`, clamped at zero.
pub open spec fn window_lo(key: u64, radius: u64) -> u64 {
    if key >= radius {
        (key - radius) as u64
    } else {
        0
    }
}

/// The upper edge of the key window around `key`, clamped at the key
/// type's maximum.
pub open spec fn window_hi(key: u64, radius: u64) -> u64 {
    if key <= u64::MAX - radius {
        (key + radius) as u64
    } else {
        u64::MAX
    }
}

/// A built spatial point store: the input records, keyed and reordered,
/// behind read access by rank.
pub struct SpatialPointStore {
    file: MappedRecordFile,
    codec: HilbertCodec,
}

impl SpatialPointStore {
    /// The records in rank order: sorted by key ascending.
    pub closed spec fn records(self) -> Seq<Point> {
        self.file.records()
    }

    pub closed spec fn wf(self) -> bool {
        &&& self.file.wf()
        &&& self.codec.wf()
        &&& self.codec.spec_order() == MAX_ORDER
        &&& keys_ascending(self.records())
    }

    /// Keys ascend with rank; part of well-formedness, exposed for
    /// callers' reasoning.
    pub proof fn lemma_keys_sorted(self)
        requires
            self.wf(),
        ensures
            keys_ascending(self.records()),
    {
    }

    /// Builds a store over `coords`: computes each pair's Hilbert key with
    /// the full-width codec, then reorders through the pipeline with the
    /// chosen strategy. Fails only with `Io`, when the backing region
    /// cannot be made.
    pub fn build(coords: &Vec<(u32, u32)>, strategy: ExecutionStrategy) -> (r: Result<
        SpatialPointStore,
        StoreError,
    >)
        ensures
            r matches Ok(s) ==> s.wf() && s.records() == reordered(keyed_points(coords@)),
            r matches Err(e) ==> e == StoreError::Io,
    {
        let codec = HilbertCodec::full_width();
        let mut pts: Vec<Point> = Vec::new();
        let n = coords.len();
        proof {
            assert(pts@ =~= keyed_points(coords@).take(0));
        }
        for i in 0..n
            invariant
                n == coords@.len(),
                codec.wf(),
                codec.spec_order() == MAX_ORDER,
                forall|x: u32, y: u32| codec.in_domain(x, y),
                pts@ == keyed_points(coords@).take(i as int),
        {
            let (x, y) = coords[i];
            let k = match codec.encode(x, y) {
                Ok(k) => k,
                Err(_) => {
                    proof {
                        assert(false);
                    }
                    return Err(StoreError::Io);
                },
            };
            pts.push(Point { key: k, x, y });
            proof {
                assert(pts@ =~= keyed_points(coords@).take(i as int + 1));
            }
        }
        proof {
            assert(pts@ =~= keyed_points(coords@));
        }
        let pipeline = ReorderPipeline::new(strategy);
        let file = match pipeline.run(&pts) {
            Ok(f) => f,
            Err(e) => {
                return Err(e);
            },
        };
        proof {
            lemma_reorder_round_trip(pts@);
        }
        Ok(SpatialPointStore { file, codec })
    }

    /// Opens a store over an existing mapping, typically a file-backed one
    /// made by the caller. The region must be a whole number of record
    /// strides and already in Hilbert order — what the pipeline wrote —
    /// else it is rejected with `Format`.
    pub fn open_region(region: MmapMut) -> (r: Result<SpatialPointStore, StoreError>)
        ensures
            r matches Ok(s) ==> s.wf() && s.records() == records_of(region_bytes(region)),
            (region_bytes(region).len() % 16 == 0 && keys_ascending(
                records_of(region_bytes(region)),
            )) <==> r is Ok,
            r matches Err(e) ==> e == StoreError::Format,
    {
        let file = match MappedRecordFile::from_region(region) {
            Ok(f) => f,
            Err(_) => {
                return Err(StoreError::Format);
            },
        };
        proof {
            assert(region_bytes(region).len() % 16 == 0);
            assert(file.records() == records_of(region_bytes(region)));
        }
        let n = file.capacity();
        let mut i: usize = 1;
        while i < n
            invariant
                file.wf(),
                n as nat == file.records().len(),
                1 <= i,
                region_bytes(region).len() % 16 == 0,
                file.records() == records_of(region_bytes(region)),
                forall|k: int|
                    0 < k < i ==> (#[trigger] file.records()[k]).key >= file.records()[k - 1].key,
            decreases n - i,
        {
            let a = match file.get(i - 1) {
                Ok(p) => p,
                Err(_) => {
                    proof {
                        assert(false);
                    }
                    return Err(StoreError::Format);
                },
            };
            let b = match file.get(i) {
                Ok(p) => p,
                Err(_) => {
                    proof {
                        assert(false);
                    }
                    return Err(StoreError::Format);
                },
            };
            if a.key > b.key {
                proof {
                    assert((file.records()[i - 1]).key > (file.records()[i as int]).key);
                    assert(!keys_ascending(file.records()));
                }
                return Err(StoreError::Format);
            }
            i = i + 1;
        }
        proof {
            assert forall|r1: int, r2: int|
                0 <= r1 < r2 < file.records().len() implies (
            #[trigger] file.records()[r1]).key <= (#[trigger] file.records()[r2]).key by {
                lemma_adjacent_implies_ascending(file.records(), r1, r2);
            }
        }
        let codec = HilbertCodec::full_width();
        Ok(SpatialPointStore { file, codec })
    }

    /// Number of records the store holds.
    pub fn len(&self) -> (n: usize)
        requires
            self.wf(),
        ensures
            n as nat == self.records().len(),
    {
        self.file.capacity()
    }

    /// The record at rank `rank`: the one with the `rank`-th smallest key.
    pub fn get_by_rank(&self, rank: usize) -> (r: Result<Point, StoreError>)
        requires
            self.wf(),
        ensures
            (rank as nat) < self.records().len() ==> (r matches Ok(p) && p
                == self.records()[rank as int]),
            (rank as nat) >= self.records().len() ==> (r matches Err(e) && e
                == StoreError::OutOfBounds),
    {
        self.file.get(rank)
    }

    /// Copies all records out, in rank order.
    pub fn to_vec(&self) -> (v: Vec<Point>)
        requires
            self.wf(),
        ensures
            v@ == self.records(),
    {
        self.file.to_vec()
    }

    /// Copies the store's raw on-disk image out, byte for byte: exactly
    /// the records, laid out stride by stride. Together with the length,
    /// reading the bytes back as records fixes the image uniquely.
    pub fn to_bytes(&self) -> (v: Vec<u8>)
        requires
            self.wf(),
        ensures
            v@.len() == 16 * self.records().len(),
            records_of(v@) == self.records(),
    {
        proof {
            self.file.lemma_wf_stride();
        }
        self.file.to_bytes()
    }

    /// Forces pending writes of a file-backed store to the backing medium.
    pub fn flush(&self) -> (r: Result<(), StoreError>)
        ensures
            r matches Err(e) ==> e == StoreError::Io,
    {
        self.file.flush()
    }

    /// First rank whose key is at least `bound`, or the record count when
    /// every key is below it.
    fn first_at_least(&self, bound: u64) -> (j: usize)
        requires
            self.wf(),
        ensures
            j as nat <= self.records().len(),
            forall|r: int| 0 <= r < j ==> (#[trigger] self.records()[r]).key < bound,
            (j as nat) < self.records().len() ==> self.records()[j as int].key >= bound,
    {
        let n = self.file.capacity();
        let mut j: usize = 0;
        while j < n
            invariant
                self.wf(),
                n as nat == self.records().len(),
                j <= n,
                forall|r: int| 0 <= r < j ==> (#[trigger] self.records()[r]).key < bound,
            decreases n - j,
        {
            let p = match self.file.get(j) {
                Ok(p) => p,
                Err(_) => {
                    proof {
                        assert(false);
                    }
                    return j;
                },
            };
            if p.key >= bound {
                return j;
            }
            j = j + 1;
        }
        j
    }

    /// First rank whose key exceeds `bound`, or the record count when
    /// every key is within it.
    fn first_above(&self, bound: u64) -> (j: usize)
        requires
            self.wf(),
        ensures
            j as nat <= self.records().len(),
            forall|r: int| 0 <= r < j ==> (#[trigger] self.records()[r]).key <= bound,
            (j as nat) < self.records().len() ==> self.records()[j as int].key > bound,
    {
        let n = self.file.capacity();
        let mut j: usize = 0;
        while j < n
            invariant
                self.wf(),
                n as nat == self.records().len(),
                j <= n,
                forall|r: int| 0 <= r < j ==> (#[trigger] self.records()[r]).key <= bound,
            decreases n - j,
        {
            let p = match self.file.get(j) {
                Ok(p) => p,
                Err(_) => {
                    proof {
                        assert(false);
                    }
                    return j;
                },
            };
            if p.key > bound {
                return j;
            }
            j = j + 1;
        }
        j
    }

    /// The contiguous rank range whose keys fall within `radius` of `key`:
    /// every rank inside the range is in the window, every rank below it
    /// is under the window, every rank above it is over the window. An
    /// approximation of spatial proximity: adjacent ranks are usually, not
    /// always, spatially close.
    pub fn nearest_rank_range(&self, key: u64, radius: u64) -> (rr: (usize, usize))
        requires
            self.wf(),
        ensures
            rr.0 <= rr.1 && (rr.1 as nat) <= self.records().len(),
            forall|r: int|
                rr.0 <= r < rr.1 ==> window_lo(key, radius) <= (
                #[trigger] self.records()[r]).key <= window_hi(key, radius),
            forall|r: int|
                0 <= r < rr.0 ==> (#[trigger] self.records()[r]).key < window_lo(key, radius),
            forall|r: int|
                rr.1 <= r < self.records().len() ==> (#[trigger] self.records()[r]).key
                    > window_hi(key, radius),
    {
        let lower = if key >= radius {
            key - radius
        } else {
            0
        };
        let upper = if key <= u64::MAX - radius {
            key + radius
        } else {
            u64::MAX
        };
        let lo = self.first_at_least(lower);
        let hi = self.first_above(upper);
        proof {
            if hi < lo {
                assert(self.records()[hi as int].key > upper);
                assert(self.records()[hi as int].key < lower);
                assert(false);
            }
            assert forall|r: int| lo <= r < hi implies window_lo(key, radius) <= (
            #[trigger] self.records()[r]).key <= window_hi(key, radius) by {
                if (lo as int) < r {
                    assert(self.records()[lo as int].key <= self.records()[r].key);
                }
            }
        }
        (lo, hi)
    }
}

} // verus!
