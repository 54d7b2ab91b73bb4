//! The reorder pipeline: computes the Hilbert order index of the input
//! records, then rewrites them into a fresh record file so that slot `r`
//! holds the record with the `r`-th smallest key, ties broken by original
//! input order.
//!
//! The rewrite phase admits two execution strategies. The output slots are
//! pairwise disjoint and the input is only read, so partitions may be
//! rewritten in any order; every strategy produces the same file.

use crate::errors::StoreError;
use crate::order::{
    lemma_sort_pairs_ensures, lemma_sort_pairs_of_sorted, pair_le, sort_key_pairs, sort_pairs,
    sorted_pairs,
};
use crate::point::Point;
use crate::record_file::{lemma_records_of_injective, MappedRecordFile};
use vstd::prelude::*;

verus! {

broadcast use vstd::seq_lib::group_to_multiset_ensures, vstd::multiset::group_multiset_axioms;

/// The `(key, original index)` pair of every input record, in input order.
pub open spec fn key_pairs_of(pts: Seq<Point>) -> Seq<(u64, usize)> {
    Seq::new(pts.len(), |i: int| (pts[i].key, i as usize))
}

/// The Hilbert order index of the input: its key pairs sorted by key
/// ascending, ties broken by original index.
pub open spec fn hilbert_order_index(pts: Seq<Point>) -> Seq<(u64, usize)> {
    sort_pairs(key_pairs_of(pts))
}

/// The records picked from `pts` in the order the index dictates.
pub open spec fn picked(pts: Seq<Point>, order: Seq<(u64, usize)>) -> Seq<Point> {
    Seq::new(order.len(), |r: int| pts[order[r].1 as int])
}

/// What the pipeline writes: the input records in Hilbert key order.
pub open spec fn reordered(pts: Seq<Point>) -> Seq<Point> {
    picked(pts, hilbert_order_index(pts))
}

/// Every entry of the order index points back into the input, carries that
/// record's key, and the index is as long as the input.
pub proof fn lemma_order_index_bounds(pts: Seq<Point>)
    requires
        pts.len() <= usize::MAX,
    ensures
        hilbert_order_index(pts).len() == pts.len(),
        forall|r: int|
            0 <= r < pts.len() ==> (#[trigger] hilbert_order_index(pts)[r]).1 < pts.len(),
        forall|r: int|
            0 <= r < pts.len() ==> (#[trigger] hilbert_order_index(pts)[r]).0 == pts[hilbert_order_index(
                pts,
            )[r].1 as int].key,
{
    let kp = key_pairs_of(pts);
    lemma_sort_pairs_ensures(kp);
    let q = hilbert_order_index(pts);
    assert forall|r: int| 0 <= r < pts.len() implies ((#[trigger] q[r]).1 < pts.len() && q[r].0
        == pts[q[r].1 as int].key) by {
        let e = q[r];
        assert(q.contains(e));
        assert(q.to_multiset().count(e) > 0);
        assert(kp.to_multiset().count(e) > 0);
        assert(kp.contains(e));
        let i = choose|i: int| 0 <= i < kp.len() && kp[i] == e;
        assert(e == (pts[i].key, i as usize));
    }
}

/// Picking records through two index sequences with the same contents
/// yields the same records as a multiset.
proof fn lemma_picked_multiset(pts: Seq<Point>, q1: Seq<(u64, usize)>, q2: Seq<(u64, usize)>)
    requires
        q1.to_multiset() == q2.to_multiset(),
        forall|r: int| 0 <= r < q2.len() ==> (#[trigger] q2[r]).1 < pts.len(),
    ensures
        picked(pts, q1).to_multiset() == picked(pts, q2).to_multiset(),
    decreases q1.len(),
{
    q1.to_multiset_ensures();
    q2.to_multiset_ensures();
    assert(q1.to_multiset().len() == q2.to_multiset().len());
    assert(q1.len() == q2.len());
    if q1.len() == 0 {
        assert(picked(pts, q1) =~= picked(pts, q2));
    } else {
        let x = q1.last();
        let d1 = q1.drop_last();
        assert(q1 =~= d1.push(x));
        assert(q1.to_multiset() == d1.to_multiset().insert(x));
        assert(q1.contains(x));
        assert(q2.to_multiset().count(x) > 0);
        assert(q2.contains(x));
        let j = choose|j: int| 0 <= j < q2.len() && q2[j] == x;
        let d2 = q2.remove(j);
        assert(d2.to_multiset() == q2.to_multiset().remove(x));
        assert(d1.to_multiset() =~= d2.to_multiset());
        assert forall|r: int| 0 <= r < d2.len() implies (#[trigger] d2[r]).1 < pts.len() by {
            if r < j {
                assert(d2[r] == q2[r]);
            } else {
                assert(d2[r] == q2[r + 1]);
            }
        }
        lemma_picked_multiset(pts, d1, d2);
        let v = pts[x.1 as int];
        assert(picked(pts, q1) =~= picked(pts, d1).push(v));
        assert(picked(pts, d2) =~= picked(pts, q2).remove(j));
        assert(picked(pts, q2).remove(j).to_multiset() == picked(pts, q2).to_multiset().remove(
            picked(pts, q2)[j],
        ));
        assert(picked(pts, q2)[j] == v);
        assert(picked(pts, q2).contains(picked(pts, q2)[j]));
        assert(picked(pts, q2).to_multiset().count(v) > 0);
        assert(picked(pts, q1).to_multiset() == picked(pts, d1).to_multiset().insert(v));
        assert(picked(pts, q1).to_multiset() =~= picked(pts, q2).to_multiset());
    }
}

/// Law: the pipeline's output is a permutation of the input multiset,
/// sorted by key ascending, with ties broken by original input order.
pub proof fn lemma_reorder_round_trip(pts: Seq<Point>)
    requires
        pts.len() <= usize::MAX,
    ensures
        reordered(pts).len() == pts.len(),
        reordered(pts).to_multiset() == pts.to_multiset(),
        forall|r1: int, r2: int|
            0 <= r1 < r2 < pts.len() ==> (#[trigger] reordered(pts)[r1]).key <= (
            #[trigger] reordered(pts)[r2]).key,
        sorted_pairs(hilbert_order_index(pts)),
        forall|r: int|
            0 <= r < pts.len() ==> #[trigger] reordered(pts)[r] == pts[hilbert_order_index(
                pts,
            )[r].1 as int],
{
    let kp = key_pairs_of(pts);
    lemma_sort_pairs_ensures(kp);
    lemma_order_index_bounds(pts);
    let q = hilbert_order_index(pts);
    assert forall|r: int| 0 <= r < kp.len() implies (#[trigger] kp[r]).1 < pts.len() by {
        assert(kp[r] == (pts[r].key, r as usize));
    }
    lemma_picked_multiset(pts, q, kp);
    assert(picked(pts, kp) =~= pts);
    assert forall|r1: int, r2: int| 0 <= r1 < r2 < pts.len() implies (
    #[trigger] reordered(pts)[r1]).key <= (#[trigger] reordered(pts)[r2]).key by {
        assert(pair_le(q[r1], q[r2]));
        assert(reordered(pts)[r1].key == q[r1].0);
        assert(reordered(pts)[r2].key == q[r2].0);
    }
}

/// Law: the pipeline is idempotent. Its output is already in Hilbert
/// order, with fresh original indices ascending, so reordering it again
/// changes nothing.
pub proof fn lemma_reorder_idempotent(pts: Seq<Point>)
    requires
        pts.len() <= usize::MAX,
    ensures
        reordered(reordered(pts)) == reordered(pts),
{
    lemma_reorder_round_trip(pts);
    let out = reordered(pts);
    let kp = key_pairs_of(out);
    assert forall|i: int, j: int| 0 <= i < j < kp.len() implies pair_le(kp[i], kp[j]) && !pair_le(
        kp[j],
        kp[i],
    ) by {
        assert(kp[i] == (out[i].key, i as usize));
        assert(kp[j] == (out[j].key, j as usize));
        assert(out[i].key <= out[j].key);
    }
    lemma_sort_pairs_of_sorted(kp);
    assert(picked(out, kp) =~= out);
}

/// Law: two pipeline outputs for the same input are byte-identical files,
/// whatever execution strategy produced each.
pub proof fn lemma_rerun_byte_identical(
    input: Seq<Point>,
    f1: MappedRecordFile,
    f2: MappedRecordFile,
)
    requires
        f1.wf(),
        f2.wf(),
        f1.records() == reordered(input),
        f2.records() == reordered(input),
    ensures
        f1.bytes() == f2.bytes(),
{
    f1.lemma_wf_stride();
    f2.lemma_wf_stride();
    lemma_records_of_injective(f1.bytes(), f2.bytes());
}

/// Law: the serial and the partitioned strategy write identical record
/// sequences for the same input; the sort fixes every slot before any
/// write, so the schedule of the rewrite cannot show in the output.
pub proof fn lemma_strategy_equivalence(
    input: Seq<Point>,
    serial_out: Seq<Point>,
    partitioned_out: Seq<Point>,
)
    requires
        serial_out == reordered(input),
        partitioned_out == reordered(input),
    ensures
        serial_out == partitioned_out,
{
}

/// How the rewrite phase is executed. The sort has already fixed every
/// slot, so the choice cannot change the output, only how the writes are
/// scheduled.
#[derive(Clone, Copy, Debug, PartialEq, Eq, Structural)]
pub enum ExecutionStrategy {
    /// One pass writes every slot in rank order.
    Serial,
    /// The slots are split into `workers` contiguous partitions, each
    /// rewritten independently of the others.
    Partitioned { workers: usize },
}

/// Builds the Hilbert order index of the input records.
pub fn build_order_index(input: &Vec<Point>) -> (v: Vec<(u64, usize)>)
    ensures
        v@ == hilbert_order_index(input@),
{
    let mut kp: Vec<(u64, usize)> = Vec::new();
    let n = input.len();
    for i in 0..n
        invariant
            n == input@.len(),
            kp@ == key_pairs_of(input@).take(i as int),
    {
        kp.push((input[i].key, i));
        proof {
            assert(kp@ =~= key_pairs_of(input@).take(i as int + 1));
        }
    }
    proof {
        assert(kp@ =~= key_pairs_of(input@));
    }
    sort_key_pairs(&kp)
}

/// Rewrites the destination slots `start..end`: slot `r` gets the input
/// record the order index names for rank `r`. Slots outside the range are
/// left untouched.
fn rewrite_range(
    input: &Vec<Point>,
    order: &Vec<(u64, usize)>,
    start: usize,
    end: usize,
    file: &mut MappedRecordFile,
)
    requires
        old(file).wf(),
        old(file).records().len() == order@.len(),
        start <= end && end as nat <= order@.len(),
        forall|r: int| 0 <= r < order@.len() ==> (#[trigger] order@[r]).1 < input@.len(),
    ensures
        final(file).wf(),
        final(file).records().len() == order@.len(),
        forall|k: int|
            start <= k < end ==> #[trigger] final(file).records()[k] == input@[order@[k].1 as int],
        forall|k: int|
            (0 <= k < start || end <= k < order@.len()) ==> #[trigger] final(file).records()[k]
                == old(file).records()[k],
{
    let mut r = start;
    while r < end
        invariant
            file.wf(),
            file.records().len() == order@.len(),
            start <= r <= end && end as nat <= order@.len(),
            forall|rr: int| 0 <= rr < order@.len() ==> (#[trigger] order@[rr]).1 < input@.len(),
            forall|k: int|
                start <= k < r ==> #[trigger] file.records()[k] == input@[order@[k].1 as int],
            forall|k: int|
                (0 <= k < start || r <= k < order@.len()) ==> #[trigger] file.records()[k] == old(
                    file,
                ).records()[k],
        decreases end - r,
    {
        let oi = order[r].1;
        let p = input[oi];
        let res = file.set(r, p);
        proof {
            if res is Err {
                assert(false);
            }
        }
        r = r + 1;
    }
}

/// Consumes an input record collection, each record already carrying its
/// key, and writes the records into a fresh record file in Hilbert order.
pub struct ReorderPipeline {
    pub strategy: ExecutionStrategy,
}

impl ReorderPipeline {
    pub fn new(strategy: ExecutionStrategy) -> (p: ReorderPipeline)
        ensures
            p.strategy == strategy,
    {
        ReorderPipeline { strategy }
    }

    /// The rewrite phase: writes every destination slot under the chosen
    /// strategy.
    fn rewrite_all(
        &self,
        input: &Vec<Point>,
        order: &Vec<(u64, usize)>,
        file: &mut MappedRecordFile,
    )
        requires
            old(file).wf(),
            old(file).records().len() == order@.len(),
            order@.len() == input@.len(),
            forall|r: int| 0 <= r < order@.len() ==> (#[trigger] order@[r]).1 < input@.len(),
        ensures
            final(file).wf(),
            final(file).records() == picked(input@, order@),
    {
        let n = input.len();
        match self.strategy {
            ExecutionStrategy::Serial => {
                rewrite_range(input, order, 0, n, file);
            },
            ExecutionStrategy::Partitioned { workers } => {
                let w = if workers == 0 {
                    1
                } else {
                    workers
                };
                let mut chunk = n / w;
                if chunk == 0 {
                    chunk = 1;
                }
                let mut start: usize = 0;
                while start < n
                    invariant
                        file.wf(),
                        file.records().len() == order@.len(),
                        order@.len() == input@.len(),
                        n == input@.len(),
                        chunk >= 1,
                        start <= n,
                        forall|rr: int|
                            0 <= rr < order@.len() ==> (#[trigger] order@[rr]).1 < input@.len(),
                        forall|k: int|
                            0 <= k < start ==> #[trigger] file.records()[k] == input@[order@[k].1 as int],
                    decreases n - start,
                {
                    let end = if chunk > n - start {
                        n
                    } else {
                        start + chunk
                    };
                    rewrite_range(input, order, start, end, file);
                    start = end;
                }
            },
        }
        proof {
            assert(file.records() =~= picked(input@, order@));
        }
    }

    /// Runs the pipeline: the returned file holds exactly the input
    /// records, sorted by key ascending with ties in original input order,
    /// whatever the execution strategy. Fails with `Io`, before any write,
    /// when the output cannot be created — always when the byte size
    /// overflows the machine, else when the mapping cannot be reserved.
    pub fn run(&self, input: &Vec<Point>) -> (r: Result<MappedRecordFile, StoreError>)
        ensures
            r matches Ok(f) ==> f.wf() && f.records() == reordered(input@),
            r matches Err(e) ==> e == StoreError::Io,
            input@.len() * 16 > usize::MAX as nat ==> r is Err,
    {
        let n = input.len();
        let order = build_order_index(input);
        proof {
            lemma_order_index_bounds(input@);
        }
        let mut file = match MappedRecordFile::create(n) {
            Ok(f) => f,
            Err(_) => {
                return Err(StoreError::Io);
            },
        };
        self.rewrite_all(input, &order, &mut file);
        Ok(file)
    }

    /// Runs the pipeline into a caller-supplied record file — typically a
    /// file-backed one made with `from_region` over a mapped output file —
    /// so the reordered result lands in the file the region is backed by.
    /// The file must have exactly one slot per input record; a mismatched
    /// capacity is refused with `OutOfBounds`, before any write, and the
    /// file is left unchanged.
    pub fn run_into(&self, input: &Vec<Point>, file: &mut MappedRecordFile) -> (r: Result<
        (),
        StoreError,
    >)
        requires
            old(file).wf(),
        ensures
            final(file).wf(),
            old(file).records().len() == input@.len() ==> r is Ok && final(file).records()
                == reordered(input@),
            old(file).records().len() != input@.len() ==> (r matches Err(e) && e
                == StoreError::OutOfBounds && final(file).records() == old(file).records()),
    {
        let n = input.len();
        if file.capacity() != n {
            return Err(StoreError::OutOfBounds);
        }
        let order = build_order_index(input);
        proof {
            lemma_order_index_bounds(input@);
        }
        self.rewrite_all(input, &order, file);
        Ok(())
    }
}

} // verus!
