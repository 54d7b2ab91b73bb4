//! The Hilbert order index: `(key, original index)` pairs sorted by key
//! ascending, ties broken by the original index, so the order is total,
//! deterministic and stable.

use vstd::prelude::*;
use vstd::seq_lib::lemma_multiset_commutative;

verus! {

broadcast use vstd::seq_lib::group_to_multiset_ensures;

/// `a` comes no later than `b`: a strictly smaller key, or an equal key
/// and no larger original index.
pub open spec fn pair_le(a: (u64, usize), b: (u64, usize)) -> bool {
    a.0 < b.0 || (a.0 == b.0 && a.1 <= b.1)
}

/// The sequence is sorted by `pair_le`.
pub open spec fn sorted_pairs(s: Seq<(u64, usize)>) -> bool {
    forall|i: int, j: int| 0 <= i < j < s.len() ==> pair_le(s[i], s[j])
}

/// `p` placed in front of the first element it precedes.
pub open spec fn insert_pair(p: (u64, usize), s: Seq<(u64, usize)>) -> Seq<(u64, usize)>
    decreases s.len(),
{
    if s.len() == 0 {
        seq![p]
    } else if pair_le(p, s[0]) {
        seq![p] + s
    } else {
        seq![s[0]] + insert_pair(p, s.drop_first())
    }
}

/// Insertion sort of the pairs: the canonical Hilbert order index.
pub open spec fn sort_pairs(s: Seq<(u64, usize)>) -> Seq<(u64, usize)>
    decreases s.len(),
{
    if s.len() == 0 {
        Seq::<(u64, usize)>::empty()
    } else {
        insert_pair(s.last(), sort_pairs(s.drop_last()))
    }
}

/// Inserting a pair adds exactly that pair to the contents.
pub proof fn lemma_insert_pair_multiset(p: (u64, usize), s: Seq<(u64, usize)>)
    ensures
        insert_pair(p, s).len() == s.len() + 1,
        insert_pair(p, s).to_multiset() == s.to_multiset().insert(p),
    decreases s.len(),
{
    if s.len() == 0 {
        assert(seq![p] =~= Seq::<(u64, usize)>::empty().push(p));
        assert(insert_pair(p, s).to_multiset() =~= s.to_multiset().insert(p));
    } else if pair_le(p, s[0]) {
        lemma_multiset_commutative(seq![p], s);
        assert(seq![p] =~= Seq::<(u64, usize)>::empty().push(p));
        assert(insert_pair(p, s).to_multiset() =~= s.to_multiset().insert(p));
    } else {
        let d = s.drop_first();
        lemma_insert_pair_multiset(p, d);
        lemma_multiset_commutative(seq![s[0]], insert_pair(p, d));
        lemma_multiset_commutative(seq![s[0]], d);
        assert(s =~= seq![s[0]] + d);
        assert(seq![s[0]] =~= Seq::<(u64, usize)>::empty().push(s[0]));
        assert(insert_pair(p, s).to_multiset() =~= s.to_multiset().insert(p));
    }
}

/// Inserting a pair into a sorted sequence keeps it sorted.
pub proof fn lemma_insert_pair_sorted(p: (u64, usize), s: Seq<(u64, usize)>)
    requires
        sorted_pairs(s),
    ensures
        sorted_pairs(insert_pair(p, s)),
    decreases s.len(),
{
    if s.len() == 0 {
    } else if pair_le(p, s[0]) {
        let r = seq![p] + s;
        assert forall|i: int, j: int| 0 <= i < j < r.len() implies pair_le(r[i], r[j]) by {
            if i == 0 {
                if j > 1 {
                    assert(pair_le(s[0], s[j - 1]));
                }
            } else {
                assert(pair_le(s[i - 1], s[j - 1]));
            }
        }
    } else {
        let d = s.drop_first();
        assert(sorted_pairs(d)) by {
            assert forall|i: int, j: int| 0 <= i < j < d.len() implies pair_le(d[i], d[j]) by {
                assert(pair_le(s[i + 1], s[j + 1]));
            }
        }
        lemma_insert_pair_sorted(p, d);
        let t = insert_pair(p, d);
        lemma_insert_pair_multiset(p, d);
        let r = seq![s[0]] + t;
        assert forall|i: int, j: int| 0 <= i < j < r.len() implies pair_le(r[i], r[j]) by {
            if i == 0 {
                let e = t[j - 1];
                assert(t.contains(e));
                assert(t.to_multiset().count(e) > 0);
                if e == p {
                    assert(pair_le(s[0], p));
                } else {
                    assert(d.to_multiset().count(e) > 0);
                    assert(d.contains(e));
                    let w = choose|w: int| 0 <= w < d.len() && d[w] == e;
                    assert(pair_le(s[0], s[w + 1]));
                }
            } else {
                assert(pair_le(t[i - 1], t[j - 1]));
            }
        }
    }
}

/// The sorted index holds exactly the input pairs, in sorted order.
pub proof fn lemma_sort_pairs_ensures(s: Seq<(u64, usize)>)
    ensures
        sort_pairs(s).len() == s.len(),
        sort_pairs(s).to_multiset() == s.to_multiset(),
        sorted_pairs(sort_pairs(s)),
    decreases s.len(),
{
    if s.len() == 0 {
        assert(sort_pairs(s).to_multiset() =~= s.to_multiset());
    } else {
        let d = s.drop_last();
        lemma_sort_pairs_ensures(d);
        lemma_insert_pair_multiset(s.last(), sort_pairs(d));
        lemma_insert_pair_sorted(s.last(), sort_pairs(d));
        assert(s =~= d.push(s.last()));
        assert(sort_pairs(s).to_multiset() =~= s.to_multiset());
    }
}

/// A sequence that is already strictly sorted is a fixed point of the
/// sort: sorting is idempotent.
pub proof fn lemma_sort_pairs_of_sorted(s: Seq<(u64, usize)>)
    requires
        forall|i: int, j: int|
            0 <= i < j < s.len() ==> pair_le(s[i], s[j]) && !pair_le(s[j], s[i]),
    ensures
        sort_pairs(s) == s,
    decreases s.len(),
{
    if s.len() == 0 {
        assert(sort_pairs(s) =~= s);
    } else {
        let d = s.drop_last();
        lemma_sort_pairs_of_sorted(d);
        assert forall|i: int| 0 <= i < d.len() implies !pair_le(s.last(), d[i]) by {
            assert(d[i] == s[i]);
        }
        lemma_insert_pair_at(s.last(), d, d.len() as int);
        assert(d.insert(d.len() as int, s.last()) =~= s);
    }
}

/// `insert_pair` lands at the first position whose element the new pair
/// precedes.
proof fn lemma_insert_pair_at(p: (u64, usize), s: Seq<(u64, usize)>, j: int)
    requires
        0 <= j <= s.len(),
        forall|i: int| 0 <= i < j ==> !pair_le(p, s[i]),
        j < s.len() ==> pair_le(p, s[j]),
    ensures
        insert_pair(p, s) == s.insert(j, p),
    decreases s.len(),
{
    if s.len() == 0 {
        assert(insert_pair(p, s) =~= s.insert(0, p));
    } else if j == 0 {
        assert(insert_pair(p, s) =~= s.insert(0, p));
    } else {
        let d = s.drop_first();
        assert(!pair_le(p, s[0]));
        assert forall|i: int| 0 <= i < j - 1 implies !pair_le(p, d[i]) by {
            assert(d[i] == s[i + 1]);
        }
        lemma_insert_pair_at(p, d, j - 1);
        assert(insert_pair(p, s) =~= s.insert(j, p));
    }
}

fn pair_le_exec(a: (u64, usize), b: (u64, usize)) -> (r: bool)
    ensures
        r == pair_le(a, b),
{
    a.0 < b.0 || (a.0 == b.0 && a.1 <= b.1)
}

fn insertion_position(p: (u64, usize), out: &Vec<(u64, usize)>) -> (j: usize)
    ensures
        j <= out@.len(),
        forall|i: int| 0 <= i < j ==> !pair_le(p, out@[i]),
        (j as nat) < out@.len() ==> pair_le(p, out@[j as int]),
{
    let mut j: usize = 0;
    while j < out.len()
        invariant
            j <= out@.len(),
            forall|i: int| 0 <= i < j ==> !pair_le(p, out@[i]),
        decreases out@.len() - j,
    {
        if pair_le_exec(p, out[j]) {
            return j;
        }
        j = j + 1;
    }
    j
}

/// Sorts `(key, original index)` pairs into the canonical Hilbert order
/// index.
pub fn sort_key_pairs(pairs: &Vec<(u64, usize)>) -> (out: Vec<(u64, usize)>)
    ensures
        out@ == sort_pairs(pairs@),
{
    let mut out: Vec<(u64, usize)> = Vec::new();
    let n = pairs.len();
    proof {
        assert(pairs@.take(0) =~= Seq::<(u64, usize)>::empty());
    }
    for idx in 0..n
        invariant
            n == pairs@.len(),
            out@ == sort_pairs(pairs@.take(idx as int)),
    {
        let p = pairs[idx];
        let j = insertion_position(p, &out);
        proof {
            lemma_insert_pair_at(p, out@, j as int);
            assert(pairs@.take(idx as int + 1).drop_last() =~= pairs@.take(idx as int));
            assert(pairs@.take(idx as int + 1).last() == p);
        }
        out.insert(j, p);
    }
    proof {
        assert(pairs@.take(n as int) =~= pairs@);
    }
    out
}

} // verus!
