use crate::bubble_sort::lemma_swap_preserves_multiset;
use vstd::prelude::*;
use vstd::seq_lib::lemma_multiset_commutative;

verus! {

/// The entries of `s` with indices between `lo` and `hi` inclusive appear in
/// non-decreasing order.
pub open spec fn sorted_between(s: Seq<i32>, lo: int, hi: int) -> bool {
    forall|p: int, q: int| lo <= p <= q <= hi && 0 <= p && q < s.len() ==> s[p] <= s[q]
}

/// Two sequences holding the same multiset of entries satisfy the same
/// uniform strict upper bound.
proof fn lemma_multiset_keeps_lt(s1: Seq<i32>, s2: Seq<i32>, v: i32)
    requires
        s1.to_multiset() == s2.to_multiset(),
        forall|k: int| 0 <= k < s1.len() ==> s1[k] < v,
    ensures
        forall|k: int| 0 <= k < s2.len() ==> s2[k] < v,
{
    broadcast use vstd::seq_lib::group_to_multiset_ensures;

    assert forall|k: int| 0 <= k < s2.len() implies s2[k] < v by {
        assert(s2.contains(s2[k]));
        assert(s1.to_multiset().count(s2[k]) > 0);
        assert(s1.contains(s2[k]));
        let j = choose|j: int| 0 <= j < s1.len() && s1[j] == s2[k];
        assert(s1[j] < v);
    }
}

/// Two sequences holding the same multiset of entries satisfy the same
/// uniform lower bound.
proof fn lemma_multiset_keeps_ge(s1: Seq<i32>, s2: Seq<i32>, v: i32)
    requires
        s1.to_multiset() == s2.to_multiset(),
        forall|k: int| 0 <= k < s1.len() ==> s1[k] >= v,
    ensures
        forall|k: int| 0 <= k < s2.len() ==> s2[k] >= v,
{
    broadcast use vstd::seq_lib::group_to_multiset_ensures;

    assert forall|k: int| 0 <= k < s2.len() implies s2[k] >= v by {
        assert(s2.contains(s2[k]));
        assert(s1.to_multiset().count(s2[k]) > 0);
        assert(s1.contains(s2[k]));
        let j = choose|j: int| 0 <= j < s1.len() && s1[j] == s2[k];
        assert(s1[j] >= v);
    }
}

/// Exchanging two entries that both sit between `lo` and `hi` inclusive
/// preserves the multiset of the entries between `lo` and `hi`.
proof fn lemma_swap_within_range(s: Seq<i32>, lo: int, hi: int, a: int, b: int)
    requires
        0 <= lo <= a <= hi < s.len(),
        lo <= b <= hi,
    ensures
        s.update(a, s[b]).update(b, s[a]).subrange(lo, hi + 1).to_multiset() == s.subrange(
            lo,
            hi + 1,
        ).to_multiset(),
{
    let sub = s.subrange(lo, hi + 1);
    let s2 = s.update(a, s[b]).update(b, s[a]);
    if a == b {
        assert(s2.subrange(lo, hi + 1) =~= sub);
    } else if a < b {
        assert(s2.subrange(lo, hi + 1) =~= sub.update(a - lo, sub[b - lo]).update(
            b - lo,
            sub[a - lo],
        ));
        lemma_swap_preserves_multiset(sub, a - lo, b - lo);
    } else {
        assert(s2.subrange(lo, hi + 1) =~= sub.update(b - lo, sub[a - lo]).update(
            a - lo,
            sub[b - lo],
        ));
        lemma_swap_preserves_multiset(sub, b - lo, a - lo);
    }
}

/// Exchange the entries at `a` and `b`.
fn swap_at(arr: &mut Vec<i32>, a: usize, b: usize)
    requires
        a < old(arr)@.len(),
        b < old(arr)@.len(),
    ensures
        final(arr)@ == old(arr)@.update(a as int, old(arr)@[b as int]).update(
            b as int,
            old(arr)@[a as int],
        ),
{
    let x = arr[a];
    let y = arr[b];
    arr.set(a, y);
    arr.set(b, x);
}

/// Partition the entries between `lo` and `hi` inclusive around the entry at
/// `hi`: afterwards the returned index `p` holds that entry, everything
/// before `p` (from `lo`) is strictly smaller, and everything after `p` (up
/// to `hi`) is at least as large.
fn pivot(arr: &mut Vec<i32>, lo: i32, hi: i32) -> (p: i32)
    requires
        0 <= lo < hi < old(arr)@.len(),
        old(arr)@.len() <= 0x7fff_ffff,
    ensures
        lo <= p <= hi,
        final(arr)@.len() == old(arr)@.len(),
        forall|k: int|
            0 <= k < final(arr)@.len() && !(lo <= k <= hi) ==> final(arr)@[k] == old(arr)@[k],
        final(arr)@.subrange(lo as int, hi + 1).to_multiset() == old(arr)@.subrange(
            lo as int,
            hi + 1,
        ).to_multiset(),
        forall|k: int| lo <= k < p ==> final(arr)@[k] < final(arr)@[p as int],
        forall|k: int| p < k <= hi ==> final(arr)@[k] >= final(arr)@[p as int],
    {
    let pivot_val = arr[hi as usize];
    let mut idx: i32 = lo - 1;
    let mut i: i32 = lo;
    while i < hi
        invariant
            0 <= lo <= i <= hi < arr@.len(),
            arr@.len() == old(arr)@.len(),
            lo - 1 <= idx < i,
            arr@[hi as int] == pivot_val,
            forall|k: int| 0 <= k < arr@.len() && !(lo <= k <= hi) ==> arr@[k] == old(arr)@[k],
            arr@.subrange(lo as int, hi + 1).to_multiset() == old(arr)@.subrange(
                lo as int,
                hi + 1,
            ).to_multiset(),
            forall|k: int| lo <= k <= idx ==> arr@[k] < pivot_val,
            forall|k: int| idx < k < i ==> arr@[k] >= pivot_val,
        decreases hi - i,
    {
        if arr[i as usize] < pivot_val {
            idx = idx + 1;
            let ghost before = arr@;
            swap_at(arr, i as usize, idx as usize);
            proof {
                lemma_swap_within_range(before, lo as int, hi as int, i as int, idx as int);
            }
        }
        i = i + 1;
    }
    idx = idx + 1;
    let ghost before = arr@;
    swap_at(arr, hi as usize, idx as usize);
    proof {
        lemma_swap_within_range(before, lo as int, hi as int, hi as int, idx as int);
    }
    idx
}

/// Sort the entries with indices between `lo` and `hi` inclusive into
/// non-decreasing order, leaving every other entry untouched. Index ranges
/// with `lo >= hi` hold at most one entry and are left unchanged.
pub fn quick_sort(arr: &mut Vec<i32>, lo: i32, hi: i32)
    requires
        0 <= lo,
        hi < old(arr)@.len(),
        old(arr)@.len() <= 0x7fff_ffff,
    ensures
        final(arr)@.len() == old(arr)@.len(),
        lo >= hi ==> final(arr)@ == old(arr)@,
        forall|k: int|
            0 <= k < final(arr)@.len() && !(lo <= k <= hi) ==> final(arr)@[k] == old(arr)@[k],
        lo < hi ==> final(arr)@.subrange(lo as int, hi + 1).to_multiset() == old(arr)@.subrange(
            lo as int,
            hi + 1,
        ).to_multiset(),
        sorted_between(final(arr)@, lo as int, hi as int),
    decreases (if lo < hi { hi + 1 - lo } else { 0int }),
{
    if lo >= hi {
        return ;
    }
    let ghost s0 = arr@;
    let p = pivot(arr, lo, hi);
    let ghost s1 = arr@;
    let ghost piv = s1[p as int];
    quick_sort(arr, lo, p - 1);
    let ghost s2 = arr@;
    quick_sort(arr, p + 1, hi);
    let ghost s3 = arr@;
    proof {
        let lo = lo as int;
        let hi = hi as int;
        let p = p as int;
        // The segments the two recursive calls did not touch are unchanged.
        assert(forall|k: int| 0 <= k < s2.len() && !(lo <= k <= p - 1) ==> s2[k] == s1[k]);
        assert(forall|k: int| 0 <= k < s3.len() && !(p + 1 <= k <= hi) ==> s3[k] == s2[k]);
        assert(s3[p] == piv);
        // Each side still holds the same entries it held after partitioning.
        assert(s2.subrange(lo, p) =~= s3.subrange(lo, p));
        if lo < p - 1 {
            assert(s2.subrange(lo, p).to_multiset() == s1.subrange(lo, p).to_multiset());
        } else {
            assert(s2.subrange(lo, p) =~= s1.subrange(lo, p));
        }
        if p + 1 < hi {
            assert(s3.subrange(p + 1, hi + 1).to_multiset() == s2.subrange(
                p + 1,
                hi + 1,
            ).to_multiset());
        } else {
            assert(s3.subrange(p + 1, hi + 1) =~= s2.subrange(p + 1, hi + 1));
        }
        assert(s2.subrange(p + 1, hi + 1) =~= s1.subrange(p + 1, hi + 1));
        // So both sides keep their bounds relative to the pivot entry.
        assert(forall|k: int| 0 <= k < s1.subrange(lo, p).len() ==> s1.subrange(lo, p)[k] < piv);
        lemma_multiset_keeps_lt(s1.subrange(lo, p), s3.subrange(lo, p), piv);
        assert(forall|k: int|
            0 <= k < s1.subrange(p + 1, hi + 1).len() ==> #[trigger] s1.subrange(p + 1, hi + 1)[k]
                >= piv);
        lemma_multiset_keeps_ge(s1.subrange(p + 1, hi + 1), s3.subrange(p + 1, hi + 1), piv);
        assert forall|k: int| lo <= k < p implies s3[k] < piv by {
            assert(s3.subrange(lo, p)[k - lo] == s3[k]);
        }
        assert forall|k: int| p < k <= hi implies s3[k] >= piv by {
            assert(s3.subrange(p + 1, hi + 1)[k - (p + 1)] == s3[k]);
        }
        // Sortedness of the whole range.
        assert forall|a: int, b: int| lo <= a <= b <= hi && 0 <= a && b < s3.len() implies s3[a]
            <= s3[b] by {
            if b < p {
                assert(sorted_between(s2, lo, p - 1));
                assert(s3[a] == s2[a] && s3[b] == s2[b]);
            } else if a > p {
                assert(sorted_between(s3, p + 1, hi));
            } else if a < p && b == p {
                assert(s3[a] < piv);
            } else if a == p && b > p {
                assert(s3[b] >= piv);
            } else if a < p && b > p {
                assert(s3[a] < piv && s3[b] >= piv);
            }
        }
        // The whole range still holds the entries it started with.
        lemma_multiset_commutative(s3.subrange(lo, p), s3.subrange(p, p + 1));
        lemma_multiset_commutative(s3.subrange(lo, p) + s3.subrange(p, p + 1), s3.subrange(p + 1, hi + 1));
        lemma_multiset_commutative(s1.subrange(lo, p), s1.subrange(p, p + 1));
        lemma_multiset_commutative(s1.subrange(lo, p) + s1.subrange(p, p + 1), s1.subrange(p + 1, hi + 1));
        assert(s3.subrange(lo, hi + 1) =~= (s3.subrange(lo, p) + s3.subrange(p, p + 1)) + s3.subrange(p + 1, hi + 1));
        assert(s1.subrange(lo, hi + 1) =~= (s1.subrange(lo, p) + s1.subrange(p, p + 1)) + s1.subrange(p + 1, hi + 1));
        assert(s3.subrange(p, p + 1) =~= s1.subrange(p, p + 1));
        assert(s3.subrange(lo, hi + 1).to_multiset() =~= s1.subrange(lo, hi + 1).to_multiset());
    }
}

} // verus!
