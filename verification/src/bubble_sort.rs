use vstd::prelude::*;

verus! {

/// The entries appear in non-decreasing order.
pub open spec fn sorted(s: Seq<u32>) -> bool {
    forall|i: int, j: int| 0 <= i <= j < s.len() ==> s[i] <= s[j]
}

/// Exchanging the entries at `i` and `j` preserves the multiset of entries.
pub proof fn lemma_swap_preserves_multiset<A>(s: Seq<A>, i: int, j: int)
    requires
        0 <= i < j < s.len(),
    ensures
        s.update(i, s[j]).update(j, s[i]).to_multiset() == s.to_multiset(),
{
    broadcast use vstd::seq_lib::group_to_multiset_ensures;
    broadcast use vstd::multiset::group_multiset_axioms;

    let s1 = s.update(i, s[j]);
    let s2 = s1.update(j, s[i]);
    vstd::seq_lib::to_multiset_update(s, i, s[j]);
    vstd::seq_lib::to_multiset_update(s1, j, s[i]);
    assert(s1[j] == s[j]);
    assert(s2.to_multiset() =~= s.to_multiset());
}

/// Sort the entries in place into non-decreasing order, by repeatedly
/// bubbling the largest remaining entry toward the back.
pub fn bubble_sort(arr: &mut Vec<u32>)
    ensures
        final(arr)@.len() == old(arr)@.len(),
        sorted(final(arr)@),
        final(arr)@.to_multiset() == old(arr)@.to_multiset(),
{
    let n = arr.len();
    let mut i = n;
    while i > 0
        invariant
            arr@.len() == n,
            i <= n,
            arr@.to_multiset() == old(arr)@.to_multiset(),
            sorted(arr@.subrange(i as int, n as int)),
            forall|p: int, q: int| 0 <= p < i <= q < n ==> arr@[p] <= arr@[q],
        decreases i,
    {
        let mut j: usize = 1;
        while j < i
            invariant
                arr@.len() == n,
                1 <= j,
                j <= i <= n,
                arr@.to_multiset() == old(arr)@.to_multiset(),
                sorted(arr@.subrange(i as int, n as int)),
                forall|p: int, q: int| 0 <= p < i <= q < n ==> arr@[p] <= arr@[q],
                forall|p: int| 0 <= p < j ==> #[trigger] arr@[p] <= arr@[j - 1],
            decreases i - j,
        {
            let a = arr[j - 1];
            let b = arr[j];
            if a > b {
                let ghost before = arr@;
                arr.set(j - 1, b);
                arr.set(j, a);
                proof {
                    lemma_swap_preserves_multiset(before, j - 1, j as int);
                    assert(arr@ =~= before.update(j - 1, before[j as int]).update(
                        j as int,
                        before[j - 1],
                    ));
                    assert(arr@.subrange(i as int, n as int) =~= before.subrange(
                        i as int,
                        n as int,
                    ));
                }
            }
            j = j + 1;
        }
        i = i - 1;
        proof {
            let suffix = arr@.subrange(i as int, n as int);
            assert forall|p: int, q: int| 0 <= p <= q < suffix.len() implies suffix[p]
                <= suffix[q] by {
                assert(suffix[p] == arr@[i + p]);
                assert(suffix[q] == arr@[i + q]);
                if p > 0 {
                    assert(arr@.subrange(i + 1, n as int)[p - 1] == arr@[i + p]);
                    assert(arr@.subrange(i + 1, n as int)[q - 1] == arr@[i + q]);
                } else if q > 0 {
                    assert(arr@[i as int] <= arr@[i + q]);
                }
            }
        }
    }
    proof {
        assert(arr@.subrange(0, n as int) =~= arr@);
    }
}

} // verus!
