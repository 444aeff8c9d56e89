use vstd::prelude::*;

verus! {

/// The entries appear in non-decreasing order.
pub open spec fn sorted(s: Seq<u32>) -> bool {
    forall|i: int, j: int| 0 <= i <= j < s.len() ==> s[i] <= s[j]
}

/// Whether `needle` occurs in the sorted ten-entry `haystack`, by binary
/// search.
pub fn binary_search_list(haystack: [u32; 10], needle: u32) -> (r: bool)
    requires
        sorted(haystack@),
    ensures
        r == exists|i: int| 0 <= i < haystack@.len() && haystack@[i] == needle,
{
    let mut lo: usize = 0;
    let mut hi: usize = haystack.len();
    while lo < hi
        invariant
            lo <= hi <= haystack@.len() == 10,
            sorted(haystack@),
            forall|i: int|
                0 <= i < haystack@.len() && haystack@[i] == needle ==> lo <= i < hi,
        decreases hi - lo,
    {
        let m = lo + (hi - lo) / 2;
        let v = haystack[m];
        if v == needle {
            return true;
        } else if v > needle {
            hi = m;
        } else {
            lo = m + 1;
        }
    }
    false
}

} // verus!
