use vstd::prelude::*;

verus! {

/// Once a ball breaks at some floor, it breaks at every higher floor.
pub open spec fn monotone_breaks(breaks: Seq<bool>) -> bool {
    forall|i: int, j: int| 0 <= i <= j < breaks.len() && breaks[i] ==> breaks[j]
}

/// The floor of the square root of `n`.
fn int_sqrt(n: usize) -> (r: usize)
    requires
        n < 0x4000_0000,
    ensures
        r * r <= n,
        (r + 1) * (r + 1) > n,
        r < 0x8000,
        n >= 1 ==> r >= 1,
{
    let mut r: usize = 0;
    loop
        invariant
            n < 0x4000_0000,
            r * r <= n,
            r < 0x8000,
        ensures
            r * r <= n,
            (r + 1) * (r + 1) > n,
            r < 0x8000,
        decreases n - r,
    {
        let q = r + 1;
        proof {
            assert(q * q < 0x4000_0001) by (nonlinear_arith)
                requires
                    q <= 0x8000,
            ;
        }
        if q * q > n {
            break ;
        }
        r = q;
        proof {
            assert(r < 0x8000 && r <= n) by (nonlinear_arith)
                requires
                    r * r <= n,
                    n < 0x4000_0000,
                    r >= 1,
            ;
        }
    }
    proof {
        if r == 0 {
            assert((r + 1) * (r + 1) == 1) by (nonlinear_arith)
                requires
                    r == 0,
            ;
        }
    }
    r
}

/// Find the first breaking floor with two crystal balls: jump by the square
/// root of the number of floors until a ball breaks, then scan linearly from
/// the previous jump point. Returns the index of the first `true` entry, or
/// `-1` when no entry is `true`.
pub fn two_crystal_balls(breaks: &[bool]) -> (r: i32)
    requires
        monotone_breaks(breaks@),
        breaks@.len() < 0x4000_0000,
    ensures
        (exists|i: int| 0 <= i < breaks@.len() && breaks@[i]) ==> 0 <= r < breaks@.len()
            && breaks@[r as int] && (forall|i: int| 0 <= i < r ==> !breaks@[i]),
        !(exists|i: int| 0 <= i < breaks@.len() && breaks@[i]) ==> r == -1,
{
    let n = breaks.len();
    let jmp = int_sqrt(n);
    let mut i: usize = jmp;
    while i < n && !*vstd::slice::slice_index_get(breaks, i)
        invariant
            breaks@.len() == n < 0x4000_0000,
            jmp <= i,
            jmp < 0x8000,
            n >= 1 ==> jmp >= 1,
            i == jmp || (i - jmp < n && !breaks@[i - jmp]),
        decreases (if i <= n { n - i } else { 0int }),
    {
        proof {
            if n >= 1 && jmp == 0 {
                assert((0 + 1) * (0 + 1) > n);
                assert(false);
            }
        }
        i = i + jmp;
    }
    let mut s: usize = i - jmp;
    proof {
        assert forall|t: int| 0 <= t < s implies !breaks@[t] by {
            if breaks@[t] {
                assert(breaks@[s as int]);
            }
        }
    }
    while s < n
        invariant
            breaks@.len() == n < 0x4000_0000,
            monotone_breaks(breaks@),
            s <= n,
            forall|t: int| 0 <= t < s ==> !breaks@[t],
        decreases n - s,
    {
        if *vstd::slice::slice_index_get(breaks, s) {
            return s as i32;
        }
        s = s + 1;
    }
    -1
}

} // verus!
