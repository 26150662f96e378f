//! Small arithmetic helpers shared across the pipeline: the integer square
//! root used to turn a squared distance in millimetres back into a length.

use vstd::prelude::*;

verus! {

/// Integer square root: the largest `r` with `r * r <= n`.
///
/// Distances are compared in squared form (`x*x + y*y` never overflows a
/// `u64` for radar coordinates), and this function recovers the rounded-down
/// length in millimetres for display and telemetry.
pub fn isqrt(n: u64) -> (r: u64)
    ensures
        r * r <= n,
        n < (r + 1) * (r + 1),
{
    let mut lo: u64 = 0;
    let mut hi: u64 = 4294967296;
    while lo + 1 < hi
        invariant
            lo < hi <= 4294967296,
            lo * lo <= n,
            n < hi * hi,
        decreases hi - lo,
    {
        let mid: u64 = lo + (hi - lo) / 2;
        proof {
            assert(mid * mid <= 4294967295u64 * 4294967295u64) by (nonlinear_arith)
                requires
                    mid <= 4294967295u64,
            ;
        }
        if mid * mid <= n {
            lo = mid;
        } else {
            hi = mid;
        }
    }
    lo
}

} // verus!
