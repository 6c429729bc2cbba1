//! Jerk estimation: the mean absolute first difference of a scalar sequence.

use vstd::prelude::*;

verus! {

/// Absolute difference of two samples, as a mathematical integer.
pub open spec fn abs_diff(a: i64, b: i64) -> int {
    if a >= b {
        a - b
    } else {
        b - a
    }
}

/// Sum of the absolute consecutive differences among the first `n` elements
/// of `s`: `|s[1]-s[0]| + ... + |s[n-1]-s[n-2]|`.
pub open spec fn total_variation(s: Seq<i64>, n: int) -> int
    decreases n,
{
    if n <= 1 {
        0
    } else {
        total_variation(s, n - 1) + abs_diff(s[n - 1], s[n - 2])
    }
}

/// The total variation of a sequence is nonnegative and each of its terms is
/// at most the width of the `i64` range.
proof fn lemma_total_variation_bound(s: Seq<i64>, n: int)
    requires
        n <= s.len(),
    ensures
        0 <= total_variation(s, n),
        total_variation(s, n) <= (if n <= 1 {
            0int
        } else {
            (n - 1) * 0xffff_ffff_ffff_ffffint
        }),
    decreases n,
{
    if n > 1 {
        lemma_total_variation_bound(s, n - 1);
        assert(abs_diff(s[n - 1], s[n - 2]) <= 0xffff_ffff_ffff_ffffint);
        assert((n - 2) * 0xffff_ffff_ffff_ffffint + 0xffff_ffff_ffff_ffffint == (n - 1)
            * 0xffff_ffff_ffff_ffffint) by (nonlinear_arith);
    }
}

/// An exact jerk estimate. The mean absolute consecutive difference of the
/// input is `total / steps` (a rational number); the two parts are returned
/// separately so the result stays exact. `steps == 0` encodes the
/// degrade-gracefully convention for inputs with fewer than two samples,
/// whose jerk is defined as zero.
#[derive(Clone, Copy, Debug, PartialEq, Eq, Structural)]
pub struct JerkEstimate {
    /// Sum of the absolute consecutive differences.
    pub total: u128,
    /// Number of differences, `len - 1` (or `0` for `len < 2`).
    pub steps: usize,
}

/// Computes the jerk estimate of `arr`: the sum of absolute consecutive
/// differences together with the number of differences, whose quotient is
/// the mean absolute first difference. An input with fewer than two samples
/// yields `total == 0, steps == 0`, the "no data" sentinel.
pub fn calc_jerk(arr: &Vec<i64>) -> (r: JerkEstimate)
    ensures
        r.total == total_variation(arr@, arr@.len() as int),
        r.steps == (if arr@.len() < 2 {
            0int
        } else {
            arr@.len() - 1
        }),
{
    let n = arr.len();
    if n < 2 {
        return JerkEstimate { total: 0, steps: 0 };
    }
    let mut total: u128 = 0;
    let mut i: usize = 1;
    while i < n
        invariant
            2 <= n,
            n == arr@.len(),
            1 <= i <= n,
            total == total_variation(arr@, i as int),
        decreases n - i,
    {
        let a = arr[i];
        let b = arr[i - 1];
        let d: i128 = a as i128 - b as i128;
        let ad: u128 = if d >= 0 {
            d as u128
        } else {
            (-d) as u128
        };
        assert(ad == abs_diff(a, b));
        proof {
            lemma_total_variation_bound(arr@, i + 1);
            assert((i as int) * 0xffff_ffff_ffff_ffffint <= (0xffff_ffff_ffff_ffffint)
                * 0xffff_ffff_ffff_ffffint) by (nonlinear_arith)
                requires 1 <= i as int <= 0xffff_ffff_ffff_ffffint;
        }
        total = total + ad;
        i = i + 1;
    }
    JerkEstimate { total, steps: n - 1 }
}

} // verus!
