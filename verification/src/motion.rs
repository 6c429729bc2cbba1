//! Motion-start detection: the first sample whose 3-axis magnitude exceeds
//! a threshold.

use vstd::prelude::*;

verus! {

/// Squared Euclidean magnitude of one 3-axis sample.
pub open spec fn magnitude_sq(x: i64, y: i64, z: i64) -> int {
    x * x + y * y + z * z
}

/// Whether the Euclidean magnitude `sqrt(x^2 + y^2 + z^2)` strictly exceeds
/// `threshold`. Stated without square roots: for a nonnegative threshold
/// the comparison is equivalent to `x^2 + y^2 + z^2 > threshold^2`, and a
/// negative threshold lies below every magnitude.
pub open spec fn exceeds_threshold(x: i64, y: i64, z: i64, threshold: i64) -> bool {
    if threshold < 0 {
        true
    } else {
        magnitude_sq(x, y, z) > threshold * threshold
    }
}

/// The square of an `i64`, computed exactly in 128-bit arithmetic.
fn square(v: i64) -> (r: u128)
    ensures
        r == (v as int) * (v as int),
        r <= 0x4000_0000_0000_0000_0000_0000_0000_0000u128,
{
    let a: u128 = if v >= 0 {
        v as u128
    } else {
        (-(v as i128)) as u128
    };
    proof {
        assert((a as int) * (a as int) == (v as int) * (v as int) && (a as int) * (a as int)
            <= 0x4000_0000_0000_0000_0000_0000_0000_0000int) by (nonlinear_arith)
            requires
                a as int == v as int || a as int == -(v as int),
                0 <= a as int <= 0x8000_0000_0000_0000int,
        ;
    }
    a * a
}

/// Decides `exceeds_threshold` exactly, with all squares held in 128-bit
/// arithmetic so no overflow can occur.
fn exceeds_exec(x: i64, y: i64, z: i64, threshold: i64) -> (r: bool)
    ensures
        r == exceeds_threshold(x, y, z, threshold),
{
    if threshold < 0 {
        return true;
    }
    let m: u128 = square(x) + square(y) + square(z);
    let t: u128 = square(threshold);
    m > t
}

/// Scans the three equal-length raw axis sequences and returns the first
/// index whose magnitude strictly exceeds `threshold`, or the common length
/// when no index qualifies — in particular for empty input, the "no data"
/// case of the degrade-gracefully convention.
pub fn detect_start(xs: &Vec<i64>, ys: &Vec<i64>, zs: &Vec<i64>, threshold: i64) -> (r: usize)
    requires
        xs@.len() == ys@.len(),
        ys@.len() == zs@.len(),
    ensures
        r <= xs@.len(),
        forall|j: int|
            0 <= j < r ==> !exceeds_threshold(xs@[j], ys@[j], zs@[j], threshold),
        r < xs@.len() ==> exceeds_threshold(
            xs@[r as int],
            ys@[r as int],
            zs@[r as int],
            threshold,
        ),
{
    let n: usize = xs.len();
    let mut i: usize = 0;
    while i < n
        invariant
            n == xs@.len(),
            n == ys@.len(),
            n == zs@.len(),
            0 <= i <= n,
            forall|j: int|
                0 <= j < i ==> !exceeds_threshold(xs@[j], ys@[j], zs@[j], threshold),
        decreases n - i,
    {
        if exceeds_exec(xs[i], ys[i], zs[i], threshold) {
            return i;
        }
        i = i + 1;
    }
    n
}

} // verus!
