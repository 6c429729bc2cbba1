//! Fixed-window moving-average smoothing of a scalar sequence.

use vstd::prelude::*;
use vstd::arithmetic::div_mod::{
    lemma_div_is_ordered, lemma_div_multiples_vanish, lemma_div_pos_is_pos,
};

verus! {

/// Sum of the window `s[start .. start + w)`.
pub open spec fn window_sum(s: Seq<i64>, start: int, w: int) -> int
    decreases w,
{
    if w <= 0 {
        0
    } else {
        window_sum(s, start, w - 1) + s[start + w - 1]
    }
}

/// Quotient rounded toward zero, for a positive divisor. This matches what
/// Rust's integer `/` computes, stated over mathematical integers (`/` on
/// `int` is Euclidean division, which rounds toward zero only for a
/// nonnegative dividend).
pub open spec fn div_toward_zero(a: int, b: int) -> int {
    if a >= 0 {
        a / b
    } else {
        -((-a) / b)
    }
}

/// The moving average at window position `i`: the window sum divided by the
/// window size, rounded toward zero.
pub open spec fn window_average(s: Seq<i64>, i: int, w: int) -> i64 {
    div_toward_zero(window_sum(s, i, w), w) as i64
}

/// The smoothed form of `s` under window size `w`: one average per window
/// position. Where no full window fits (`w == 0`, `w > len`, and in
/// particular empty input), the smoothed sequence is empty.
pub open spec fn smoothed_seq(s: Seq<i64>, w: int) -> Seq<i64> {
    if w <= 0 || w > s.len() {
        Seq::<i64>::empty()
    } else {
        Seq::new((s.len() - w + 1) as nat, |i: int| window_average(s, i, w))
    }
}

/// A window sum lies between `w` copies of the extreme `i64` values.
proof fn lemma_window_sum_bounds(s: Seq<i64>, start: int, w: int)
    requires
        w >= 0,
    ensures
        w * (i64::MIN as int) <= window_sum(s, start, w) <= w * (i64::MAX as int),
    decreases w,
{
    if w > 0 {
        lemma_window_sum_bounds(s, start, w - 1);
        assert((w - 1) * (i64::MIN as int) + (i64::MIN as int) == w * (i64::MIN as int))
            by (nonlinear_arith);
        assert((w - 1) * (i64::MAX as int) + (i64::MAX as int) == w * (i64::MAX as int))
            by (nonlinear_arith);
    }
}

/// Decomposing a window at the front: the sum over `[start, start + w)` is
/// the first element plus the sum over `[start + 1, start + w)`.
proof fn lemma_window_sum_front(s: Seq<i64>, start: int, w: int)
    requires
        w >= 1,
    ensures
        window_sum(s, start, w) == s[start] + window_sum(s, start + 1, w - 1),
    decreases w,
{
    if w == 1 {
        assert(window_sum(s, start, 1) == window_sum(s, start, 0) + s[start]);
        assert(window_sum(s, start + 1, 0) == 0);
    } else {
        lemma_window_sum_front(s, start, w - 1);
        assert(window_sum(s, start, w) == window_sum(s, start, w - 1) + s[start + w - 1]);
        assert(window_sum(s, start + 1, w - 1) == window_sum(s, start + 1, w - 2) + s[start + w
            - 1]);
    }
}

/// Sliding the window one position to the right adds the entering sample
/// and removes the leaving one.
proof fn lemma_window_sum_slide(s: Seq<i64>, start: int, w: int)
    requires
        w >= 1,
    ensures
        window_sum(s, start + 1, w) == window_sum(s, start, w) + s[start + w] - s[start],
{
    lemma_window_sum_front(s, start, w + 1);
    assert(window_sum(s, start, w + 1) == window_sum(s, start, w) + s[start + w]);
}

/// An integer within `k` copies of the `i64` range, for `k` within the
/// `u64` range, fits comfortably in `i128`.
proof fn lemma_scaled_range(k: int, v: int)
    requires
        0 <= k <= 0xffff_ffff_ffff_ffff,
        k * (i64::MIN as int) <= v <= k * (i64::MAX as int),
    ensures
        i128::MIN < v < i128::MAX,
{
    assert(k * (i64::MIN as int) >= 0xffff_ffff_ffff_ffffint * (i64::MIN as int))
        by (nonlinear_arith)
        requires 0 <= k <= 0xffff_ffff_ffff_ffffint;
    assert(k * (i64::MAX as int) <= 0xffff_ffff_ffff_ffffint * (i64::MAX as int))
        by (nonlinear_arith)
        requires 0 <= k <= 0xffff_ffff_ffff_ffffint;
}

/// Divides a window sum by the window size, rounding toward zero. The
/// bounds on `sum` guarantee the quotient fits in `i64`.
fn divide_window_sum(sum: i128, w: usize) -> (q: i64)
    requires
        1 <= w <= 0xffff_ffff_ffff_ffff,
        (w as int) * (i64::MIN as int) <= sum as int <= (w as int) * (i64::MAX as int),
    ensures
        q == div_toward_zero(sum as int, w as int),
{
    if sum >= 0 {
        proof {
            lemma_div_pos_is_pos(sum as int, w as int);
            lemma_div_is_ordered(sum as int, (w as int) * (i64::MAX as int), w as int);
            lemma_div_multiples_vanish(i64::MAX as int, w as int);
        }
        let q128: u128 = (sum as u128) / (w as u128);
        assert(q128 == (sum as int) / (w as int));
        q128 as i64
    } else {
        proof {
            lemma_scaled_range(w as int, sum as int);
            lemma_div_pos_is_pos(-(sum as int), w as int);
            lemma_div_is_ordered(-(sum as int), (w as int) * (-(i64::MIN as int)), w as int);
            lemma_div_multiples_vanish(-(i64::MIN as int), w as int);
        }
        let neg: i128 = -sum;
        let q128: u128 = (neg as u128) / (w as u128);
        assert(q128 == (-(sum as int)) / (w as int));
        assert(q128 <= -(i64::MIN as int));
        let q: i64 = (-(q128 as i128)) as i64;
        assert(q == div_toward_zero(sum as int, w as int));
        q
    }
}

/// Applies a fixed-window moving average to `arr`.
///
/// For `1 <= window_size <= len` the output has one entry per window
/// position, `len - window_size + 1` in all, and entry `i` is the average
/// of `arr[i .. i + window_size)` (the window sum divided by the window
/// size, rounded toward zero). For empty input, a zero window, or a window
/// longer than the input, the output is empty rather than an error, and
/// callers must check for emptiness before relying on downstream
/// components.
///
/// The sum is maintained incrementally — one addition and one subtraction
/// per position after the first window — and the contract states that this
/// yields exactly the direct sum of each window.
pub fn simple_moving_average(arr: &Vec<i64>, window_size: usize) -> (out: Vec<i64>)
    ensures
        out@ == smoothed_seq(arr@, window_size as int),
        (arr@.len() == 0 || window_size == 0 || window_size > arr@.len()) ==> out@.len() == 0,
        (1 <= window_size && window_size <= arr@.len()) ==> out@.len() == arr@.len()
            - window_size + 1,
        forall|i: int|
            0 <= i < out@.len() ==> out@[i] == window_average(arr@, i, window_size as int),
{
    let n: usize = arr.len();
    if n == 0 || window_size == 0 || window_size > n {
        let out: Vec<i64> = Vec::new();
        assert(out@ =~= smoothed_seq(arr@, window_size as int));
        return out;
    }
    let w: usize = window_size;
    let mut sum: i128 = 0;
    let mut j: usize = 0;
    while j < w
        invariant
            1 <= w <= n,
            n == arr@.len(),
            0 <= j <= w,
            sum == window_sum(arr@, 0, j as int),
        decreases w - j,
    {
        proof {
            lemma_window_sum_bounds(arr@, 0, j as int);
            assert(window_sum(arr@, 0, j + 1) == window_sum(arr@, 0, j as int) + arr@[j as int]);
            lemma_window_sum_bounds(arr@, 0, j + 1);
            lemma_scaled_range(j + 1, window_sum(arr@, 0, j + 1));
        }
        sum = sum + (arr[j] as i128);
        j = j + 1;
    }
    let mut out: Vec<i64> = Vec::new();
    proof {
        lemma_window_sum_bounds(arr@, 0, w as int);
    }
    let first: i64 = divide_window_sum(sum, w);
    out.push(first);
    let mut i: usize = w;
    while i < n
        invariant
            1 <= w <= n,
            n == arr@.len(),
            w <= i <= n,
            out@.len() == i - w + 1,
            forall|k: int| 0 <= k < out@.len() ==> out@[k] == window_average(arr@, k, w as int),
            sum == window_sum(arr@, (i - w) as int, w as int),
        decreases n - i,
    {
        proof {
            lemma_window_sum_bounds(arr@, (i - w) as int, w as int);
            lemma_window_sum_slide(arr@, (i - w) as int, w as int);
            lemma_window_sum_bounds(arr@, (i - w + 1) as int, w as int);
            assert((w as int) * (i64::MIN as int) + (i64::MIN as int) == (w + 1)
                * (i64::MIN as int));
            assert((w as int) * (i64::MAX as int) + (i64::MAX as int) == (w + 1)
                * (i64::MAX as int));
            lemma_scaled_range(w + 1, sum as int + arr@[i as int]);
            lemma_scaled_range(w as int, window_sum(arr@, (i - w + 1) as int, w as int));
        }
        sum = sum + (arr[i] as i128) - (arr[i - w] as i128);
        let q: i64 = divide_window_sum(sum, w);
        out.push(q);
        i = i + 1;
    }
    proof {
        assert(out@ =~= smoothed_seq(arr@, w as int));
    }
    out
}

} // verus!
