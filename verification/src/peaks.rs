//! Peak detection with a refractory window, and the composite
//! smoothing + peak-counting pipeline.

use vstd::prelude::*;
use crate::smoothing::{simple_moving_average, smoothed_seq};

verus! {

/// Whether position `i` is a candidate peak of `s`: an interior position
/// (never the first or last) that is a strict local maximum lying strictly
/// above `threshold`.
pub open spec fn is_candidate(s: Seq<i64>, threshold: i64, i: int) -> bool {
    &&& 1 <= i < s.len() - 1
    &&& s[i] > s[i - 1]
    &&& s[i] > s[i + 1]
    &&& s[i] > threshold
}

/// The peaks accepted from scan position `i` onward, given the reference
/// index `last`: the most recently accepted peak, or `0` while none has
/// been accepted yet. A candidate is accepted exactly when it lies at
/// least `min_duration` positions beyond the reference; accepting a peak
/// moves the reference, a rejected candidate does not.
pub open spec fn peaks_from(
    s: Seq<i64>,
    threshold: i64,
    min_duration: int,
    i: int,
    last: int,
) -> Seq<int>
    decreases s.len() - i,
{
    if i < 1 || i + 1 >= s.len() {
        Seq::<int>::empty()
    } else if is_candidate(s, threshold, i) && i - last >= min_duration {
        seq![i] + peaks_from(s, threshold, min_duration, i + 1, i)
    } else {
        peaks_from(s, threshold, min_duration, i + 1, last)
    }
}

/// All accepted peak indices of `s`: interior positions scanned left to
/// right, starting from reference index `0`. Because the initial reference
/// is `0` and not an accepted peak, the first candidate is measured against
/// position `0`; this asymmetry is deliberate, preserved behaviour.
pub open spec fn peak_indices(s: Seq<i64>, threshold: i64, min_duration: int) -> Seq<int> {
    peaks_from(s, threshold, min_duration, 1, 0)
}

/// Scans `arr` for accepted peaks: interior strict local maxima above
/// `threshold`, kept only when at least `min_duration` positions past the
/// previously accepted peak (or past index `0` for the first acceptance).
/// The returned indices are exactly `peak_indices(arr@, threshold,
/// min_duration)`; an empty input yields an empty result.
pub fn find_peaks(arr: &Vec<i64>, threshold: i64, min_duration: usize) -> (r: Vec<usize>)
    ensures
        r@.len() == peak_indices(arr@, threshold, min_duration as int).len(),
        forall|k: int|
            0 <= k < r@.len() ==> r@[k] == peak_indices(arr@, threshold, min_duration as int)[k],
        forall|k: int| 0 <= k < r@.len() ==> 0 < r@[k] && r@[k] + 1 < arr@.len(),
        arr@.len() == 0 ==> r@.len() == 0,
{
    let n: usize = arr.len();
    let mut peaks: Vec<usize> = Vec::new();
    if n < 3 {
        assert(peak_indices(arr@, threshold, min_duration as int) =~= Seq::<int>::empty());
        return peaks;
    }
    let ghost d: int = min_duration as int;
    let ghost mut done: Seq<int> = Seq::<int>::empty();
    let mut last: usize = 0;
    let mut i: usize = 1;
    while i + 1 < n
        invariant
            3 <= n,
            n == arr@.len(),
            1 <= i,
            i + 1 <= n,
            last < i,
            d == min_duration as int,
            done.len() == peaks@.len(),
            forall|k: int| 0 <= k < done.len() ==> done[k] == peaks@[k],
            forall|k: int| 0 <= k < peaks@.len() ==> 0 < peaks@[k] && peaks@[k] + 1 < n,
            peaks@.len() == 0 ==> last == 0,
            peaks@.len() > 0 ==> last == peaks@[peaks@.len() - 1],
            peak_indices(arr@, threshold, d) == done + peaks_from(
                arr@,
                threshold,
                d,
                i as int,
                last as int,
            ),
        decreases n - i,
    {
        let here: i64 = arr[i];
        let is_peak: bool = here > arr[i - 1] && here > arr[i + 1] && here > threshold;
        if is_peak && i - last >= min_duration {
            proof {
                assert(peaks_from(arr@, threshold, d, i as int, last as int) == seq![i as int]
                    + peaks_from(arr@, threshold, d, i as int + 1, i as int));
                assert(done + (seq![i as int] + peaks_from(arr@, threshold, d, i as int + 1, i as int))
                    =~= done.push(i as int) + peaks_from(arr@, threshold, d, i as int + 1, i as int));
                done = done.push(i as int);
            }
            peaks.push(i);
            last = i;
        } else {
            proof {
                assert(peaks_from(arr@, threshold, d, i as int, last as int) == peaks_from(
                    arr@,
                    threshold,
                    d,
                    i as int + 1,
                    last as int,
                ));
            }
        }
        i = i + 1;
    }
    proof {
        assert(peaks_from(arr@, threshold, d, i as int, last as int) =~= Seq::<int>::empty());
    }
    peaks
}

/// Every accepted peak is a candidate at or beyond the scan position; the
/// first accepted peak lies at least `min_duration` beyond the reference;
/// and consecutive accepted peaks are strictly increasing and at least
/// `min_duration` apart.
proof fn lemma_peaks_from_properties(s: Seq<i64>, threshold: i64, min_duration: int, i: int, last: int)
    ensures
        forall|k: int|
            0 <= k < peaks_from(s, threshold, min_duration, i, last).len() ==> i <= #[trigger] peaks_from(
                s,
                threshold,
                min_duration,
                i,
                last,
            )[k] && is_candidate(s, threshold, peaks_from(s, threshold, min_duration, i, last)[k]),
        peaks_from(s, threshold, min_duration, i, last).len() > 0 ==> peaks_from(
            s,
            threshold,
            min_duration,
            i,
            last,
        )[0] - last >= min_duration,
        forall|k: int|
            0 < k < peaks_from(s, threshold, min_duration, i, last).len() ==> #[trigger] peaks_from(
                s,
                threshold,
                min_duration,
                i,
                last,
            )[k] - peaks_from(s, threshold, min_duration, i, last)[k - 1] >= min_duration
                && peaks_from(s, threshold, min_duration, i, last)[k - 1] < peaks_from(
                s,
                threshold,
                min_duration,
                i,
                last,
            )[k],
    decreases s.len() - i,
{
    if i < 1 || i + 1 >= s.len() {
    } else if is_candidate(s, threshold, i) && i - last >= min_duration {
        lemma_peaks_from_properties(s, threshold, min_duration, i + 1, i);
        let rest = peaks_from(s, threshold, min_duration, i + 1, i);
        let whole = peaks_from(s, threshold, min_duration, i, last);
        assert(whole == seq![i] + rest);
        assert(whole[0] == i);
        assert(forall|k: int| 0 < k < whole.len() ==> whole[k] == rest[k - 1]);
    } else {
        lemma_peaks_from_properties(s, threshold, min_duration, i + 1, last);
    }
}

/// In a strictly increasing chain whose consecutive entries differ by at
/// least `d >= 0`, every later entry exceeds every earlier one by at least
/// `d`.
proof fn lemma_chain_spaced(p: Seq<int>, d: int, a: int, b: int)
    requires
        0 <= d,
        forall|k: int| 0 < k < p.len() ==> #[trigger] p[k] - p[k - 1] >= d && p[k - 1] < p[k],
        0 <= a < b < p.len(),
    ensures
        p[a] < p[b],
        p[b] - p[a] >= d,
    decreases b - a,
{
    if b - a > 1 {
        lemma_chain_spaced(p, d, a, b - 1);
    }
}

/// Accepted peaks are strictly increasing and mutually at least
/// `min_duration` apart, and each one is an interior strict local maximum
/// of `s` lying strictly above `threshold`.
pub proof fn lemma_peak_indices_spaced(s: Seq<i64>, threshold: i64, min_duration: int)
    requires
        0 <= min_duration,
    ensures
        forall|k: int|
            0 <= k < peak_indices(s, threshold, min_duration).len() ==> is_candidate(
                s,
                threshold,
                #[trigger] peak_indices(s, threshold, min_duration)[k],
            ),
        forall|a: int, b: int|
            0 <= a < b < peak_indices(s, threshold, min_duration).len() ==> #[trigger] peak_indices(
                s,
                threshold,
                min_duration,
            )[a] < #[trigger] peak_indices(s, threshold, min_duration)[b] && peak_indices(
                s,
                threshold,
                min_duration,
            )[b] - peak_indices(s, threshold, min_duration)[a] >= min_duration,
{
    lemma_peaks_from_properties(s, threshold, min_duration, 1, 0);
    let p = peak_indices(s, threshold, min_duration);
    assert forall|a: int, b: int| 0 <= a < b < p.len() implies p[a] < p[b] && p[b] - p[a]
        >= min_duration by {
        lemma_chain_spaced(p, min_duration, a, b);
    }
}

/// From any scan position onward, a stretch of `s` without candidate peaks
/// contributes no accepted peaks.
proof fn lemma_no_candidate_no_peaks(s: Seq<i64>, threshold: i64, min_duration: int, i: int, last: int)
    requires
        forall|j: int| i <= j ==> !is_candidate(s, threshold, j),
    ensures
        peaks_from(s, threshold, min_duration, i, last).len() == 0,
    decreases s.len() - i,
{
    if i < 1 || i + 1 >= s.len() {
    } else {
        lemma_no_candidate_no_peaks(s, threshold, min_duration, i + 1, last);
    }
}

/// A strictly monotonic sequence — increasing or decreasing — has no
/// interior strict local maxima, so peak detection accepts nothing on it,
/// whatever the threshold and refractory window.
pub proof fn lemma_monotonic_no_peaks(s: Seq<i64>, threshold: i64, min_duration: int)
    requires
        (forall|j: int| 0 <= j < s.len() - 1 ==> #[trigger] s[j] < s[j + 1]) || (forall|j: int|
            0 <= j < s.len() - 1 ==> #[trigger] s[j] > s[j + 1]),
    ensures
        peak_indices(s, threshold, min_duration).len() == 0,
{
    assert forall|j: int| 1 <= j implies !is_candidate(s, threshold, j) by {
        if is_candidate(s, threshold, j) {
            assert(0 <= j - 1 < s.len() - 1);
            assert(0 <= j < s.len() - 1);
        }
    }
    lemma_no_candidate_no_peaks(s, threshold, min_duration, 1, 0);
}

/// Window size the composite pipeline smooths with before counting peaks.
pub const PIPELINE_WINDOW: usize = 5;

/// The number of peaks the composite pipeline reports: the input smoothed
/// with the fixed pipeline window, then scanned for accepted peaks.
pub open spec fn pipeline_peak_count(s: Seq<i64>, threshold: i64, min_duration: int) -> int {
    peak_indices(smoothed_seq(s, PIPELINE_WINDOW as int), threshold, min_duration).len() as int
}

/// The composite pipeline: smooth `arr` with the fixed pipeline window,
/// then count the peaks accepted in the smoothed sequence.
pub fn count_peaks(arr: &Vec<i64>, threshold: i64, min_duration: usize) -> (r: usize)
    ensures
        r == pipeline_peak_count(arr@, threshold, min_duration as int),
{
    let smoothed: Vec<i64> = simple_moving_average(arr, PIPELINE_WINDOW);
    let peaks: Vec<usize> = find_peaks(&smoothed, threshold, min_duration);
    peaks.len()
}

/// The composite pipeline is deterministic: it has no hidden state, so two
/// runs over equal inputs with equal parameters report equal counts.
pub proof fn lemma_pipeline_deterministic(
    s1: Seq<i64>,
    s2: Seq<i64>,
    threshold: i64,
    min_duration: int,
)
    requires
        s1 == s2,
    ensures
        pipeline_peak_count(s1, threshold, min_duration) == pipeline_peak_count(
            s2,
            threshold,
            min_duration,
        ),
{
}

} // verus!
