use zacc::jerk::{calc_jerk, JerkEstimate};
use zacc::motion::detect_start;
use zacc::peaks::{count_peaks, find_peaks, PIPELINE_WINDOW};
use zacc::smoothing::simple_moving_average;

#[test]
fn sma_basic_window_two() {
    let arr: Vec<i64> = vec![1, 2, 3, 4, 5];
    let out = simple_moving_average(&arr, 2);
    assert_eq!(out, vec![1, 2, 3, 4]);
    assert_eq!(out.len(), arr.len() - 2 + 1);
}

#[test]
fn sma_matches_direct_sum_average() {
    let arr: Vec<i64> = vec![10, 30, 20, 60, 40, 0, 50, 10];
    let w: usize = 3;
    let out = simple_moving_average(&arr, w);
    assert_eq!(out.len(), arr.len() - w + 1);
    for i in 0..out.len() {
        let direct: i64 = arr[i..i + w].iter().sum();
        assert_eq!(out[i], direct / (w as i64));
    }
}

#[test]
fn sma_window_equals_length() {
    let arr: Vec<i64> = vec![2, 4, 6];
    assert_eq!(simple_moving_average(&arr, 3), vec![4]);
}

#[test]
fn sma_degenerate_inputs_give_empty_output() {
    let empty: Vec<i64> = Vec::new();
    assert!(simple_moving_average(&empty, 3).is_empty());
    let arr: Vec<i64> = vec![1, 2, 3];
    assert!(simple_moving_average(&arr, 0).is_empty());
    assert!(simple_moving_average(&arr, 4).is_empty());
}

#[test]
fn sma_negative_average_rounds_toward_zero() {
    // (-3 + 2) / 2 is -0.5, which integer division rounds toward zero.
    let arr: Vec<i64> = vec![-3, 2];
    assert_eq!(simple_moving_average(&arr, 2), vec![0]);
    let arr2: Vec<i64> = vec![-3, 1];
    assert_eq!(simple_moving_average(&arr2, 2), vec![-1]);
}

#[test]
fn motion_start_at_first_exceeding_index() {
    let x: Vec<i64> = vec![0, 0, 5];
    let y: Vec<i64> = vec![0, 0, 0];
    let z: Vec<i64> = vec![0, 0, 0];
    assert_eq!(detect_start(&x, &y, &z, 3), 2);
}

#[test]
fn motion_start_none_returns_length() {
    let x: Vec<i64> = vec![1, 2, 1];
    let y: Vec<i64> = vec![0, 1, 0];
    let z: Vec<i64> = vec![1, 0, 1];
    assert_eq!(detect_start(&x, &y, &z, 100), 3);
}

#[test]
fn motion_start_strict_comparison() {
    // Magnitude equal to the threshold does not count as exceeding it.
    let x: Vec<i64> = vec![3];
    let y: Vec<i64> = vec![0];
    let z: Vec<i64> = vec![0];
    assert_eq!(detect_start(&x, &y, &z, 3), 1);
    assert_eq!(detect_start(&x, &y, &z, 2), 0);
}

#[test]
fn motion_start_negative_threshold_is_immediate() {
    let x: Vec<i64> = vec![0, 0];
    let y: Vec<i64> = vec![0, 0];
    let z: Vec<i64> = vec![0, 0];
    assert_eq!(detect_start(&x, &y, &z, -1), 0);
}

#[test]
fn motion_start_empty_input_returns_zero() {
    let none: Vec<i64> = Vec::new();
    assert_eq!(detect_start(&none, &none, &none, 3), 0);
}

fn two_maxima_signal() -> Vec<i64> {
    // Local maxima at indices 10 and 12, both above a threshold of 5.
    let mut arr: Vec<i64> = vec![0; 15];
    arr[10] = 10;
    arr[12] = 10;
    arr
}

#[test]
fn peaks_refractory_window_collapses_close_maxima() {
    let arr = two_maxima_signal();
    assert_eq!(find_peaks(&arr, 5, 5), vec![10]);
}

#[test]
fn peaks_short_refractory_window_keeps_both_maxima() {
    let arr = two_maxima_signal();
    assert_eq!(find_peaks(&arr, 5, 1), vec![10, 12]);
}

#[test]
fn peaks_threshold_filters_maxima() {
    let arr = two_maxima_signal();
    assert!(find_peaks(&arr, 10, 1).is_empty());
}

#[test]
fn peaks_empty_input_gives_empty_result() {
    let empty: Vec<i64> = Vec::new();
    assert!(find_peaks(&empty, 0, 1).is_empty());
}

#[test]
fn peaks_monotonic_input_gives_empty_result() {
    let rising: Vec<i64> = vec![1, 2, 3, 4, 5, 6];
    let falling: Vec<i64> = vec![6, 5, 4, 3, 2, 1];
    assert!(find_peaks(&rising, -100, 1).is_empty());
    assert!(find_peaks(&falling, -100, 1).is_empty());
}

#[test]
fn peaks_first_candidate_measured_against_index_zero() {
    // The first acceptance is measured against index 0, not against a
    // previously accepted peak: a first local maximum closer to the start
    // than min_duration is rejected.
    let mut arr: Vec<i64> = vec![0; 8];
    arr[2] = 10;
    assert_eq!(find_peaks(&arr, 5, 5), Vec::<usize>::new());
    assert_eq!(find_peaks(&arr, 5, 2), vec![2]);
}

#[test]
fn count_peaks_composes_smoothing_and_detection() {
    let mut raw: Vec<i64> = vec![0; 40];
    for i in 10..15 {
        raw[i] = 100;
    }
    for i in 25..30 {
        raw[i] = 100;
    }
    let smoothed = simple_moving_average(&raw, PIPELINE_WINDOW);
    let expected = find_peaks(&smoothed, 10, 3).len();
    assert_eq!(count_peaks(&raw, 10, 3), expected);
    assert!(expected > 0);
}

#[test]
fn count_peaks_is_deterministic() {
    let mut raw: Vec<i64> = vec![0; 60];
    for i in 0..60 {
        raw[i] = ((i % 7) * (i % 5)) as i64;
    }
    let first = count_peaks(&raw, 3, 2);
    let second = count_peaks(&raw, 3, 2);
    assert_eq!(first, second);
}

#[test]
fn jerk_mean_absolute_difference() {
    // |2-1| + |4-2| + |4-4| + |1-4| = 6 over 4 steps: a mean jerk of 1.5.
    let arr: Vec<i64> = vec![1, 2, 4, 4, 1];
    let est = calc_jerk(&arr);
    assert_eq!(est, JerkEstimate { total: 6, steps: 4 });
    assert_eq!(est.total as f64 / est.steps as f64, 1.5);
}

#[test]
fn jerk_short_inputs_are_zero() {
    let empty: Vec<i64> = Vec::new();
    assert_eq!(calc_jerk(&empty), JerkEstimate { total: 0, steps: 0 });
    let one: Vec<i64> = vec![7];
    assert_eq!(calc_jerk(&one), JerkEstimate { total: 0, steps: 0 });
}

#[test]
fn jerk_handles_negative_samples() {
    let arr: Vec<i64> = vec![-1, 1];
    assert_eq!(calc_jerk(&arr), JerkEstimate { total: 2, steps: 1 });
}
