//! A verified numeric kernel for extracting motion events from tri-axial
//! accelerometer time series.
//!
//! Samples are fixed-point integers (for instance raw ADC counts or milli-g
//! units); the caller chooses the scale. Working over integers keeps every
//! result exact, so each component carries a full functional contract:
//!
//! - [`smoothing::simple_moving_average`]: fixed-window moving average.
//! - [`motion::detect_start`]: first index where the 3-axis magnitude
//!   exceeds a threshold.
//! - [`peaks::find_peaks`]: local maxima above a threshold with a
//!   refractory window, and [`peaks::count_peaks`], the smoothing + peak
//!   detection pipeline.
//! - [`jerk::calc_jerk`]: mean absolute first difference, returned as an
//!   exact numerator / denominator pair.
//!
//! Indices returned by the peak detector refer to the smoothed domain: an
//! index `i` into a smoothed sequence of length `L - window + 1` names the
//! window ending at raw index `i + window - 1`. Mapping back to raw sample
//! indices is the caller's responsibility.

pub mod ingest;
pub mod jerk;
pub mod motion;
pub mod peaks;
pub mod smoothing;
