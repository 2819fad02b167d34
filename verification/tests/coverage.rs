//! Observed cadence and window coverage.

use kronika_incident::evidence::coverage::{
    expected_interval_count, median_us, observed_period_from_durations,
    observed_period_from_timestamps, source_window_completeness, SourceWindow,
};
use kronika_incident::float64::Float64;

/// The library's number with the bits of a machine float.
fn num(value: f64) -> Float64 {
    Float64::from_bits(value.to_bits())
}

#[test]
fn median_us_odd_even_empty() {
    assert_eq!(median_us(&mut [30, 10, 20]), Some(20));
    assert_eq!(median_us(&mut [10, 20, 30, 40]), Some(25));
    assert_eq!(median_us(&mut []), None);
}

#[test]
fn observed_period_needs_three_durations_and_resists_one_gap() {
    // Two durations: unproven, even if identical.
    assert_eq!(observed_period_from_durations(&mut [1_000, 1_000]), None);
    // Three durations, one gap-inflated: the median holds the true cadence.
    assert_eq!(
        observed_period_from_durations(&mut [1_000, 1_000, 9_000]),
        Some(1_000)
    );
}

#[test]
fn observed_period_from_timestamps_uses_adjacent_gaps() {
    // Four samples → three 1s gaps → 1s period.
    assert_eq!(
        observed_period_from_timestamps(&[0, 1_000_000, 2_000_000, 3_000_000]),
        Some(1_000_000)
    );
    // Too few gaps for a stable median.
    assert_eq!(observed_period_from_timestamps(&[0, 1_000_000]), None);
}

#[test]
fn expected_interval_count_rounds_the_ratio() {
    assert_eq!(expected_interval_count(10_000_000, 1_000_000), Some(10));
    assert_eq!(expected_interval_count(9_400_000, 1_000_000), Some(9));
    assert_eq!(expected_interval_count(9_600_000, 1_000_000), Some(10));
}

#[test]
fn expected_interval_count_guards_degenerate_inputs() {
    assert_eq!(expected_interval_count(0, 1_000_000), None);
    assert_eq!(expected_interval_count(10_000_000, 0), None);
    assert_eq!(expected_interval_count(400_000, 1_000_000), None);
}

#[test]
fn completeness_is_usable_over_expected_and_unclamped() {
    assert_eq!(source_window_completeness(8, 10), Some(num(0.8)));
    assert_eq!(source_window_completeness(10, 10), Some(num(1.0)));
    assert_eq!(source_window_completeness(12, 10), Some(num(1.2)));
    assert_eq!(source_window_completeness(5, 0), None);
}

#[test]
fn source_window_reports_completeness_or_an_honest_reason() {
    let covered = SourceWindow::new(10_000_000, Some(1_000_000), 8);
    assert_eq!(covered.expected_interval_count(), Some(10));
    assert_eq!(covered.source_window_completeness(), Some(num(0.8)));
    assert_eq!(covered.completeness_gap_reason(), None);

    let unproven = SourceWindow::new(10_000_000, None, 2);
    assert_eq!(unproven.expected_interval_count(), None);
    assert_eq!(unproven.source_window_completeness(), None);
    assert_eq!(
        unproven.completeness_gap_reason(),
        Some("insufficient_intervals_for_observed_period")
    );

    let narrow = SourceWindow::new(400_000, Some(1_000_000), 1);
    assert_eq!(
        narrow.completeness_gap_reason(),
        Some("incident_window_shorter_than_observed_period")
    );
}

#[test]
fn source_window_reports_empty_incident_window() {
    let empty = SourceWindow::new(0, Some(1_000_000), 5);
    assert_eq!(empty.expected_interval_count(), None);
    assert_eq!(empty.source_window_completeness(), None);
    assert_eq!(
        empty.completeness_gap_reason(),
        Some("empty_incident_window")
    );
}

#[test]
fn expected_interval_count_covers_the_largest_operands() {
    assert_eq!(expected_interval_count(u64::MAX, u64::MAX), Some(1));
    assert_eq!(expected_interval_count(u64::MAX, 1), Some(u64::MAX));
    assert_eq!(expected_interval_count(u64::MAX, 2), Some(1 << 63));
    assert_eq!(expected_interval_count(1, u64::MAX), None);
    assert_eq!(expected_interval_count(1 << 63, u64::MAX), Some(1));
}

#[test]
fn the_median_sorts_its_durations() {
    let mut durations = [30, 10, 20];
    assert_eq!(median_us(&mut durations), Some(20));
    assert_eq!(durations, [10, 20, 30]);
    let mut few = [2, 1];
    assert_eq!(observed_period_from_durations(&mut few), None);
    assert_eq!(few, [2, 1]);
}
