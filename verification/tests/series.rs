//! Series and bounded sets of them.

use kronika_incident::dispatch::{LimitAxis, LimitHit, WorkBudget};
use kronika_incident::evidence::confidence::ConfidenceCap;
use kronika_incident::evidence::sink::{FindingSink, OutputCounts, OutputLimits};
use kronika_incident::float64::Float64;
use kronika_incident::model::{EpisodeRefV1, IdentityValue};
use kronika_incident::series::{Series, SeriesError, SeriesInsertError, SeriesSet};

/// The library's numbers with the bits of machine floats.
fn nums(values: &[f64]) -> Vec<Float64> {
    values
        .iter()
        .map(|value| Float64::from_bits(value.to_bits()))
        .collect()
}

fn reference(section: &'static str, column: &'static str, id: i64) -> EpisodeRefV1 {
    EpisodeRefV1 {
        logical_section: section,
        column,
        identity: vec![IdentityValue::I64(id)],
        start_us: 0,
        end_us: 1,
    }
}

#[test]
fn parallel_finite_ascending_arrays_build_a_series() {
    let series = Series::new(vec![1, 2, 3], nums(&[10.0, 20.0, 30.0])).expect("valid series");
    assert_eq!(series.len(), 3);
    assert_eq!(series.runs().len(), 1);
    assert_eq!(series.runs()[0].ts(), &[1, 2, 3]);
    assert_eq!(series.runs()[0].values(), &nums(&[10.0, 20.0, 30.0]));
}

#[test]
fn an_empty_series_is_valid() {
    let series = Series::new(vec![], nums(&[])).expect("empty is valid");
    assert!(series.is_empty());
}

#[test]
fn a_length_mismatch_is_rejected() {
    assert_eq!(
        Series::new(vec![1, 2], nums(&[1.0])).err(),
        Some(SeriesError::LengthMismatch)
    );
}

#[test]
fn out_of_order_timestamps_are_rejected() {
    assert_eq!(
        Series::new(vec![2, 1], nums(&[1.0, 2.0])).err(),
        Some(SeriesError::TimestampsNotStrictlyIncreasing)
    );
}

#[test]
fn duplicate_timestamps_are_rejected() {
    assert_eq!(
        Series::new(vec![1, 1], nums(&[1.0, 2.0])).err(),
        Some(SeriesError::TimestampsNotStrictlyIncreasing)
    );
}

#[test]
fn runs_must_remain_in_timestamp_order() {
    assert_eq!(
        Series::from_runs(vec![(vec![3], nums(&[1.0])), (vec![2], nums(&[2.0]))]).err(),
        Some(SeriesError::TimestampsNotStrictlyIncreasing)
    );
}

#[test]
fn a_non_finite_value_is_rejected() {
    assert_eq!(
        Series::new(vec![1], nums(&[f64::NAN])).err(),
        Some(SeriesError::NonFiniteValue)
    );
    assert_eq!(
        Series::new(vec![1], nums(&[f64::INFINITY])).err(),
        Some(SeriesError::NonFiniteValue)
    );
}

#[test]
fn an_empty_set_finds_nothing() {
    let set = SeriesSet::for_test(10);
    assert!(set.lookup(&reference("s", "c", 1)).is_none());
}

#[test]
fn a_series_is_found_by_its_reference() {
    let mut set = SeriesSet::for_test(10);
    let key = reference("s", "c", 1);
    set.insert(
        "s",
        "c",
        key.identity.clone(),
        Series::new(vec![1], nums(&[9.0])).expect("valid"),
    )
    .expect("unique series within limit");
    assert_eq!(set.lookup(&key).map(Series::len), Some(1));
}

#[test]
fn a_different_section_identity_or_column_is_a_miss() {
    let mut set = SeriesSet::for_test(10);
    set.insert(
        "s",
        "c",
        vec![IdentityValue::I64(1)],
        Series::new(vec![1], nums(&[9.0])).expect("valid"),
    )
    .expect("unique series within limit");
    assert!(
        set.lookup(&reference("t", "c", 1)).is_none(),
        "section differs"
    );
    assert!(
        set.lookup(&reference("s", "c", 2)).is_none(),
        "identity differs"
    );
    assert!(
        set.lookup(&reference("s", "d", 1)).is_none(),
        "column differs"
    );
}

#[test]
fn duplicate_series_is_rejected_without_overwrite() {
    let mut set = SeriesSet::for_test(10);
    let identity = vec![IdentityValue::I64(1)];
    set.insert(
        "s",
        "c",
        identity.clone(),
        Series::new(vec![1], nums(&[1.0])).expect("valid"),
    )
    .expect("first insert");
    assert_eq!(
        set.insert(
            "s",
            "c",
            identity,
            Series::new(vec![2], nums(&[2.0])).expect("valid"),
        ),
        Err(SeriesInsertError::Duplicate)
    );
    assert_eq!(
        set.lookup(&reference("s", "c", 1))
            .map(|series| series.runs()[0].values()),
        Some(&nums(&[1.0])[..])
    );
}

#[test]
fn total_points_are_bounded() {
    let mut set = SeriesSet::for_test(1);
    assert_eq!(
        set.insert(
            "s",
            "c",
            vec![IdentityValue::I64(1)],
            Series::new(vec![1, 2], nums(&[1.0, 2.0])).expect("valid"),
        ),
        Err(SeriesInsertError::PointLimit {
            observed: 2,
            limit: 1,
        })
    );
}

#[test]
fn series_lookup_charges_every_point_before_returning_data() {
    let key = reference("s", "c", 1);
    let mut set = SeriesSet::for_test(2);
    set.insert(
        "s",
        "c",
        key.identity.clone(),
        Series::new(vec![1, 2], nums(&[1.0, 2.0])).expect("valid"),
    )
    .expect("within point limit");

    let mut findings = Vec::new();
    let mut budget = WorkBudget::new(1);
    let mut counts = OutputCounts::new();
    let mut sink = FindingSink::new(
        &mut findings,
        &mut budget,
        &mut counts,
        OutputLimits::new(0, 0),
        "TEST",
        ConfidenceCap::Low,
    );
    assert_eq!(
        set.get(&key, &mut sink).err(),
        Some(LimitHit {
            axis: LimitAxis::Work,
            observed: 2,
            limit: 1,
        })
    );
}

#[test]
fn remaining_points_follow_the_stored_series() {
    let mut set = SeriesSet::for_test(3);
    assert_eq!(set.remaining_points(), 3);
    set.insert(
        "s",
        "c",
        vec![IdentityValue::I64(1)],
        Series::new(vec![1, 2], nums(&[1.0, 2.0])).expect("valid"),
    )
    .expect("within point limit");
    assert_eq!(set.remaining_points(), 1);
    assert_eq!(set.point_limit(), 3);
    assert!(set
        .insert(
            "s",
            "d",
            vec![IdentityValue::I64(1)],
            Series::new(vec![1, 2], nums(&[1.0, 2.0])).expect("valid"),
        )
        .is_err());
    assert_eq!(set.remaining_points(), 1);
}
