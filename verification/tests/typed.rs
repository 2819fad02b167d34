//! Typed counter, gauge and snapshot inputs.

use kronika_incident::align::shared_rows;
use kronika_incident::float64::Float64;
use kronika_incident::model::IdentityValue;
use kronika_incident::typed::counter::{
    CounterDeltaError, CounterPoint, DiffPoint, Reason, Scalar,
};
use kronika_incident::typed::gauge::{
    normalize_gaps, GaugeGap, GaugeObjective, GaugePoint, GaugeSnapshotWindow, PairedGaugeWindow,
};
use kronika_incident::typed::inputs::TypedInputs;
use kronika_incident::typed::snapshot::{
    ActivityBackend, ActivitySnapshot, LockEdge, LockSnapshot, SnapshotCompleteness,
};

/// The library's number with the bits of a machine float.
fn num(value: f64) -> Float64 {
    Float64::from_bits(value.to_bits())
}

/// The machine float with the bits of a number.
fn val(value: Float64) -> f64 {
    f64::from_bits(value.to_bits())
}

fn readings(points: &[(i64, f64)]) -> Vec<(i64, Float64)> {
    points.iter().map(|&(ts, value)| (ts, num(value))).collect()
}

fn id(value: i64) -> Vec<IdentityValue> {
    vec![IdentityValue::I64(value)]
}

// A one-second interval with the same delta and rate.
fn value(delta: f64) -> DiffPoint {
    DiffPoint::Value {
        delta: Scalar::Float(num(delta)),
        rate: num(delta),
        dt_micros: 1_000_000,
    }
}

fn value_with_dt(delta: f64, dt_micros: i64) -> DiffPoint {
    DiffPoint::Value {
        delta: Scalar::Float(num(delta)),
        rate: num(delta),
        dt_micros,
    }
}

fn integer_value(delta: i128, dt_micros: i64) -> DiffPoint {
    DiffPoint::Value {
        delta: Scalar::Int(delta),
        rate: num(0.0),
        dt_micros,
    }
}

fn absent(reason: Reason) -> DiffPoint {
    DiffPoint::NoData { reason }
}

fn inputs(read: Vec<(i64, DiffPoint)>, hit: Vec<(i64, DiffPoint)>) -> TypedInputs {
    let mut typed = TypedInputs::new();
    typed.insert_counter("db", "blks_read", id(1), read);
    typed.insert_counter("db", "blks_hit", id(1), hit);
    typed
}

#[test]
fn paired_sums_add_deltas_over_shared_intervals() {
    let typed = inputs(
        vec![(10, value(3.0)), (20, value(7.0))],
        vec![(10, value(30.0)), (20, value(70.0))],
    );
    let sums = typed
        .paired_delta_sums("db", &id(1), "blks_read", "blks_hit", i64::MIN, i64::MAX)
        .expect("both columns present");
    assert_eq!(sums.intervals, 2);
    assert_eq!(sums.candidate_intervals, 2);
    assert_eq!(sums.first_start_us, Some(-999_990));
    assert_eq!(sums.first_end_us, Some(10));
    assert_eq!(sums.last_end_us, Some(20));
    assert_eq!(sums.elapsed_us, 2_000_000);
    assert!((val(sums.sum_a) - 10.0).abs() < 1e-9);
    assert!((val(sums.sum_b) - 100.0).abs() < 1e-9);
}

#[test]
fn an_unusable_interval_drops_the_whole_pair() {
    let typed = inputs(
        vec![(10, value(3.0)), (20, absent(Reason::Reset))],
        vec![(10, value(30.0)), (20, value(70.0))],
    );
    let sums = typed
        .paired_delta_sums("db", &id(1), "blks_read", "blks_hit", i64::MIN, i64::MAX)
        .expect("both columns present");
    assert_eq!(
        sums.intervals, 1,
        "the reset interval is excluded from both"
    );
    assert_eq!(sums.candidate_intervals, 2);
    assert_eq!(sums.excluded_intervals(), 1);
    assert_eq!(sums.unusable_delta_intervals, 1);
    assert!((val(sums.sum_a) - 3.0).abs() < 1e-9);
    assert!((val(sums.sum_b) - 30.0).abs() < 1e-9);
}

#[test]
fn only_matching_snapshot_times_pair() {
    let typed = inputs(
        vec![(10, value(3.0)), (20, value(7.0))],
        vec![(20, value(70.0)), (30, value(90.0))],
    );
    let sums = typed
        .paired_delta_sums("db", &id(1), "blks_read", "blks_hit", i64::MIN, i64::MAX)
        .expect("both columns present");
    assert_eq!(sums.intervals, 1, "only ts=20 is shared");
    assert_eq!(sums.candidate_intervals, 3);
    assert_eq!(sums.excluded_intervals(), 2);
    assert_eq!(sums.unmatched_endpoint_intervals, 2);
    assert!((val(sums.sum_a) - 7.0).abs() < 1e-9);
    assert!((val(sums.sum_b) - 70.0).abs() < 1e-9);
}

#[test]
fn a_missing_column_yields_none() {
    let mut typed = TypedInputs::new();
    typed.insert_counter("db", "blks_read", id(1), vec![(10, value(3.0))]);
    assert!(
        typed
            .paired_delta_sums("db", &id(1), "blks_read", "blks_hit", i64::MIN, i64::MAX)
            .is_none()
    );
}

#[test]
fn a_reset_only_pair_reports_zero_usable_intervals() {
    let typed = inputs(vec![(10, absent(Reason::Reset))], vec![(10, value(30.0))]);
    let sums = typed
        .paired_delta_sums("db", &id(1), "blks_read", "blks_hit", i64::MIN, i64::MAX)
        .expect("both columns present");
    assert_eq!(sums.intervals, 0);
    assert_eq!(sums.candidate_intervals, 1);
    assert_eq!(sums.unusable_delta_intervals, 1);
    assert!(val(sums.sum_a).abs() < 1e-9);
    assert!(val(sums.sum_b).abs() < 1e-9);
}

#[test]
fn a_typed_delta_does_not_depend_on_the_derived_rate() {
    let nan = DiffPoint::Value {
        delta: Scalar::Int(5),
        rate: num(f64::NAN),
        dt_micros: 1_000_000,
    };
    let typed = inputs(
        vec![(10, nan), (20, value(7.0))],
        vec![(10, value(30.0)), (20, value(70.0))],
    );
    let sums = typed
        .paired_delta_sums("db", &id(1), "blks_read", "blks_hit", i64::MIN, i64::MAX)
        .expect("both columns present");
    assert_eq!(sums.intervals, 2, "the exact delta remains usable");
    assert!((val(sums.sum_a) - 12.0).abs() < 1e-9);
    assert!((val(sums.sum_b) - 100.0).abs() < 1e-9);
}

#[test]
fn paired_sums_only_count_intervals_ending_inside_the_window() {
    let typed = inputs(
        vec![
            (0, value(100.0)),
            (10, value(3.0)),
            (20, value(7.0)),
            (30, value(200.0)),
        ],
        vec![
            (0, value(10.0)),
            (10, value(30.0)),
            (20, value(70.0)),
            (30, value(20.0)),
        ],
    );

    let sums = typed
        .paired_delta_sums("db", &id(1), "blks_read", "blks_hit", 10, 20)
        .expect("both columns present");

    assert_eq!(sums.intervals, 2);
    assert_eq!(sums.candidate_intervals, 2);
    assert!((val(sums.sum_a) - 10.0).abs() < 1e-9);
    assert!((val(sums.sum_b) - 100.0).abs() < 1e-9);
}

#[test]
fn mismatched_interval_lengths_are_excluded_and_counted() {
    let typed = inputs(
        vec![
            (1_000_000, value_with_dt(3.0, 1_000_000)),
            (2_000_000, value_with_dt(7.0, 1_000_000)),
            (3_000_000, value_with_dt(8.0, 1_000_000)),
        ],
        vec![
            (1_000_000, value_with_dt(30.0, 2_000_000)),
            (2_000_000, value_with_dt(70.0, 1_000_000)),
            (3_000_000, value_with_dt(80.0, 1_000_000)),
        ],
    );
    let sums = typed
        .paired_delta_sums("db", &id(1), "blks_read", "blks_hit", 0, 3_000_000)
        .expect("both columns present");

    assert_eq!(sums.intervals, 2);
    assert_eq!(sums.candidate_intervals, 3);
    assert_eq!(sums.excluded_intervals(), 1);
    assert_eq!(sums.unaligned_duration_intervals, 1);
    assert_eq!(sums.elapsed_us, 2_000_000);
    assert_eq!(sums.first_start_us, Some(1_000_000));
    assert!(!sums.meets_pairing_coverage(2));
}

#[test]
fn three_of_four_aligned_intervals_meet_pairing_coverage() {
    let typed = inputs(
        vec![
            (1, value(1.0)),
            (2, value(1.0)),
            (3, absent(Reason::Reset)),
            (4, value(1.0)),
        ],
        vec![
            (1, value(1.0)),
            (2, value(1.0)),
            (3, value(1.0)),
            (4, value(1.0)),
        ],
    );
    let sums = typed
        .paired_delta_sums("db", &id(1), "blks_read", "blks_hit", 0, 10)
        .expect("both columns present");

    assert_eq!((sums.intervals, sums.candidate_intervals), (3, 4));
    assert!(sums.meets_pairing_coverage(3));
}

#[test]
fn integer_deltas_that_cannot_be_published_exactly_are_excluded() {
    let too_large = (1_i128 << 53) + 1;
    let typed = inputs(
        vec![(1_000_000, integer_value(too_large, 1_000_000))],
        vec![(1_000_000, integer_value(1, 1_000_000))],
    );
    let sums = typed
        .paired_delta_sums("db", &id(1), "blks_read", "blks_hit", 0, 1_000_000)
        .expect("both columns present");

    assert_eq!((sums.intervals, sums.candidate_intervals), (0, 1));
    assert_eq!(sums.numeric_limit_intervals, 1);
}

#[test]
fn integer_sum_precision_loss_excludes_the_overflowing_pair() {
    let exact_limit = 1_i128 << 53;
    let typed = inputs(
        vec![
            (1_000_000, integer_value(exact_limit, 1_000_000)),
            (2_000_000, integer_value(1, 1_000_000)),
        ],
        vec![
            (1_000_000, integer_value(1, 1_000_000)),
            (2_000_000, integer_value(1, 1_000_000)),
        ],
    );
    let sums = typed
        .paired_delta_sums("db", &id(1), "blks_read", "blks_hit", 0, 2_000_000)
        .expect("both columns present");

    assert_eq!((sums.intervals, sums.candidate_intervals), (1, 2));
    assert_eq!(sums.numeric_limit_intervals, 1);
    assert!((val(sums.sum_a) - 9_007_199_254_740_992.0).abs() < f64::EPSILON);
}

#[test]
fn elapsed_duration_overflow_excludes_the_interval() {
    let endpoints = [i64::MAX - 2, i64::MAX - 1, i64::MAX];
    let points: Vec<_> = endpoints
        .into_iter()
        .map(|end| (end, value_with_dt(1.0, end)))
        .collect();
    let typed = inputs(points.clone(), points);
    let sums = typed
        .paired_delta_sums(
            "db",
            &id(1),
            "blks_read",
            "blks_hit",
            i64::MAX - 2,
            i64::MAX,
        )
        .expect("both columns present");

    assert_eq!((sums.intervals, sums.candidate_intervals), (2, 3));
    assert_eq!(sums.numeric_limit_intervals, 1);
    assert!(!sums.meets_pairing_coverage(2));
}

#[test]
fn aligned_sums_exclude_an_interval_start_before_i64_min() {
    let typed = inputs(
        vec![(i64::MIN, value_with_dt(1.0, 1))],
        vec![(i64::MIN, value_with_dt(1.0, 1))],
    );
    let sums = typed
        .aligned_delta_sums("db", &id(1), &["blks_read", "blks_hit"], i64::MIN, i64::MIN)
        .expect("both columns present");

    assert_eq!(sums.intervals, 0);
}

fn gauges(section: &'static str, columns: &[(&'static str, &[(i64, f64)])]) -> TypedInputs {
    let mut typed = TypedInputs::new();
    for &(column, points) in columns {
        typed.insert_gauge(section, column, id(1), readings(points));
    }
    typed
}

#[test]
fn gauge_max_reports_the_window_peak_and_sample_count() {
    let typed = gauges("db", &[("age", &[(10, 3.0), (20, 7.0), (30, 5.0)])]);
    let reading = typed
        .gauge_max("db", "age", &id(1), 10, 25)
        .expect("readings land in the window");
    assert!((val(reading.value) - 7.0).abs() < 1e-9);
    assert_eq!(
        reading.samples, 2,
        "the ts=30 reading ends after the window"
    );
}

#[test]
fn gauge_max_without_a_reading_in_the_window_is_none() {
    let typed = gauges("db", &[("age", &[(10, 3.0), (20, 7.0)])]);
    assert!(typed.gauge_max("db", "age", &id(1), 40, 50).is_none());
}

#[test]
fn gauge_max_on_a_missing_column_is_none() {
    let typed = gauges("db", &[("age", &[(10, 3.0)])]);
    assert!(typed.gauge_max("db", "other", &id(1), 0, 100).is_none());
}

#[test]
fn paired_gauge_share_max_selects_the_worst_saturation() {
    let typed = gauges(
        "tbl",
        &[
            ("dead", &[(10, 3.0), (20, 80.0)]),
            ("live", &[(10, 97.0), (20, 20.0)]),
        ],
    );
    let pair = typed
        .paired_gauge(
            "tbl",
            &id(1),
            ("dead", "live"),
            0,
            100,
            GaugeObjective::ShareMax,
        )
        .expect("both columns present");
    assert_eq!(pair.samples, 2);
    // 80 / (80 + 20) = 0.8, the worst share, beats 3 / 100 = 0.03.
    assert!((val(pair.a) - 80.0).abs() < 1e-9 && (val(pair.b) - 20.0).abs() < 1e-9);
}

#[test]
fn paired_gauge_ratio_min_selects_the_lowest_headroom() {
    let typed = gauges(
        "fs",
        &[
            ("free", &[(10, 50.0), (20, 5.0)]),
            ("total", &[(10, 100.0), (20, 100.0)]),
        ],
    );
    let pair = typed
        .paired_gauge(
            "fs",
            &id(1),
            ("free", "total"),
            0,
            100,
            GaugeObjective::RatioMin,
        )
        .expect("both columns present");
    assert!(
        (val(pair.a) - 5.0).abs() < 1e-9,
        "5 / 100 = 0.05 is the low point"
    );
}

#[test]
fn paired_gauge_diff_max_selects_the_widest_gap() {
    let typed = gauges(
        "repl",
        &[
            ("sent", &[(10, 100.0), (20, 500.0)]),
            ("replay", &[(10, 90.0), (20, 100.0)]),
        ],
    );
    let pair = typed
        .paired_gauge(
            "repl",
            &id(1),
            ("sent", "replay"),
            0,
            100,
            GaugeObjective::DiffMax,
        )
        .expect("both columns present");
    assert!(
        (val(pair.a) - val(pair.b) - 400.0).abs() < 1e-9,
        "500 - 100 beats 100 - 90"
    );
}

#[test]
fn paired_gauge_skips_a_guarded_zero_denominator() {
    let typed = gauges(
        "cg",
        &[
            ("current", &[(10, 5.0), (20, 9.0)]),
            ("max", &[(10, 0.0), (20, 10.0)]),
        ],
    );
    let pair = typed
        .paired_gauge(
            "cg",
            &id(1),
            ("current", "max"),
            0,
            100,
            GaugeObjective::RatioMax,
        )
        .expect("one shared reading has a positive denominator");
    assert_eq!(
        pair.samples, 1,
        "the max=0 reading is skipped, not divided by"
    );
    assert!((val(pair.a) - 9.0).abs() < 1e-9 && (val(pair.b) - 10.0).abs() < 1e-9);
}

#[test]
fn paired_gauge_only_pairs_shared_timestamps() {
    let typed = gauges(
        "repl",
        &[
            ("sent", &[(10, 100.0), (20, 500.0)]),
            ("replay", &[(20, 100.0), (30, 110.0)]),
        ],
    );
    let pair = typed
        .paired_gauge(
            "repl",
            &id(1),
            ("sent", "replay"),
            0,
            100,
            GaugeObjective::DiffMax,
        )
        .expect("ts=20 is shared");
    assert_eq!(pair.samples, 1);
    assert!((val(pair.a) - 500.0).abs() < 1e-9);
}

#[test]
fn paired_gauge_with_a_missing_column_is_none() {
    let typed = gauges("fs", &[("free", &[(10, 5.0)])]);
    assert!(
        typed
            .paired_gauge(
                "fs",
                &id(1),
                ("free", "total"),
                0,
                100,
                GaugeObjective::RatioMin
            )
            .is_none()
    );
}

#[test]
fn first_valid_gauge_sample_is_an_observation() {
    let typed = gauges("db", &[("age", &[(10, 7.0)])]);
    let reading = typed
        .gauge_window("db", "age", &id(1), 10, 11)
        .and_then(|window| window.max())
        .expect("one sample is valid gauge evidence");
    assert_eq!(reading.samples, 1);
    assert_eq!(reading.observed_at_us, 10);
    assert!((val(reading.value) - 7.0).abs() < 1e-9);
}

#[test]
fn gauge_windows_are_half_open_and_indexed_to_local_points() {
    let typed = gauges(
        "db",
        &[("age", &[(0, 99.0), (10, 7.0), (20, 100.0), (30, 101.0)])],
    );
    let window = typed
        .gauge_window("db", "age", &id(1), 10, 20)
        .expect("ts=10 is local");
    assert_eq!(window.inspected_points(), 1);
    let reading = window.max().expect("one point");
    assert_eq!(reading.observed_at_us, 10);
    assert!((val(reading.value) - 7.0).abs() < 1e-9);
}

#[test]
fn invalid_reading_or_gap_rejects_the_window() {
    let mut typed = TypedInputs::new();
    typed.insert_gauge_with_quality(
        "db",
        "age",
        id(1),
        readings(&[(10, 7.0), (30, 8.0)]),
        vec![20],
        &[],
    );
    assert!(typed.gauge_window("db", "age", &id(1), 10, 30).is_none());

    let mut typed = TypedInputs::new();
    typed.insert_gauge_with_quality(
        "db",
        "age",
        id(1),
        readings(&[(10, 7.0)]),
        Vec::new(),
        &[(15, 25)],
    );
    assert!(typed.gauge_window("db", "age", &id(1), 10, 30).is_none());
}

#[test]
fn duplicate_or_non_finite_raw_timestamp_breaks_evidence() {
    let mut typed = TypedInputs::new();
    typed.insert_gauge(
        "db",
        "age",
        id(1),
        readings(&[(10, 7.0), (10, 7.0), (20, f64::NAN)]),
    );
    assert!(typed.gauge_window("db", "age", &id(1), 0, 30).is_none());
}

#[test]
fn triple_ratio_requires_one_timestamp_for_every_operand() {
    let typed = gauges(
        "mem",
        &[
            ("dirty", &[(10, 6.0)]),
            ("writeback", &[(20, 4.0)]),
            ("total", &[(10, 100.0), (20, 100.0)]),
        ],
    );
    let window = typed
        .triple_gauge_window("mem", &id(1), ("dirty", "writeback", "total"), 0, 30)
        .expect("all tracks exist");
    assert!(window.sum_ratio_max().is_none());
}

#[test]
fn snapshot_reduction_requires_all_columns_at_one_timestamp() {
    let typed = gauges(
        "join",
        &[
            ("value", &[(10, 1.0), (20, 9.0)]),
            ("state", &[(10, 1.0), (30, 1.0)]),
        ],
    );
    let window = typed
        .gauge_snapshot_window("join", &id(1), &["value", "state"], 0, 40)
        .expect("both tracks exist");
    let reading = window.extreme(0, true).expect("ts=10 is shared");
    assert_eq!(reading.samples, 1);
    assert_eq!(reading.observed_at_us, 10);
    assert_eq!(reading.values, [num(1.0), num(1.0)]);
}

#[test]
fn trend_needs_two_ordered_samples_and_gap_free_coverage() {
    let typed = gauges("slot", &[("retained", &[(10, 7.0), (20, 9.0)])]);
    let trend = typed
        .gauge_window("slot", "retained", &id(1), 0, 30)
        .and_then(|window| window.trend())
        .expect("two ordered samples");
    assert_eq!(trend.samples, 2);
    assert_eq!((trend.first, trend.last), (num(7.0), num(9.0)));

    let mut gapped = TypedInputs::new();
    gapped.insert_gauge_with_quality(
        "slot",
        "retained",
        id(1),
        readings(&[(10, 7.0), (20, 9.0)]),
        Vec::new(),
        &[(15, 16)],
    );
    assert!(
        gapped
            .gauge_window("slot", "retained", &id(1), 0, 30)
            .is_none()
    );
}

fn backend(state: &str) -> ActivityBackend {
    ActivityBackend {
        pid: 1,
        backend_start: 1,
        xid_age: None,
        xmin_age: None,
        state: Some(state.into()),
        wait_event_type: None,
        wait_event: None,
        xact_age_us: None,
    }
}

fn activity_at(ts: i64, state: &str) -> ActivitySnapshot {
    ActivitySnapshot {
        ts,
        backends: vec![backend(state)],
        completeness: SnapshotCompleteness::Complete,
    }
}

#[test]
fn activity_window_uses_half_open_request_bounds() {
    let mut typed = TypedInputs::new();
    typed.insert_activity_snapshot(activity_at(5, "before"));
    typed.insert_activity_snapshot(activity_at(10, "start"));
    typed.insert_activity_snapshot(activity_at(15, "inside"));
    typed.insert_activity_snapshot(activity_at(20, "end"));
    typed.insert_activity_snapshot(activity_at(25, "after"));

    let states: Vec<_> = typed
        .activity_window(10, 20)
        .into_iter()
        .map(|snapshot| snapshot.backends[0].state.as_deref().expect("state"))
        .collect();
    assert_eq!(states, ["start", "inside"], "the end bound is excluded");
}

#[test]
fn lock_window_selects_snapshots_by_collection_time() {
    let edge = LockEdge {
        waiter_pid: 20,
        waiter_backend_start: None,
        blocker_pid: 10,
    };
    let mut typed = TypedInputs::new();
    typed.insert_lock_snapshot(LockSnapshot {
        ts: 5,
        activity_snapshot_ts: None,
        edges: vec![edge],
    });
    typed.insert_lock_snapshot(LockSnapshot {
        ts: 12,
        activity_snapshot_ts: None,
        edges: vec![edge],
    });

    let times: Vec<_> = typed
        .lock_window(10, 20)
        .into_iter()
        .map(|snapshot| snapshot.ts)
        .collect();
    assert_eq!(times, [12]);
}

#[test]
fn empty_inputs_expose_no_snapshots() {
    let typed = TypedInputs::new();
    assert_eq!(typed.activity_window(i64::MIN, i64::MAX).len(), 0);
    assert_eq!(typed.lock_window(i64::MIN, i64::MAX).len(), 0);
}

#[test]
fn a_delta_is_usable_or_refused_for_one_reason() {
    let delta = |point: DiffPoint| CounterPoint { end_us: 10, point }.delta();
    let exact = delta(integer_value(9_007_199_254_740_992, 1)).expect("exact integer");
    assert!(exact.integer);
    assert_eq!(val(exact.value), 9_007_199_254_740_992.0);
    assert_eq!(
        delta(integer_value(9_007_199_254_740_993, 1)),
        Err(CounterDeltaError::NumericLimit)
    );
    assert_eq!(
        delta(integer_value(-1, 1)),
        Err(CounterDeltaError::Unusable)
    );
    assert_eq!(delta(value(-0.5)), Err(CounterDeltaError::Unusable));
    assert_eq!(delta(value(f64::NAN)), Err(CounterDeltaError::Unusable));
    assert_eq!(
        delta(absent(Reason::Reset)),
        Err(CounterDeltaError::Unusable)
    );
    let real = delta(value(0.5)).expect("finite delta");
    assert!(!real.integer);
    assert_eq!(val(real.value), 0.5);
}

#[test]
fn every_endpoint_counts_under_exactly_one_heading() {
    let typed = inputs(
        vec![
            (10, value(1.0)),
            (20, value(2.0)),
            (30, absent(Reason::Gap)),
            (40, value_with_dt(1.0, 500_000)),
            (50, integer_value(i128::MAX, 1_000_000)),
            (60, value(4.0)),
        ],
        vec![
            (10, value(1.0)),
            (30, value(2.0)),
            (40, value(1.0)),
            (50, value(1.0)),
            (60, value(6.0)),
            (70, value(1.0)),
        ],
    );
    let sums = typed
        .paired_delta_sums("db", &id(1), "blks_read", "blks_hit", 0, 65)
        .expect("both columns present");
    assert_eq!(sums.candidate_intervals, 6);
    assert_eq!(sums.intervals, 2);
    assert_eq!(sums.unmatched_endpoint_intervals, 1);
    assert_eq!(sums.unusable_delta_intervals, 1);
    assert_eq!(sums.unaligned_duration_intervals, 1);
    assert_eq!(sums.numeric_limit_intervals, 1);
    assert_eq!(val(sums.sum_a), 5.0);
    assert_eq!(val(sums.sum_b), 7.0);
    assert_eq!(sums.last_end_us, Some(60));
}

#[test]
fn shared_rows_are_the_times_that_every_track_holds() {
    assert_eq!(
        shared_rows(&vec![vec![1, 3, 5, 7], vec![0, 3, 4, 7, 9], vec![3, 7]]),
        vec![vec![1, 1, 0], vec![3, 3, 1]]
    );
    assert!(shared_rows(&vec![vec![1, 2], vec![]]).is_empty());
}

#[test]
fn gaps_normalize_whatever_their_order_and_only_once() {
    let expected = vec![
        GaugeGap { from: 0, to: 7 },
        GaugeGap { from: 9, to: 12 },
    ];
    assert_eq!(
        normalize_gaps(&[(0, 3), (3, 5), (4, 7), (8, 8), (9, 12), (5, 2)]),
        expected
    );
    assert_eq!(
        normalize_gaps(&[(9, 12), (5, 2), (4, 7), (0, 3), (8, 8), (3, 5)]),
        expected
    );
    assert_eq!(normalize_gaps(&[(0, 7), (9, 12)]), expected);
}

fn gauge_points(values: &[f64]) -> Vec<GaugePoint> {
    values
        .iter()
        .zip(1_i64..)
        .map(|(&value, ts)| GaugePoint {
            ts,
            value: num(value),
        })
        .collect()
}

#[test]
fn the_earliest_of_equally_bad_rows_is_chosen() {
    let a = gauge_points(&[1.0, 4.0, 2.0, 4.0]);
    let b = gauge_points(&[2.0, 2.0, 1.0, 2.0]);
    let snapshots = GaugeSnapshotWindow {
        tracks: vec![a.as_slice(), b.as_slice()],
        from_us: 0,
        to_us: 10,
    };
    assert_eq!(snapshots.extreme(0, true).map(|row| row.observed_at_us), Some(2));
    assert_eq!(snapshots.extreme(0, false).map(|row| row.observed_at_us), Some(1));
    let pair = PairedGaugeWindow {
        a: &a,
        b: &b,
        from_us: 0,
        to_us: 10,
    };
    let lowest = pair.reduce(GaugeObjective::RatioMin).expect("finite ratios");
    assert_eq!((lowest.observed_at_us, lowest.samples), (1, 4));
    let widest = pair.reduce(GaugeObjective::DiffMax).expect("finite gaps");
    assert_eq!((widest.observed_at_us, widest.samples), (2, 4));
}
