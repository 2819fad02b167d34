//! The counter and gauge lenses on their boundary inputs.

use kronika_incident::active::counters::{
    BackendIoLatencyLens, CgroupCpuThrottlingLens, HotUpdateFailureLens, NetworkErrorsLens,
    RequestedCheckpointsLens, SharedBufferMissesLens, TempSpillLens, WalAmplificationLens,
    WalArchivingFailureLens,
};
use kronika_incident::active::gauges::{
    ConnectionSaturationLens, MemoryReclaimLens, StaleStatisticsLens, WritebackPressureLens,
};
use kronika_incident::active::shared::{
    CHECKPOINTER, OS_CGROUP_CPU, OS_MEMINFO, OS_NETDEV, PG_STAT_ARCHIVER, PG_STAT_DATABASE,
    PG_STAT_IO, PG_STAT_USER_TABLES, PG_STAT_WAL,
};
use kronika_incident::dispatch::LimitAxis;
use kronika_incident::engine::{analyze, ClockRelation, IncidentConfig};
use kronika_incident::evidence::confidence::{Confidence, Role};
use kronika_incident::float64::Float64;
use kronika_incident::lens::Lens;
use kronika_incident::model::{
    Direction, EnrichedEpisode, Episode, EpisodeRefV1, Evaluated, IdentityValue,
};
use kronika_incident::series::SeriesSet;
use kronika_incident::typed::counter::{DiffPoint, Scalar};
use kronika_incident::typed::inputs::TypedInputs;

/// The library's number with the bits of a machine float.
fn num(value: f64) -> Float64 {
    Float64::from_bits(value.to_bits())
}

fn id() -> Vec<IdentityValue> {
    vec![IdentityValue::U64(5)]
}

fn episode_window(start_us: i64, end_us: i64) -> EnrichedEpisode {
    EnrichedEpisode {
        episode: Episode {
            start: 0,
            end: 0,
            peak_ts: 0,
            peak: Evaluated {
                m: num(0.0),
                dir: Direction::Up,
                med_cur: num(0.0),
                med_ref: num(0.0),
                mad_ref: num(1.0),
                sigma_used: num(1.4826),
                n_cur: 0,
                n_ref: 0,
            },
        },
        reference: EpisodeRefV1 {
            logical_section: PG_STAT_DATABASE,
            column: "blks_read",
            identity: id(),
            start_us,
            end_us,
        },
    }
}

// One-second interval, so the recovered delta equals `delta`.
fn point(delta: f64) -> DiffPoint {
    DiffPoint::Value {
        delta: Scalar::Float(num(delta)),
        rate: num(delta),
        dt_micros: 1_000_000,
    }
}

fn typed(read: &[f64], hit: &[f64]) -> TypedInputs {
    let mut typed = TypedInputs::new();
    let read_points = read.iter().zip(0_i64..).map(|(&d, ts)| (ts, point(d)));
    let hit_points = hit.iter().zip(0_i64..).map(|(&d, ts)| (ts, point(d)));
    typed.insert_counter(PG_STAT_DATABASE, "blks_read", id(), read_points.collect());
    typed.insert_counter(PG_STAT_DATABASE, "blks_hit", id(), hit_points.collect());
    typed
}

fn run(typed: &TypedInputs) -> Vec<(Role, Confidence)> {
    run_window(typed, 0, 10)
}

fn run_window(typed: &TypedInputs, start_us: i64, end_us: i64) -> Vec<(Role, Confidence)> {
    let lens = SharedBufferMissesLens;
    let lenses: [&dyn Lens; 1] = [&lens];
    let config = IncidentConfig::for_test("node", 5, 1_000, ClockRelation::Unknown);
    let outcome = analyze(
        vec![episode_window(start_us, end_us)],
        &SeriesSet::for_test(0),
        typed,
        &lenses,
        &config,
    )
    .expect("valid analysis");
    outcome.incidents[0]
        .findings
        .iter()
        .map(|finding| (finding.role(), finding.confidence()))
        .collect()
}

#[test]
fn active_a_cold_cache_over_enough_intervals_reports_a_medium_amplifier() {
    // miss ratio 80/(80+20) = 0.8, three valid intervals.
    let findings = run(&typed(&[30.0, 30.0, 20.0], &[5.0, 5.0, 10.0]));
    assert_eq!(findings, vec![(Role::Amplifier, Confidence::MEDIUM)]);
}

#[test]
fn active_counter_evidence_outside_the_incident_window_does_not_report() {
    let typed = typed(
        &[80.0, 80.0, 80.0, 1.0, 1.0, 1.0],
        &[1.0, 1.0, 1.0, 99.0, 99.0, 99.0],
    );
    assert!(
        run_window(&typed, 3, 5).is_empty(),
        "the cold-cache intervals end before the incident window"
    );
}

#[test]
fn active_a_warm_cache_reports_nothing() {
    // miss ratio 3/(3+297) = 0.01, below the threshold.
    assert!(run(&typed(&[1.0, 1.0, 1.0], &[99.0, 99.0, 99.0])).is_empty());
}

#[test]
fn active_a_ratio_below_the_threshold_reports_nothing() {
    // miss ratio 57/(57+243) = 0.19, just under the 0.2 floor.
    assert!(run(&typed(&[19.0, 19.0, 19.0], &[81.0, 81.0, 81.0])).is_empty());
}

#[test]
fn active_too_few_valid_intervals_report_nothing() {
    // A cold cache but only two intervals: below the data-quality minimum.
    assert!(run(&typed(&[50.0, 50.0], &[1.0, 1.0])).is_empty());
}

#[test]
fn active_an_empty_input_reports_nothing() {
    assert!(run(&TypedInputs::new()).is_empty());
}

// One-second interval; the recovered delta equals `delta`.
fn pair(
    section: &'static str,
    column_a: &'static str,
    a: &[f64],
    column_b: &'static str,
    b: &[f64],
) -> TypedInputs {
    let points = |deltas: &[f64]| -> Vec<(i64, DiffPoint)> {
        deltas
            .iter()
            .zip(0_i64..)
            .map(|(&d, ts)| (ts, point(d)))
            .collect()
    };
    let mut typed = TypedInputs::new();
    typed.insert_counter(section, column_a, id(), points(a));
    typed.insert_counter(section, column_b, id(), points(b));
    typed
}

fn run_lens(
    lens: &dyn Lens,
    section: &'static str,
    column: &'static str,
    typed: &TypedInputs,
) -> Vec<(Role, Confidence)> {
    let episode = EnrichedEpisode {
        episode: Episode {
            start: 0,
            end: 0,
            peak_ts: 0,
            peak: Evaluated {
                m: num(0.0),
                dir: Direction::Up,
                med_cur: num(0.0),
                med_ref: num(0.0),
                mad_ref: num(1.0),
                sigma_used: num(1.4826),
                n_cur: 0,
                n_ref: 0,
            },
        },
        reference: EpisodeRefV1 {
            logical_section: section,
            column,
            identity: id(),
            start_us: 0,
            end_us: 10,
        },
    };
    let lenses: [&dyn Lens; 1] = [lens];
    let config = IncidentConfig::for_test("node", 5, 1_000, ClockRelation::Unknown);
    let outcome = analyze(
        vec![episode],
        &SeriesSet::for_test(0),
        typed,
        &lenses,
        &config,
    )
    .expect("valid analysis");
    outcome.incidents[0]
        .findings
        .iter()
        .map(|finding| (finding.role(), finding.confidence()))
        .collect()
}

#[test]
fn active_wal_amplification_reports_a_medium_amplifier_above_the_fpi_floor() {
    // 6 FPIs over 10 records = 0.6, three intervals.
    let typed = pair(
        PG_STAT_WAL,
        "wal_fpi",
        &[2.0, 2.0, 2.0],
        "wal_records",
        &[4.0, 3.0, 3.0],
    );
    assert_eq!(
        run_lens(&WalAmplificationLens, PG_STAT_WAL, "wal_fpi", &typed),
        vec![(Role::Amplifier, Confidence::MEDIUM)]
    );
}

#[test]
fn active_wal_amplification_below_the_floor_reports_nothing() {
    // 3 FPIs over 30 records = 0.1, below 0.5.
    let typed = pair(
        PG_STAT_WAL,
        "wal_fpi",
        &[1.0, 1.0, 1.0],
        "wal_records",
        &[10.0, 10.0, 10.0],
    );
    assert!(run_lens(&WalAmplificationLens, PG_STAT_WAL, "wal_fpi", &typed).is_empty());
}

#[test]
fn active_wal_amplification_with_too_few_intervals_reports_nothing() {
    let typed = pair(
        PG_STAT_WAL,
        "wal_fpi",
        &[9.0, 9.0],
        "wal_records",
        &[10.0, 10.0],
    );
    assert!(run_lens(&WalAmplificationLens, PG_STAT_WAL, "wal_fpi", &typed).is_empty());
}

#[test]
fn active_wal_amplification_on_empty_input_reports_nothing() {
    assert!(
        run_lens(
            &WalAmplificationLens,
            PG_STAT_WAL,
            "wal_fpi",
            &TypedInputs::new()
        )
        .is_empty()
    );
}

#[test]
fn active_temp_spill_reports_a_medium_amplifier_when_both_counters_advance() {
    let typed = pair(
        PG_STAT_DATABASE,
        "temp_bytes",
        &[8_192.0; 3],
        "temp_files",
        &[1.0, 1.0, 2.0],
    );
    assert_eq!(
        run_lens(&TempSpillLens, PG_STAT_DATABASE, "temp_bytes", &typed),
        vec![(Role::Amplifier, Confidence::MEDIUM)]
    );
}

#[test]
fn active_temp_spill_without_file_growth_reports_nothing() {
    // Bytes advanced but no temp file was created over the incident.
    let typed = pair(
        PG_STAT_DATABASE,
        "temp_bytes",
        &[8_192.0; 3],
        "temp_files",
        &[0.0, 0.0, 0.0],
    );
    assert!(run_lens(&TempSpillLens, PG_STAT_DATABASE, "temp_bytes", &typed).is_empty());
}

#[test]
fn active_temp_spill_with_too_few_intervals_reports_nothing() {
    let typed = pair(
        PG_STAT_DATABASE,
        "temp_bytes",
        &[8_192.0, 8_192.0],
        "temp_files",
        &[1.0, 1.0],
    );
    assert!(run_lens(&TempSpillLens, PG_STAT_DATABASE, "temp_bytes", &typed).is_empty());
}

#[test]
fn active_temp_spill_on_empty_input_reports_nothing() {
    assert!(
        run_lens(
            &TempSpillLens,
            PG_STAT_DATABASE,
            "temp_bytes",
            &TypedInputs::new()
        )
        .is_empty()
    );
}

#[test]
fn active_requested_checkpoints_reports_a_medium_amplifier_above_the_floor() {
    // 9 requested vs 3 timed = 0.75, three intervals.
    let typed = pair(
        CHECKPOINTER,
        "checkpoints_req",
        &[3.0, 3.0, 3.0],
        "checkpoints_timed",
        &[1.0, 1.0, 1.0],
    );
    assert_eq!(
        run_lens(
            &RequestedCheckpointsLens,
            CHECKPOINTER,
            "checkpoints_req",
            &typed
        ),
        vec![(Role::Amplifier, Confidence::MEDIUM)]
    );
}

#[test]
fn active_requested_checkpoints_below_the_floor_reports_nothing() {
    // 3 requested vs 12 timed = 0.2, below 0.5.
    let typed = pair(
        CHECKPOINTER,
        "checkpoints_req",
        &[1.0, 1.0, 1.0],
        "checkpoints_timed",
        &[4.0, 4.0, 4.0],
    );
    assert!(
        run_lens(
            &RequestedCheckpointsLens,
            CHECKPOINTER,
            "checkpoints_req",
            &typed
        )
        .is_empty()
    );
}

#[test]
fn active_requested_checkpoints_with_too_few_intervals_reports_nothing() {
    let typed = pair(
        CHECKPOINTER,
        "checkpoints_req",
        &[9.0, 9.0],
        "checkpoints_timed",
        &[1.0, 1.0],
    );
    assert!(
        run_lens(
            &RequestedCheckpointsLens,
            CHECKPOINTER,
            "checkpoints_req",
            &typed
        )
        .is_empty()
    );
}

#[test]
fn active_requested_checkpoints_on_empty_input_reports_nothing() {
    assert!(
        run_lens(
            &RequestedCheckpointsLens,
            CHECKPOINTER,
            "checkpoints_req",
            &TypedInputs::new()
        )
        .is_empty()
    );
}

#[test]
fn active_backend_io_latency_reports_a_medium_amplifier_above_the_floor() {
    // 30 ms over 10 reads = 3 ms/read, three intervals.
    let typed = pair(
        PG_STAT_IO,
        "read_time",
        &[10.0, 10.0, 10.0],
        "reads",
        &[3.0, 3.0, 4.0],
    );
    assert_eq!(
        run_lens(&BackendIoLatencyLens, PG_STAT_IO, "read_time", &typed),
        vec![(Role::Amplifier, Confidence::MEDIUM)]
    );
}

#[test]
fn active_backend_io_latency_below_the_floor_reports_nothing() {
    // 3 ms over 30 reads = 0.1 ms/read, below 1 ms.
    let typed = pair(
        PG_STAT_IO,
        "read_time",
        &[1.0, 1.0, 1.0],
        "reads",
        &[10.0, 10.0, 10.0],
    );
    assert!(run_lens(&BackendIoLatencyLens, PG_STAT_IO, "read_time", &typed).is_empty());
}

#[test]
fn active_backend_io_latency_with_too_few_intervals_reports_nothing() {
    let typed = pair(PG_STAT_IO, "read_time", &[10.0, 10.0], "reads", &[1.0, 1.0]);
    assert!(run_lens(&BackendIoLatencyLens, PG_STAT_IO, "read_time", &typed).is_empty());
}

#[test]
fn active_backend_io_latency_on_empty_input_reports_nothing() {
    assert!(
        run_lens(
            &BackendIoLatencyLens,
            PG_STAT_IO,
            "read_time",
            &TypedInputs::new()
        )
        .is_empty()
    );
}

#[test]
fn active_hot_update_failure_reports_a_medium_amplifier_above_the_floor() {
    // 3 HOT of 12 updates = 75% non-HOT, three intervals.
    let typed = pair(
        PG_STAT_USER_TABLES,
        "n_tup_hot_upd",
        &[1.0, 1.0, 1.0],
        "n_tup_upd",
        &[4.0, 4.0, 4.0],
    );
    assert_eq!(
        run_lens(
            &HotUpdateFailureLens,
            PG_STAT_USER_TABLES,
            "n_tup_upd",
            &typed
        ),
        vec![(Role::Amplifier, Confidence::MEDIUM)]
    );
}

#[test]
fn active_hot_update_failure_when_hot_dominates_reports_nothing() {
    // 9 HOT of 10 updates = 10% non-HOT, below 50%.
    let typed = pair(
        PG_STAT_USER_TABLES,
        "n_tup_hot_upd",
        &[3.0, 3.0, 3.0],
        "n_tup_upd",
        &[3.0, 3.0, 4.0],
    );
    assert!(
        run_lens(
            &HotUpdateFailureLens,
            PG_STAT_USER_TABLES,
            "n_tup_upd",
            &typed
        )
        .is_empty()
    );
}

#[test]
fn active_hot_update_failure_with_too_few_intervals_reports_nothing() {
    let typed = pair(
        PG_STAT_USER_TABLES,
        "n_tup_hot_upd",
        &[0.0, 0.0],
        "n_tup_upd",
        &[5.0, 5.0],
    );
    assert!(
        run_lens(
            &HotUpdateFailureLens,
            PG_STAT_USER_TABLES,
            "n_tup_upd",
            &typed
        )
        .is_empty()
    );
}

#[test]
fn active_hot_update_failure_on_empty_input_reports_nothing() {
    assert!(
        run_lens(
            &HotUpdateFailureLens,
            PG_STAT_USER_TABLES,
            "n_tup_upd",
            &TypedInputs::new()
        )
        .is_empty()
    );
}

#[test]
fn active_wal_archiving_failure_reports_a_medium_coincident_on_any_failure() {
    // One failure recorded in a single usable interval.
    let typed = pair(
        PG_STAT_ARCHIVER,
        "failed_count",
        &[1.0],
        "archived_count",
        &[4.0],
    );
    assert_eq!(
        run_lens(
            &WalArchivingFailureLens,
            PG_STAT_ARCHIVER,
            "failed_count",
            &typed
        ),
        vec![(Role::Coincident, Confidence::MEDIUM)]
    );
}

#[test]
fn active_wal_archiving_failure_without_failures_reports_nothing() {
    let typed = pair(
        PG_STAT_ARCHIVER,
        "failed_count",
        &[0.0, 0.0],
        "archived_count",
        &[5.0, 5.0],
    );
    assert!(
        run_lens(
            &WalArchivingFailureLens,
            PG_STAT_ARCHIVER,
            "failed_count",
            &typed
        )
        .is_empty()
    );
}

#[test]
fn active_wal_archiving_failure_with_no_usable_interval_reports_nothing() {
    let mut typed = TypedInputs::new();
    typed.insert_counter(PG_STAT_ARCHIVER, "failed_count", id(), Vec::new());
    typed.insert_counter(PG_STAT_ARCHIVER, "archived_count", id(), Vec::new());
    assert!(
        run_lens(
            &WalArchivingFailureLens,
            PG_STAT_ARCHIVER,
            "failed_count",
            &typed
        )
        .is_empty()
    );
}

#[test]
fn active_wal_archiving_failure_on_empty_input_reports_nothing() {
    assert!(
        run_lens(
            &WalArchivingFailureLens,
            PG_STAT_ARCHIVER,
            "failed_count",
            &TypedInputs::new()
        )
        .is_empty()
    );
}

#[test]
fn active_network_errors_reports_a_low_coincident_above_the_floor() {
    // 2 errors over 100 packets = 2%, three intervals; capped at low.
    let typed = pair(
        OS_NETDEV,
        "rx_errs",
        &[1.0, 1.0, 0.0],
        "rx_packets",
        &[30.0, 30.0, 40.0],
    );
    assert_eq!(
        run_lens(&NetworkErrorsLens, OS_NETDEV, "rx_errs", &typed),
        vec![(Role::Coincident, Confidence::LOW)]
    );
}

#[test]
fn active_network_errors_below_the_floor_reports_nothing() {
    // 3 errors over 30000 packets = 0.01%, below 1%.
    let typed = pair(
        OS_NETDEV,
        "rx_errs",
        &[1.0, 1.0, 1.0],
        "rx_packets",
        &[10_000.0, 10_000.0, 10_000.0],
    );
    assert!(run_lens(&NetworkErrorsLens, OS_NETDEV, "rx_errs", &typed).is_empty());
}

#[test]
fn active_network_errors_with_too_few_intervals_reports_nothing() {
    let typed = pair(
        OS_NETDEV,
        "rx_errs",
        &[5.0, 5.0],
        "rx_packets",
        &[10.0, 10.0],
    );
    assert!(run_lens(&NetworkErrorsLens, OS_NETDEV, "rx_errs", &typed).is_empty());
}

#[test]
fn active_network_errors_on_empty_input_reports_nothing() {
    assert!(
        run_lens(
            &NetworkErrorsLens,
            OS_NETDEV,
            "rx_errs",
            &TypedInputs::new()
        )
        .is_empty()
    );
}

#[test]
fn active_cgroup_throttling_below_the_floor_reports_nothing() {
    // 30 of 1030 us throttled = 3%, below 10%.
    let typed = pair(
        OS_CGROUP_CPU,
        "throttled_usec",
        &[10.0, 10.0, 10.0],
        "usage_usec",
        &[330.0, 330.0, 340.0],
    );
    assert!(
        run_lens(
            &CgroupCpuThrottlingLens,
            OS_CGROUP_CPU,
            "throttled_usec",
            &typed
        )
        .is_empty()
    );
}

#[test]
fn active_cgroup_throttling_with_too_few_intervals_reports_nothing() {
    let typed = pair(
        OS_CGROUP_CPU,
        "throttled_usec",
        &[100.0, 100.0],
        "usage_usec",
        &[100.0, 100.0],
    );
    assert!(
        run_lens(
            &CgroupCpuThrottlingLens,
            OS_CGROUP_CPU,
            "throttled_usec",
            &typed
        )
        .is_empty()
    );
}

#[test]
fn active_cgroup_throttling_on_empty_input_reports_nothing() {
    assert!(
        run_lens(
            &CgroupCpuThrottlingLens,
            OS_CGROUP_CPU,
            "throttled_usec",
            &TypedInputs::new()
        )
        .is_empty()
    );
}

// Gauge readings at ts 0.. within the run_lens incident window `[0, 10]`.
fn gauges(section: &'static str, columns: &[(&'static str, &[f64])]) -> TypedInputs {
    let mut typed = TypedInputs::new();
    for &(name, values) in columns {
        let points = values
            .iter()
            .zip(0_i64..)
            .map(|(&value, ts)| (ts, num(value)))
            .collect();
        typed.insert_gauge(section, name, id(), points);
    }
    typed
}

#[test]
fn active_stale_statistics_uses_reltuples_and_reports_only_the_observation() {
    let typed = gauges(
        PG_STAT_USER_TABLES,
        &[("n_mod_since_analyze", &[250.0]), ("reltuples", &[1_000.0])],
    );
    assert_eq!(
        run_lens(
            &StaleStatisticsLens,
            PG_STAT_USER_TABLES,
            "n_mod_since_analyze",
            &typed,
        ),
        vec![(Role::Coincident, Confidence::LOW)]
    );
}

#[test]
fn active_stale_statistics_below_the_ratio_reports_nothing() {
    let typed = gauges(
        PG_STAT_USER_TABLES,
        &[("n_mod_since_analyze", &[199.0]), ("reltuples", &[1_000.0])],
    );
    assert!(
        run_lens(
            &StaleStatisticsLens,
            PG_STAT_USER_TABLES,
            "n_mod_since_analyze",
            &typed,
        )
        .is_empty()
    );
}

#[test]
fn active_stale_statistics_uses_absolute_estimate_and_includes_equality() {
    let typed = gauges(
        PG_STAT_USER_TABLES,
        &[
            ("n_mod_since_analyze", &[200.0]),
            ("reltuples", &[-1_000.0]),
        ],
    );
    assert_eq!(
        run_lens(
            &StaleStatisticsLens,
            PG_STAT_USER_TABLES,
            "n_mod_since_analyze",
            &typed,
        ),
        vec![(Role::Coincident, Confidence::LOW)]
    );
}

#[test]
fn active_per_database_connection_limit_includes_the_threshold_boundary() {
    let typed = gauges(
        PG_STAT_DATABASE,
        &[("numbackends", &[80.0]), ("datconnlimit", &[100.0])],
    );
    assert_eq!(
        run_lens(
            &ConnectionSaturationLens,
            PG_STAT_DATABASE,
            "numbackends",
            &typed,
        ),
        vec![(Role::Coincident, Confidence::MEDIUM)]
    );
}

#[test]
fn active_nonpositive_database_connection_limits_are_not_denominators() {
    for limit in [-2.0, -1.0, 0.0] {
        let typed = gauges(
            PG_STAT_DATABASE,
            &[("numbackends", &[80.0]), ("datconnlimit", &[limit])],
        );
        assert!(
            run_lens(
                &ConnectionSaturationLens,
                PG_STAT_DATABASE,
                "numbackends",
                &typed,
            )
            .is_empty()
        );
    }
}

#[test]
fn active_low_host_available_memory_is_a_low_confidence_observation() {
    let typed = gauges(
        OS_MEMINFO,
        &[("mem_available", &[4.0]), ("mem_total", &[100.0])],
    );
    assert_eq!(
        run_lens(&MemoryReclaimLens, OS_MEMINFO, "mem_available", &typed,),
        vec![(Role::Coincident, Confidence::LOW)]
    );
}

#[test]
fn active_available_memory_equal_to_the_floor_does_not_cross_below_it() {
    let typed = gauges(
        OS_MEMINFO,
        &[("mem_available", &[5.0]), ("mem_total", &[100.0])],
    );
    assert!(run_lens(&MemoryReclaimLens, OS_MEMINFO, "mem_available", &typed,).is_empty());
}

#[test]
fn active_zero_host_memory_total_is_not_a_denominator() {
    let typed = gauges(
        OS_MEMINFO,
        &[("mem_available", &[0.0]), ("mem_total", &[0.0])],
    );
    assert!(run_lens(&MemoryReclaimLens, OS_MEMINFO, "mem_available", &typed,).is_empty());
}

#[test]
fn active_writeback_ratio_uses_dirty_plus_writeback_at_one_timestamp() {
    let typed = gauges(
        OS_MEMINFO,
        &[
            ("dirty", &[6.0]),
            ("writeback", &[4.0]),
            ("mem_total", &[100.0]),
        ],
    );
    assert_eq!(
        run_lens(&WritebackPressureLens, OS_MEMINFO, "dirty", &typed,),
        vec![(Role::Coincident, Confidence::LOW)]
    );
}

#[test]
fn active_gauge_window_work_is_admitted_before_reduction() {
    let typed = gauges(
        OS_MEMINFO,
        &[
            ("mem_available", &[4.0, 4.0, 4.0]),
            ("mem_total", &[100.0, 100.0, 100.0]),
        ],
    );
    let mut episode = episode_window(0, 10);
    episode.reference.logical_section = OS_MEMINFO;
    episode.reference.column = "mem_available";
    let lens = MemoryReclaimLens;
    let lenses: [&dyn Lens; 1] = [&lens];
    let config =
        IncidentConfig::for_test_with_work_limit("node", 5, 1_000, ClockRelation::Unknown, 5);
    let outcome = analyze(
        vec![episode],
        &SeriesSet::for_test(0),
        &typed,
        &lenses,
        &config,
    )
    .expect("valid analysis");
    assert!(!outcome.complete);
    assert!(outcome.incidents[0].findings.is_empty());
    assert_eq!(outcome.skipped[0].limit.axis, LimitAxis::Work);
    assert_eq!(outcome.skipped[0].limit.observed, 8);
    assert_eq!(outcome.skipped[0].limit.limit, 5);
}
