//! Lenses over dedicated gauge sections.

use kronika_incident::engine::{analyze, ClockRelation, IncidentConfig};
use kronika_incident::float64::Float64;
use kronika_incident::gauge_contracts::{
    CgroupMemoryLens, FreezeHorizonLens, PhysicalReplicationLens, RunningVacuumLens,
    SlotRetentionLens, StorageCapacityLens, CGROUP, FREEZE, REPLICATION, SLOT, STORAGE, VACUUM,
};
use kronika_incident::lens::Lens;
use kronika_incident::model::{
    Direction, EnrichedEpisode, Episode, EpisodeRefV1, Evaluated, IdentityValue,
};
use kronika_incident::series::SeriesSet;
use kronika_incident::typed::inputs::TypedInputs;

/// The library's number with the bits of a machine float.
fn num(value: f64) -> Float64 {
    Float64::from_bits(value.to_bits())
}

fn identity() -> Vec<IdentityValue> {
    vec![IdentityValue::U64(7)]
}

fn typed(section: &'static str, columns: &[(&'static str, &[f64])]) -> TypedInputs {
    let mut typed = TypedInputs::new();
    for &(column, values) in columns {
        typed.insert_gauge(
            section,
            column,
            identity(),
            values
                .iter()
                .zip(1_i64..)
                .map(|(&value, ts)| (ts, num(value)))
                .collect(),
        );
    }
    typed
}

fn run(
    lens: &dyn Lens,
    section: &'static str,
    column: &'static str,
    typed: &TypedInputs,
) -> Vec<usize> {
    let episode = EnrichedEpisode {
        episode: Episode {
            start: 0,
            end: 0,
            peak_ts: 0,
            peak: Evaluated {
                m: num(0.0),
                dir: Direction::Up,
                med_cur: num(0.0),
                med_ref: num(0.0),
                mad_ref: num(1.0),
                sigma_used: num(1.0),
                n_cur: 1,
                n_ref: 1,
            },
        },
        reference: EpisodeRefV1 {
            logical_section: section,
            column,
            identity: identity(),
            start_us: 0,
            end_us: 10,
        },
    };
    let lenses: [&dyn Lens; 1] = [lens];
    analyze(
        vec![episode],
        &SeriesSet::for_test(0),
        typed,
        &lenses,
        &IncidentConfig::for_test("node", 5, 10_000, ClockRelation::Unknown),
    )
    .expect("bounded evaluation")
    .incidents[0]
        .findings
        .iter()
        .map(|finding| finding.evidence().len())
        .collect()
}

#[test]
fn freeze_uses_separate_xid_and_mxid_denominators() {
    let input = typed(
        FREEZE,
        &[
            ("xid_age", &[90.0]),
            ("xid_limit", &[100.0]),
            ("mxid_age", &[40.0]),
            ("mxid_limit", &[50.0]),
        ],
    );
    assert_eq!(run(&FreezeHorizonLens, FREEZE, "xid_age", &input), vec![1]);
    assert!(run(&FreezeHorizonLens, FREEZE, "mxid_age", &input).is_empty());
}

#[test]
fn vacuum_requires_same_timestamp_activity_and_valid_clock() {
    let valid = typed(
        VACUUM,
        &[
            ("elapsed_us", &[300_000_000.0]),
            ("activity_present", &[1.0]),
            ("clock_valid", &[1.0]),
        ],
    );
    assert_eq!(
        run(&RunningVacuumLens, VACUUM, "elapsed_us", &valid),
        vec![1]
    );
    let missing = typed(
        VACUUM,
        &[
            ("elapsed_us", &[300_000_000.0]),
            ("activity_present", &[0.0]),
            ("clock_valid", &[1.0]),
        ],
    );
    assert!(run(&RunningVacuumLens, VACUUM, "elapsed_us", &missing).is_empty());
}

#[test]
fn replication_excludes_logical_scope_and_keeps_stage_gap() {
    let physical = typed(
        REPLICATION,
        &[
            ("flush_to_replay_bytes", &[67_108_864.0]),
            ("scope_code", &[1.0]),
            ("state_code", &[3.0]),
        ],
    );
    assert_eq!(
        run(
            &PhysicalReplicationLens,
            REPLICATION,
            "flush_to_replay_bytes",
            &physical
        ),
        vec![1]
    );
    let logical = typed(
        REPLICATION,
        &[
            ("flush_to_replay_bytes", &[67_108_864.0]),
            ("scope_code", &[2.0]),
            ("state_code", &[3.0]),
        ],
    );
    assert!(
        run(
            &PhysicalReplicationLens,
            REPLICATION,
            "flush_to_replay_bytes",
            &logical
        )
        .is_empty()
    );
}

#[test]
fn slot_trend_requires_two_ordered_valid_samples() {
    let input = typed(
        SLOT,
        &[
            ("retained_bytes", &[70.0, 90.0]),
            ("safe_wal_size", &[30.0, 10.0]),
            ("wal_status_code", &[1.0, 1.0]),
        ],
    );
    assert_eq!(
        run(&SlotRetentionLens, SLOT, "retained_bytes", &input),
        vec![2]
    );
    let invalid = typed(
        SLOT,
        &[
            ("retained_bytes", &[70.0, 90.0]),
            ("safe_wal_size", &[30.0, 10.0]),
            ("wal_status_code", &[1.0, 4.0]),
        ],
    );
    assert!(run(&SlotRetentionLens, SLOT, "retained_bytes", &invalid).is_empty());
}

#[test]
fn storage_requires_a_proven_mount_and_positive_capacity() {
    let input = typed(
        STORAGE,
        &[
            ("available_bytes", &[9.0]),
            ("total_bytes", &[100.0]),
            ("mapping_state", &[1.0]),
        ],
    );
    assert_eq!(
        run(&StorageCapacityLens, STORAGE, "available_bytes", &input),
        vec![1]
    );
    let mismatch = typed(
        STORAGE,
        &[
            ("available_bytes", &[1.0]),
            ("total_bytes", &[100.0]),
            ("mapping_state", &[8.0]),
        ],
    );
    assert!(run(&StorageCapacityLens, STORAGE, "available_bytes", &mismatch).is_empty());
}

#[test]
fn cgroup_memory_excludes_unlimited_and_unverified_rows() {
    let input = typed(
        CGROUP,
        &[
            ("current_bytes", &[90.0]),
            ("max_bytes", &[100.0]),
            ("mapping_state", &[1.0]),
            ("max_unlimited", &[0.0]),
        ],
    );
    assert_eq!(
        run(&CgroupMemoryLens, CGROUP, "current_bytes", &input),
        vec![1]
    );
    let unlimited = typed(
        CGROUP,
        &[
            ("current_bytes", &[90.0]),
            ("max_bytes", &[100.0]),
            ("mapping_state", &[1.0]),
            ("max_unlimited", &[1.0]),
        ],
    );
    assert!(run(&CgroupMemoryLens, CGROUP, "current_bytes", &unlimited).is_empty());
}
