//! Host lenses.

use kronika_incident::engine::{analyze, ClockRelation, EngineOutcome, IncidentConfig};
use kronika_incident::evidence::finding::Evidence;
use kronika_incident::float64::Float64;
use kronika_incident::lens::Lens;
use kronika_incident::model::{
    Direction, EnrichedEpisode, Episode, EpisodeRefV1, Evaluated, IdentityValue,
};
use kronika_incident::os_lenses::{
    BlockDeviceLens, HostCpuLens, ProcessIoWhoLens, OS_CGROUP_IO, OS_CPU, OS_DISKSTATS, OS_PROCESS,
    OS_PSI,
};
use kronika_incident::series::SeriesSet;
use kronika_incident::typed::counter::{DiffPoint, Reason, Scalar};
use kronika_incident::typed::inputs::TypedInputs;
use kronika_incident::typed::snapshot::{
    ActivityBackend, ActivitySnapshot, ProcessCgroupSample, SnapshotCompleteness,
};

const CPU_COLUMNS: [&str; 8] = [
    "user", "nice", "system", "idle", "iowait", "irq", "softirq", "steal",
];

const DISK_COLUMNS: [&str; 5] = [
    "reads",
    "read_time_ms",
    "writes",
    "write_time_ms",
    "io_weighted_time_ms",
];

const PROCESS_COLUMNS: [&str; 3] = ["read_bytes", "write_bytes", "cancelled_write_bytes"];

/// The library's number with the bits of a machine float.
fn num(value: f64) -> Float64 {
    Float64::from_bits(value.to_bits())
}

fn point(value: f64) -> DiffPoint {
    DiffPoint::Value {
        delta: Scalar::Float(num(value)),
        rate: num(value),
        dt_micros: 1_000_000,
    }
}

fn episode(
    section: &'static str,
    column: &'static str,
    identity: Vec<IdentityValue>,
) -> EnrichedEpisode {
    EnrichedEpisode {
        episode: Episode {
            start: 0,
            end: 4_000_000,
            peak_ts: 3_000_000,
            peak: Evaluated {
                m: num(5.0),
                dir: Direction::Up,
                med_cur: num(5.0),
                med_ref: num(1.0),
                mad_ref: num(1.0),
                sigma_used: num(1.0),
                n_cur: 3,
                n_ref: 3,
            },
        },
        reference: EpisodeRefV1 {
            logical_section: section,
            column,
            identity,
            start_us: 0,
            end_us: 4_000_000,
        },
    }
}

fn outcome(
    lens: &dyn Lens,
    episode: EnrichedEpisode,
    typed: &TypedInputs,
) -> EngineOutcome {
    analyze(
        vec![episode],
        &SeriesSet::for_test(0),
        typed,
        &[lens],
        &IncidentConfig::for_test("node", 5, 10_000_000, ClockRelation::Unknown),
    )
    .expect("analysis")
}

#[test]
fn cpu_uses_aggregate_ticks_without_double_counting_guest() {
    let identity: Vec<IdentityValue> = vec![IdentityValue::I64(-1)];
    let mut typed = TypedInputs::new();
    for (column, value) in CPU_COLUMNS
        .iter()
        .zip([80.0, 0.0, 10.0, 10.0, 0.0, 0.0, 0.0, 0.0])
    {
        typed.insert_counter(
            OS_CPU,
            column,
            identity.clone(),
            vec![(1, point(value)), (2, point(value)), (3, point(value))],
        );
    }
    typed.insert_gauge(
        OS_PSI,
        "some_avg10",
        vec![IdentityValue::U64(0)],
        vec![(1, num(10.0)), (2, num(20.0)), (3, num(30.0))],
    );
    let detected = outcome(
        &HostCpuLens,
        episode(OS_CPU, "user", identity.clone()),
        &typed,
    );
    assert_eq!(detected.incidents[0].findings.len(), 1);
    assert_eq!(detected.incidents[0].findings[0].evidence().len(), 4);

    typed.insert_counter(
        OS_CPU,
        "system",
        identity.clone(),
        vec![
            (1, point(10.0)),
            (
                2,
                DiffPoint::NoData {
                    reason: Reason::Reset,
                },
            ),
            (3, point(10.0)),
        ],
    );
    let reset = outcome(&HostCpuLens, episode(OS_CPU, "user", identity), &typed);
    assert!(reset.incidents[0].findings.is_empty());
}

#[test]
fn disk_pairs_one_device_and_keeps_zero_operations_out() {
    let identity: Vec<IdentityValue> =
        vec![IdentityValue::I64(8), IdentityValue::I64(0)];
    let mut typed = TypedInputs::new();
    for (column, value) in DISK_COLUMNS
        .iter()
        .zip([1.0, 30.0, 0.0, 0.0, 2_000.0])
    {
        typed.insert_counter(
            OS_DISKSTATS,
            column,
            identity.clone(),
            vec![(1, point(value)), (2, point(value)), (3, point(value))],
        );
    }
    typed.insert_gauge(
        OS_DISKSTATS,
        "io_in_progress",
        identity.clone(),
        vec![(1, num(2.0)), (2, num(3.0)), (3, num(1.0))],
    );
    typed.insert_postgres_storage_device(8, 0);
    let detected = outcome(
        &BlockDeviceLens,
        episode(OS_DISKSTATS, "read_time_ms", identity.clone()),
        &typed,
    );
    assert_eq!(detected.incidents[0].findings.len(), 1);
    let Evidence::GaugeObservation(first) = &detected.incidents[0].findings[0].evidence()[0]
    else {
        panic!("typed observation");
    };
    assert_eq!(
        first.entity().identity()[0],
        IdentityValue::Text("postgres_storage_exact".to_owned())
    );
    typed.insert_counter(
        OS_DISKSTATS,
        "reads",
        identity.clone(),
        vec![(1, point(0.0)), (2, point(0.0)), (3, point(0.0))],
    );
    assert!(
        outcome(
            &BlockDeviceLens,
            episode(OS_DISKSTATS, "read_time_ms", identity),
            &typed,
        )
        .incidents[0]
            .findings
            .is_empty()
    );
}

#[test]
fn process_io_keeps_pid_reuse_separate_and_redacts_raw_identity() {
    let first: Vec<IdentityValue> =
        vec![IdentityValue::I64(7), IdentityValue::I64(100)];
    let reused: Vec<IdentityValue> =
        vec![IdentityValue::I64(7), IdentityValue::I64(200)];
    let mut typed = TypedInputs::new();
    for identity in [&first, &reused] {
        for (column, value) in PROCESS_COLUMNS.iter().zip([100.0, 200.0, 0.0]) {
            typed.insert_counter(
                OS_PROCESS,
                column,
                identity.clone(),
                vec![(1, point(value)), (2, point(value))],
            );
        }
    }
    let result = outcome(
        &ProcessIoWhoLens,
        episode(OS_PROCESS, "read_bytes", first.clone()),
        &typed,
    );
    let evidence = result.incidents[0].findings[0].evidence();
    assert_eq!(evidence.len(), 2);
    for row in evidence {
        let Evidence::GaugeObservation(row) = row else {
            panic!("typed observation");
        };
        assert_eq!(row.entity().identity().len(), 2);
        assert!(matches!(row.entity().identity()[1], IdentityValue::Text(_)));
        assert!(!row.entity().identity().contains(&IdentityValue::I64(7)));
    }

    for identity in [&first, &reused] {
        typed.insert_counter(
            OS_PROCESS,
            "cancelled_write_bytes",
            identity.clone(),
            vec![
                (1, point(0.0)),
                (
                    2,
                    DiffPoint::NoData {
                        reason: Reason::Reset,
                    },
                ),
            ],
        );
    }
    let reset = outcome(
        &ProcessIoWhoLens,
        episode(OS_PROCESS, "read_bytes", first),
        &typed,
    );
    assert!(reset.incidents[0].findings.is_empty());
}

#[test]
fn process_io_shows_the_busiest_processes_by_digest() {
    let mut typed = TypedInputs::new();
    for pid in 1..=10_i64 {
        let identity = vec![IdentityValue::I64(pid), IdentityValue::I64(100)];
        for (column, value) in PROCESS_COLUMNS.iter().zip([pid as f64, 0.0, 0.0]) {
            typed.insert_counter(
                OS_PROCESS,
                column,
                identity.clone(),
                vec![(1, point(value)), (2, point(value))],
            );
        }
    }
    let result = outcome(
        &ProcessIoWhoLens,
        episode(
            OS_PROCESS,
            "read_bytes",
            vec![IdentityValue::I64(7), IdentityValue::I64(100)],
        ),
        &typed,
    );
    let evidence = result.incidents[0].findings[0].evidence();
    assert_eq!(evidence.len(), 8);
    let shown: Vec<IdentityValue> = evidence
        .iter()
        .map(|row| match row {
            Evidence::GaugeObservation(row) => row.entity().identity()[1].clone(),
            _ => panic!("typed observation"),
        })
        .collect();
    for pid in 1..=10_i64 {
        let digest = IdentityValue::Text(ProcessIoWhoLens::hash_identity(pid, 100));
        assert_eq!(shown.contains(&digest), pid > 2, "{pid}");
    }
}

#[test]
fn process_digests_depend_on_the_process_and_its_start() {
    assert_eq!(
        ProcessIoWhoLens::hash_identity(7, 100),
        "e2d7ca51da51c0b27193b135"
    );
    assert_eq!(
        ProcessIoWhoLens::hash_identity(-1, 0),
        "60c69a3e87bf5c4f1e546bec"
    );
    assert_ne!(
        ProcessIoWhoLens::hash_identity(7, 100),
        ProcessIoWhoLens::hash_identity(7, 200)
    );
}

fn shown_identity(typed: &TypedInputs, identity: &[IdentityValue]) -> Vec<IdentityValue> {
    let result = outcome(
        &ProcessIoWhoLens,
        episode(OS_PROCESS, "read_bytes", identity.to_owned()),
        typed,
    );
    match &result.incidents[0].findings[0].evidence()[0] {
        Evidence::GaugeObservation(row) => row.entity().identity().to_owned(),
        _ => panic!("typed observation"),
    }
}

#[test]
fn process_io_names_the_busiest_device_of_the_cgroup() {
    let identity = vec![IdentityValue::I64(7), IdentityValue::I64(100)];
    let digest = IdentityValue::Text("e2d7ca51da51c0b27193b135".to_owned());
    let mut typed = TypedInputs::new();
    for column in ["read_bytes", "write_bytes"] {
        typed.insert_counter(
            OS_PROCESS,
            column,
            identity.clone(),
            vec![(1, point(10.0)), (2, point(20.0))],
        );
    }
    assert_eq!(
        shown_identity(&typed, &identity),
        vec![
            IdentityValue::Text("process_association".to_owned()),
            digest.clone()
        ]
    );

    for (minor, value) in [(1, 5.0), (2, 9.0), (3, 9.0)] {
        for column in ["rbytes", "wbytes"] {
            typed.insert_counter(
                OS_CGROUP_IO,
                column,
                vec![
                    IdentityValue::Text("/db".to_owned()),
                    IdentityValue::U64(8),
                    IdentityValue::U64(minor),
                ],
                vec![(2, point(value))],
            );
        }
    }
    typed.insert_process_cgroups(vec![ProcessCgroupSample {
        ts: 2,
        pid: 7,
        starttime: 100,
        cgroup_path: "/db".to_owned(),
    }]);
    assert_eq!(
        shown_identity(&typed, &identity),
        vec![
            IdentityValue::Text("cgroup_device_association".to_owned()),
            digest.clone(),
            IdentityValue::U64(8),
            IdentityValue::U64(2),
        ]
    );

    typed.insert_activity_snapshot(ActivitySnapshot {
        ts: 1,
        backends: vec![ActivityBackend {
            pid: 7,
            backend_start: 100,
            xid_age: None,
            xmin_age: None,
            state: None,
            wait_event_type: None,
            wait_event: None,
            xact_age_us: None,
        }],
        completeness: SnapshotCompleteness::Complete,
    });
    assert_eq!(
        shown_identity(&typed, &identity)[0],
        IdentityValue::Text("postgres_backend".to_owned())
    );
}
