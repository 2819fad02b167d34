//! Statement and plan lenses.

use kronika_incident::engine::{analyze, ClockRelation, IncidentConfig};
use kronika_incident::float64::Float64;
use kronika_incident::lens::Lens;
use kronika_incident::model::{
    Direction, EnrichedEpisode, Episode, EpisodeRefV1, Evaluated, IdentityValue,
};
use kronika_incident::query_plan::{
    PlanChurnLens, QueryWorkLens, PLANS_OSSC, PLANS_VADV, STATEMENTS,
};
use kronika_incident::series::SeriesSet;
use kronika_incident::typed::counter::{DiffPoint, Reason, Scalar};
use kronika_incident::typed::inputs::TypedInputs;
use kronika_incident::typed::snapshot::{PlanFork, PlanSample};

const EXEC_COLUMNS: [&str; 13] = [
    "calls",
    "total_exec_time",
    "rows",
    "shared_blks_hit",
    "shared_blks_read",
    "shared_blks_dirtied",
    "shared_blks_written",
    "local_blks_hit",
    "local_blks_read",
    "local_blks_dirtied",
    "local_blks_written",
    "temp_blks_read",
    "temp_blks_written",
];

/// The library's number with the bits of a machine float.
fn num(value: f64) -> Float64 {
    Float64::from_bits(value.to_bits())
}

fn identity() -> Vec<IdentityValue> {
    vec![
        IdentityValue::I64(42),
        IdentityValue::U64(10),
        IdentityValue::U64(20),
        IdentityValue::Bool(true),
    ]
}

fn episode(section: &'static str, column: &'static str) -> EnrichedEpisode {
    EnrichedEpisode {
        episode: Episode {
            start: 0,
            end: 2,
            peak_ts: 2,
            peak: Evaluated {
                m: num(5.0),
                dir: Direction::Up,
                med_cur: num(5.0),
                med_ref: num(1.0),
                mad_ref: num(1.0),
                sigma_used: num(1.0),
                n_cur: 3,
                n_ref: 3,
            },
        },
        reference: EpisodeRefV1 {
            logical_section: section,
            column,
            identity: identity(),
            start_us: 0,
            end_us: 10,
        },
    }
}

fn delta(value: f64) -> DiffPoint {
    DiffPoint::Value {
        delta: Scalar::Float(num(value)),
        rate: num(value),
        dt_micros: 1_000_000,
    }
}

fn query_input(reset_rows: bool) -> TypedInputs {
    let mut typed = TypedInputs::new();
    for (index, column) in EXEC_COLUMNS.iter().enumerate() {
        let value = match index {
            0 => 2.0,
            1 => 200.0,
            2 => 4.0,
            _ => 100.0,
        };
        let mut points = vec![(1, delta(value)), (2, delta(value)), (3, delta(value))];
        if reset_rows && *column == "rows" {
            points[1].1 = DiffPoint::NoData {
                reason: Reason::Reset,
            };
        }
        typed.insert_counter(STATEMENTS, column, identity(), points);
    }
    typed
}

fn findings(lens: &dyn Lens, episode: EnrichedEpisode, typed: &TypedInputs) -> usize {
    let lenses = [lens];
    analyze(
        vec![episode],
        &SeriesSet::for_test(0),
        typed,
        &lenses,
        &IncidentConfig::for_test("node", 5, 1_000, ClockRelation::Unknown),
    )
    .expect("analysis")
    .incidents[0]
        .findings
        .len()
}

#[test]
fn query_work_uses_one_shared_valid_interval_set() {
    assert_eq!(
        findings(
            &QueryWorkLens,
            episode(STATEMENTS, "calls"),
            &query_input(false)
        ),
        1
    );
    assert_eq!(
        findings(
            &QueryWorkLens,
            episode(STATEMENTS, "calls"),
            &query_input(true)
        ),
        0,
        "a reset in rows invalidates the whole paired interval"
    );
}

fn plan(ts: i64, fork: PlanFork, planid: i64, calls: f64, total_time_ms: f64) -> PlanSample {
    plan_for_query(ts, fork, 42, planid, calls, total_time_ms)
}

fn plan_for_query(
    ts: i64,
    fork: PlanFork,
    queryid: i64,
    planid: i64,
    calls: f64,
    total_time_ms: f64,
) -> PlanSample {
    PlanSample {
        ts,
        fork,
        queryid,
        planid,
        userid: 10,
        dbid: 20,
        calls: num(calls),
        total_time_ms: num(total_time_ms),
    }
}

#[test]
fn plan_churn_requires_set_change_and_paired_new_plan_work() {
    let mut typed = TypedInputs::new();
    typed.insert_plan_samples(vec![
        plan(1, PlanFork::Ossc, 1, 10.0, 100.0),
        plan(2, PlanFork::Ossc, 1, 20.0, 200.0),
        plan(2, PlanFork::Ossc, 2, 1.0, 10.0),
        plan(3, PlanFork::Ossc, 1, 25.0, 250.0),
        plan(3, PlanFork::Ossc, 2, 11.0, 510.0),
    ]);
    assert_eq!(
        findings(&PlanChurnLens, episode(PLANS_OSSC, "planid"), &typed),
        1
    );

    let mut no_work = TypedInputs::new();
    no_work.insert_plan_samples(vec![
        plan(1, PlanFork::Vadv, 1, 10.0, 100.0),
        plan(2, PlanFork::Vadv, 1, 20.0, 200.0),
        plan(2, PlanFork::Vadv, 2, 1.0, 10.0),
        plan(3, PlanFork::Vadv, 1, 25.0, 250.0),
        plan(3, PlanFork::Vadv, 2, 1.0, 10.0),
    ]);
    assert_eq!(
        findings(&PlanChurnLens, episode(PLANS_VADV, "planid"), &no_work),
        0
    );

    let mut changing_attribution = TypedInputs::new();
    changing_attribution.insert_plan_samples(vec![
        plan_for_query(1, PlanFork::Vadv, 10, 1, 10.0, 100.0),
        plan_for_query(2, PlanFork::Vadv, 11, 1, 20.0, 200.0),
        plan_for_query(2, PlanFork::Vadv, 12, 2, 1.0, 10.0),
        plan_for_query(3, PlanFork::Vadv, 13, 1, 25.0, 250.0),
        plan_for_query(3, PlanFork::Vadv, 14, 2, 11.0, 510.0),
    ]);
    assert_eq!(
        findings(
            &PlanChurnLens,
            episode(PLANS_VADV, "planid"),
            &changing_attribution,
        ),
        1,
        "best-effort query attribution does not gate plan identity churn"
    );
}
