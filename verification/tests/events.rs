//! Log events and the lenses over them.

use std::collections::BTreeSet;

use kronika_incident::dispatch::{LimitAxis, WorkBudget};
use kronika_incident::events::{
    admit_event_lens, evaluate_events, event_catalog, event_catalog_ids, event_catalog_metadata, is_sqlstate,
    BackendCrashLens, BackendSigkillLens, ConnectionSlotsExhaustedLens, DataCorruptionLogLens,
    DeadlockLens, DiskFullLogLens, EventConfig, EventError, EventInputLimits, EventLens,
    EventOutcome, LifecycleEvent, LifecycleKind, LogCoverage, LogErrorGroup, LogEventInputs,
    OutOfMemoryLogLens, PanicShutdownLens, PG_LOG_ERRORS, SEVERITY_PANIC, SIGKILL,
};
use kronika_incident::evidence::confidence::{Confidence, Role};
use kronika_incident::evidence::finding::Finding;
use kronika_incident::model::IdentityValue;

fn error(severity: u8, sqlstate: Option<&str>, count: u64) -> LogErrorGroup {
    error_at(100, severity, sqlstate, count)
}

fn error_at(
    observed_at_us: i64,
    severity: u8,
    sqlstate: Option<&str>,
    count: u64,
) -> LogErrorGroup {
    LogErrorGroup::new(observed_at_us, severity, sqlstate.map(str::to_owned), count)
}

fn crash(signal: Option<i32>) -> LifecycleEvent {
    LifecycleEvent::new(100, Some(42), LifecycleKind::Crash, signal)
}

fn inputs_with(errors: Vec<LogErrorGroup>, lifecycle: Vec<LifecycleEvent>) -> LogEventInputs {
    let mut inputs = LogEventInputs::new(EventInputLimits::production());
    for group in errors {
        assert!(inputs.push_error(group));
    }
    for event in lifecycle {
        assert!(inputs.push_lifecycle(event));
    }
    inputs
}

fn run(events: &LogEventInputs, lens: &dyn EventLens) -> EventOutcome {
    evaluate_events(events, &[lens], &EventConfig::for_test()).expect("valid event analysis")
}

fn findings(events: &LogEventInputs, lens: &dyn EventLens) -> Vec<(Role, Confidence, String)> {
    run(events, lens)
        .findings
        .iter()
        .map(|finding| {
            (
                finding.role(),
                finding.confidence(),
                finding.lens_id().to_owned(),
            )
        })
        .collect()
}

#[test]
fn sqlstate_is_only_valid_at_five_uppercase_alnum_chars() {
    assert!(is_sqlstate("53100"));
    assert!(is_sqlstate("40P01"));
    assert!(is_sqlstate("XX001"));
    assert!(!is_sqlstate("5310")); // too short
    assert!(!is_sqlstate("531000")); // too long
    assert!(!is_sqlstate("40p01")); // lowercase
    assert!(!is_sqlstate("53-00")); // punctuation
}

#[test]
fn a_malformed_sqlstate_is_dropped_to_none() {
    let group = error(0, Some("bad"), 3);
    assert_eq!(
        group.sqlstate(),
        None,
        "a non-conforming code is not retained"
    );
    assert_eq!(group.count(), 3, "the group still carries its count");
}

type EventCase = (
    Box<dyn EventLens>,
    LogEventInputs,
    &'static str,
    &'static str,
    Confidence,
);

#[test]
fn each_event_lens_emits_a_bounded_coincident_occurrence_fact() {
    let cases: Vec<EventCase> = vec![
        (
            Box::new(BackendSigkillLens),
            inputs_with(Vec::new(), vec![crash(Some(9))]),
            "PG-EVT-001",
            "signal",
            Confidence::MEDIUM,
        ),
        (
            Box::new(BackendCrashLens),
            inputs_with(Vec::new(), vec![crash(Some(11))]),
            "PG-EVT-002",
            "signal",
            Confidence::MEDIUM,
        ),
        (
            Box::new(PanicShutdownLens),
            inputs_with(vec![error(SEVERITY_PANIC, None, 1)], Vec::new()),
            "PG-EVT-003",
            "severity_panic",
            Confidence::MEDIUM,
        ),
        (
            Box::new(DiskFullLogLens),
            inputs_with(vec![error(1, Some("53100"), 2)], Vec::new()),
            "OS-FS-027",
            "sqlstate",
            Confidence::MEDIUM,
        ),
        (
            Box::new(OutOfMemoryLogLens),
            inputs_with(vec![error(1, Some("53200"), 4)], Vec::new()),
            "PG-EVT-005",
            "sqlstate",
            Confidence::MEDIUM,
        ),
        (
            Box::new(ConnectionSlotsExhaustedLens),
            inputs_with(vec![error(1, Some("53300"), 7)], Vec::new()),
            "PG-CONN-014",
            "sqlstate",
            Confidence::MEDIUM,
        ),
        (
            Box::new(DeadlockLens),
            inputs_with(vec![error(0, Some("40P01"), 1)], Vec::new()),
            "PG-EVT-007",
            "sqlstate",
            Confidence::MEDIUM,
        ),
        (
            Box::new(DataCorruptionLogLens),
            inputs_with(vec![error(0, Some("XX001"), 1)], Vec::new()),
            "PG-EVT-008",
            "sqlstate",
            Confidence::MEDIUM,
        ),
    ];
    for (lens, events, id, column, confidence) in cases {
        let outcome = run(&events, lens.as_ref());
        assert_eq!(outcome.findings.len(), 1, "{id} emits one fact");
        let finding = &outcome.findings[0];
        assert_eq!(finding.lens_id(), id);
        assert_eq!(
            finding.confidence(),
            confidence,
            "{id} respects source evidence quality"
        );
        assert_eq!(
            finding.role(),
            Role::Coincident,
            "{id} stays coincident without proven direction"
        );
        assert_eq!(finding.evidence().len(), 1);
        assert_eq!(finding.scope().column(), column);
    }
}

#[test]
fn data_corruption_matches_both_checksum_and_index_codes() {
    let events = inputs_with(
        vec![error(0, Some("XX002"), 1), error(0, Some("XX001"), 1)],
        Vec::new(),
    );
    let outcome = run(&events, &DataCorruptionLogLens);
    assert_eq!(outcome.findings.len(), 2, "both corruption codes are facts");
}

#[test]
fn panic_and_generic_errors_are_not_corruption_facts() {
    let events = inputs_with(
        vec![
            error(SEVERITY_PANIC, None, 1),
            error(0, None, 1), // includes messages such as invalid record length
            error(0, Some("58030"), 1),
        ],
        Vec::new(),
    );
    assert!(findings(&events, &DataCorruptionLogLens).is_empty());
}

#[test]
fn sigkill_and_crash_lenses_partition_signals() {
    let events = inputs_with(Vec::new(), vec![crash(Some(9)), crash(Some(11))]);
    assert_eq!(
        findings(&events, &BackendSigkillLens).len(),
        1,
        "only signal 9 is a sigkill fact"
    );
    assert_eq!(
        findings(&events, &BackendCrashLens).len(),
        1,
        "only the fault signal is a crash fact"
    );
}

#[test]
fn a_crash_without_a_signal_is_no_signal_fact() {
    let events = inputs_with(Vec::new(), vec![crash(None)]);
    assert!(findings(&events, &BackendSigkillLens).is_empty());
    assert!(findings(&events, &BackendCrashLens).is_empty());
}

#[test]
fn shutdown_and_ready_are_not_crashes() {
    let events = inputs_with(
        Vec::new(),
        vec![
            LifecycleEvent::new(100, Some(42), LifecycleKind::Shutdown, Some(9)),
            LifecycleEvent::new(100, None, LifecycleKind::Ready, None),
        ],
    );
    assert!(
        findings(&events, &BackendSigkillLens).is_empty(),
        "a shutdown signal is not a crash termination"
    );
}

#[test]
fn a_non_matching_sqlstate_reports_nothing() {
    let events = inputs_with(vec![error(0, Some("00000"), 5)], Vec::new());
    assert!(findings(&events, &DeadlockLens).is_empty());
}

#[test]
fn a_zero_count_group_is_not_an_occurrence() {
    let events = inputs_with(vec![error(0, Some("40P01"), 0)], Vec::new());
    assert!(findings(&events, &DeadlockLens).is_empty());
}

#[test]
fn duplicate_stored_records_emit_one_public_fact() {
    let errors = inputs_with(
        vec![error(0, Some("40P01"), 1), error(0, Some("40P01"), 2)],
        Vec::new(),
    );
    assert_eq!(findings(&errors, &DeadlockLens).len(), 1);

    let lifecycle = inputs_with(Vec::new(), vec![crash(Some(SIGKILL)), crash(Some(SIGKILL))]);
    assert_eq!(findings(&lifecycle, &BackendSigkillLens).len(), 1);

    let panics = inputs_with(
        vec![
            error(SEVERITY_PANIC, None, 1),
            error(SEVERITY_PANIC, Some("XX000"), 1),
        ],
        Vec::new(),
    );
    assert_eq!(findings(&panics, &PanicShutdownLens).len(), 1);
}

#[test]
fn absent_events_yield_no_findings_and_never_an_all_clear() {
    let mut events = LogEventInputs::new(EventInputLimits::production());
    events.set_coverage(PG_LOG_ERRORS, LogCoverage::NotCollected);
    let outcome =
        evaluate_events(&events, &[&DeadlockLens], &EventConfig::for_test()).expect("valid");
    assert!(
        outcome.findings.is_empty(),
        "no event is no finding, not a proof of health"
    );
    assert_eq!(
        outcome.coverage.get(PG_LOG_ERRORS),
        Some(&LogCoverage::NotCollected),
        "coverage keeps the absence honest",
    );
}

#[test]
fn the_finding_scope_exposes_only_the_code_and_observation_time() {
    let events = inputs_with(vec![error(0, Some("40P01"), 3)], Vec::new());
    let outcome = run(&events, &DeadlockLens);
    let identity = outcome.findings[0].scope().identity();
    assert_eq!(
        identity,
        &[
            IdentityValue::Text("40P01".to_owned()),
            IdentityValue::I64(100),
        ],
        "no count, sample, statement, user, or address reaches the scope",
    );
}

#[test]
fn overflow_forces_an_incomplete_result() {
    let mut events = LogEventInputs::new(EventInputLimits::with(1, 1));
    assert!(events.push_error(error(0, Some("40P01"), 1)));
    assert!(
        !events.push_error(error(0, Some("40P01"), 1)),
        "the second group is dropped at the ceiling"
    );
    assert!(events.overflow());
    let outcome =
        evaluate_events(&events, &[&DeadlockLens], &EventConfig::for_test()).expect("valid");
    assert_eq!(outcome.findings.len(), 1, "the retained group still emits");
    assert!(!outcome.complete, "a truncated event set is never complete");
}

#[test]
fn the_finding_limit_is_reported_without_retaining_excess() {
    let events = inputs_with(
        vec![
            error_at(100, 0, Some("40P01"), 1),
            error_at(101, 0, Some("40P01"), 2),
        ],
        Vec::new(),
    );
    let config = EventConfig::with(1_000, 1_000, 1, 1_000, 1_000_000);
    let outcome = evaluate_events(&events, &[&DeadlockLens], &config).expect("bounded partial");
    assert!(!outcome.complete);
    assert_eq!(outcome.findings.len(), 1);
    assert_eq!(outcome.skipped[0].limit.axis, LimitAxis::Findings);
}

#[test]
fn the_work_limit_bounds_the_pass() {
    let events = inputs_with(vec![error(0, Some("40P01"), 1)], Vec::new());
    // One unit admits the lens; charging the scanned rows then fails.
    let config = EventConfig::with(1, 1_000, 1_000, 1_000, 1_000_000);
    let outcome = evaluate_events(&events, &[&DeadlockLens], &config).expect("bounded partial");
    assert!(!outcome.complete);
    assert_eq!(outcome.skipped[0].limit.axis, LimitAxis::Work);
}

#[test]
fn the_event_output_byte_limit_is_enforced() {
    let events = inputs_with(vec![error(0, Some("40P01"), 1)], Vec::new());
    let config = EventConfig::with(1_000, 1_000, 1_000, 1_000, 1);
    let outcome = evaluate_events(&events, &[&DeadlockLens], &config).expect("bounded partial");
    assert!(!outcome.complete);
    assert!(outcome.findings.is_empty());
    assert_eq!(outcome.skipped[0].limit.axis, LimitAxis::OutputBytes);
}

#[test]
fn events_duplicate_lens_ids_are_rejected() {
    let result = evaluate_events(
        &LogEventInputs::new(EventInputLimits::production()),
        &[&DeadlockLens, &DeadlockLens],
        &EventConfig::for_test(),
    );
    assert!(matches!(
        result,
        Err(EventError::DuplicateLensId("PG-EVT-007"))
    ));
}

#[test]
fn the_event_catalog_lists_every_wired_lens_once() {
    let ids = event_catalog_ids();
    assert_eq!(
        ids,
        vec![
            "PG-EVT-001",
            "PG-EVT-002",
            "PG-EVT-003",
            "OS-FS-027",
            "PG-EVT-005",
            "PG-CONN-014",
            "PG-EVT-007",
            "PG-EVT-008",
        ]
    );
    let unique: BTreeSet<_> = ids.iter().copied().collect();
    assert_eq!(unique.len(), ids.len(), "event ids are unique");
    assert_eq!(event_catalog().len(), ids.len());
    assert_eq!(event_catalog_metadata().len(), ids.len());
    assert_eq!(
        event_catalog_metadata()
            .iter()
            .map(|entry| entry.lens_id)
            .collect::<Vec<_>>(),
        ids
    );
    let slugs: BTreeSet<_> = event_catalog_metadata()
        .iter()
        .map(|entry| entry.slug)
        .collect();
    assert_eq!(slugs.len(), ids.len(), "event slugs are unique");
}

#[test]
fn the_whole_catalog_produces_one_fact_per_matched_event() {
    let events = inputs_with(
        vec![error(0, Some("40P01"), 1), error(SEVERITY_PANIC, None, 1)],
        vec![crash(Some(9))],
    );
    let catalog = event_catalog();
    let lenses: Vec<&dyn EventLens> = catalog.iter().map(|entry| entry.lens.as_ref()).collect();
    let outcome =
        evaluate_events(&events, &lenses, &EventConfig::for_test()).expect("valid analysis");
    let ids: Vec<_> = outcome.findings.iter().map(Finding::lens_id).collect();
    assert_eq!(
        ids,
        vec!["PG-EVT-001", "PG-EVT-003", "PG-EVT-007"],
        "sigkill, panic, and deadlock each fire once; nothing else matches",
    );
    assert!(!outcome.complete, "stderr coverage is never exhaustive");
}

#[test]
fn rows_past_a_limit_are_dropped_and_remembered() {
    let mut inputs = LogEventInputs::new(EventInputLimits::with(1, 1));
    assert!(inputs.push_error(error(1, Some("53100"), 1)));
    assert!(inputs.push_lifecycle(crash(Some(11))));
    assert!(!inputs.overflow());
    assert!(!inputs.push_error(error(1, Some("53200"), 1)));
    assert!(inputs.overflow());
    assert!(!inputs.push_lifecycle(crash(Some(SIGKILL))));
    assert_eq!(inputs.errors().len(), 1);
    assert_eq!(inputs.lifecycle().len(), 1);
    assert!(inputs.overflow());
}

#[test]
fn an_event_lens_is_admitted_within_both_limits() {
    let mut evaluations = 1;
    let mut budget = WorkBudget::new(1);
    assert!(admit_event_lens("LENS", &mut evaluations, 2, &mut budget).is_ok());
    assert_eq!(evaluations, 2);
    assert_eq!(budget.spent(), 1);

    let refused = admit_event_lens("LENS", &mut evaluations, 2, &mut budget).unwrap_err();
    assert_eq!(refused.lens_id, Some("LENS"));
    assert_eq!(refused.limit.axis, LimitAxis::LensEvaluations);
    assert_eq!(refused.limit.observed, 3);
    assert_eq!(refused.limit.limit, 2);

    let refused = admit_event_lens("LENS", &mut evaluations, 9, &mut budget).unwrap_err();
    assert_eq!(refused.limit.axis, LimitAxis::Work);
    assert_eq!(refused.limit.observed, 2);
    assert_eq!(refused.limit.limit, 1);
    assert_eq!(evaluations, 2);
}

#[test]
fn registration_order_of_event_lenses_does_not_change_the_facts() {
    let inputs = inputs_with(
        vec![
            error(1, Some("53100"), 1),
            error(1, Some("53200"), 2),
            error(SEVERITY_PANIC, None, 1),
        ],
        vec![crash(Some(SIGKILL)), crash(Some(11))],
    );
    let lenses: [&dyn EventLens; 5] = [
        &DiskFullLogLens,
        &OutOfMemoryLogLens,
        &PanicShutdownLens,
        &BackendSigkillLens,
        &BackendCrashLens,
    ];
    let reversed: Vec<&dyn EventLens> = lenses.iter().rev().copied().collect();
    let ids = |outcome: &EventOutcome| -> Vec<&'static str> {
        outcome
            .findings
            .iter()
            .map(|finding| finding.lens_id())
            .collect()
    };
    let config = EventConfig::for_test();
    let first = evaluate_events(&inputs, &lenses, &config).expect("distinct ids");
    let second = evaluate_events(&inputs, &reversed, &config).expect("distinct ids");
    assert_eq!(first.findings.len(), 5);
    assert_eq!(ids(&first), ids(&second));
    assert!(first.skipped.is_empty() && second.skipped.is_empty());
}
