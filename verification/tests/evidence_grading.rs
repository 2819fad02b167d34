//! Grading of findings whose evidence names no cadence.

use kronika_incident::engine::{ClockRelation, EvalContext};
use kronika_incident::evidence::confidence::{Confidence, ConfidenceCap, Role};
use kronika_incident::evidence::counter::{
    CounterEvidence, CounterEvidenceInput, CounterEvidenceWindow, CounterEvidenceWindowInput,
    CounterMeasurementKind, CounterOperand, CounterOperandPurpose,
};
use kronika_incident::evidence::coverage::SourceWindow;
use kronika_incident::evidence::direct::{DirectEvidence, LockParticipant};
use kronika_incident::evidence::finding::{Evidence, Finding, FindingDraft, FindingScope};
use kronika_incident::evidence::gauge::{GaugeEntity, GaugeEvidence, GaugeRatio, GaugeValueInput};
use kronika_incident::evidence::value::{GaugeUnit, ThresholdKind};
use kronika_incident::float64::Float64;
use kronika_incident::model::IdentityValue;

/// The library's number with the bits of a machine float.
fn num(value: f64) -> Float64 {
    Float64::from_bits(value.to_bits())
}

/// A window of no length without a proven cadence.
fn bare_window() -> SourceWindow {
    SourceWindow::from_bounds(0, 0, None, 0)
}

fn scope(id: i64) -> FindingScope {
    FindingScope::from_parts("section", "column", vec![IdentityValue::I64(id)])
}

#[test]
fn evidence_confidence_orders_low_medium_high() {
    assert!(Confidence::LOW < Confidence::MEDIUM);
    assert!(Confidence::MEDIUM < Confidence::HIGH);
}

#[test]
fn evidence_confidence_cap_strings_are_stable() {
    assert_eq!(ConfidenceCap::Low.as_str(), "low");
    assert_eq!(ConfidenceCap::Medium.as_str(), "medium");
    assert_eq!(ConfidenceCap::High.as_str(), "high");
}

#[test]
fn evidence_weak_evidence_cannot_reach_high() {
    for evidence in [
        Evidence::Ratio,
        Evidence::Gauge,
        Evidence::Counter,
        Evidence::Event,
    ] {
        let finding = Finding::from_draft(
            "L",
            ConfidenceCap::High,
            FindingDraft::new(Role::Amplifier, scope(1), vec![evidence]),
        );
        assert_eq!(finding.confidence(), Confidence::MEDIUM);
    }
}

#[test]
fn evidence_sampled_lock_edge_can_reach_high_and_prove_direction() {
    let finding = Finding::from_draft(
        "PG-LOCK-012",
        ConfidenceCap::High,
        FindingDraft::new(
            Role::Lead,
            scope(1),
            vec![Evidence::Direct(DirectEvidence::sampled_lock_edge(
                10,
                20,
                30,
                LockParticipant::Blocker,
            ))],
        ),
    );
    assert_eq!(finding.confidence(), Confidence::HIGH);
    assert_eq!(finding.role(), Role::Lead);
}

#[test]
fn evidence_sampled_lock_edge_only_proves_the_role_of_its_participant() {
    let mut finding = Finding::from_draft(
        "PG-LOCK-012",
        ConfidenceCap::High,
        FindingDraft::new(
            Role::Downstream,
            scope(1),
            vec![Evidence::Direct(DirectEvidence::sampled_lock_edge(
                10,
                20,
                30,
                LockParticipant::Blocker,
            ))],
        ),
    );
    assert_eq!(finding.role(), Role::Coincident);
    finding.apply_temporal_role(Role::Lead);
    assert_eq!(
        finding.role(),
        Role::Coincident,
        "observation time cannot reinterpret a conflicting lock edge"
    );

    let finding = Finding::from_draft(
        "PG-LOCK-012",
        ConfidenceCap::High,
        FindingDraft::new(
            Role::Downstream,
            scope(1),
            vec![Evidence::Direct(DirectEvidence::sampled_lock_edge(
                10,
                20,
                30,
                LockParticipant::Waiter,
            ))],
        ),
    );
    assert_eq!(finding.role(), Role::Downstream);
}

#[test]
fn evidence_resource_event_does_not_prove_direction() {
    let finding = Finding::from_draft(
        "OS-MEM-022",
        ConfidenceCap::High,
        FindingDraft::new(
            Role::Lead,
            scope(1),
            vec![Evidence::Direct(DirectEvidence::resource_limit_event())],
        ),
    );
    assert_eq!(finding.confidence(), Confidence::HIGH);
    assert_eq!(finding.role(), Role::Coincident);
}

#[test]
fn unknown_clock_downgrades_unproven_direction() {
    let finding = Finding::from_draft(
        "TEMPORAL",
        ConfidenceCap::Medium,
        FindingDraft::new(Role::Downstream, scope(1), vec![Evidence::Counter]),
    );
    assert_eq!(finding.role(), Role::Coincident);
}

#[test]
fn evidence_empty_evidence_forces_low() {
    let finding = Finding::from_draft(
        "L",
        ConfidenceCap::High,
        FindingDraft::new(Role::Coincident, scope(1), vec![]),
    );
    assert_eq!(finding.confidence(), Confidence::LOW);
}

#[test]
fn evidence_scope_order_is_total() {
    assert!(scope(1) < scope(2));
}

#[test]
fn evidence_gauge_evidence_rejects_non_finite_values_and_zero_denominators() {
    let entity = vec![IdentityValue::I64(1)];
    assert!(
        GaugeEvidence::value(GaugeValueInput {
            operand: "bytes",
            value: num(f64::NAN),
            unit: GaugeUnit::Bytes,
            threshold: num(1.0),
            threshold_kind: ThresholdKind::AtLeast,
            observed_at_us: 10,
            samples: 1,
            source_window: bare_window(),
            entity: GaugeEntity::new("section", entity.clone()),
        })
        .is_none()
    );
    assert!(
        GaugeEvidence::ratio(
            GaugeRatio::new("a", num(1.0), "b", num(0.0), GaugeUnit::Count),
            num(0.5),
            ThresholdKind::AtLeast,
            10,
            1,
            bare_window(),
            GaugeEntity::new("section", entity),
        )
        .is_none()
    );
    assert!(
        GaugeEvidence::ratio(
            GaugeRatio::new("a", num(f64::MAX), "b", num(f64::MIN_POSITIVE), GaugeUnit::Bytes),
            num(0.5),
            ThresholdKind::AtLeast,
            10,
            1,
            bare_window(),
            GaugeEntity::new("section", Vec::new()),
        )
        .is_none()
    );
    assert!(
        GaugeEvidence::value(GaugeValueInput {
            operand: "count",
            value: num(1.0),
            unit: GaugeUnit::Count,
            threshold: num(1.0),
            threshold_kind: ThresholdKind::AtLeast,
            observed_at_us: 10,
            samples: 0,
            source_window: bare_window(),
            entity: GaugeEntity::new("section", Vec::new()),
        })
        .is_none()
    );

    let per_call = GaugeEvidence::ratio(
        GaugeRatio::with_units(
            "total_exec_time",
            num(100.0),
            GaugeUnit::Milliseconds,
            "calls",
            num(2.0),
            GaugeUnit::Count,
            GaugeUnit::MillisecondsPerCall,
        ),
        num(50.0),
        ThresholdKind::AtLeast,
        10,
        1,
        bare_window(),
        GaugeEntity::new("section", Vec::new()),
    )
    .expect("finite mixed-unit ratio");
    assert_eq!(per_call.unit(), GaugeUnit::MillisecondsPerCall);
}

#[test]
fn evidence_counter_evidence_bounds_and_names_its_operands() {
    let operand = |name, purpose| {
        CounterOperand::new(name, num(1.0), GaugeUnit::Count, purpose).expect("valid operand")
    };
    let build = |operands| {
        CounterEvidence::new(CounterEvidenceInput {
            kind: CounterMeasurementKind::Ratio,
            formula: "a / b",
            value: num(1.0),
            unit: GaugeUnit::Ratio,
            threshold: num(0.5),
            threshold_kind: ThresholdKind::AtLeast,
            operands,
            window: CounterEvidenceWindow::new(CounterEvidenceWindowInput {
                selection_from_us: 0,
                selection_to_us: 10,
                first_interval_start_us: 0,
                first_interval_end_us: 1,
                last_interval_end_us: 1,
                usable_intervals: 1,
                candidate_intervals: 1,
                unmatched_endpoint_intervals: 0,
                unusable_delta_intervals: 0,
                unaligned_duration_intervals: 0,
                numeric_limit_intervals: 0,
                elapsed_us: 1_000_000,
                observed_period_us: None,
            })
            .expect("valid window"),
            entity: GaugeEntity::new("section", Vec::new()),
        })
    };

    assert!(
        build(vec![
            operand("a", CounterOperandPurpose::Formula),
            operand("b", CounterOperandPurpose::Formula),
        ])
        .is_some()
    );
    assert!(
        build(vec![
            operand("same", CounterOperandPurpose::Formula),
            operand("same", CounterOperandPurpose::Formula),
        ])
        .is_none()
    );
    assert!(
        build(vec![
            operand("a", CounterOperandPurpose::Formula),
            operand("b", CounterOperandPurpose::Formula),
            operand("c", CounterOperandPurpose::AlignedContext),
            operand("d", CounterOperandPurpose::AlignedContext),
        ])
        .is_none()
    );
}

#[test]
fn same_clock_keeps_temporal_direction() {
    let context = EvalContext::for_test(ClockRelation::SameDomain);
    let permit = context.temporal_direction();
    let finding = Finding::from_draft(
        "TEMPORAL",
        ConfidenceCap::Medium,
        FindingDraft::with_temporal_direction(
            Role::Downstream,
            scope(1),
            vec![Evidence::Counter],
            permit.as_ref(),
        ),
    );
    assert_eq!(finding.role(), Role::Downstream);
}

#[test]
fn observation_time_orders_only_undirected_findings() {
    let graded = |role: Role| {
        Finding::from_draft(
            "L",
            ConfidenceCap::Medium,
            FindingDraft::new(role, scope(1), vec![Evidence::Counter]),
        )
    };
    let mut coincident = graded(Role::Coincident);
    coincident.apply_temporal_role(Role::Amplifier);
    assert_eq!(coincident.role(), Role::Coincident);
    coincident.apply_temporal_role(Role::Lead);
    assert_eq!(coincident.role(), Role::Lead);
    coincident.apply_temporal_role(Role::Downstream);
    assert_eq!(coincident.role(), Role::Lead);
    let mut amplifier = graded(Role::Amplifier);
    amplifier.apply_temporal_role(Role::Lead);
    assert_eq!(amplifier.role(), Role::Amplifier);
}
