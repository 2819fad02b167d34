//! Work budgets, lens dispatch and the limits of a sink.

use kronika_incident::dispatch::{
    candidate_lenses, section_index, LimitAxis, LimitHit, SectionColumn, WorkBudget,
};
use kronika_incident::evidence::confidence::{ConfidenceCap, Role};
use kronika_incident::evidence::finding::{Evidence, FindingDraft, FindingScope};
use kronika_incident::evidence::sink::{FindingSink, OutputCounts, OutputLimits};
use kronika_incident::model::{EpisodeRefV1, IdentityValue};

fn sc(section: &'static str, column: &'static str) -> SectionColumn {
    SectionColumn { section, column }
}

fn finding(evidence: Vec<Evidence>) -> FindingDraft {
    let reference = EpisodeRefV1 {
        logical_section: "s",
        column: "c",
        identity: vec![IdentityValue::I64(1)],
        start_us: 0,
        end_us: 1,
    };
    FindingDraft::new(
        Role::Coincident,
        FindingScope::from_episode(&reference),
        evidence,
    )
}

#[test]
fn a_new_budget_is_unspent_and_available() {
    let budget = WorkBudget::new(100);
    assert_eq!(budget.spent(), 0);
    assert!(!budget.is_exhausted());
}

#[test]
fn a_charge_within_budget_is_spent() {
    let mut budget = WorkBudget::new(100);
    assert!(budget.charge(30));
    assert!(budget.charge(20));
    assert_eq!(budget.spent(), 50);
    assert!(!budget.is_exhausted());
}

#[test]
fn a_charge_to_exactly_zero_is_allowed() {
    let mut budget = WorkBudget::new(40);
    assert!(budget.charge(40));
    assert_eq!(budget.spent(), 40);
    assert!(!budget.is_exhausted(), "an exact fit is not exhaustion");
}

#[test]
fn an_overcharge_latches_exhaustion_and_spends_nothing() {
    let mut budget = WorkBudget::new(40);
    assert!(budget.charge(30));
    assert!(!budget.charge(20), "20 does not fit in the remaining 10");
    assert!(budget.is_exhausted());
    assert_eq!(
        budget.spent(),
        30,
        "the failed charge adds nothing; spent stays the work that fit"
    );
}

#[test]
fn charging_after_exhaustion_stays_false() {
    let mut budget = WorkBudget::new(10);
    assert!(!budget.charge(11));
    assert!(
        !budget.charge(1),
        "exhaustion is sticky, even for a tiny charge"
    );
    assert!(budget.is_exhausted());
}

#[test]
fn a_zero_charge_is_a_noop() {
    let mut budget = WorkBudget::new(10);
    assert!(budget.charge(0));
    assert_eq!(budget.spent(), 0);
    assert!(!budget.is_exhausted());
}

#[test]
fn a_zero_limit_exhausts_on_the_first_positive_charge() {
    let mut budget = WorkBudget::new(0);
    assert!(budget.charge(0), "zero fits in zero");
    assert!(!budget.charge(1));
    assert!(budget.is_exhausted());
}

#[test]
fn an_empty_catalog_indexes_nothing() {
    assert!(section_index(&[]).is_empty());
}

#[test]
fn a_lens_indexes_each_of_its_sections_once() {
    let lens0: &[SectionColumn] = &[sc("a", "x"), sc("a", "y"), sc("b", "z")];
    let index = section_index(&[lens0]);
    assert_eq!(
        index.get("a"),
        Some(&vec![0]),
        "two columns of a add lens 0 once"
    );
    assert_eq!(index.get("b"), Some(&vec![0]));
}

#[test]
fn multiple_lenses_on_a_section_are_both_listed() {
    let lens0: &[SectionColumn] = &[sc("a", "x")];
    let lens1: &[SectionColumn] = &[sc("a", "y")];
    let index = section_index(&[lens0, lens1]);
    assert_eq!(index.get("a"), Some(&vec![0, 1]));
}

#[test]
fn candidates_union_the_lenses_of_present_sections() {
    let lens0: &[SectionColumn] = &[sc("a", "x")];
    let lens1: &[SectionColumn] = &[sc("b", "y")];
    let lens2: &[SectionColumn] = &[sc("a", "z"), sc("c", "w")];
    let index = section_index(&[lens0, lens1, lens2]);
    let present = ["a", "b"];
    assert_eq!(
        candidate_lenses(&index, &present),
        vec![0, 1, 2],
        "a -> {{0,2}}, b -> {{1}}"
    );
}

#[test]
fn candidates_ignore_absent_sections() {
    let lens0: &[SectionColumn] = &[sc("a", "x")];
    let index = section_index(&[lens0]);
    let present = ["z"];
    assert!(candidate_lenses(&index, &present).is_empty());
}

#[test]
fn sink_applies_finding_and_evidence_limits_before_retaining_output() {
    let mut findings = Vec::new();
    let mut budget = WorkBudget::new(10);
    let mut counts = OutputCounts::new();
    let mut sink = FindingSink::new(
        &mut findings,
        &mut budget,
        &mut counts,
        OutputLimits::new(1, 1),
        "L",
        ConfidenceCap::Medium,
    );
    sink.emit(finding(vec![Evidence::Ratio]))
        .expect("first finding fits");
    assert_eq!(
        sink.emit(finding(vec![])),
        Err(LimitHit {
            axis: LimitAxis::Findings,
            observed: 2,
            limit: 1,
        })
    );
    assert_eq!(findings.len(), 1);
}

#[test]
fn failed_evidence_charge_is_all_or_nothing() {
    let mut findings = Vec::new();
    let mut budget = WorkBudget::new(10);
    let mut counts = OutputCounts::new();
    let mut sink = FindingSink::new(
        &mut findings,
        &mut budget,
        &mut counts,
        OutputLimits::new(2, 1),
        "L",
        ConfidenceCap::Medium,
    );
    assert_eq!(
        sink.emit(finding(vec![Evidence::Ratio, Evidence::Gauge])),
        Err(LimitHit {
            axis: LimitAxis::EvidenceRows,
            observed: 2,
            limit: 1,
        })
    );
    assert!(findings.is_empty());
    assert_eq!(budget.spent(), 0);
}

#[test]
fn output_byte_limit_is_checked_before_retaining_a_finding() {
    let mut findings = Vec::new();
    let mut budget = WorkBudget::new(10);
    let mut counts = OutputCounts::new();
    let mut sink = FindingSink::new(
        &mut findings,
        &mut budget,
        &mut counts,
        OutputLimits::bounded(10, 10, 1),
        "L",
        ConfidenceCap::Medium,
    );
    let hit = sink
        .emit(finding(vec![Evidence::Ratio]))
        .expect_err("one byte cannot hold a finding");
    assert_eq!(hit.axis, LimitAxis::OutputBytes);
    assert!(findings.is_empty());
    assert_eq!(budget.spent(), 0);
}
