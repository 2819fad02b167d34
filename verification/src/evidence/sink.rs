//! Bounded collection of findings.
//!
//! A lens reports through a sink in steps: it charges the points that it is
//! about to inspect, and it emits drafts. The first step that exceeds a limit
//! is recorded, and every step after it is refused without effect.

use super::confidence::ConfidenceCap;
use super::finding::{sat, sat_sum, DraftView, Finding, FindingDraft, FindingView};
use crate::dispatch::{BudgetView, LimitAxis, LimitHit, WorkBudget};
use crate::order::views;
use vstd::prelude::*;

verus! {

/// Output retained so far in a request.
#[derive(Debug, Clone, Copy, PartialEq, Eq, Structural)]
pub struct OutputCounts {
    pub findings: u64,
    pub evidence_rows: u64,
    pub output_bytes: u64,
}

impl OutputCounts {
    pub fn new() -> (r: Self)
        ensures
            r == (OutputCounts { findings: 0, evidence_rows: 0, output_bytes: 0 }),
    {
        OutputCounts { findings: 0, evidence_rows: 0, output_bytes: 0 }
    }
}

/// Most output that a request may retain.
#[derive(Debug, Clone, Copy, PartialEq, Eq, Structural)]
pub struct OutputLimits {
    pub findings: u64,
    pub evidence_rows: u64,
    pub output_bytes: u64,
}

impl OutputLimits {
    pub fn new(findings: u64, evidence_rows: u64) -> (r: Self)
        ensures
            r == (OutputLimits { findings, evidence_rows, output_bytes: u64::MAX }),
    {
        OutputLimits { findings, evidence_rows, output_bytes: u64::MAX }
    }

    pub fn bounded(findings: u64, evidence_rows: u64, output_bytes: u64) -> (r: Self)
        ensures
            r == (OutputLimits { findings, evidence_rows, output_bytes }),
    {
        OutputLimits { findings, evidence_rows, output_bytes }
    }
}

/// What a sink has collected.
#[verifier::ext_equal]
pub struct SinkState {
    pub findings: Seq<FindingView>,
    pub budget: BudgetView,
    pub counts: OutputCounts,
    pub hit: Option<LimitHit>,
}

/// What a sink grades and bounds by.
#[verifier::ext_equal]
pub struct SinkRules {
    pub limits: OutputLimits,
    pub lens_id: Seq<char>,
    pub cap: ConfidenceCap,
}

/// The mathematical value of a sink.
#[verifier::ext_equal]
pub struct SinkView {
    pub state: SinkState,
    pub rules: SinkRules,
}

impl SinkState {
    pub open spec fn stopped(self, axis: LimitAxis, observed: u64, limit: u64) -> SinkState {
        SinkState { hit: Some(LimitHit { axis, observed, limit }), ..self }
    }

    /// The state after a charge of work.
    pub open spec fn charged(self, units: u64) -> SinkState {
        if self.hit is Some {
            self
        } else {
            let next = SinkState { budget: self.budget.charged(units), ..self };
            if self.budget.grants(units) {
                next
            } else {
                next.stopped(
                    LimitAxis::Work,
                    sat((self.budget.spent + units) as nat),
                    self.budget.limit,
                )
            }
        }
    }

    /// The state after a draft. A draft that does not fit leaves no output
    /// and spends no work.
    pub open spec fn emitted(self, rules: SinkRules, draft: DraftView) -> SinkState {
        let rows = sat(draft.evidence.len());
        let counts = OutputCounts {
            findings: sat((self.counts.findings + 1) as nat),
            evidence_rows: sat((self.counts.evidence_rows + rows) as nat),
            output_bytes: sat(
                (self.counts.output_bytes + sat(draft.output_bytes(rules.lens_id))) as nat,
            ),
        };
        if self.hit is Some {
            self
        } else if counts.findings > rules.limits.findings {
            self.stopped(LimitAxis::Findings, counts.findings, rules.limits.findings)
        } else if counts.evidence_rows > rules.limits.evidence_rows {
            self.stopped(LimitAxis::EvidenceRows, counts.evidence_rows, rules.limits.evidence_rows)
        } else if counts.output_bytes > rules.limits.output_bytes {
            self.stopped(LimitAxis::OutputBytes, counts.output_bytes, rules.limits.output_bytes)
        } else {
            let paid = self.charged(rows);
            if paid.hit is Some {
                paid
            } else {
                SinkState {
                    counts,
                    findings: paid.findings.push(draft.graded(rules.lens_id, rules.cap)),
                    ..paid
                }
            }
        }
    }
}

/// One report of a lens.
#[verifier::ext_equal]
pub enum Step {
    /// That many points are about to be inspected.
    Charge(usize),
    /// A draft is emitted.
    Emit(DraftView),
}

pub open spec fn step(state: SinkState, rules: SinkRules, report: Step) -> SinkState {
    match report {
        Step::Charge(points) => state.charged(points as u64),
        Step::Emit(draft) => state.emitted(rules, draft),
    }
}

/// The state after a run of reports.
pub open spec fn run(state: SinkState, rules: SinkRules, steps: Seq<Step>) -> SinkState
    decreases steps.len(),
{
    if steps.len() == 0 {
        state
    } else {
        run(step(state, rules, steps[0]), rules, steps.drop_first())
    }
}

/// A stopped sink ignores every later report.
pub proof fn lemma_stopped(state: SinkState, rules: SinkRules, steps: Seq<Step>)
    requires
        state.hit is Some,
    ensures
        run(state, rules, steps) == state,
    decreases steps.len(),
{
    if steps.len() > 0 {
        lemma_stopped(state, rules, steps.drop_first());
    }
}

/// A run of two parts is one part after the other.
pub proof fn lemma_run_concat(state: SinkState, rules: SinkRules, a: Seq<Step>, b: Seq<Step>)
    ensures
        run(state, rules, a + b) == run(run(state, rules, a), rules, b),
    decreases a.len(),
{
    if a.len() == 0 {
        assert(a + b =~= b);
    } else {
        assert((a + b).drop_first() =~= a.drop_first() + b);
        lemma_run_concat(step(state, rules, a[0]), rules, a.drop_first(), b);
    }
}

/// A run that starts with one report.
pub proof fn lemma_run_first(state: SinkState, rules: SinkRules, report: Step, rest: Seq<Step>)
    ensures
        run(state, rules, seq![report] + rest) == run(step(state, rules, report), rules, rest),
{
    assert((seq![report] + rest).drop_first() =~= rest);
    assert((seq![report] + rest)[0] == report);
}

/// Collects the findings of one lens within the limits of a request.
pub struct FindingSink<'a> {
    pub findings: &'a mut Vec<Finding>,
    pub budget: &'a mut WorkBudget,
    pub counts: &'a mut OutputCounts,
    pub limits: OutputLimits,
    pub hit: Option<LimitHit>,
    pub lens_id: &'static str,
    pub confidence_cap: ConfidenceCap,
}

impl<'a> View for FindingSink<'a> {
    type V = SinkView;

    open spec fn view(&self) -> SinkView {
        SinkView {
            state: SinkState {
                findings: views((*self.findings)@),
                budget: (*self.budget)@,
                counts: *self.counts,
                hit: self.hit,
            },
            rules: SinkRules {
                limits: self.limits,
                lens_id: self.lens_id@,
                cap: self.confidence_cap,
            },
        }
    }
}

impl<'a> FindingSink<'a> {
    pub fn new(
        findings: &'a mut Vec<Finding>,
        budget: &'a mut WorkBudget,
        counts: &'a mut OutputCounts,
        limits: OutputLimits,
        lens_id: &'static str,
        confidence_cap: ConfidenceCap,
    ) -> (r: Self)
        ensures
            r@ == (SinkView {
                state: SinkState {
                    findings: views(old(findings)@),
                    budget: old(budget)@,
                    counts: *old(counts),
                    hit: None,
                },
                rules: SinkRules { limits, lens_id: lens_id@, cap: confidence_cap },
            }),
            *final(r.findings) == *final(findings),
            *final(r.budget) == *final(budget),
            *final(r.counts) == *final(counts),
    {
        FindingSink { findings, budget, counts, limits, hit: None, lens_id, confidence_cap }
    }

    /// Pays for points that are about to be inspected.
    pub fn charge_points(&mut self, points: usize) -> (r: Result<(), LimitHit>)
        ensures
            final(self)@.state == step(
                old(self)@.state,
                old(self)@.rules,
                Step::Charge(points),
            ),
            final(self)@.rules == old(self)@.rules,
            match r {
                Ok(_) => final(self)@.state.hit is None && old(self)@.state.hit is None,
                Err(hit) => final(self)@.state.hit == Some(hit),
            },
            *final(final(self).findings) == *final(old(self).findings),
            *final(final(self).budget) == *final(old(self).budget),
            *final(final(self).counts) == *final(old(self).counts),
    {
        self.charge_work(points as u64)
    }

    /// Retains a graded draft, if it fits every limit.
    pub fn emit(&mut self, draft: FindingDraft) -> (r: Result<(), LimitHit>)
        ensures
            final(self)@.state == step(old(self)@.state, old(self)@.rules, Step::Emit(draft@)),
            final(self)@.rules == old(self)@.rules,
            match r {
                Ok(_) => final(self)@.state.hit is None && old(self)@.state.hit is None,
                Err(hit) => final(self)@.state.hit == Some(hit),
            },
            *final(final(self).findings) == *final(old(self).findings),
            *final(final(self).budget) == *final(old(self).budget),
            *final(final(self).counts) == *final(old(self).counts),
    {
        if let Some(hit) = self.hit {
            return Err(hit);
        }
        let findings_observed: u64 = sat_sum(self.counts.findings, 1);
        if findings_observed > self.limits.findings {
            return self.fail(
                LimitHit {
                    axis: LimitAxis::Findings,
                    observed: findings_observed,
                    limit: self.limits.findings,
                },
            );
        }
        let evidence_rows: u64 = draft.evidence_len() as u64;
        let evidence_observed: u64 = sat_sum(self.counts.evidence_rows, evidence_rows);
        if evidence_observed > self.limits.evidence_rows {
            return self.fail(
                LimitHit {
                    axis: LimitAxis::EvidenceRows,
                    observed: evidence_observed,
                    limit: self.limits.evidence_rows,
                },
            );
        }
        let finding_bytes: u64 = draft.output_bytes_upper_bound(self.lens_id);
        let output_observed: u64 = sat_sum(self.counts.output_bytes, finding_bytes);
        if output_observed > self.limits.output_bytes {
            return self.fail(
                LimitHit {
                    axis: LimitAxis::OutputBytes,
                    observed: output_observed,
                    limit: self.limits.output_bytes,
                },
            );
        }
        match self.charge_work(evidence_rows) {
            Ok(_) => {},
            Err(hit) => {
                return Err(hit);
            },
        }
        self.counts.findings = findings_observed;
        self.counts.evidence_rows = evidence_observed;
        self.counts.output_bytes = output_observed;
        let finding = Finding::from_draft(self.lens_id, self.confidence_cap, draft);
        let ghost before = (*self.findings)@;
        let ghost graded = finding@;
        self.findings.push(finding);
        proof {
            assert(views((*self.findings)@) =~= views(before).push(graded));
        }
        Ok(())
    }

    /// The limit that stopped the sink.
    pub fn limit_hit(&self) -> (r: Option<LimitHit>)
        ensures
            r == self@.state.hit,
    {
        self.hit
    }

    fn charge_work(&mut self, units: u64) -> (r: Result<(), LimitHit>)
        ensures
            final(self)@.state == old(self)@.state.charged(units),
            final(self)@.rules == old(self)@.rules,
            match r {
                Ok(_) => final(self)@.state.hit is None && old(self)@.state.hit is None,
                Err(hit) => final(self)@.state.hit == Some(hit),
            },
            *final(final(self).findings) == *final(old(self).findings),
            *final(final(self).budget) == *final(old(self).budget),
            *final(final(self).counts) == *final(old(self).counts),
    {
        if let Some(hit) = self.hit {
            return Err(hit);
        }
        if self.budget.charge(units) {
            return Ok(());
        }
        let observed: u64 = sat_sum(self.budget.spent(), units);
        let limit: u64 = self.budget.limit();
        self.fail(LimitHit { axis: LimitAxis::Work, observed, limit })
    }

    fn fail(&mut self, hit: LimitHit) -> (r: Result<(), LimitHit>)
        requires
            old(self)@.state.hit is None,
        ensures
            final(self)@.state == (SinkState { hit: Some(hit), ..old(self)@.state }),
            final(self)@.rules == old(self)@.rules,
            r == Err::<(), LimitHit>(hit),
            *final(final(self).findings) == *final(old(self).findings),
            *final(final(self).budget) == *final(old(self).budget),
            *final(final(self).counts) == *final(old(self).counts),
    {
        self.hit = Some(hit);
        Err(hit)
    }
}

// Laws of bounded output.

/// Whether what was retained is within the limits.
pub open spec fn within(counts: OutputCounts, limits: OutputLimits) -> bool {
    counts.findings <= limits.findings && counts.evidence_rows <= limits.evidence_rows
        && counts.output_bytes <= limits.output_bytes
}

/// Whatever a lens reports, the retained output and the spent work stay within
/// their limits, and the budget's limit stays as it was.
pub proof fn law_output_stays_within_its_limits(
    state: SinkState,
    rules: SinkRules,
    steps: Seq<Step>,
)
    requires
        within(state.counts, rules.limits),
        state.budget.spent <= state.budget.limit,
    ensures
        within(run(state, rules, steps).counts, rules.limits),
        run(state, rules, steps).budget.spent <= state.budget.limit,
        run(state, rules, steps).budget.limit == state.budget.limit,
    decreases steps.len(),
{
    if steps.len() > 0 {
        law_output_stays_within_its_limits(step(state, rules, steps[0]), rules, steps.drop_first());
    }
}

/// A draft that is refused leaves the findings and their counts as they were,
/// and one refused for its output spends no work.
pub proof fn law_refused_drafts_leave_no_output(
    state: SinkState,
    rules: SinkRules,
    draft: DraftView,
)
    requires
        state.hit is None,
        state.emitted(rules, draft).hit is Some,
    ensures
        state.emitted(rules, draft).findings == state.findings,
        state.emitted(rules, draft).counts == state.counts,
        state.emitted(rules, draft).budget.spent == state.budget.spent,
        state.emitted(rules, draft).hit->Some_0.axis != LimitAxis::Work ==> state.emitted(
            rules,
            draft,
        ).budget == state.budget,
{
}

/// Whether a finding is a draft that the sink graded.
pub open spec fn graded_by(finding: FindingView, rules: SinkRules) -> bool {
    exists|draft: DraftView| finding == #[trigger] draft.graded(rules.lens_id, rules.cap)
}

/// Findings are only ever added, and each one is a graded draft of the lens.
pub proof fn law_findings_only_grow(state: SinkState, rules: SinkRules, steps: Seq<Step>)
    ensures
        state.findings.len() <= run(state, rules, steps).findings.len(),
        run(state, rules, steps).findings.take(state.findings.len() as int) == state.findings,
        forall|i: int|
            state.findings.len() <= i < run(state, rules, steps).findings.len() ==> graded_by(
                #[trigger] run(state, rules, steps).findings[i],
                rules,
            ),
    decreases steps.len(),
{
    if steps.len() == 0 {
        assert(state.findings.take(state.findings.len() as int) =~= state.findings);
    } else {
        let next = step(state, rules, steps[0]);
        law_findings_only_grow(next, rules, steps.drop_first());
        let out = run(state, rules, steps);
        assert(out == run(next, rules, steps.drop_first()));
        assert(next.findings == state.findings || (next.findings == state.findings.push(
            next.findings.last(),
        ) && graded_by(next.findings.last(), rules)));
        assert(out.findings.take(state.findings.len() as int) =~= out.findings.take(
            next.findings.len() as int,
        ).take(state.findings.len() as int));
        assert(next.findings.take(state.findings.len() as int) =~= state.findings);
        assert forall|i: int| state.findings.len() <= i < out.findings.len() implies graded_by(
            #[trigger] out.findings[i],
            rules,
        ) by {
            if i < next.findings.len() {
                assert(out.findings.take(next.findings.len() as int)[i] == next.findings[i]);
            }
        }
    }
}

/// Every retained finding is counted, as long as the limit keeps the count
/// below the largest one.
pub proof fn law_findings_are_counted(state: SinkState, rules: SinkRules, steps: Seq<Step>)
    requires
        rules.limits.findings < u64::MAX,
    ensures
        run(state, rules, steps).counts.findings - state.counts.findings == run(
            state,
            rules,
            steps,
        ).findings.len() - state.findings.len(),
    decreases steps.len(),
{
    if steps.len() > 0 {
        law_findings_are_counted(step(state, rules, steps[0]), rules, steps.drop_first());
    }
}

} // verus!
