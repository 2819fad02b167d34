//! Evidence aggregated from counter intervals.

use super::coverage::{span_of, SourceWindow};
use super::gauge::{EntityView, GaugeEntity};
use super::value::{normal, FiniteValue, GaugeUnit, ThresholdKind};
use crate::float64::Float64;
use crate::order::{ints, views, Keyed, Ranked};
use crate::text::{lemma_int_splits, push_int, push_seq, push_text, text_eq};
use vstd::prelude::*;

verus! {

/// How an aggregate is formed.
#[derive(Debug, Clone, Copy, PartialEq, Eq, PartialOrd, Ord, Structural)]
pub enum CounterMeasurementKind {
    Sum,
    Ratio,
    Rate,
}

impl CounterMeasurementKind {
    pub open spec fn place(self) -> int {
        match self {
            CounterMeasurementKind::Sum => 0,
            CounterMeasurementKind::Ratio => 1,
            CounterMeasurementKind::Rate => 2,
        }
    }

    /// The place of the kind in the order of evidence.
    pub fn number(self) -> (r: i128)
        ensures
            r == self.place(),
    {
        match self {
            CounterMeasurementKind::Sum => 0,
            CounterMeasurementKind::Ratio => 1,
            CounterMeasurementKind::Rate => 2,
        }
    }

    pub fn label(self) -> (r: &'static str)
        ensures
            r@ == match self {
                CounterMeasurementKind::Sum => "sum"@,
                CounterMeasurementKind::Ratio => "ratio"@,
                CounterMeasurementKind::Rate => "rate"@,
            },
    {
        match self {
            CounterMeasurementKind::Sum => "sum",
            CounterMeasurementKind::Ratio => "ratio",
            CounterMeasurementKind::Rate => "rate",
        }
    }
}

impl Ranked for CounterMeasurementKind {
    open spec fn rank(self) -> Seq<int> {
        seq![self.place()]
    }

    proof fn rank_splits(a: Self, b: Self, x: Seq<int>, y: Seq<int>) {
        lemma_int_splits(a.place(), b.place(), x, y);
    }
}

/// What an operand is for.
#[derive(Debug, Clone, Copy, PartialEq, Eq, PartialOrd, Ord, Structural)]
pub enum CounterOperandPurpose {
    Formula,
    Qualification,
    AlignedContext,
}

impl CounterOperandPurpose {
    pub open spec fn place(self) -> int {
        match self {
            CounterOperandPurpose::Formula => 0,
            CounterOperandPurpose::Qualification => 1,
            CounterOperandPurpose::AlignedContext => 2,
        }
    }

    /// The place of the purpose in the order of evidence.
    pub fn number(self) -> (r: i128)
        ensures
            r == self.place(),
    {
        match self {
            CounterOperandPurpose::Formula => 0,
            CounterOperandPurpose::Qualification => 1,
            CounterOperandPurpose::AlignedContext => 2,
        }
    }

    pub fn label(self) -> (r: &'static str)
        ensures
            r@ == match self {
                CounterOperandPurpose::Formula => "formula"@,
                CounterOperandPurpose::Qualification => "qualification"@,
                CounterOperandPurpose::AlignedContext => "aligned_context"@,
            },
    {
        match self {
            CounterOperandPurpose::Formula => "formula",
            CounterOperandPurpose::Qualification => "qualification",
            CounterOperandPurpose::AlignedContext => "aligned_context",
        }
    }
}

impl Ranked for CounterOperandPurpose {
    open spec fn rank(self) -> Seq<int> {
        seq![self.place()]
    }

    proof fn rank_splits(a: Self, b: Self, x: Seq<int>, y: Seq<int>) {
        lemma_int_splits(a.place(), b.place(), x, y);
    }
}

/// A named operand of an aggregate.
#[derive(Debug, PartialEq, Eq)]
pub struct CounterOperand {
    name: &'static str,
    value: FiniteValue,
    unit: GaugeUnit,
    purpose: CounterOperandPurpose,
}

/// The mathematical value of an operand.
#[verifier::ext_equal]
pub struct OperandView {
    pub name: Seq<char>,
    pub value: Float64,
    pub unit: GaugeUnit,
    pub purpose: CounterOperandPurpose,
}

impl View for CounterOperand {
    type V = OperandView;

    closed spec fn view(&self) -> OperandView {
        OperandView {
            name: self.name@,
            value: self.value@,
            unit: self.unit,
            purpose: self.purpose,
        }
    }
}

impl Ranked for OperandView {
    open spec fn rank(self) -> Seq<int> {
        ((self.name, self.value), (self.unit, self.purpose)).rank()
    }

    proof fn rank_splits(a: Self, b: Self, x: Seq<int>, y: Seq<int>) {
        <((Seq<char>, Float64), (GaugeUnit, CounterOperandPurpose))>::rank_splits(
            ((a.name, a.value), (a.unit, a.purpose)),
            ((b.name, b.value), (b.unit, b.purpose)),
            x,
            y,
        );
    }
}

impl Keyed<OperandView> for CounterOperand {
    fn key_into(&self, out: &mut Vec<i128>) {
        let ghost start = ints(out@);
        push_text(out, self.name);
        self.value.key_into(out);
        push_int(out, self.unit.number());
        push_int(out, self.purpose.number());
        proof {
            assert(ints(out@) =~= start + self@.rank());
        }
    }
}

/// An operand, where its name and value admit one.
pub open spec fn operand(
    name: Seq<char>,
    value: Float64,
    unit: GaugeUnit,
    purpose: CounterOperandPurpose,
) -> Option<OperandView> {
    if name.len() > 0 && (Float64 { bits: 0 }).at_most(value) && value.finite() {
        Some(OperandView { name, value: normal(value), unit, purpose })
    } else {
        None
    }
}

pub open spec fn operand_option(value: Option<CounterOperand>) -> Option<OperandView> {
    match value {
        Some(built) => Some(built@),
        None => None,
    }
}

impl CounterOperand {
    pub fn new(
        name: &'static str,
        value: Float64,
        unit: GaugeUnit,
        purpose: CounterOperandPurpose,
    ) -> (r: Option<Self>)
        ensures
            operand_option(r) == operand(name@, value, unit, purpose),
    {
        let zero = Float64 { bits: 0 };
        if name.is_empty() || !zero.less_or_equal(value) {
            return None;
        }
        match FiniteValue::new(value) {
            Some(value) => Some(CounterOperand { name, value, unit, purpose }),
            None => None,
        }
    }

    pub fn name(&self) -> (r: &'static str)
        ensures
            r@ == self@.name,
    {
        self.name
    }

    pub fn value(&self) -> (r: FiniteValue)
        ensures
            r@ == self@.value,
    {
        self.value
    }

    pub fn unit(&self) -> (r: GaugeUnit)
        ensures
            r == self@.unit,
    {
        self.unit
    }

    pub fn purpose(&self) -> (r: CounterOperandPurpose)
        ensures
            r == self@.purpose,
    {
        self.purpose
    }
}

/// What a window of counter intervals is built from.
#[derive(Debug, Clone, Copy, PartialEq, Eq, Structural)]
pub struct CounterEvidenceWindowInput {
    pub selection_from_us: i64,
    pub selection_to_us: i64,
    pub first_interval_start_us: i64,
    pub first_interval_end_us: i64,
    pub last_interval_end_us: i64,
    pub usable_intervals: usize,
    pub candidate_intervals: usize,
    pub unmatched_endpoint_intervals: usize,
    pub unusable_delta_intervals: usize,
    pub unaligned_duration_intervals: usize,
    pub numeric_limit_intervals: usize,
    pub elapsed_us: u64,
    /// Median of the usable interval durations, where enough of them exist.
    pub observed_period_us: Option<u64>,
}

impl CounterEvidenceWindowInput {
    /// Whether the intervals lie in order within the selection and every
    /// candidate is classified once.
    pub open spec fn valid(self) -> bool {
        &&& self.first_interval_start_us <= self.first_interval_end_us
        &&& self.selection_from_us <= self.first_interval_end_us
        &&& self.first_interval_end_us <= self.last_interval_end_us
        &&& self.last_interval_end_us <= self.selection_to_us
        &&& self.usable_intervals > 0
        &&& self.usable_intervals <= self.candidate_intervals
        &&& self.usable_intervals + self.unmatched_endpoint_intervals
            + self.unusable_delta_intervals + self.unaligned_duration_intervals
            + self.numeric_limit_intervals == self.candidate_intervals
        &&& self.elapsed_us > 0
    }
}

/// A window of counter intervals in which every candidate is classified.
#[derive(Debug, Clone, Copy, PartialEq, Eq)]
pub struct CounterEvidenceWindow {
    facts: CounterEvidenceWindowInput,
}

impl View for CounterEvidenceWindow {
    type V = CounterEvidenceWindowInput;

    closed spec fn view(&self) -> CounterEvidenceWindowInput {
        self.facts
    }
}

impl Ranked for CounterEvidenceWindowInput {
    open spec fn rank(self) -> Seq<int> {
        (
            (
                (self.selection_from_us, self.selection_to_us),
                (
                    self.first_interval_start_us,
                    (self.first_interval_end_us, self.last_interval_end_us),
                ),
            ),
            (
                (
                    (self.usable_intervals as int, self.candidate_intervals as int),
                    (
                        self.unmatched_endpoint_intervals as int,
                        self.unusable_delta_intervals as int,
                    ),
                ),
                (
                    (
                        self.unaligned_duration_intervals as int,
                        self.numeric_limit_intervals as int,
                    ),
                    (self.elapsed_us, self.observed_period_us),
                ),
            ),
        ).rank()
    }

    proof fn rank_splits(a: Self, b: Self, x: Seq<int>, y: Seq<int>) {
        <(
            ((i64, i64), (i64, (i64, i64))),
            (((int, int), (int, int)), ((int, int), (u64, Option<u64>))),
        )>::rank_splits(
            (
                (
                    (a.selection_from_us, a.selection_to_us),
                    (a.first_interval_start_us, (a.first_interval_end_us, a.last_interval_end_us)),
                ),
                (
                    (
                        (a.usable_intervals as int, a.candidate_intervals as int),
                        (
                            a.unmatched_endpoint_intervals as int,
                            a.unusable_delta_intervals as int,
                        ),
                    ),
                    (
                        (
                            a.unaligned_duration_intervals as int,
                            a.numeric_limit_intervals as int,
                        ),
                        (a.elapsed_us, a.observed_period_us),
                    ),
                ),
            ),
            (
                (
                    (b.selection_from_us, b.selection_to_us),
                    (b.first_interval_start_us, (b.first_interval_end_us, b.last_interval_end_us)),
                ),
                (
                    (
                        (b.usable_intervals as int, b.candidate_intervals as int),
                        (
                            b.unmatched_endpoint_intervals as int,
                            b.unusable_delta_intervals as int,
                        ),
                    ),
                    (
                        (
                            b.unaligned_duration_intervals as int,
                            b.numeric_limit_intervals as int,
                        ),
                        (b.elapsed_us, b.observed_period_us),
                    ),
                ),
            ),
            x,
            y,
        );
    }
}

impl CounterEvidenceWindow {
    #[verifier::type_invariant]
    spec fn is_valid(self) -> bool {
        self.facts.valid()
    }

    pub fn new(input: CounterEvidenceWindowInput) -> (r: Option<Self>)
        ensures
            match r {
                Some(window) => input.valid() && window@ == input,
                None => !input.valid(),
            },
    {
        let classified: u128 = input.usable_intervals as u128
            + input.unmatched_endpoint_intervals as u128 + input.unusable_delta_intervals as u128
            + input.unaligned_duration_intervals as u128 + input.numeric_limit_intervals as u128;
        if input.first_interval_start_us <= input.first_interval_end_us && input.selection_from_us
            <= input.first_interval_end_us && input.first_interval_end_us
            <= input.last_interval_end_us && input.last_interval_end_us <= input.selection_to_us
            && input.usable_intervals > 0 && input.usable_intervals <= input.candidate_intervals
            && classified == input.candidate_intervals as u128 && input.elapsed_us > 0 {
            Some(CounterEvidenceWindow { facts: input })
        } else {
            None
        }
    }

    pub fn selection_from_us(&self) -> (r: i64)
        ensures
            r == self@.selection_from_us,
    {
        self.facts.selection_from_us
    }

    pub fn selection_to_us(&self) -> (r: i64)
        ensures
            r == self@.selection_to_us,
    {
        self.facts.selection_to_us
    }

    pub fn first_interval_start_us(&self) -> (r: i64)
        ensures
            r == self@.first_interval_start_us,
    {
        self.facts.first_interval_start_us
    }

    pub fn first_interval_end_us(&self) -> (r: i64)
        ensures
            r == self@.first_interval_end_us,
    {
        self.facts.first_interval_end_us
    }

    pub fn last_interval_end_us(&self) -> (r: i64)
        ensures
            r == self@.last_interval_end_us,
    {
        self.facts.last_interval_end_us
    }

    pub fn usable_intervals(&self) -> (r: u64)
        ensures
            r == self@.usable_intervals,
    {
        self.facts.usable_intervals as u64
    }

    pub fn candidate_intervals(&self) -> (r: u64)
        ensures
            r == self@.candidate_intervals,
    {
        self.facts.candidate_intervals as u64
    }

    /// Candidates that were not usable, whatever the reason.
    pub fn excluded_intervals(&self) -> (r: u64)
        ensures
            r == self@.candidate_intervals - self@.usable_intervals,
            r == self@.unmatched_endpoint_intervals + self@.unusable_delta_intervals
                + self@.unaligned_duration_intervals + self@.numeric_limit_intervals,
    {
        proof {
            use_type_invariant(&*self);
        }
        (self.facts.candidate_intervals - self.facts.usable_intervals) as u64
    }

    pub fn unmatched_endpoint_intervals(&self) -> (r: u64)
        ensures
            r == self@.unmatched_endpoint_intervals,
    {
        self.facts.unmatched_endpoint_intervals as u64
    }

    pub fn unusable_delta_intervals(&self) -> (r: u64)
        ensures
            r == self@.unusable_delta_intervals,
    {
        self.facts.unusable_delta_intervals as u64
    }

    pub fn unaligned_duration_intervals(&self) -> (r: u64)
        ensures
            r == self@.unaligned_duration_intervals,
    {
        self.facts.unaligned_duration_intervals as u64
    }

    pub fn numeric_limit_intervals(&self) -> (r: u64)
        ensures
            r == self@.numeric_limit_intervals,
    {
        self.facts.numeric_limit_intervals as u64
    }

    pub fn elapsed_us(&self) -> (r: u64)
        ensures
            r == self@.elapsed_us,
    {
        self.facts.elapsed_us
    }

    /// Coverage of the selection by the usable intervals.
    pub fn source_window(&self) -> (r: SourceWindow)
        ensures
            r == (SourceWindow {
                window_span_us: span_of(self@.selection_from_us, self@.selection_to_us),
                observed_period_us: self@.observed_period_us,
                usable_samples: self@.usable_intervals as u64,
            }),
    {
        SourceWindow::from_bounds(
            self.facts.selection_from_us,
            self.facts.selection_to_us,
            self.facts.observed_period_us,
            self.facts.usable_intervals,
        )
    }

    /// Appends the rank to a key.
    pub fn key_into(&self, out: &mut Vec<i128>)
        ensures
            ints(final(out)@) == ints(old(out)@) + self@.rank(),
    {
        let ghost start = ints(out@);
        push_int(out, self.facts.selection_from_us as i128);
        push_int(out, self.facts.selection_to_us as i128);
        push_int(out, self.facts.first_interval_start_us as i128);
        push_int(out, self.facts.first_interval_end_us as i128);
        push_int(out, self.facts.last_interval_end_us as i128);
        push_int(out, self.facts.usable_intervals as i128);
        push_int(out, self.facts.candidate_intervals as i128);
        push_int(out, self.facts.unmatched_endpoint_intervals as i128);
        push_int(out, self.facts.unusable_delta_intervals as i128);
        push_int(out, self.facts.unaligned_duration_intervals as i128);
        push_int(out, self.facts.numeric_limit_intervals as i128);
        push_int(out, self.facts.elapsed_us as i128);
        match self.facts.observed_period_us {
            Some(period) => {
                push_int(out, 1);
                push_int(out, period as i128);
            },
            None => {
                push_int(out, 0);
            },
        }
        proof {
            assert(ints(out@) =~= start + self@.rank());
        }
    }
}

/// What counter evidence is built from.
pub struct CounterEvidenceInput {
    pub kind: CounterMeasurementKind,
    pub formula: &'static str,
    pub value: Float64,
    pub unit: GaugeUnit,
    pub threshold: Float64,
    pub threshold_kind: ThresholdKind,
    pub operands: Vec<CounterOperand>,
    pub window: CounterEvidenceWindow,
    pub entity: GaugeEntity,
}

/// An aggregate over counter intervals held against its threshold.
#[derive(Debug, PartialEq, Eq)]
pub struct CounterEvidence {
    kind: CounterMeasurementKind,
    formula: &'static str,
    value: FiniteValue,
    unit: GaugeUnit,
    threshold: FiniteValue,
    threshold_kind: ThresholdKind,
    operands: Vec<CounterOperand>,
    window: CounterEvidenceWindow,
    entity: GaugeEntity,
}

/// The mathematical value of counter evidence.
#[verifier::ext_equal]
pub struct CounterEvidenceView {
    pub kind: CounterMeasurementKind,
    pub formula: Seq<char>,
    pub value: Float64,
    pub unit: GaugeUnit,
    pub threshold: Float64,
    pub threshold_kind: ThresholdKind,
    pub operands: Seq<OperandView>,
    pub window: CounterEvidenceWindowInput,
    pub entity: EntityView,
}

impl View for CounterEvidence {
    type V = CounterEvidenceView;

    closed spec fn view(&self) -> CounterEvidenceView {
        CounterEvidenceView {
            kind: self.kind,
            formula: self.formula@,
            value: self.value@,
            unit: self.unit,
            threshold: self.threshold@,
            threshold_kind: self.threshold_kind,
            operands: views(self.operands@),
            window: self.window@,
            entity: self.entity@,
        }
    }
}

impl Ranked for CounterEvidenceView {
    closed spec fn rank(self) -> Seq<int> {
        (
            ((self.kind, self.formula), (self.value, self.unit)),
            (
                ((self.threshold, self.threshold_kind), self.operands),
                (self.window, self.entity),
            ),
        ).rank()
    }

    proof fn rank_splits(a: Self, b: Self, x: Seq<int>, y: Seq<int>) {
        <(
            ((CounterMeasurementKind, Seq<char>), (Float64, GaugeUnit)),
            (
                ((Float64, ThresholdKind), Seq<OperandView>),
                (CounterEvidenceWindowInput, EntityView),
            ),
        )>::rank_splits(
            (
                ((a.kind, a.formula), (a.value, a.unit)),
                (((a.threshold, a.threshold_kind), a.operands), (a.window, a.entity)),
            ),
            (
                ((b.kind, b.formula), (b.value, b.unit)),
                (((b.threshold, b.threshold_kind), b.operands), (b.window, b.entity)),
            ),
            x,
            y,
        );
    }
}

/// The most operands that one aggregate carries.
pub const MAX_OPERANDS: usize = 3;

pub open spec fn has_formula(operands: Seq<OperandView>) -> bool {
    exists|i: int|
        0 <= i < operands.len() && (#[trigger] operands[i]).purpose
            == CounterOperandPurpose::Formula
}

pub open spec fn names_differ(operands: Seq<OperandView>) -> bool {
    forall|i: int, j: int|
        0 <= i < j < operands.len() ==> (#[trigger] operands[i]).name != (
        #[trigger] operands[j]).name
}

/// The evidence of an aggregate.
pub open spec fn aggregate_evidence(
    kind: CounterMeasurementKind,
    formula: Seq<char>,
    value: Float64,
    unit: GaugeUnit,
    threshold: Float64,
    threshold_kind: ThresholdKind,
    operands: Seq<OperandView>,
    window: CounterEvidenceWindowInput,
    entity: EntityView,
) -> Option<CounterEvidenceView> {
    if 1 <= operands.len() <= MAX_OPERANDS && has_formula(operands) && names_differ(operands)
        && formula.len() > 0 && entity.section.len() > 0 && value.finite() && threshold.finite() {
        Some(
            CounterEvidenceView {
                kind,
                formula,
                value: normal(value),
                unit,
                threshold: normal(threshold),
                threshold_kind,
                operands,
                window,
                entity,
            },
        )
    } else {
        None
    }
}

pub open spec fn option_view(evidence: Option<CounterEvidence>) -> Option<CounterEvidenceView> {
    match evidence {
        Some(built) => Some(built@),
        None => None,
    }
}

fn check_formula(operands: &Vec<CounterOperand>) -> (r: bool)
    ensures
        r == has_formula(views(operands@)),
{
    let ghost all = views(operands@);
    let mut i: usize = 0;
    while i < operands.len()
        invariant
            i <= operands.len(),
            all == views(operands@),
            forall|j: int|
                0 <= j < i ==> (#[trigger] all[j]).purpose != CounterOperandPurpose::Formula,
        decreases operands.len() - i,
    {
        proof {
            assert(all[i as int] == operands@[i as int]@);
        }
        if operands[i].purpose() == CounterOperandPurpose::Formula {
            return true;
        }
        i = i + 1;
    }
    false
}

fn check_names(operands: &Vec<CounterOperand>) -> (r: bool)
    ensures
        r == names_differ(views(operands@)),
{
    let ghost all = views(operands@);
    let mut j: usize = 0;
    while j < operands.len()
        invariant
            j <= operands.len(),
            all == views(operands@),
            forall|a: int, b: int|
                0 <= a < b < j ==> (#[trigger] all[a]).name != (#[trigger] all[b]).name,
        decreases operands.len() - j,
    {
        let mut i: usize = 0;
        while i < j
            invariant
                i <= j,
                j < operands.len(),
                all == views(operands@),
                forall|a: int| 0 <= a < i ==> (#[trigger] all[a]).name != all[j as int].name,
            decreases j - i,
        {
            proof {
                assert(all[i as int] == operands@[i as int]@);
                assert(all[j as int] == operands@[j as int]@);
            }
            if text_eq(operands[i].name(), operands[j].name()) {
                return false;
            }
            i = i + 1;
        }
        j = j + 1;
    }
    true
}

impl CounterEvidence {
    pub fn new(input: CounterEvidenceInput) -> (r: Option<Self>)
        ensures
            option_view(r) == aggregate_evidence(
                input.kind,
                input.formula@,
                input.value,
                input.unit,
                input.threshold,
                input.threshold_kind,
                views(input.operands@),
                input.window@,
                input.entity@,
            ),
    {
        if input.operands.len() < 1 || input.operands.len() > MAX_OPERANDS {
            return None;
        }
        if !check_formula(&input.operands) || !check_names(&input.operands) {
            return None;
        }
        if input.formula.is_empty() || input.entity.section().is_empty() {
            return None;
        }
        match (FiniteValue::new(input.value), FiniteValue::new(input.threshold)) {
            (Some(value), Some(threshold)) => Some(
                CounterEvidence {
                    kind: input.kind,
                    formula: input.formula,
                    value,
                    unit: input.unit,
                    threshold,
                    threshold_kind: input.threshold_kind,
                    operands: input.operands,
                    window: input.window,
                    entity: input.entity,
                },
            ),
            _ => None,
        }
    }

    pub fn kind(&self) -> (r: CounterMeasurementKind)
        ensures
            r == self@.kind,
    {
        self.kind
    }

    pub fn formula(&self) -> (r: &'static str)
        ensures
            r@ == self@.formula,
    {
        self.formula
    }

    pub fn value(&self) -> (r: FiniteValue)
        ensures
            r@ == self@.value,
    {
        self.value
    }

    pub fn unit(&self) -> (r: GaugeUnit)
        ensures
            r == self@.unit,
    {
        self.unit
    }

    pub fn threshold(&self) -> (r: FiniteValue)
        ensures
            r@ == self@.threshold,
    {
        self.threshold
    }

    pub fn threshold_kind(&self) -> (r: ThresholdKind)
        ensures
            r == self@.threshold_kind,
    {
        self.threshold_kind
    }

    pub fn operands(&self) -> (r: &[CounterOperand])
        ensures
            views(r@) == self@.operands,
    {
        self.operands.as_slice()
    }

    pub fn window(&self) -> (r: &CounterEvidenceWindow)
        ensures
            r@ == self@.window,
    {
        &self.window
    }

    pub fn entity(&self) -> (r: &GaugeEntity)
        ensures
            r@ == self@.entity,
    {
        &self.entity
    }

    /// Appends the rank to a key.
    pub fn key_into(&self, out: &mut Vec<i128>)
        ensures
            ints(final(out)@) == ints(old(out)@) + self@.rank(),
    {
        let ghost start = ints(out@);
        push_int(out, self.kind.number());
        push_text(out, self.formula);
        self.value.key_into(out);
        push_int(out, self.unit.number());
        self.threshold.key_into(out);
        push_int(out, self.threshold_kind.number());
        push_seq(out, self.operands.as_slice());
        self.window.key_into(out);
        self.entity.key_into(out);
        proof {
            let v = self@;
            assert(v.rank() =~= (v.kind.rank() + v.formula.rank()) + (v.value.rank()
                + v.unit.rank()) + ((v.threshold.rank() + v.threshold_kind.rank()
                + v.operands.rank()) + (v.window.rank() + v.entity.rank())));
            assert(ints(out@) =~= start + self@.rank());
        }
    }
}

} // verus!
