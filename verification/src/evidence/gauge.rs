//! Evidence from gauge observations.

use super::coverage::SourceWindow;
use super::value::{normal, FiniteValue, GaugeUnit, ThresholdKind};
use crate::float64::Float64;
use crate::model::{clone_identity, IdentityValue, IdentityView};
use crate::order::{ints, views, Ranked};
use crate::text::{byte_len, push_int, push_seq, push_text};
use vstd::prelude::*;
use vstd::utf8::encode_utf8;

verus! {

/// What a gauge observation measured.
#[derive(Debug, PartialEq, Eq)]
pub enum GaugeMeasurement {
    Value { operand: &'static str, value: FiniteValue },
    Ratio {
        numerator_name: &'static str,
        numerator: FiniteValue,
        numerator_unit: GaugeUnit,
        denominator_name: &'static str,
        denominator: FiniteValue,
        denominator_unit: GaugeUnit,
    },
    Trend {
        operand: &'static str,
        first: FiniteValue,
        last: FiniteValue,
        elapsed_us: u64,
        operand_unit: GaugeUnit,
    },
}

/// The mathematical value of a measurement.
#[verifier::ext_equal]
pub enum MeasurementView {
    Value { operand: Seq<char>, value: Float64 },
    Ratio {
        numerator_name: Seq<char>,
        numerator: Float64,
        numerator_unit: GaugeUnit,
        denominator_name: Seq<char>,
        denominator: Float64,
        denominator_unit: GaugeUnit,
    },
    Trend {
        operand: Seq<char>,
        first: Float64,
        last: Float64,
        elapsed_us: u64,
        operand_unit: GaugeUnit,
    },
}

impl View for GaugeMeasurement {
    type V = MeasurementView;

    open spec fn view(&self) -> MeasurementView {
        match self {
            GaugeMeasurement::Value { operand, value } => MeasurementView::Value {
                operand: operand@,
                value: value@,
            },
            GaugeMeasurement::Ratio {
                numerator_name,
                numerator,
                numerator_unit,
                denominator_name,
                denominator,
                denominator_unit,
            } => MeasurementView::Ratio {
                numerator_name: numerator_name@,
                numerator: numerator@,
                numerator_unit: *numerator_unit,
                denominator_name: denominator_name@,
                denominator: denominator@,
                denominator_unit: *denominator_unit,
            },
            GaugeMeasurement::Trend { operand, first, last, elapsed_us, operand_unit } =>
                MeasurementView::Trend {
                operand: operand@,
                first: first@,
                last: last@,
                elapsed_us: *elapsed_us,
                operand_unit: *operand_unit,
            },
        }
    }
}

impl MeasurementView {
    /// Bytes of the operand names.
    pub open spec fn name_bytes(self) -> nat {
        match self {
            MeasurementView::Value { operand, .. } => encode_utf8(operand).len(),
            MeasurementView::Trend { operand, .. } => encode_utf8(operand).len(),
            MeasurementView::Ratio { numerator_name, denominator_name, .. } => encode_utf8(
                numerator_name,
            ).len() + encode_utf8(denominator_name).len(),
        }
    }
}

impl Ranked for MeasurementView {
    open spec fn rank(self) -> Seq<int> {
        match self {
            MeasurementView::Value { operand, value } => seq![0int] + (operand, value).rank(),
            MeasurementView::Ratio {
                numerator_name,
                numerator,
                numerator_unit,
                denominator_name,
                denominator,
                denominator_unit,
            } => seq![1int] + (
                (numerator_name, (numerator, numerator_unit)),
                (denominator_name, (denominator, denominator_unit)),
            ).rank(),
            MeasurementView::Trend { operand, first, last, elapsed_us, operand_unit } => seq![2int]
                + (operand, ((first, last), (elapsed_us, operand_unit))).rank(),
        }
    }

    proof fn rank_splits(a: Self, b: Self, x: Seq<int>, y: Seq<int>) {
        let left = a.rank() + x;
        let right = b.rank() + y;
        assert(left[0] == a.rank()[0] && right[0] == b.rank()[0]);
        match (a, b) {
            (
                MeasurementView::Value { operand: p, value: v },
                MeasurementView::Value { operand: q, value: w },
            ) => {
                assert(left.skip(1) =~= (p, v).rank() + x);
                assert(right.skip(1) =~= (q, w).rank() + y);
                <(Seq<char>, Float64)>::rank_splits((p, v), (q, w), x, y);
            },
            (
                MeasurementView::Ratio {
                    numerator_name: n1,
                    numerator: v1,
                    numerator_unit: u1,
                    denominator_name: d1,
                    denominator: w1,
                    denominator_unit: t1,
                },
                MeasurementView::Ratio {
                    numerator_name: n2,
                    numerator: v2,
                    numerator_unit: u2,
                    denominator_name: d2,
                    denominator: w2,
                    denominator_unit: t2,
                },
            ) => {
                let ta = ((n1, (v1, u1)), (d1, (w1, t1)));
                let tb = ((n2, (v2, u2)), (d2, (w2, t2)));
                assert(left.skip(1) =~= ta.rank() + x);
                assert(right.skip(1) =~= tb.rank() + y);
                <(
                    (Seq<char>, (Float64, GaugeUnit)),
                    (Seq<char>, (Float64, GaugeUnit)),
                )>::rank_splits(ta, tb, x, y);
            },
            (
                MeasurementView::Trend {
                    operand: p1,
                    first: f1,
                    last: l1,
                    elapsed_us: e1,
                    operand_unit: u1,
                },
                MeasurementView::Trend {
                    operand: p2,
                    first: f2,
                    last: l2,
                    elapsed_us: e2,
                    operand_unit: u2,
                },
            ) => {
                let ta = (p1, ((f1, l1), (e1, u1)));
                let tb = (p2, ((f2, l2), (e2, u2)));
                assert(left.skip(1) =~= ta.rank() + x);
                assert(right.skip(1) =~= tb.rank() + y);
                <(Seq<char>, ((Float64, Float64), (u64, GaugeUnit)))>::rank_splits(ta, tb, x, y);
            },
            _ => {},
        }
    }
}

impl GaugeMeasurement {
    /// Appends the rank to a key.
    pub fn key_into(&self, out: &mut Vec<i128>)
        ensures
            ints(final(out)@) == ints(old(out)@) + self@.rank(),
    {
        let ghost start = ints(out@);
        match self {
            GaugeMeasurement::Value { operand, value } => {
                push_int(out, 0);
                push_text(out, operand);
                value.key_into(out);
            },
            GaugeMeasurement::Ratio {
                numerator_name,
                numerator,
                numerator_unit,
                denominator_name,
                denominator,
                denominator_unit,
            } => {
                push_int(out, 1);
                push_text(out, numerator_name);
                numerator.key_into(out);
                push_int(out, numerator_unit.number());
                push_text(out, denominator_name);
                denominator.key_into(out);
                push_int(out, denominator_unit.number());
            },
            GaugeMeasurement::Trend { operand, first, last, elapsed_us, operand_unit } => {
                push_int(out, 2);
                push_text(out, operand);
                first.key_into(out);
                last.key_into(out);
                push_int(out, *elapsed_us as i128);
                push_int(out, operand_unit.number());
            },
        }
        proof {
            assert(ints(out@) =~= start + self@.rank());
        }
    }
}

/// Two operands of a ratio and the unit of its result.
#[derive(Debug, Clone, Copy)]
pub struct GaugeRatio {
    pub numerator_name: &'static str,
    pub numerator: Float64,
    pub numerator_unit: GaugeUnit,
    pub denominator_name: &'static str,
    pub denominator: Float64,
    pub denominator_unit: GaugeUnit,
    pub result_unit: GaugeUnit,
}

/// What a trend is built from.
pub struct GaugeTrendInput {
    pub operand: &'static str,
    pub first: Float64,
    pub last: Float64,
    pub operand_unit: GaugeUnit,
    pub threshold_per_second: Float64,
    pub threshold_kind: ThresholdKind,
    pub first_at_us: i64,
    pub last_at_us: i64,
    pub samples: usize,
    pub source_window: SourceWindow,
    pub entity: GaugeEntity,
}

/// What a single value is built from.
pub struct GaugeValueInput {
    pub operand: &'static str,
    pub value: Float64,
    pub unit: GaugeUnit,
    pub threshold: Float64,
    pub threshold_kind: ThresholdKind,
    pub observed_at_us: i64,
    pub samples: usize,
    pub source_window: SourceWindow,
    pub entity: GaugeEntity,
}

impl GaugeRatio {
    /// A ratio of two operands of one unit.
    pub fn new(
        numerator_name: &'static str,
        numerator: Float64,
        denominator_name: &'static str,
        denominator: Float64,
        operand_unit: GaugeUnit,
    ) -> (r: Self)
        ensures
            r == (GaugeRatio {
                numerator_name,
                numerator,
                numerator_unit: operand_unit,
                denominator_name,
                denominator,
                denominator_unit: operand_unit,
                result_unit: GaugeUnit::Ratio,
            }),
    {
        GaugeRatio {
            numerator_name,
            numerator,
            numerator_unit: operand_unit,
            denominator_name,
            denominator,
            denominator_unit: operand_unit,
            result_unit: GaugeUnit::Ratio,
        }
    }

    pub fn with_units(
        numerator_name: &'static str,
        numerator: Float64,
        numerator_unit: GaugeUnit,
        denominator_name: &'static str,
        denominator: Float64,
        denominator_unit: GaugeUnit,
        result_unit: GaugeUnit,
    ) -> (r: Self)
        ensures
            r == (GaugeRatio {
                numerator_name,
                numerator,
                numerator_unit,
                denominator_name,
                denominator,
                denominator_unit,
                result_unit,
            }),
    {
        GaugeRatio {
            numerator_name,
            numerator,
            numerator_unit,
            denominator_name,
            denominator,
            denominator_unit,
            result_unit,
        }
    }
}

/// The observed entity: a section and an identity in it.
#[derive(Debug, PartialEq, Eq, PartialOrd, Ord)]
pub struct GaugeEntity {
    section: &'static str,
    identity: Vec<IdentityValue>,
}

/// The mathematical value of an entity.
#[verifier::ext_equal]
pub struct EntityView {
    pub section: Seq<char>,
    pub identity: Seq<IdentityView>,
}

impl View for GaugeEntity {
    type V = EntityView;

    closed spec fn view(&self) -> EntityView {
        EntityView { section: self.section@, identity: views(self.identity@) }
    }
}

impl Clone for GaugeEntity {
    fn clone(&self) -> (r: Self)
        ensures
            r@ == self@,
    {
        GaugeEntity { section: self.section, identity: clone_identity(&self.identity) }
    }
}

impl Ranked for EntityView {
    open spec fn rank(self) -> Seq<int> {
        (self.section, self.identity).rank()
    }

    proof fn rank_splits(a: Self, b: Self, x: Seq<int>, y: Seq<int>) {
        <(Seq<char>, Seq<IdentityView>)>::rank_splits(
            (a.section, a.identity),
            (b.section, b.identity),
            x,
            y,
        );
    }
}

impl GaugeEntity {
    pub fn new(section: &'static str, identity: Vec<IdentityValue>) -> (r: Self)
        ensures
            r@ == (EntityView { section: section@, identity: views(identity@) }),
    {
        GaugeEntity { section, identity }
    }

    pub fn section(&self) -> (r: &'static str)
        ensures
            r@ == self@.section,
    {
        self.section
    }

    pub fn identity(&self) -> (r: &[IdentityValue])
        ensures
            views(r@) == self@.identity,
    {
        self.identity.as_slice()
    }

    /// Appends the rank to a key.
    pub fn key_into(&self, out: &mut Vec<i128>)
        ensures
            ints(final(out)@) == ints(old(out)@) + self@.rank(),
    {
        let ghost start = ints(out@);
        push_text(out, self.section);
        push_seq(out, self.identity.as_slice());
        proof {
            assert(ints(out@) =~= start + self@.rank());
        }
    }
}

/// A gauge observation held against its threshold.
#[derive(Debug, PartialEq, Eq)]
pub struct GaugeEvidence {
    measurement: GaugeMeasurement,
    unit: GaugeUnit,
    threshold: FiniteValue,
    threshold_kind: ThresholdKind,
    observed_at_us: i64,
    samples: u64,
    source_window: SourceWindow,
    entity: GaugeEntity,
}

/// The mathematical value of gauge evidence.
#[verifier::ext_equal]
pub struct GaugeEvidenceView {
    pub measurement: MeasurementView,
    pub unit: GaugeUnit,
    pub threshold: Float64,
    pub threshold_kind: ThresholdKind,
    pub observed_at_us: i64,
    pub samples: u64,
    pub source_window: SourceWindow,
    pub entity: EntityView,
}

impl View for GaugeEvidence {
    type V = GaugeEvidenceView;

    closed spec fn view(&self) -> GaugeEvidenceView {
        GaugeEvidenceView {
            measurement: self.measurement@,
            unit: self.unit,
            threshold: self.threshold@,
            threshold_kind: self.threshold_kind,
            observed_at_us: self.observed_at_us,
            samples: self.samples,
            source_window: self.source_window,
            entity: self.entity@,
        }
    }
}

impl Ranked for GaugeEvidenceView {
    closed spec fn rank(self) -> Seq<int> {
        (
            (self.measurement, (self.unit, self.threshold)),
            (
                (self.threshold_kind, (self.observed_at_us, self.samples)),
                (self.source_window, self.entity),
            ),
        ).rank()
    }

    proof fn rank_splits(a: Self, b: Self, x: Seq<int>, y: Seq<int>) {
        <(
            (MeasurementView, (GaugeUnit, Float64)),
            ((ThresholdKind, (i64, u64)), (SourceWindow, EntityView)),
        )>::rank_splits(
            (
                (a.measurement, (a.unit, a.threshold)),
                (
                    (a.threshold_kind, (a.observed_at_us, a.samples)),
                    (a.source_window, a.entity),
                ),
            ),
            (
                (b.measurement, (b.unit, b.threshold)),
                (
                    (b.threshold_kind, (b.observed_at_us, b.samples)),
                    (b.source_window, b.entity),
                ),
            ),
            x,
            y,
        );
    }
}

/// The evidence of a single value.
pub open spec fn value_evidence(
    operand: Seq<char>,
    value: Float64,
    unit: GaugeUnit,
    threshold: Float64,
    threshold_kind: ThresholdKind,
    observed_at_us: i64,
    samples: usize,
    source_window: SourceWindow,
    entity: EntityView,
) -> Option<GaugeEvidenceView> {
    if samples > 0 && operand.len() > 0 && entity.section.len() > 0 && value.finite()
        && threshold.finite() {
        Some(
            GaugeEvidenceView {
                measurement: MeasurementView::Value { operand, value: normal(value) },
                unit,
                threshold: normal(threshold),
                threshold_kind,
                observed_at_us,
                samples: samples as u64,
                source_window,
                entity,
            },
        )
    } else {
        None
    }
}

/// The evidence of a ratio between two operands.
pub open spec fn ratio_evidence(
    numerator_name: Seq<char>,
    numerator: Float64,
    numerator_unit: GaugeUnit,
    denominator_name: Seq<char>,
    denominator: Float64,
    denominator_unit: GaugeUnit,
    result_unit: GaugeUnit,
    threshold: Float64,
    threshold_kind: ThresholdKind,
    observed_at_us: i64,
    samples: usize,
    source_window: SourceWindow,
    entity: EntityView,
) -> Option<GaugeEvidenceView> {
    if (Float64 { bits: 0 }).below(denominator) && numerator_name.len() > 0
        && denominator_name.len() > 0 && numerator.quotient_by(denominator).finite() && samples > 0
        && entity.section.len() > 0 && numerator.finite() && denominator.finite()
        && threshold.finite() {
        Some(
            GaugeEvidenceView {
                measurement: MeasurementView::Ratio {
                    numerator_name,
                    numerator: normal(numerator),
                    numerator_unit,
                    denominator_name,
                    denominator: normal(denominator),
                    denominator_unit,
                },
                unit: result_unit,
                threshold: normal(threshold),
                threshold_kind,
                observed_at_us,
                samples: samples as u64,
                source_window,
                entity,
            },
        )
    } else {
        None
    }
}

/// The evidence of a change over time.
pub open spec fn trend_evidence(
    operand: Seq<char>,
    first: Float64,
    last: Float64,
    operand_unit: GaugeUnit,
    threshold_per_second: Float64,
    threshold_kind: ThresholdKind,
    first_at_us: i64,
    last_at_us: i64,
    samples: usize,
    source_window: SourceWindow,
    entity: EntityView,
) -> Option<GaugeEvidenceView> {
    let elapsed = last_at_us - first_at_us;
    if 0 < elapsed <= i64::MAX && last.sum_with(first.negated()).quotient_by(
        Float64::seconds(elapsed as u64),
    ).finite() && samples >= 2 && operand.len() > 0 && entity.section.len() > 0 && first.finite()
        && last.finite() && threshold_per_second.finite() {
        Some(
            GaugeEvidenceView {
                measurement: MeasurementView::Trend {
                    operand,
                    first: normal(first),
                    last: normal(last),
                    elapsed_us: elapsed as u64,
                    operand_unit,
                },
                unit: GaugeUnit::BytesPerSecond,
                threshold: normal(threshold_per_second),
                threshold_kind,
                observed_at_us: last_at_us,
                samples: samples as u64,
                source_window,
                entity,
            },
        )
    } else {
        None
    }
}

/// The view of optional evidence.
pub open spec fn option_view(evidence: Option<GaugeEvidence>) -> Option<GaugeEvidenceView> {
    match evidence {
        Some(built) => Some(built@),
        None => None,
    }
}

impl GaugeEvidence {
    pub fn value(input: GaugeValueInput) -> (r: Option<Self>)
        ensures
            option_view(r) == value_evidence(
                input.operand@,
                input.value,
                input.unit,
                input.threshold,
                input.threshold_kind,
                input.observed_at_us,
                input.samples,
                input.source_window,
                input.entity@,
            ),
    {
        if input.samples == 0 || input.operand.is_empty() || input.entity.section().is_empty() {
            return None;
        }
        match (FiniteValue::new(input.value), FiniteValue::new(input.threshold)) {
            (Some(value), Some(threshold)) => Some(
                GaugeEvidence {
                    measurement: GaugeMeasurement::Value { operand: input.operand, value },
                    unit: input.unit,
                    threshold,
                    threshold_kind: input.threshold_kind,
                    observed_at_us: input.observed_at_us,
                    samples: input.samples as u64,
                    source_window: input.source_window,
                    entity: input.entity,
                },
            ),
            _ => None,
        }
    }

    pub fn ratio(
        ratio: GaugeRatio,
        threshold: Float64,
        threshold_kind: ThresholdKind,
        observed_at_us: i64,
        samples: usize,
        source_window: SourceWindow,
        entity: GaugeEntity,
    ) -> (r: Option<Self>)
        ensures
            option_view(r) == ratio_evidence(
                ratio.numerator_name@,
                ratio.numerator,
                ratio.numerator_unit,
                ratio.denominator_name@,
                ratio.denominator,
                ratio.denominator_unit,
                ratio.result_unit,
                threshold,
                threshold_kind,
                observed_at_us,
                samples,
                source_window,
                entity@,
            ),
    {
        let zero = Float64 { bits: 0 };
        if !zero.less(ratio.denominator) || ratio.numerator_name.is_empty()
            || ratio.denominator_name.is_empty() {
            return None;
        }
        if !ratio.numerator.divided_by(ratio.denominator).is_finite() {
            return None;
        }
        if samples == 0 || entity.section().is_empty() {
            return None;
        }
        match (
            FiniteValue::new(ratio.numerator),
            FiniteValue::new(ratio.denominator),
            FiniteValue::new(threshold),
        ) {
            (Some(numerator), Some(denominator), Some(threshold)) => Some(
                GaugeEvidence {
                    measurement: GaugeMeasurement::Ratio {
                        numerator_name: ratio.numerator_name,
                        numerator,
                        numerator_unit: ratio.numerator_unit,
                        denominator_name: ratio.denominator_name,
                        denominator,
                        denominator_unit: ratio.denominator_unit,
                    },
                    unit: ratio.result_unit,
                    threshold,
                    threshold_kind,
                    observed_at_us,
                    samples: samples as u64,
                    source_window,
                    entity,
                },
            ),
            _ => None,
        }
    }

    pub fn trend(input: GaugeTrendInput) -> (r: Option<Self>)
        ensures
            option_view(r) == trend_evidence(
                input.operand@,
                input.first,
                input.last,
                input.operand_unit,
                input.threshold_per_second,
                input.threshold_kind,
                input.first_at_us,
                input.last_at_us,
                input.samples,
                input.source_window,
                input.entity@,
            ),
    {
        let elapsed: i128 = input.last_at_us as i128 - input.first_at_us as i128;
        if elapsed <= 0 || elapsed > i64::MAX as i128 {
            return None;
        }
        let elapsed_us: u64 = elapsed as u64;
        let seconds: Float64 = Float64::seconds_from_micros(elapsed_us);
        if !input.last.minus(input.first).divided_by(seconds).is_finite() {
            return None;
        }
        if input.samples < 2 || input.operand.is_empty() || input.entity.section().is_empty() {
            return None;
        }
        match (
            FiniteValue::new(input.first),
            FiniteValue::new(input.last),
            FiniteValue::new(input.threshold_per_second),
        ) {
            (Some(first), Some(last), Some(threshold)) => Some(
                GaugeEvidence {
                    measurement: GaugeMeasurement::Trend {
                        operand: input.operand,
                        first,
                        last,
                        elapsed_us,
                        operand_unit: input.operand_unit,
                    },
                    unit: GaugeUnit::BytesPerSecond,
                    threshold,
                    threshold_kind: input.threshold_kind,
                    observed_at_us: input.last_at_us,
                    samples: input.samples as u64,
                    source_window: input.source_window,
                    entity: input.entity,
                },
            ),
            _ => None,
        }
    }

    pub fn measurement(&self) -> (r: &GaugeMeasurement)
        ensures
            r@ == self@.measurement,
    {
        &self.measurement
    }

    pub fn unit(&self) -> (r: GaugeUnit)
        ensures
            r == self@.unit,
    {
        self.unit
    }

    pub fn threshold(&self) -> (r: FiniteValue)
        ensures
            r@ == self@.threshold,
    {
        self.threshold
    }

    pub fn threshold_kind(&self) -> (r: ThresholdKind)
        ensures
            r == self@.threshold_kind,
    {
        self.threshold_kind
    }

    pub fn observed_at_us(&self) -> (r: i64)
        ensures
            r == self@.observed_at_us,
    {
        self.observed_at_us
    }

    pub fn samples(&self) -> (r: u64)
        ensures
            r == self@.samples,
    {
        self.samples
    }

    pub fn source_window(&self) -> (r: SourceWindow)
        ensures
            r == self@.source_window,
    {
        self.source_window
    }

    pub fn entity(&self) -> (r: &GaugeEntity)
        ensures
            r@ == self@.entity,
    {
        &self.entity
    }

    /// Bytes of the operand names.
    pub fn operand_name_bytes(&self) -> (r: u64)
        ensures
            r == super::finding::sat(self@.measurement.name_bytes()),
    {
        match &self.measurement {
            GaugeMeasurement::Value { operand, .. } => byte_len(operand),
            GaugeMeasurement::Trend { operand, .. } => byte_len(operand),
            GaugeMeasurement::Ratio { numerator_name, denominator_name, .. } =>
                super::finding::sat_sum(byte_len(numerator_name), byte_len(denominator_name)),
        }
    }

    /// Appends the rank to a key.
    pub fn key_into(&self, out: &mut Vec<i128>)
        ensures
            ints(final(out)@) == ints(old(out)@) + self@.rank(),
    {
        let ghost start = ints(out@);
        self.measurement.key_into(out);
        push_int(out, self.unit.number());
        self.threshold.key_into(out);
        push_int(out, self.threshold_kind.number());
        push_int(out, self.observed_at_us as i128);
        push_int(out, self.samples as i128);
        self.source_window.key_into(out);
        self.entity.key_into(out);
        proof {
            let v = self@;
            assert(v.rank() =~= v.measurement.rank() + (v.unit.rank() + v.threshold.rank()) + (
            v.threshold_kind.rank() + (v.observed_at_us.rank() + v.samples.rank()) + (
            v.source_window.rank() + v.entity.rank())));
            assert(ints(out@) =~= start + self@.rank());
        }
    }
}

} // verus!
