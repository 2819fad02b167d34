//! Linux host lenses over bounded counter and gauge evidence.

use crate::active::observe::{draft_observations, entity_of, observations_draft};
use crate::active::shared::{evaluate_first_member, first_member_steps};
use crate::cluster::{Cluster, ClusterView};
use crate::digest::{hex, sha256_digest, short_sha256};
use crate::dispatch::{texts, LimitHit, SectionColumn};
use crate::engine::EvalContext;
use crate::evidence::confidence::{ConfidenceCap, Role};
use crate::evidence::coverage::SourceWindow;
use crate::evidence::finding::{DraftView, FindingDraft};
use crate::evidence::gauge::{
    option_view, ratio_evidence, value_evidence, EntityView, GaugeEntity, GaugeEvidence,
    GaugeEvidenceView, GaugeRatio, GaugeValueInput,
};
use crate::evidence::sink::{lemma_run_concat, lemma_stopped, run, FindingSink, SinkView, Step};
use crate::evidence::value::{GaugeUnit, ThresholdKind};
use crate::float64::{Float64, ONE};
use crate::inspect::{
    charge, draft_view, emit_optional, emitted, lemma_first_part_refused, lemma_two_parts,
    MemberLens,
};
use crate::lens::{reported, Lens};
use crate::model::{
    be, clone_identity, push_be, twos_complement, wrapped, EpisodeRefV1, EpisodeView, IdentityValue,
    IdentityView,
};
use crate::order::{ints, ranked_sort, sort_ranked, views, Keyed, Ranked};
use crate::query_plan::{total, total_from};
use crate::series::{SeriesSet, SeriesSetView};
use crate::text::{lemma_views_push, push_int, push_seq};
use crate::typed::counter::{AlignedSums, AlignedView};
use crate::typed::gauge::{capped, max_reading, GaugePoint, GaugeReading};
use crate::typed::inputs::{aligned_option, identity_lists, TypedInputs, TypedView};
use crate::typed::snapshot::ProcessMoment;
use vstd::prelude::*;

verus! {

pub const OS_CPU: &'static str = "os_cpu";

pub const OS_PSI: &'static str = "os_psi";

pub const OS_DISKSTATS: &'static str = "os_diskstats";

pub const OS_PROCESS: &'static str = "os_process";

pub const OS_CGROUP_IO: &'static str = "os_cgroup_io";

/// Appends evidence to a list, if there is some.
pub open spec fn with_evidence(
    list: Seq<GaugeEvidenceView>,
    next: Option<GaugeEvidenceView>,
) -> Seq<GaugeEvidenceView> {
    match next {
        Some(found) => list.push(found),
        None => list,
    }
}

fn push_evidence(list: &mut Vec<GaugeEvidence>, next: Option<GaugeEvidence>)
    ensures
        views(final(list)@) == with_evidence(views(old(list)@), option_view(next)),
{
    match next {
        Some(found) => {
            proof {
                lemma_views_push(list@, found);
            }
            list.push(found);
        },
        None => {},
    }
}

/// The draft about a member, if there is any evidence.
pub open spec fn evidence_draft(member: EpisodeView, evidence: Seq<GaugeEvidenceView>) -> Option<
    DraftView,
> {
    if evidence.len() == 0 {
        None
    } else {
        Some(observations_draft(Role::Coincident, member, evidence))
    }
}

fn draft_evidence(member: &EpisodeRefV1, evidence: Vec<GaugeEvidence>) -> (r: Option<FindingDraft>)
    ensures
        draft_view(r) == evidence_draft(member@, views(evidence@)),
{
    if evidence.len() == 0 {
        None
    } else {
        Some(draft_observations(Role::Coincident, member, evidence))
    }
}

/// What reading a gauge window is paid with.
pub open spec fn window_charge(points: Option<Seq<GaugePoint>>) -> Seq<Step> {
    match points {
        Some(found) => seq![Step::Charge(found.len() as usize)],
        None => Seq::empty(),
    }
}

/// The highest reading of a window.
pub open spec fn window_max(points: Option<Seq<GaugePoint>>, context: EvalContext) -> Option<
    GaugeReading,
> {
    match points {
        Some(found) => max_reading(found, context.incident_start_us, context.incident_end_us),
        None => None,
    }
}

/// Pays for a gauge window, if there is one, and reads its maximum.
fn read_max(
    typed: &TypedInputs,
    section: &'static str,
    column: &'static str,
    identity: &[IdentityValue],
    context: &EvalContext,
    sink: &mut FindingSink<'_>,
) -> (r: Result<Option<GaugeReading>, LimitHit>)
    ensures
        ({
            let points = typed@.gauge_points(
                section@,
                column@,
                views(identity@),
                context.incident_start_us,
                context.incident_end_us,
            );
            &&& reported(
                old(sink)@,
                final(sink)@,
                window_charge(points),
                match r {
                    Ok(_) => Ok(()),
                    Err(hit) => Err(hit),
                },
            )
            &&& r matches Ok(reading) ==> reading == window_max(points, *context)
        }),
        *final(final(sink).findings) == *final(old(sink).findings),
        *final(final(sink).budget) == *final(old(sink).budget),
        *final(final(sink).counts) == *final(old(sink).counts),
{
    let window = match typed.gauge_window(
        section,
        column,
        identity,
        context.incident_start_us,
        context.incident_end_us,
    ) {
        Some(window) => window,
        None => {
            return Ok(None);
        },
    };
    match charge(sink, window.inspected_points()) {
        Ok(_) => Ok(window.max()),
        Err(hit) => Err(hit),
    }
}

/// Fewest shared intervals behind a host finding.
pub const MIN_INTERVALS: usize = 3;

/// 0.8 of the time busy.
pub const BUSY_FLOOR: u64 = 0x3fe9_9999_9999_999a;

/// 0.05 of the time stolen.
pub const STEAL_FLOOR: u64 = 0x3fa9_9999_9999_999a;

/// 100.0: a percentage of the whole.
pub const PERCENT: u64 = 0x4059_0000_0000_0000;

/// `OS-CPU-020`: a busy host, from the ticks of all processors together.
pub struct HostCpuLens;

/// The tick counters. Guest time is part of the user ticks already, so it has
/// no column of its own here.
#[verifier::opaque]
pub open spec fn cpu_columns() -> Seq<Seq<char>> {
    seq![
        "user"@,
        "nice"@,
        "system"@,
        "idle"@,
        "iowait"@,
        "irq"@,
        "softirq"@,
        "steal"@,
    ]
}

/// The identity of all processors together.
pub open spec fn all_processors() -> Seq<IdentityView> {
    seq![IdentityView::I64((-1) as i64)]
}

/// The identity of the host's processor pressure.
pub open spec fn cpu_pressure() -> Seq<IdentityView> {
    seq![IdentityView::U64(0)]
}

/// Whether no number of a list is negative.
pub open spec fn none_negative(values: Seq<Float64>) -> bool {
    forall|i: int| 0 <= i < values.len() ==> !(#[trigger] values[i]).below(Float64 { bits: 0 })
}

/// Ticks that were neither idle nor waiting for devices.
pub open spec fn busy_ticks(sums: Seq<Float64>) -> Float64 {
    total(sums).sum_with(sums[3].negated()).sum_with(sums[4].negated())
}

/// Whether the ticks show a busy host or stolen time.
pub open spec fn cpu_pressed(sums: AlignedView) -> bool {
    let zero = Float64 { bits: 0 };
    let ticks = total(sums.sums);
    let busy_share = busy_ticks(sums.sums).quotient_by(ticks);
    let steal_share = sums.sums[7].quotient_by(ticks);
    &&& sums.intervals >= MIN_INTERVALS
    &&& none_negative(sums.sums)
    &&& !ticks.at_most(zero)
    &&& !busy_ticks(sums.sums).below(zero)
    &&& busy_share.finite()
    &&& steal_share.finite()
    &&& !busy_share.below(Float64 { bits: BUSY_FLOOR }) || !steal_share.below(
        Float64 { bits: STEAL_FLOOR },
    )
}

/// A share of all ticks.
pub open spec fn tick_share(
    name: Seq<char>,
    ticks: Float64,
    threshold: Float64,
    sums: AlignedView,
) -> Option<GaugeEvidenceView> {
    ratio_evidence(
        name,
        ticks,
        GaugeUnit::Count,
        "total_ticks"@,
        total(sums.sums),
        GaugeUnit::Count,
        GaugeUnit::Ratio,
        threshold,
        ThresholdKind::AtLeast,
        sums.last_end_us,
        sums.intervals,
        sums.source_window,
        entity_of(OS_CPU@, all_processors()),
    )
}

/// The busy, stolen and waiting shares.
pub open spec fn cpu_evidence(sums: Option<AlignedView>) -> Option<Seq<GaugeEvidenceView>> {
    match sums {
        Some(found) => if cpu_pressed(found) {
            match (
                tick_share(
                    "busy_ticks"@,
                    busy_ticks(found.sums),
                    Float64 { bits: BUSY_FLOOR },
                    found,
                ),
                tick_share("steal_ticks"@, found.sums[7], Float64 { bits: STEAL_FLOOR }, found),
                tick_share("iowait_ticks"@, found.sums[4], Float64 { bits: 0 }, found),
            ) {
                (Some(a), Some(b), Some(c)) => Some(seq![a, b, c]),
                _ => None,
            }
        } else {
            None
        },
        None => None,
    }
}

/// The highest processor pressure, as a share of the time.
pub open spec fn psi_evidence(reading: Option<GaugeReading>) -> Option<GaugeEvidenceView> {
    match reading {
        Some(found) => if (Float64 { bits: 0 }).at_most(found.value) && found.value.at_most(
            Float64 { bits: PERCENT },
        ) {
            value_evidence(
                "some_avg10"@,
                found.value.quotient_by(Float64 { bits: PERCENT }),
                GaugeUnit::Ratio,
                Float64 { bits: 0 },
                ThresholdKind::AtLeast,
                found.observed_at_us,
                found.samples,
                found.source_window,
                entity_of(OS_PSI@, cpu_pressure()),
            )
        } else {
            None
        },
        None => None,
    }
}

/// The pressure readings of an incident.
pub open spec fn psi_points(typed: TypedView, context: EvalContext) -> Option<Seq<GaugePoint>> {
    typed.gauge_points(
        OS_PSI@,
        "some_avg10"@,
        cpu_pressure(),
        context.incident_start_us,
        context.incident_end_us,
    )
}

/// Reports about the processors: the pressure is read only beside the ticks.
pub open spec fn cpu_steps(member: EpisodeView, typed: TypedView, context: EvalContext) -> Seq<
    Step,
> {
    let sums = typed.aligned_sums(
        OS_CPU@,
        all_processors(),
        cpu_columns(),
        context.incident_start_us,
        context.incident_end_us,
    );
    let points = psi_points(typed, context);
    seq![Step::Charge(capped(typed.counter_points(OS_CPU@, all_processors(), cpu_columns())))]
        + match cpu_evidence(sums) {
        Some(evidence) => window_charge(points) + emitted(
            evidence_draft(
                member,
                with_evidence(evidence, psi_evidence(window_max(points, context))),
            ),
        ),
        None => Seq::empty(),
    }
}

fn check_none_negative(values: &Vec<Float64>) -> (r: bool)
    ensures
        r == none_negative(values@),
{
    let zero = Float64 { bits: 0 };
    let mut i: usize = 0;
    while i < values.len()
        invariant
            i <= values.len(),
            zero == (Float64 { bits: 0 }),
            forall|j: int| 0 <= j < i ==> !(#[trigger] values@[j]).below(Float64 { bits: 0 }),
        decreases values.len() - i,
    {
        if values[i].less(zero) {
            assert(values@[i as int].below(Float64 { bits: 0 }));
            return false;
        }
        i = i + 1;
    }
    true
}

impl HostCpuLens {
    fn share(
        name: &'static str,
        ticks: Float64,
        all: Float64,
        threshold: Float64,
        sums: &AlignedSums,
    ) -> (r: Option<GaugeEvidence>)
        requires
            all == total(sums@.sums),
        ensures
            option_view(r) == tick_share(name@, ticks, threshold, sums@),
    {
        let mut identity: Vec<IdentityValue> = Vec::new();
        identity.push(IdentityValue::I64(-1));
        proof {
            assert(views(identity@) =~= all_processors());
        }
        GaugeEvidence::ratio(
            GaugeRatio::new(name, ticks, "total_ticks", all, GaugeUnit::Count),
            threshold,
            ThresholdKind::AtLeast,
            sums.last_end_us,
            sums.intervals,
            sums.source_window,
            GaugeEntity::new(OS_CPU, identity),
        )
    }

    fn measure(sums: &AlignedSums) -> (r: Option<Vec<GaugeEvidence>>)
        requires
            sums.sums.len() == 8,
        ensures
            match r {
                Some(list) => cpu_evidence(Some(sums@)) == Some(views(list@)),
                None => cpu_evidence(Some(sums@)) is None,
            },
    {
        let zero = Float64 { bits: 0 };
        let busy_floor = Float64 { bits: BUSY_FLOOR };
        let steal_floor = Float64 { bits: STEAL_FLOOR };
        if sums.intervals < MIN_INTERVALS || !check_none_negative(&sums.sums) {
            return None;
        }
        let ticks: Float64 = total_from(&sums.sums, 0);
        proof {
            assert(sums.sums@.skip(0) =~= sums.sums@);
        }
        let iowait: Float64 = sums.sums[4];
        let steal: Float64 = sums.sums[7];
        let busy: Float64 = ticks.minus(sums.sums[3]).minus(iowait);
        if ticks.less_or_equal(zero) || busy.less(zero) {
            return None;
        }
        let busy_share: Float64 = busy.divided_by(ticks);
        let steal_share: Float64 = steal.divided_by(ticks);
        if !busy_share.is_finite() || !steal_share.is_finite() || (busy_share.less(busy_floor)
            && steal_share.less(steal_floor)) {
            return None;
        }
        match (
            Self::share("busy_ticks", busy, ticks, busy_floor, sums),
            Self::share("steal_ticks", steal, ticks, steal_floor, sums),
            Self::share("iowait_ticks", iowait, ticks, zero, sums),
        ) {
            (Some(a), Some(b), Some(c)) => {
                let ghost all = seq![a@, b@, c@];
                let mut list: Vec<GaugeEvidence> = Vec::new();
                list.push(a);
                list.push(b);
                list.push(c);
                proof {
                    assert(views(list@) =~= all);
                }
                Some(list)
            },
            _ => None,
        }
    }

    /// Pays for the processor pressure and appends its highest reading.
    fn append_psi_evidence(
        typed: &TypedInputs,
        context: &EvalContext,
        sink: &mut FindingSink<'_>,
        evidence: &mut Vec<GaugeEvidence>,
    ) -> (r: Result<(), LimitHit>)
        ensures
            reported(old(sink)@, final(sink)@, window_charge(psi_points(typed@, *context)), r),
            r is Ok ==> views(final(evidence)@) == with_evidence(
                views(old(evidence)@),
                psi_evidence(window_max(psi_points(typed@, *context), *context)),
            ),
            *final(final(sink).findings) == *final(old(sink).findings),
            *final(final(sink).budget) == *final(old(sink).budget),
            *final(final(sink).counts) == *final(old(sink).counts),
    {
        let mut identity: Vec<IdentityValue> = Vec::new();
        identity.push(IdentityValue::U64(0));
        proof {
            assert(views(identity@) =~= cpu_pressure());
        }
        let reading: Option<GaugeReading> = match read_max(
            typed,
            OS_PSI,
            "some_avg10",
            identity.as_slice(),
            context,
            sink,
        ) {
            Ok(reading) => reading,
            Err(hit) => {
                return Err(hit);
            },
        };
        let zero = Float64 { bits: 0 };
        let percent = Float64 { bits: PERCENT };
        if let Some(found) = reading {
            if zero.less_or_equal(found.value) && found.value.less_or_equal(percent) {
                push_evidence(
                    evidence,
                    GaugeEvidence::value(
                        GaugeValueInput {
                            operand: "some_avg10",
                            value: found.value.divided_by(percent),
                            unit: GaugeUnit::Ratio,
                            threshold: zero,
                            threshold_kind: ThresholdKind::AtLeast,
                            observed_at_us: found.observed_at_us,
                            samples: found.samples,
                            source_window: found.source_window,
                            entity: GaugeEntity::new(OS_PSI, identity),
                        },
                    ),
                );
            }
        }
        Ok(())
    }
}

impl MemberLens for HostCpuLens {
    open spec fn member_steps(
        &self,
        member: EpisodeView,
        typed: TypedView,
        context: EvalContext,
    ) -> Seq<Step> {
        cpu_steps(member, typed, context)
    }

    fn evaluate_member(
        &self,
        member: &EpisodeRefV1,
        typed: &TypedInputs,
        context: &EvalContext,
        sink: &mut FindingSink<'_>,
    ) -> (r: Result<(), LimitHit>) {
        let ghost before = sink@;
        let columns: [&'static str; 8] = [
            "user",
            "nice",
            "system",
            "idle",
            "iowait",
            "irq",
            "softirq",
            "steal",
        ];
        let mut identity: Vec<IdentityValue> = Vec::new();
        identity.push(IdentityValue::I64(-1));
        proof {
            reveal(cpu_columns);
            assert(texts(columns@) =~= cpu_columns());
            assert(views(identity@) =~= all_processors());
        }
        let ghost sums = typed@.aligned_sums(
            OS_CPU@,
            all_processors(),
            cpu_columns(),
            context.incident_start_us,
            context.incident_end_us,
        );
        let ghost points = psi_points(typed@, *context);
        let ghost first = seq![
            Step::Charge(
                capped(typed@.counter_points(OS_CPU@, all_processors(), cpu_columns())),
            ),
        ];
        let ghost last = |evidence: Seq<GaugeEvidenceView>|
            emitted(
                evidence_draft(
                    member@,
                    with_evidence(evidence, psi_evidence(window_max(points, *context))),
                ),
            );
        let ghost rest = match cpu_evidence(sums) {
            Some(evidence) => window_charge(points) + last(evidence),
            None => Seq::empty(),
        };
        proof {
            assert(self.member_steps(member@, typed@, *context) == first + rest);
        }
        match charge(
            sink,
            typed.aligned_counter_points(OS_CPU, identity.as_slice(), &columns),
        ) {
            Ok(_) => {},
            Err(hit) => {
                proof {
                    lemma_first_part_refused(before, sink@, first, rest, Err(hit));
                }
                return Err(hit);
            },
        }
        let ghost paid = sink@;
        let found: Option<Vec<GaugeEvidence>> = match typed.aligned_delta_sums(
            OS_CPU,
            identity.as_slice(),
            &columns,
            context.incident_start_us,
            context.incident_end_us,
        ) {
            Some(found) => Self::measure(&found),
            None => None,
        };
        let mut evidence: Vec<GaugeEvidence> = match found {
            Some(list) => list,
            None => {
                proof {
                    assert(first + rest =~= first);
                }
                return Ok(());
            },
        };
        let ghost start = views(evidence@);
        match Self::append_psi_evidence(typed, context, sink, &mut evidence) {
            Ok(_) => {},
            Err(hit) => {
                proof {
                    lemma_first_part_refused(
                        paid,
                        sink@,
                        window_charge(points),
                        last(start),
                        Err(hit),
                    );
                    lemma_two_parts(before, paid, sink@, first, rest, Err(hit));
                }
                return Err(hit);
            },
        }
        let ghost paid_all = sink@;
        let r = emit_optional(sink, draft_evidence(member, evidence));
        proof {
            lemma_two_parts(paid, paid_all, sink@, window_charge(points), last(start), r);
            lemma_two_parts(before, paid, sink@, first, rest, r);
        }
        r
    }
}

impl Lens for HostCpuLens {
    open spec fn id_text(&self) -> Seq<char> {
        "OS-CPU-020"@
    }

    open spec fn input_list(&self) -> Seq<SectionColumn> {
        seq![
            SectionColumn { section: OS_CPU, column: "user" },
            SectionColumn { section: OS_CPU, column: "steal" },
            SectionColumn { section: OS_PSI, column: "some_avg10" },
        ]
    }

    open spec fn cap(&self) -> ConfidenceCap {
        ConfidenceCap::Low
    }

    open spec fn steps(
        &self,
        cluster: ClusterView,
        series: SeriesSetView,
        typed: TypedView,
        context: EvalContext,
    ) -> Seq<Step> {
        first_member_steps(self, OS_CPU@, cluster, typed, context)
    }

    fn id(&self) -> (r: &'static str) {
        "OS-CPU-020"
    }

    fn inputs(&self) -> (r: &'static [SectionColumn]) {
        &[
            SectionColumn { section: OS_CPU, column: "user" },
            SectionColumn { section: OS_CPU, column: "steal" },
            SectionColumn { section: OS_PSI, column: "some_avg10" },
        ]
    }

    fn confidence_cap(&self) -> (r: ConfidenceCap) {
        ConfidenceCap::Low
    }

    fn evaluate(
        &self,
        cluster: &Cluster,
        series: &SeriesSet,
        typed: &TypedInputs,
        context: &EvalContext,
        sink: &mut FindingSink<'_>,
    ) -> (r: Result<(), LimitHit>) {
        evaluate_first_member(self, OS_CPU, cluster, typed, context, sink)
    }
}

/// 20.0 milliseconds per operation.
pub const MS_PER_OP_FLOOR: u64 = 0x4034_0000_0000_0000;

/// 1.0 operation in flight on average.
pub const AVG_IN_FLIGHT_FLOOR: u64 = 0x3ff0_0000_0000_0000;

/// 1000.0 milliseconds in a second.
pub const MS_PER_SECOND: u64 = 0x408f_4000_0000_0000;

/// `OS-BLOCK-024`: the block device with the slowest or the most crowded
/// operations.
pub struct BlockDeviceLens;

#[verifier::opaque]
pub open spec fn block_columns() -> Seq<Seq<char>> {
    seq!["reads"@, "read_time_ms"@, "writes"@, "write_time_ms"@, "io_weighted_time_ms"@]
}

/// A device whose operations are slow or crowded.
pub struct BlockCandidate {
    pub identity: Vec<IdentityValue>,
    pub sums: AlignedSums,
    pub operations: Float64,
    pub operation_time_ms: Float64,
    pub elapsed_ms: Float64,
    pub score: Float64,
}

/// The mathematical value of a device candidate.
pub struct BlockView {
    pub identity: Seq<IdentityView>,
    pub sums: AlignedView,
    pub operations: Float64,
    pub operation_time_ms: Float64,
    pub elapsed_ms: Float64,
    pub score: Float64,
}

impl View for BlockCandidate {
    type V = BlockView;

    open spec fn view(&self) -> BlockView {
        BlockView {
            identity: views(self.identity@),
            sums: self.sums@,
            operations: self.operations,
            operation_time_ms: self.operation_time_ms,
            elapsed_ms: self.elapsed_ms,
            score: self.score,
        }
    }
}

pub open spec fn block_view(candidate: Option<BlockCandidate>) -> Option<BlockView> {
    match candidate {
        Some(found) => Some(found@),
        None => None,
    }
}

/// The measures of a device's sums.
pub open spec fn block_measures(identity: Seq<IdentityView>, sums: AlignedView) -> BlockView {
    let operations = sums.sums[0].sum_with(sums.sums[2]);
    let operation_time_ms = sums.sums[1].sum_with(sums.sums[3]);
    let elapsed_ms = Float64::seconds(sums.elapsed_us).product_with(
        Float64 { bits: MS_PER_SECOND },
    );
    BlockView {
        identity,
        sums,
        operations,
        operation_time_ms,
        elapsed_ms,
        score: operation_time_ms.quotient_by(operations).larger(
            sums.sums[4].quotient_by(elapsed_ms).product_with(Float64 { bits: MS_PER_OP_FLOOR }),
        ),
    }
}

/// Whether the operations of a device are slow or crowded.
pub open spec fn block_pressed(device: BlockView) -> bool {
    let zero = Float64 { bits: 0 };
    let ms_per_op = device.operation_time_ms.quotient_by(device.operations);
    let avg_in_flight = device.sums.sums[4].quotient_by(device.elapsed_ms);
    &&& device.sums.intervals >= MIN_INTERVALS
    &&& !device.operations.at_most(zero)
    &&& !device.operation_time_ms.below(zero)
    &&& !device.sums.sums[4].below(zero)
    &&& !device.elapsed_ms.at_most(zero)
    &&& ms_per_op.finite()
    &&& avg_in_flight.finite()
    &&& !ms_per_op.below(Float64 { bits: MS_PER_OP_FLOOR }) || !avg_in_flight.below(
        Float64 { bits: AVG_IN_FLIGHT_FLOOR },
    )
}

pub open spec fn block_candidate(
    typed: TypedView,
    identity: Seq<IdentityView>,
    context: EvalContext,
) -> Option<BlockView> {
    match typed.aligned_sums(
        OS_DISKSTATS@,
        identity,
        block_columns(),
        context.incident_start_us,
        context.incident_end_us,
    ) {
        Some(sums) => if block_pressed(block_measures(identity, sums)) {
            Some(block_measures(identity, sums))
        } else {
            None
        },
        None => None,
    }
}

/// The device with the highest score; of equal ones, the first.
pub open spec fn best_block(
    typed: TypedView,
    identities: Seq<Seq<IdentityView>>,
    context: EvalContext,
) -> Option<BlockView>
    decreases identities.len(),
{
    if identities.len() == 0 {
        None
    } else {
        let earlier = best_block(typed, identities.drop_last(), context);
        match (earlier, block_candidate(typed, identities.last(), context)) {
            (Some(other), Some(found)) => if other.score.below(found.score) {
                Some(found)
            } else {
                earlier
            },
            (None, found) => found,
            (_, None) => earlier,
        }
    }
}

/// What reading some counters of several identities is paid with.
pub open spec fn counter_charges(
    typed: TypedView,
    section: Seq<char>,
    identities: Seq<Seq<IdentityView>>,
    columns: Seq<Seq<char>>,
) -> Seq<Step> {
    Seq::new(
        identities.len(),
        |i: int| Step::Charge(capped(typed.counter_points(section, identities[i], columns))),
    )
}

/// The numbers of a device.
pub open spec fn device_numbers(identity: Seq<IdentityView>) -> Option<(i64, i64)> {
    if identity.len() == 2 {
        match (identity[0], identity[1]) {
            (IdentityView::I64(major), IdentityView::I64(minor)) => if major > 0 && minor >= 0 {
                Some((major, minor))
            } else {
                None
            },
            _ => None,
        }
    } else {
        None
    }
}

/// How a device is shown: whether it is known to hold database storage, and
/// its numbers.
pub open spec fn device_identity(typed: TypedView, device: (i64, i64)) -> Seq<IdentityView> {
    seq![
        IdentityView::Text(
            if typed.storage_devices.contains(device) {
                "postgres_storage_exact"@
            } else {
                "postgres_storage_unproven"@
            },
        ),
        IdentityView::I64(device.0),
        IdentityView::I64(device.1),
    ]
}

/// Time per operation and operations in flight. The weighted time over the
/// wall time is the average number in flight, not a utilization.
pub open spec fn block_evidence(device: BlockView, about: EntityView) -> Seq<GaugeEvidenceView> {
    with_evidence(
        with_evidence(
            Seq::empty(),
            ratio_evidence(
                "operation_time_ms"@,
                device.operation_time_ms,
                GaugeUnit::Milliseconds,
                "operations"@,
                device.operations,
                GaugeUnit::Count,
                GaugeUnit::MillisecondsPerOperation,
                Float64 { bits: MS_PER_OP_FLOOR },
                ThresholdKind::AtLeast,
                device.sums.last_end_us,
                device.sums.intervals,
                device.sums.source_window,
                about,
            ),
        ),
        ratio_evidence(
            "io_weighted_time_ms"@,
            device.sums.sums[4],
            GaugeUnit::Milliseconds,
            "elapsed_ms"@,
            device.elapsed_ms,
            GaugeUnit::Milliseconds,
            GaugeUnit::Ratio,
            Float64 { bits: AVG_IN_FLIGHT_FLOOR },
            ThresholdKind::AtLeast,
            device.sums.last_end_us,
            device.sums.intervals,
            device.sums.source_window,
            about,
        ),
    )
}

/// The most operations seen in progress.
pub open spec fn progress_evidence(reading: Option<GaugeReading>, about: EntityView) -> Option<
    GaugeEvidenceView,
> {
    match reading {
        Some(found) => value_evidence(
            "io_in_progress"@,
            found.value,
            GaugeUnit::Count,
            Float64 { bits: 0 },
            ThresholdKind::AtLeast,
            found.observed_at_us,
            found.samples,
            found.source_window,
            about,
        ),
        None => None,
    }
}

/// The operations in progress on a device.
pub open spec fn progress_points(
    typed: TypedView,
    identity: Seq<IdentityView>,
    context: EvalContext,
) -> Option<Seq<GaugePoint>> {
    typed.gauge_points(
        OS_DISKSTATS@,
        "io_in_progress"@,
        identity,
        context.incident_start_us,
        context.incident_end_us,
    )
}

/// Reports about the chosen device.
pub open spec fn device_steps(
    member: EpisodeView,
    device: Option<BlockView>,
    typed: TypedView,
    context: EvalContext,
) -> Seq<Step> {
    match device {
        Some(found) => match device_numbers(found.identity) {
            Some(numbers) => {
                let about = entity_of(OS_DISKSTATS@, device_identity(typed, numbers));
                let points = progress_points(typed, found.identity, context);
                window_charge(points) + emitted(
                    evidence_draft(
                        member,
                        with_evidence(
                            block_evidence(found, about),
                            progress_evidence(window_max(points, context), about),
                        ),
                    ),
                )
            },
            None => Seq::empty(),
        },
        None => Seq::empty(),
    }
}

/// What finding the device is paid with: every device first, then the
/// counters of each.
pub open spec fn block_search(typed: TypedView) -> Seq<Step> {
    let identities = typed.identities(OS_DISKSTATS@, "reads"@);
    seq![Step::Charge(identities.len() as usize)] + counter_charges(
        typed,
        OS_DISKSTATS@,
        identities,
        block_columns(),
    )
}

/// A granted charge continues a list of charges.
proof fn lemma_charged_up_to(
    start: SinkView,
    before: SinkView,
    after: SinkView,
    charges: Seq<Step>,
    i: int,
    r: Result<(), LimitHit>,
)
    requires
        0 <= i < charges.len(),
        reported(start, before, charges.take(i), Ok(())),
        reported(before, after, seq![charges[i]], r),
    ensures
        r is Ok ==> reported(start, after, charges.take(i + 1), Ok(())),
        r is Err ==> reported(start, after, charges, r),
{
    lemma_two_parts(start, before, after, charges.take(i), seq![charges[i]], r);
    assert(charges.take(i) + seq![charges[i]] =~= charges.take(i + 1));
    if r is Err {
        lemma_first_part_refused(start, after, charges.take(i + 1), charges.skip(i + 1), r);
        assert(charges.take(i + 1) + charges.skip(i + 1) =~= charges);
    }
}

impl BlockDeviceLens {
    pub fn device_pair(identity: &[IdentityValue]) -> (r: Option<(i64, i64)>)
        ensures
            r == device_numbers(views(identity@)),
    {
        if identity.len() != 2 {
            return None;
        }
        match (&identity[0], &identity[1]) {
            (IdentityValue::I64(major), IdentityValue::I64(minor)) => if *major > 0 && *minor >= 0 {
                Some((*major, *minor))
            } else {
                None
            },
            _ => None,
        }
    }

    /// Measures a device.
    fn weigh(identity: &Vec<IdentityValue>, sums: AlignedSums) -> (r: Option<BlockCandidate>)
        requires
            sums.sums.len() == 5,
        ensures
            block_view(r) == {
                let device = block_measures(views(identity@), sums@);
                if block_pressed(device) {
                    Some(device)
                } else {
                    None
                }
            },
            r matches Some(found) ==> found.sums.sums.len() == 5,
    {
        let zero = Float64 { bits: 0 };
        let op_floor = Float64 { bits: MS_PER_OP_FLOOR };
        let flight_floor = Float64 { bits: AVG_IN_FLIGHT_FLOOR };
        let operations: Float64 = sums.sums[0].plus(sums.sums[2]);
        let operation_time_ms: Float64 = sums.sums[1].plus(sums.sums[3]);
        let elapsed_ms: Float64 = Float64::seconds_from_micros(sums.elapsed_us).times(
            Float64 { bits: MS_PER_SECOND },
        );
        if sums.intervals < MIN_INTERVALS || operations.less_or_equal(zero)
            || operation_time_ms.less(zero) || sums.sums[4].less(zero) || elapsed_ms.less_or_equal(
            zero,
        ) {
            return None;
        }
        let ms_per_op: Float64 = operation_time_ms.divided_by(operations);
        let avg_in_flight: Float64 = sums.sums[4].divided_by(elapsed_ms);
        if !ms_per_op.is_finite() || !avg_in_flight.is_finite() || (ms_per_op.less(op_floor)
            && avg_in_flight.less(flight_floor)) {
            return None;
        }
        Some(
            BlockCandidate {
                identity: clone_identity(identity),
                sums,
                operations,
                operation_time_ms,
                elapsed_ms,
                score: ms_per_op.max(avg_in_flight.times(op_floor)),
            },
        )
    }

    /// Pays for the counters of every device and finds the most pressed one.
    fn best_candidate(
        typed: &TypedInputs,
        context: &EvalContext,
        sink: &mut FindingSink<'_>,
    ) -> (r: Result<Option<BlockCandidate>, LimitHit>)
        ensures
            reported(
                old(sink)@,
                final(sink)@,
                block_search(typed@),
                match r {
                    Ok(_) => Ok(()),
                    Err(hit) => Err(hit),
                },
            ),
            r matches Ok(found) ==> block_view(found) == best_block(
                typed@,
                typed@.identities(OS_DISKSTATS@, "reads"@),
                *context,
            ),
            r matches Ok(Some(found)) ==> found.sums.sums.len() == 5,
            *final(final(sink).findings) == *final(old(sink).findings),
            *final(final(sink).budget) == *final(old(sink).budget),
            *final(final(sink).counts) == *final(old(sink).counts),
    {
        let ghost before = sink@;
        let columns: [&'static str; 5] = [
            "reads",
            "read_time_ms",
            "writes",
            "write_time_ms",
            "io_weighted_time_ms",
        ];
        proof {
            reveal(block_columns);
            assert(texts(columns@) =~= block_columns());
        }
        let ghost all = typed@.identities(OS_DISKSTATS@, "reads"@);
        let ghost first = seq![Step::Charge(all.len() as usize)];
        let ghost charges = counter_charges(typed@, OS_DISKSTATS@, all, block_columns());
        match charge(sink, typed.counter_identity_count(OS_DISKSTATS, "reads")) {
            Ok(_) => {},
            Err(hit) => {
                proof {
                    lemma_first_part_refused(before, sink@, first, charges, Err(hit));
                }
                return Err(hit);
            },
        }
        let ghost start = sink@;
        let identities: Vec<Vec<IdentityValue>> = typed.counter_identities(OS_DISKSTATS, "reads");
        let mut best: Option<BlockCandidate> = None;
        let mut i: usize = 0;
        proof {
            assert(all.take(0) =~= Seq::empty());
            assert(charges.take(0) =~= Seq::empty());
        }
        while i < identities.len()
            invariant
                i <= identities.len(),
                all == identity_lists(identities@),
                texts(columns@) == block_columns(),
                columns@.len() == 5,
                first == seq![Step::Charge(all.len() as usize)],
                charges == counter_charges(typed@, OS_DISKSTATS@, all, block_columns()),
                block_search(typed@) == first + charges,
                before == old(sink)@,
                reported(before, start, first, Ok(())),
                reported(start, sink@, charges.take(i as int), Ok(())),
                block_view(best) == best_block(typed@, all.take(i as int), *context),
                best matches Some(found) ==> found.sums.sums.len() == 5,
                *final(sink.findings) == *final(old(sink).findings),
                *final(sink.budget) == *final(old(sink).budget),
                *final(sink.counts) == *final(old(sink).counts),
            decreases identities.len() - i,
        {
            let identity: &Vec<IdentityValue> = &identities[i];
            let ghost here = sink@;
            proof {
                assert(all[i as int] == views(identity@));
                assert(all.take(i + 1).drop_last() =~= all.take(i as int));
                assert(all.take(i + 1).last() == all[i as int]);
            }
            match charge(
                sink,
                typed.aligned_counter_points(OS_DISKSTATS, identity.as_slice(), &columns),
            ) {
                Ok(_) => {
                    proof {
                        lemma_charged_up_to(start, here, sink@, charges, i as int, Ok(()));
                    }
                },
                Err(hit) => {
                    proof {
                        lemma_charged_up_to(start, here, sink@, charges, i as int, Err(hit));
                        lemma_two_parts(before, start, sink@, first, charges, Err(hit));
                    }
                    return Err(hit);
                },
            }
            let found: Option<BlockCandidate> = match typed.aligned_delta_sums(
                OS_DISKSTATS,
                identity.as_slice(),
                &columns,
                context.incident_start_us,
                context.incident_end_us,
            ) {
                Some(sums) => Self::weigh(identity, sums),
                None => None,
            };
            proof {
                assert(block_view(found) == block_candidate(typed@, all[i as int], *context));
            }
            if let Some(candidate) = found {
                let replaces: bool = match &best {
                    Some(current) => current.score.less(candidate.score),
                    None => true,
                };
                if replaces {
                    best = Some(candidate);
                }
            }
            i = i + 1;
        }
        proof {
            assert(all.take(i as int) =~= all);
            assert(charges.take(i as int) =~= charges);
            lemma_two_parts(before, start, sink@, first, charges, Ok(()));
        }
        Ok(best)
    }

    fn entity(typed: &TypedInputs, major: i64, minor: i64) -> (r: GaugeEntity)
        ensures
            r@ == entity_of(OS_DISKSTATS@, device_identity(typed@, (major, minor))),
    {
        let mapping: &'static str = if typed.is_postgres_storage_device(major, minor) {
            "postgres_storage_exact"
        } else {
            "postgres_storage_unproven"
        };
        let mut identity: Vec<IdentityValue> = Vec::new();
        identity.push(IdentityValue::Text(mapping.to_string()));
        identity.push(IdentityValue::I64(major));
        identity.push(IdentityValue::I64(minor));
        proof {
            assert(views(identity@) =~= device_identity(typed@, (major, minor)));
        }
        GaugeEntity::new(OS_DISKSTATS, identity)
    }

    /// The evidence of a device's counters.
    fn measure(typed: &TypedInputs, device: &BlockCandidate, major: i64, minor: i64) -> (r: Vec<
        GaugeEvidence,
    >)
        requires
            device.sums.sums.len() == 5,
        ensures
            views(r@) == block_evidence(
                device@,
                entity_of(OS_DISKSTATS@, device_identity(typed@, (major, minor))),
            ),
    {
        let mut evidence: Vec<GaugeEvidence> = Vec::new();
        proof {
            assert(views(evidence@) =~= Seq::empty());
        }
        push_evidence(
            &mut evidence,
            GaugeEvidence::ratio(
                GaugeRatio::with_units(
                    "operation_time_ms",
                    device.operation_time_ms,
                    GaugeUnit::Milliseconds,
                    "operations",
                    device.operations,
                    GaugeUnit::Count,
                    GaugeUnit::MillisecondsPerOperation,
                ),
                Float64 { bits: MS_PER_OP_FLOOR },
                ThresholdKind::AtLeast,
                device.sums.last_end_us,
                device.sums.intervals,
                device.sums.source_window,
                Self::entity(typed, major, minor),
            ),
        );
        push_evidence(
            &mut evidence,
            GaugeEvidence::ratio(
                GaugeRatio::new(
                    "io_weighted_time_ms",
                    device.sums.sums[4],
                    "elapsed_ms",
                    device.elapsed_ms,
                    GaugeUnit::Milliseconds,
                ),
                Float64 { bits: AVG_IN_FLIGHT_FLOOR },
                ThresholdKind::AtLeast,
                device.sums.last_end_us,
                device.sums.intervals,
                device.sums.source_window,
                Self::entity(typed, major, minor),
            ),
        );
        evidence
    }
}

impl MemberLens for BlockDeviceLens {
    open spec fn member_steps(
        &self,
        member: EpisodeView,
        typed: TypedView,
        context: EvalContext,
    ) -> Seq<Step> {
        block_search(typed) + device_steps(
            member,
            best_block(typed, typed.identities(OS_DISKSTATS@, "reads"@), context),
            typed,
            context,
        )
    }

    fn evaluate_member(
        &self,
        member: &EpisodeRefV1,
        typed: &TypedInputs,
        context: &EvalContext,
        sink: &mut FindingSink<'_>,
    ) -> (r: Result<(), LimitHit>) {
        let ghost before = sink@;
        let ghost first = block_search(typed@);
        let ghost chosen = best_block(
            typed@,
            typed@.identities(OS_DISKSTATS@, "reads"@),
            *context,
        );
        let ghost rest = device_steps(member@, chosen, typed@, *context);
        let candidate: Option<BlockCandidate> = match Self::best_candidate(typed, context, sink) {
            Ok(found) => found,
            Err(hit) => {
                proof {
                    lemma_first_part_refused(before, sink@, first, rest, Err(hit));
                }
                return Err(hit);
            },
        };
        let ghost searched = sink@;
        let device: BlockCandidate = match candidate {
            Some(device) => device,
            None => {
                proof {
                    assert(first + rest =~= first);
                }
                return Ok(());
            },
        };
        let (major, minor): (i64, i64) = match Self::device_pair(device.identity.as_slice()) {
            Some(numbers) => numbers,
            None => {
                proof {
                    assert(first + rest =~= first);
                }
                return Ok(());
            },
        };
        let ghost about = entity_of(OS_DISKSTATS@, device_identity(typed@, (major, minor)));
        let ghost points = progress_points(typed@, device@.identity, *context);
        let ghost last = emitted(
            evidence_draft(
                member@,
                with_evidence(
                    block_evidence(device@, about),
                    progress_evidence(window_max(points, *context), about),
                ),
            ),
        );
        proof {
            assert(rest == window_charge(points) + last);
        }
        let mut evidence: Vec<GaugeEvidence> = Self::measure(typed, &device, major, minor);
        let reading: Option<GaugeReading> = match read_max(
            typed,
            OS_DISKSTATS,
            "io_in_progress",
            device.identity.as_slice(),
            context,
            sink,
        ) {
            Ok(reading) => reading,
            Err(hit) => {
                proof {
                    lemma_first_part_refused(
                        searched,
                        sink@,
                        window_charge(points),
                        last,
                        Err(hit),
                    );
                    lemma_two_parts(before, searched, sink@, first, rest, Err(hit));
                }
                return Err(hit);
            },
        };
        if let Some(found) = reading {
            push_evidence(
                &mut evidence,
                GaugeEvidence::value(
                    GaugeValueInput {
                        operand: "io_in_progress",
                        value: found.value,
                        unit: GaugeUnit::Count,
                        threshold: Float64 { bits: 0 },
                        threshold_kind: ThresholdKind::AtLeast,
                        observed_at_us: found.observed_at_us,
                        samples: found.samples,
                        source_window: found.source_window,
                        entity: Self::entity(typed, major, minor),
                    },
                ),
            );
        }
        let ghost paid = sink@;
        let r = emit_optional(sink, draft_evidence(member, evidence));
        proof {
            lemma_two_parts(searched, paid, sink@, window_charge(points), last, r);
            lemma_two_parts(before, searched, sink@, first, rest, r);
        }
        r
    }
}

impl Lens for BlockDeviceLens {
    open spec fn id_text(&self) -> Seq<char> {
        "OS-BLOCK-024"@
    }

    open spec fn input_list(&self) -> Seq<SectionColumn> {
        seq![
            SectionColumn { section: OS_DISKSTATS, column: "read_time_ms" },
            SectionColumn { section: OS_DISKSTATS, column: "write_time_ms" },
            SectionColumn { section: OS_DISKSTATS, column: "io_weighted_time_ms" },
        ]
    }

    open spec fn cap(&self) -> ConfidenceCap {
        ConfidenceCap::Low
    }

    open spec fn steps(
        &self,
        cluster: ClusterView,
        series: SeriesSetView,
        typed: TypedView,
        context: EvalContext,
    ) -> Seq<Step> {
        first_member_steps(self, OS_DISKSTATS@, cluster, typed, context)
    }

    fn id(&self) -> (r: &'static str) {
        "OS-BLOCK-024"
    }

    fn inputs(&self) -> (r: &'static [SectionColumn]) {
        &[
            SectionColumn { section: OS_DISKSTATS, column: "read_time_ms" },
            SectionColumn { section: OS_DISKSTATS, column: "write_time_ms" },
            SectionColumn { section: OS_DISKSTATS, column: "io_weighted_time_ms" },
        ]
    }

    fn confidence_cap(&self) -> (r: ConfidenceCap) {
        ConfidenceCap::Low
    }

    fn evaluate(
        &self,
        cluster: &Cluster,
        series: &SeriesSet,
        typed: &TypedInputs,
        context: &EvalContext,
        sink: &mut FindingSink<'_>,
    ) -> (r: Result<(), LimitHit>) {
        evaluate_first_member(self, OS_DISKSTATS, cluster, typed, context, sink)
    }
}

/// Fewest shared intervals behind a process.
pub const MIN_PROCESS_INTERVALS: usize = 2;

/// Most processes listed as evidence.
pub const MAX_CONTRIBUTORS: usize = 8;

/// Bytes of a digest that stand for a process.
pub const DIGEST_BYTES: usize = 12;

/// `OS-IOWHO-026`: the processes with the most device traffic, under digests
/// of their identities.
pub struct ProcessIoWhoLens;

/// The process id and start time of a process.
pub open spec fn process_numbers(identity: Seq<IdentityView>) -> Option<(i64, i64)> {
    if identity.len() == 2 {
        match (identity[0], identity[1]) {
            (IdentityView::I64(pid), IdentityView::I64(starttime)) => if pid > 0 && starttime > 0 {
                Some((pid, starttime))
            } else {
                None
            },
            _ => None,
        }
    } else {
        None
    }
}

/// The counters of a process; cancelled writes only where they are known.
pub open spec fn process_columns(typed: TypedView, identity: Seq<IdentityView>) -> Seq<Seq<char>> {
    if typed.counter(OS_PROCESS@, "cancelled_write_bytes"@, identity) is Some {
        seq!["read_bytes"@, "write_bytes"@, "cancelled_write_bytes"@]
    } else {
        seq!["read_bytes"@, "write_bytes"@]
    }
}

/// The sums of a process, where enough intervals are shared.
pub open spec fn process_sums(
    typed: TypedView,
    identity: Seq<IdentityView>,
    context: EvalContext,
) -> Option<AlignedView> {
    match typed.aligned_sums(
        OS_PROCESS@,
        identity,
        process_columns(typed, identity),
        context.incident_start_us,
        context.incident_end_us,
    ) {
        Some(sums) => if sums.intervals >= MIN_PROCESS_INTERVALS {
            Some(sums)
        } else {
            None
        },
        None => None,
    }
}

/// Bytes read and written, without the writes that were cancelled.
pub open spec fn process_bytes(sums: Seq<Float64>) -> Float64 {
    let zero = Float64 { bits: 0 };
    let cancelled = if sums.len() == 3 {
        sums[2].larger(zero)
    } else {
        zero
    };
    sums[0].sum_with(sums[1].sum_with(cancelled.negated()).larger(zero))
}

/// Whether a number of bytes counts.
pub open spec fn moved(bytes: Float64) -> bool {
    !bytes.at_most(Float64 { bits: 0 }) && bytes.finite()
}

/// The cgroup of a process at a time.
pub open spec fn cgroup_at(typed: TypedView, pid: i64, starttime: i64, ts: i64) -> Option<
    Seq<char>,
> {
    let at = ProcessMoment { pid, starttime, ts };
    if typed.process_cgroups.dom().contains(at) {
        Some(typed.process_cgroups[at])
    } else {
        None
    }
}

pub open spec fn device_columns() -> Seq<Seq<char>> {
    seq!["rbytes"@, "wbytes"@]
}

/// The numbers of a cgroup's device.
pub open spec fn cgroup_device(identity: Seq<IdentityView>) -> Option<(u64, u64)> {
    if identity.len() == 3 {
        match (identity[0], identity[1], identity[2]) {
            (
                IdentityView::Text(_),
                IdentityView::U64(major),
                IdentityView::U64(minor),
            ) => Some((major, minor)),
            _ => None,
        }
    } else {
        None
    }
}

/// Bytes that a cgroup moved on a device in the interval that ends at a time.
pub open spec fn device_bytes(typed: TypedView, identity: Seq<IdentityView>, ts: i64) -> Option<
    Float64,
> {
    match typed.aligned_sums(OS_CGROUP_IO@, identity, device_columns(), ts, ts) {
        Some(sums) => Some(sums.sums[0].sum_with(sums.sums[1])),
        None => None,
    }
}

/// The busiest device of some and its bytes; of equal ones, the first.
pub open spec fn busiest(typed: TypedView, devices: Seq<Seq<IdentityView>>, ts: i64) -> (
    Option<(u64, u64)>,
    Float64,
)
    decreases devices.len(),
{
    if devices.len() == 0 {
        (None, Float64 { bits: 0 })
    } else {
        let earlier = busiest(typed, devices.drop_last(), ts);
        match (cgroup_device(devices.last()), device_bytes(typed, devices.last(), ts)) {
            (Some(numbers), Some(bytes)) => if earlier.1.below(bytes) && bytes.finite() {
                (Some(numbers), bytes)
            } else {
                earlier
            },
            _ => earlier,
        }
    }
}

/// What finding the device of a process is paid with.
pub open spec fn association_steps(
    typed: TypedView,
    pid: i64,
    starttime: i64,
    ts: i64,
) -> Seq<Step> {
    match cgroup_at(typed, pid, starttime, ts) {
        Some(path) => seq![Step::Charge(typed.devices(path).len() as usize)] + counter_charges(
            typed,
            OS_CGROUP_IO@,
            typed.devices(path),
            device_columns(),
        ),
        None => Seq::empty(),
    }
}

/// The device that the cgroup of a process used most.
pub open spec fn association(typed: TypedView, pid: i64, starttime: i64, ts: i64) -> Option<
    (u64, u64),
> {
    match cgroup_at(typed, pid, starttime, ts) {
        Some(path) => busiest(typed, typed.devices(path), ts).0,
        None => None,
    }
}

/// A process with device traffic.
pub struct ProcessIoCandidate {
    pub identity: Vec<IdentityValue>,
    pub bytes: Float64,
    pub intervals: usize,
    pub observed_at_us: i64,
    pub source_window: SourceWindow,
    pub postgres_backend: bool,
    pub device: Option<(u64, u64)>,
}

/// The mathematical value of a process candidate.
#[verifier::ext_equal]
pub struct ProcessIoView {
    pub identity: Seq<IdentityView>,
    pub bytes: Float64,
    pub intervals: usize,
    pub observed_at_us: i64,
    pub source_window: SourceWindow,
    pub postgres_backend: bool,
    pub device: Option<(u64, u64)>,
}

impl View for ProcessIoCandidate {
    type V = ProcessIoView;

    open spec fn view(&self) -> ProcessIoView {
        ProcessIoView {
            identity: views(self.identity@),
            bytes: self.bytes,
            intervals: self.intervals,
            observed_at_us: self.observed_at_us,
            source_window: self.source_window,
            postgres_backend: self.postgres_backend,
            device: self.device,
        }
    }
}

pub open spec fn process_view(candidate: Option<ProcessIoCandidate>) -> Option<ProcessIoView> {
    match candidate {
        Some(found) => Some(found@),
        None => None,
    }
}

impl ProcessIoView {
    /// What follows the traffic and the identity in the order.
    pub open spec fn details(self) -> ((u64, i64), (SourceWindow, (u64, Option<(u64, u64)>))) {
        (
            (self.intervals as u64, self.observed_at_us),
            (
                self.source_window,
                (
                    if self.postgres_backend {
                        1
                    } else {
                        0
                    },
                    self.device,
                ),
            ),
        )
    }
}

/// Processes order by traffic, the most first, then by identity. The rest
/// decides only between equal identities.
impl Ranked for ProcessIoView {
    open spec fn rank(self) -> Seq<int> {
        seq![-self.bytes.total_rank()] + (self.identity.rank() + self.details().rank())
    }

    proof fn rank_splits(a: Self, b: Self, x: Seq<int>, y: Seq<int>) {
        let left = a.rank() + x;
        let right = b.rank() + y;
        assert(left[0] == -a.bytes.total_rank() && right[0] == -b.bytes.total_rank());
        assert(left.skip(1) =~= a.identity.rank() + (a.details().rank() + x));
        assert(right.skip(1) =~= b.identity.rank() + (b.details().rank() + y));
        <Seq<IdentityView>>::rank_splits(
            a.identity,
            b.identity,
            a.details().rank() + x,
            b.details().rank() + y,
        );
        <((u64, i64), (SourceWindow, (u64, Option<(u64, u64)>)))>::rank_splits(
            a.details(),
            b.details(),
            x,
            y,
        );
    }
}

impl Keyed<ProcessIoView> for ProcessIoCandidate {
    fn key_into(&self, out: &mut Vec<i128>) {
        let ghost start = ints(out@);
        let bits: u64 = self.bytes.to_bits();
        if bits >= crate::float64::SIGN {
            push_int(out, 1 + (bits - crate::float64::SIGN) as i128);
        } else {
            push_int(out, -(bits as i128));
        }
        proof {
            assert(ints(out@) == start + seq![-self.bytes.total_rank()]);
        }
        push_seq(out, self.identity.as_slice());
        let ghost middle = ints(out@);
        push_int(out, self.intervals as i128);
        push_int(out, self.observed_at_us as i128);
        self.source_window.key_into(out);
        push_int(
            out,
            if self.postgres_backend {
                1
            } else {
                0
            },
        );
        match self.device {
            Some((major, minor)) => {
                push_int(out, 1);
                push_int(out, major as i128);
                push_int(out, minor as i128);
            },
            None => {
                push_int(out, 0);
            },
        }
        proof {
            assert(ints(out@) =~= middle + self@.details().rank());
            assert(ints(out@) =~= start + self@.rank());
        }
    }
}

/// The candidate of a process.
pub open spec fn process_candidate(
    typed: TypedView,
    identity: Seq<IdentityView>,
    context: EvalContext,
) -> Option<ProcessIoView> {
    match (process_numbers(identity), process_sums(typed, identity, context)) {
        (Some((pid, starttime)), Some(sums)) => if moved(process_bytes(sums.sums)) {
            Some(
                ProcessIoView {
                    identity,
                    bytes: process_bytes(sums.sums),
                    intervals: sums.intervals,
                    observed_at_us: sums.last_end_us,
                    source_window: sums.source_window,
                    postgres_backend: typed.is_backend(
                        pid,
                        starttime,
                        context.incident_start_us,
                        context.incident_end_us,
                    ),
                    device: association(typed, pid, starttime, sums.last_end_us),
                },
            )
        } else {
            None
        },
        _ => None,
    }
}

/// What looking at a process is paid with.
pub open spec fn process_steps(
    typed: TypedView,
    identity: Seq<IdentityView>,
    context: EvalContext,
) -> Seq<Step> {
    match process_numbers(identity) {
        Some((pid, starttime)) => seq![
            Step::Charge(
                capped(
                    typed.counter_points(
                        OS_PROCESS@,
                        identity,
                        process_columns(typed, identity),
                    ),
                ),
            ),
        ] + match process_sums(typed, identity, context) {
            Some(sums) => if moved(process_bytes(sums.sums)) {
                association_steps(typed, pid, starttime, sums.last_end_us)
            } else {
                Seq::empty()
            },
            None => Seq::empty(),
        },
        None => Seq::empty(),
    }
}

/// What looking at some processes is paid with.
pub open spec fn processes_steps(
    typed: TypedView,
    identities: Seq<Seq<IdentityView>>,
    context: EvalContext,
) -> Seq<Step>
    decreases identities.len(),
{
    if identities.len() == 0 {
        Seq::empty()
    } else {
        process_steps(typed, identities[0], context) + processes_steps(
            typed,
            identities.drop_first(),
            context,
        )
    }
}

/// The candidates among some processes.
pub open spec fn process_candidates(
    typed: TypedView,
    identities: Seq<Seq<IdentityView>>,
    context: EvalContext,
) -> Seq<ProcessIoView>
    decreases identities.len(),
{
    if identities.len() == 0 {
        Seq::empty()
    } else {
        let earlier = process_candidates(typed, identities.drop_last(), context);
        match process_candidate(typed, identities.last(), context) {
            Some(found) => earlier.push(found),
            None => earlier,
        }
    }
}

/// The candidates with the most traffic.
pub open spec fn contributors(candidates: Seq<ProcessIoView>) -> Seq<ProcessIoView> {
    let sorted = ranked_sort(candidates);
    if sorted.len() > MAX_CONTRIBUTORS {
        sorted.take(MAX_CONTRIBUTORS as int)
    } else {
        sorted
    }
}

/// The text that stands for a process.
pub open spec fn process_digest(pid: i64, starttime: i64) -> Seq<char> {
    hex(sha256_digest(be(wrapped(pid)) + be(wrapped(starttime))).take(DIGEST_BYTES as int))
}

/// How a process is shown: how it is known, its digest, and its device.
pub open spec fn shown_identity(candidate: ProcessIoView) -> Seq<IdentityView> {
    let (pid, starttime) = process_numbers(candidate.identity)->Some_0;
    let head = seq![
        IdentityView::Text(
            if candidate.postgres_backend {
                "postgres_backend"@
            } else if candidate.device is Some {
                "cgroup_device_association"@
            } else {
                "process_association"@
            },
        ),
        IdentityView::Text(process_digest(pid, starttime)),
    ];
    match candidate.device {
        Some((major, minor)) => head + seq![IdentityView::U64(major), IdentityView::U64(minor)],
        None => head,
    }
}

/// The traffic of a process.
pub open spec fn traffic_evidence(candidate: ProcessIoView) -> Option<GaugeEvidenceView> {
    value_evidence(
        "io_bytes"@,
        candidate.bytes,
        GaugeUnit::Bytes,
        Float64 { bits: ONE },
        ThresholdKind::AtLeast,
        candidate.observed_at_us,
        candidate.intervals,
        candidate.source_window,
        entity_of(OS_PROCESS@, shown_identity(candidate)),
    )
}

/// The traffic of some processes.
pub open spec fn traffic(candidates: Seq<ProcessIoView>) -> Seq<GaugeEvidenceView>
    decreases candidates.len(),
{
    if candidates.len() == 0 {
        Seq::empty()
    } else {
        let earlier = traffic(candidates.drop_last());
        if process_numbers(candidates.last().identity) is Some {
            with_evidence(earlier, traffic_evidence(candidates.last()))
        } else {
            earlier
        }
    }
}

/// Reports about the processes.
pub open spec fn traffic_steps(member: EpisodeView, typed: TypedView, context: EvalContext) -> Seq<
    Step,
> {
    let identities = typed.identities(OS_PROCESS@, "read_bytes"@);
    seq![Step::Charge(identities.len() as usize)] + (processes_steps(typed, identities, context)
        + emitted(
        evidence_draft(
            member,
            traffic(contributors(process_candidates(typed, identities, context))),
        ),
    ))
}

impl ProcessIoWhoLens {
    pub fn process_identity(identity: &[IdentityValue]) -> (r: Option<(i64, i64)>)
        ensures
            r == process_numbers(views(identity@)),
    {
        if identity.len() != 2 {
            return None;
        }
        match (&identity[0], &identity[1]) {
            (IdentityValue::I64(pid), IdentityValue::I64(starttime)) => if *pid > 0 && *starttime
                > 0 {
                Some((*pid, *starttime))
            } else {
                None
            },
            _ => None,
        }
    }

    /// The text that stands for a process: the head of the digest of its
    /// numbers.
    pub fn hash_identity(pid: i64, starttime: i64) -> (r: String)
        ensures
            r@ == process_digest(pid, starttime),
    {
        let mut message: Vec<u8> = Vec::new();
        push_be(&mut message, twos_complement(pid));
        push_be(&mut message, twos_complement(starttime));
        proof {
            reveal(be);
            assert(message@ =~= be(wrapped(pid)) + be(wrapped(starttime)));
        }
        short_sha256(message.as_slice(), DIGEST_BYTES)
    }

    fn device_of(identity: &[IdentityValue]) -> (r: Option<(u64, u64)>)
        ensures
            r == cgroup_device(views(identity@)),
    {
        if identity.len() != 3 {
            return None;
        }
        match (&identity[0], &identity[1], &identity[2]) {
            (
                IdentityValue::Text(_),
                IdentityValue::U64(major),
                IdentityValue::U64(minor),
            ) => Some((*major, *minor)),
            _ => None,
        }
    }

    /// Pays for the devices of a process's cgroup and finds the busiest.
    fn associated_device(
        typed: &TypedInputs,
        pid: i64,
        starttime: i64,
        observed_at_us: i64,
        sink: &mut FindingSink<'_>,
    ) -> (r: Result<Option<(u64, u64)>, LimitHit>)
        ensures
            reported(
                old(sink)@,
                final(sink)@,
                association_steps(typed@, pid, starttime, observed_at_us),
                match r {
                    Ok(_) => Ok(()),
                    Err(hit) => Err(hit),
                },
            ),
            r matches Ok(device) ==> device == association(
                typed@,
                pid,
                starttime,
                observed_at_us,
            ),
            *final(final(sink).findings) == *final(old(sink).findings),
            *final(final(sink).budget) == *final(old(sink).budget),
            *final(final(sink).counts) == *final(old(sink).counts),
    {
        let ghost before = sink@;
        let path: &str = match typed.process_cgroup_at(pid, starttime, observed_at_us) {
            Some(path) => path,
            None => {
                return Ok(None);
            },
        };
        let devices: &[Vec<IdentityValue>] = typed.cgroup_devices(path);
        let columns: [&'static str; 2] = ["rbytes", "wbytes"];
        let ghost all = typed@.devices(path@);
        let ghost first = seq![Step::Charge(all.len() as usize)];
        let ghost charges = counter_charges(typed@, OS_CGROUP_IO@, all, device_columns());
        proof {
            assert(texts(columns@) =~= device_columns());
            assert(all.len() == devices.len());
        }
        match charge(sink, devices.len()) {
            Ok(_) => {},
            Err(hit) => {
                proof {
                    lemma_first_part_refused(before, sink@, first, charges, Err(hit));
                }
                return Err(hit);
            },
        }
        let ghost start = sink@;
        let mut best: Option<(u64, u64)> = None;
        let mut best_bytes = Float64 { bits: 0 };
        let mut i: usize = 0;
        proof {
            assert(all.take(0) =~= Seq::empty());
            assert(charges.take(0) =~= Seq::empty());
        }
        while i < devices.len()
            invariant
                i <= devices.len(),
                all == identity_lists(devices@),
                all == typed@.devices(path@),
                cgroup_at(typed@, pid, starttime, observed_at_us) == Some(path@),
                texts(columns@) == device_columns(),
                columns@.len() == 2,
                first == seq![Step::Charge(all.len() as usize)],
                charges == counter_charges(typed@, OS_CGROUP_IO@, all, device_columns()),
                before == old(sink)@,
                reported(before, start, first, Ok(())),
                reported(start, sink@, charges.take(i as int), Ok(())),
                (best, best_bytes) == busiest(typed@, all.take(i as int), observed_at_us),
                *final(sink.findings) == *final(old(sink).findings),
                *final(sink.budget) == *final(old(sink).budget),
                *final(sink.counts) == *final(old(sink).counts),
            decreases devices.len() - i,
        {
            let identity: &Vec<IdentityValue> = &devices[i];
            let ghost here = sink@;
            proof {
                assert(all[i as int] == views(identity@));
                assert(all.take(i + 1).drop_last() =~= all.take(i as int));
                assert(all.take(i + 1).last() == all[i as int]);
            }
            match charge(
                sink,
                typed.aligned_counter_points(OS_CGROUP_IO, identity.as_slice(), &columns),
            ) {
                Ok(_) => {
                    proof {
                        lemma_charged_up_to(start, here, sink@, charges, i as int, Ok(()));
                    }
                },
                Err(hit) => {
                    proof {
                        lemma_charged_up_to(start, here, sink@, charges, i as int, Err(hit));
                        lemma_two_parts(before, start, sink@, first, charges, Err(hit));
                    }
                    return Err(hit);
                },
            }
            let sums: Option<AlignedSums> = typed.aligned_delta_sums(
                OS_CGROUP_IO,
                identity.as_slice(),
                &columns,
                observed_at_us,
                observed_at_us,
            );
            match (Self::device_of(identity.as_slice()), sums) {
                (Some(numbers), Some(found)) => {
                    let bytes: Float64 = found.sums[0].plus(found.sums[1]);
                    if best_bytes.less(bytes) && bytes.is_finite() {
                        best_bytes = bytes;
                        best = Some(numbers);
                    }
                },
                _ => {},
            }
            i = i + 1;
        }
        proof {
            assert(all.take(i as int) =~= all);
            assert(charges.take(i as int) =~= charges);
            lemma_two_parts(before, start, sink@, first, charges, Ok(()));
        }
        Ok(best)
    }

    /// Sums the counters of a process.
    fn sum_process(
        typed: &TypedInputs,
        context: &EvalContext,
        sink: &mut FindingSink<'_>,
        identity: &Vec<IdentityValue>,
    ) -> (r: Result<Option<AlignedSums>, LimitHit>)
        ensures
            reported(
                old(sink)@,
                final(sink)@,
                seq![
                    Step::Charge(
                        capped(
                            typed@.counter_points(
                                OS_PROCESS@,
                                views(identity@),
                                process_columns(typed@, views(identity@)),
                            ),
                        ),
                    ),
                ],
                match r {
                    Ok(_) => Ok(()),
                    Err(hit) => Err(hit),
                },
            ),
            r matches Ok(sums) ==> aligned_option(sums) == process_sums(
                typed@,
                views(identity@),
                *context,
            ),
            r matches Ok(Some(sums)) ==> sums.sums.len() == 2 || sums.sums.len() == 3,
            *final(final(sink).findings) == *final(old(sink).findings),
            *final(final(sink).budget) == *final(old(sink).budget),
            *final(final(sink).counts) == *final(old(sink).counts),
    {
        let full: [&'static str; 3] = ["read_bytes", "write_bytes", "cancelled_write_bytes"];
        let fallback: [&'static str; 2] = ["read_bytes", "write_bytes"];
        let columns: &[&'static str] = if typed.has_counter(
            OS_PROCESS,
            "cancelled_write_bytes",
            identity.as_slice(),
        ) {
            &full
        } else {
            &fallback
        };
        proof {
            assert(texts(columns@) =~= process_columns(typed@, views(identity@)));
        }
        match charge(
            sink,
            typed.aligned_counter_points(OS_PROCESS, identity.as_slice(), columns),
        ) {
            Ok(_) => {},
            Err(hit) => {
                return Err(hit);
            },
        }
        match typed.aligned_delta_sums(
            OS_PROCESS,
            identity.as_slice(),
            columns,
            context.incident_start_us,
            context.incident_end_us,
        ) {
            Some(sums) => if sums.intervals >= MIN_PROCESS_INTERVALS {
                Ok(Some(sums))
            } else {
                Ok(None)
            },
            None => Ok(None),
        }
    }

    /// Pays for a process and measures its traffic.
    fn candidate(
        typed: &TypedInputs,
        context: &EvalContext,
        sink: &mut FindingSink<'_>,
        identity: &Vec<IdentityValue>,
    ) -> (r: Result<Option<ProcessIoCandidate>, LimitHit>)
        ensures
            reported(
                old(sink)@,
                final(sink)@,
                process_steps(typed@, views(identity@), *context),
                match r {
                    Ok(_) => Ok(()),
                    Err(hit) => Err(hit),
                },
            ),
            r matches Ok(found) ==> process_view(found) == process_candidate(
                typed@,
                views(identity@),
                *context,
            ),
            *final(final(sink).findings) == *final(old(sink).findings),
            *final(final(sink).budget) == *final(old(sink).budget),
            *final(final(sink).counts) == *final(old(sink).counts),
    {
        let ghost before = sink@;
        let ghost id = views(identity@);
        let (pid, starttime): (i64, i64) = match Self::process_identity(identity.as_slice()) {
            Some(numbers) => numbers,
            None => {
                return Ok(None);
            },
        };
        let ghost first = seq![
            Step::Charge(
                capped(typed@.counter_points(OS_PROCESS@, id, process_columns(typed@, id))),
            ),
        ];
        let ghost rest = match process_sums(typed@, id, *context) {
            Some(sums) => if moved(process_bytes(sums.sums)) {
                association_steps(typed@, pid, starttime, sums.last_end_us)
            } else {
                Seq::empty()
            },
            None => Seq::empty(),
        };
        proof {
            assert(process_steps(typed@, id, *context) == first + rest);
        }
        let read: Option<AlignedSums> = match Self::sum_process(typed, context, sink, identity) {
            Ok(sums) => sums,
            Err(hit) => {
                proof {
                    lemma_first_part_refused(before, sink@, first, rest, Err(hit));
                }
                return Err(hit);
            },
        };
        let ghost paid = sink@;
        let sums: AlignedSums = match read {
            Some(sums) => sums,
            None => {
                proof {
                    assert(first + rest =~= first);
                }
                return Ok(None);
            },
        };
        let zero = Float64 { bits: 0 };
        let cancelled: Float64 = if sums.sums.len() == 3 {
            sums.sums[2].max(zero)
        } else {
            zero
        };
        let bytes: Float64 = sums.sums[0].plus(sums.sums[1].minus(cancelled).max(zero));
        if bytes.less_or_equal(zero) || !bytes.is_finite() {
            proof {
                assert(first + rest =~= first);
            }
            return Ok(None);
        }
        let device: Option<(u64, u64)> = match Self::associated_device(
            typed,
            pid,
            starttime,
            sums.last_end_us,
            sink,
        ) {
            Ok(device) => device,
            Err(hit) => {
                proof {
                    lemma_two_parts(before, paid, sink@, first, rest, Err(hit));
                }
                return Err(hit);
            },
        };
        proof {
            lemma_two_parts(before, paid, sink@, first, rest, Ok(()));
        }
        Ok(
            Some(
                ProcessIoCandidate {
                    identity: clone_identity(identity),
                    bytes,
                    intervals: sums.intervals,
                    observed_at_us: sums.last_end_us,
                    source_window: sums.source_window,
                    postgres_backend: typed.process_is_postgres_backend(
                        pid,
                        starttime,
                        context.incident_start_us,
                        context.incident_end_us,
                    ),
                    device,
                },
            ),
        )
    }

    /// Pays for every process and lists those with traffic.
    fn candidates(
        typed: &TypedInputs,
        context: &EvalContext,
        sink: &mut FindingSink<'_>,
        identities: &Vec<Vec<IdentityValue>>,
    ) -> (r: Result<Vec<ProcessIoCandidate>, LimitHit>)
        ensures
            reported(
                old(sink)@,
                final(sink)@,
                processes_steps(typed@, identity_lists(identities@), *context),
                match r {
                    Ok(_) => Ok(()),
                    Err(hit) => Err(hit),
                },
            ),
            r matches Ok(found) ==> views(found@) == process_candidates(
                typed@,
                identity_lists(identities@),
                *context,
            ),
            *final(final(sink).findings) == *final(old(sink).findings),
            *final(final(sink).budget) == *final(old(sink).budget),
            *final(final(sink).counts) == *final(old(sink).counts),
    {
        let ghost start = sink@;
        let ghost all = identity_lists(identities@);
        let ghost goal = processes_steps(typed@, all, *context);
        let mut list: Vec<ProcessIoCandidate> = Vec::new();
        let mut i: usize = 0;
        proof {
            assert(all.skip(0) =~= all);
            assert(all.take(0) =~= Seq::empty());
            assert(views(list@) =~= Seq::empty());
        }
        while i < identities.len()
            invariant
                i <= identities.len(),
                all == identity_lists(identities@),
                start == old(sink)@,
                goal == processes_steps(typed@, all, *context),
                sink@.rules == start.rules,
                sink@.state.hit == start.state.hit,
                run(start.state, start.rules, goal) == run(
                    sink@.state,
                    start.rules,
                    processes_steps(typed@, all.skip(i as int), *context),
                ),
                views(list@) == process_candidates(typed@, all.take(i as int), *context),
                *final(sink.findings) == *final(old(sink).findings),
                *final(sink.budget) == *final(old(sink).budget),
                *final(sink.counts) == *final(old(sink).counts),
            decreases identities.len() - i,
        {
            let ghost before = sink@;
            let ghost here = process_steps(typed@, all[i as int], *context);
            let ghost later = processes_steps(typed@, all.skip(i + 1), *context);
            proof {
                assert(all[i as int] == views(identities@[i as int]@));
                assert(all.skip(i as int).drop_first() =~= all.skip(i + 1));
                assert(all.take(i + 1).drop_last() =~= all.take(i as int));
                assert(all.take(i + 1).last() == all[i as int]);
                lemma_run_concat(before.state, before.rules, here, later);
            }
            match Self::candidate(typed, context, sink, &identities[i]) {
                Ok(Some(found)) => {
                    proof {
                        lemma_views_push(list@, found);
                    }
                    list.push(found);
                },
                Ok(None) => {},
                Err(hit) => {
                    proof {
                        lemma_stopped(sink@.state, start.rules, later);
                    }
                    return Err(hit);
                },
            }
            i = i + 1;
        }
        proof {
            assert(all.skip(i as int) =~= Seq::empty());
            assert(all.take(i as int) =~= all);
        }
        Ok(list)
    }

    fn entity(candidate: &ProcessIoCandidate, pid: i64, starttime: i64) -> (r: GaugeEntity)
        requires
            process_numbers(candidate@.identity) == Some((pid, starttime)),
        ensures
            r@ == entity_of(OS_PROCESS@, shown_identity(candidate@)),
    {
        let category: &'static str = if candidate.postgres_backend {
            "postgres_backend"
        } else if candidate.device.is_some() {
            "cgroup_device_association"
        } else {
            "process_association"
        };
        let mut identity: Vec<IdentityValue> = Vec::new();
        identity.push(IdentityValue::Text(category.to_string()));
        identity.push(IdentityValue::Text(Self::hash_identity(pid, starttime)));
        if let Some((major, minor)) = candidate.device {
            identity.push(IdentityValue::U64(major));
            identity.push(IdentityValue::U64(minor));
        }
        proof {
            assert(views(identity@) =~= shown_identity(candidate@));
        }
        GaugeEntity::new(OS_PROCESS, identity)
    }

    /// The traffic of the leading candidates.
    fn measure(candidates: &Vec<ProcessIoCandidate>) -> (r: Vec<GaugeEvidence>)
        ensures
            views(r@) == traffic(
                if candidates.len() > MAX_CONTRIBUTORS {
                    views(candidates@).take(MAX_CONTRIBUTORS as int)
                } else {
                    views(candidates@)
                },
            ),
    {
        let ghost all = views(candidates@);
        let count: usize = if candidates.len() > MAX_CONTRIBUTORS {
            MAX_CONTRIBUTORS
        } else {
            candidates.len()
        };
        let mut evidence: Vec<GaugeEvidence> = Vec::new();
        let mut i: usize = 0;
        proof {
            assert(all.take(0) =~= Seq::empty());
            assert(views(evidence@) =~= Seq::empty());
        }
        while i < count
            invariant
                i <= count <= candidates.len(),
                all == views(candidates@),
                views(evidence@) == traffic(all.take(i as int)),
            decreases count - i,
        {
            let candidate: &ProcessIoCandidate = &candidates[i];
            proof {
                assert(all.take(i + 1).drop_last() =~= all.take(i as int));
                assert(all.take(i + 1).last() == candidate@);
            }
            if let Some((pid, starttime)) = Self::process_identity(candidate.identity.as_slice()) {
                push_evidence(
                    &mut evidence,
                    GaugeEvidence::value(
                        GaugeValueInput {
                            operand: "io_bytes",
                            value: candidate.bytes,
                            unit: GaugeUnit::Bytes,
                            threshold: Float64 { bits: ONE },
                            threshold_kind: ThresholdKind::AtLeast,
                            observed_at_us: candidate.observed_at_us,
                            samples: candidate.intervals,
                            source_window: candidate.source_window,
                            entity: Self::entity(candidate, pid, starttime),
                        },
                    ),
                );
            }
            i = i + 1;
        }
        proof {
            assert(all.take(all.len() as int) =~= all);
        }
        evidence
    }
}

impl MemberLens for ProcessIoWhoLens {
    open spec fn member_steps(
        &self,
        member: EpisodeView,
        typed: TypedView,
        context: EvalContext,
    ) -> Seq<Step> {
        traffic_steps(member, typed, context)
    }

    fn evaluate_member(
        &self,
        member: &EpisodeRefV1,
        typed: &TypedInputs,
        context: &EvalContext,
        sink: &mut FindingSink<'_>,
    ) -> (r: Result<(), LimitHit>) {
        let ghost before = sink@;
        let identities: Vec<Vec<IdentityValue>> = typed.counter_identities(
            OS_PROCESS,
            "read_bytes",
        );
        let ghost all = typed@.identities(OS_PROCESS@, "read_bytes"@);
        let ghost first = seq![Step::Charge(all.len() as usize)];
        let ghost looks = processes_steps(typed@, all, *context);
        let ghost last = emitted(
            evidence_draft(
                member@,
                traffic(contributors(process_candidates(typed@, all, *context))),
            ),
        );
        proof {
            assert(all.len() == identities.len());
            assert(traffic_steps(member@, typed@, *context) == first + (looks + last));
        }
        match charge(sink, identities.len()) {
            Ok(_) => {},
            Err(hit) => {
                proof {
                    lemma_first_part_refused(before, sink@, first, looks + last, Err(hit));
                }
                return Err(hit);
            },
        }
        let ghost paid = sink@;
        let candidates: Vec<ProcessIoCandidate> = match Self::candidates(
            typed,
            context,
            sink,
            &identities,
        ) {
            Ok(list) => list,
            Err(hit) => {
                proof {
                    lemma_first_part_refused(paid, sink@, looks, last, Err(hit));
                    lemma_two_parts(before, paid, sink@, first, looks + last, Err(hit));
                }
                return Err(hit);
            },
        };
        let ghost looked = sink@;
        let sorted: Vec<ProcessIoCandidate> = sort_ranked(candidates);
        let evidence: Vec<GaugeEvidence> = Self::measure(&sorted);
        let r = emit_optional(sink, draft_evidence(member, evidence));
        proof {
            lemma_two_parts(paid, looked, sink@, looks, last, r);
            lemma_two_parts(before, paid, sink@, first, looks + last, r);
        }
        r
    }
}

/// No more processes are shown than the limit allows.
pub proof fn law_contributors_are_limited(candidates: Seq<ProcessIoView>)
    ensures
        contributors(candidates).len() <= MAX_CONTRIBUTORS,
        traffic(contributors(candidates)).len() <= MAX_CONTRIBUTORS,
{
    lemma_traffic_len(contributors(candidates));
}

proof fn lemma_traffic_len(candidates: Seq<ProcessIoView>)
    ensures
        traffic(candidates).len() <= candidates.len(),
    decreases candidates.len(),
{
    if candidates.len() > 0 {
        lemma_traffic_len(candidates.drop_last());
    }
}

/// A process is shown without its numbers: only texts and the numbers of its
/// device.
pub proof fn law_shown_identities_hide_the_process(candidate: ProcessIoView)
    ensures
        shown_identity(candidate).len() == if candidate.device is Some {
            4int
        } else {
            2
        },
        forall|i: int|
            0 <= i < shown_identity(candidate).len() ==> !(#[trigger] shown_identity(
                candidate,
            )[i] is I64),
{
}

impl Lens for ProcessIoWhoLens {
    open spec fn id_text(&self) -> Seq<char> {
        "OS-IOWHO-026"@
    }

    open spec fn input_list(&self) -> Seq<SectionColumn> {
        seq![
            SectionColumn { section: OS_PROCESS, column: "read_bytes" },
            SectionColumn { section: OS_PROCESS, column: "write_bytes" },
        ]
    }

    open spec fn cap(&self) -> ConfidenceCap {
        ConfidenceCap::Low
    }

    open spec fn steps(
        &self,
        cluster: ClusterView,
        series: SeriesSetView,
        typed: TypedView,
        context: EvalContext,
    ) -> Seq<Step> {
        first_member_steps(self, OS_PROCESS@, cluster, typed, context)
    }

    fn id(&self) -> (r: &'static str) {
        "OS-IOWHO-026"
    }

    fn inputs(&self) -> (r: &'static [SectionColumn]) {
        &[
            SectionColumn { section: OS_PROCESS, column: "read_bytes" },
            SectionColumn { section: OS_PROCESS, column: "write_bytes" },
        ]
    }

    fn confidence_cap(&self) -> (r: ConfidenceCap) {
        ConfidenceCap::Low
    }

    fn evaluate(
        &self,
        cluster: &Cluster,
        series: &SeriesSet,
        typed: &TypedInputs,
        context: &EvalContext,
        sink: &mut FindingSink<'_>,
    ) -> (r: Result<(), LimitHit>) {
        evaluate_first_member(self, OS_PROCESS, cluster, typed, context, sink)
    }
}

} // verus!
