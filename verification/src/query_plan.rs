//! Statement and plan lenses over privacy-reduced typed evidence.

use crate::active::observe::{draft_observations, entity, entity_of, observations_draft};
use crate::cluster::{Cluster, ClusterView};
use crate::dispatch::{texts, LimitHit, SectionColumn};
use crate::engine::EvalContext;
use crate::evidence::confidence::{ConfidenceCap, Role};
use crate::evidence::coverage::{span_of, SourceWindow};
use crate::evidence::finding::{DraftView, FindingDraft};
use crate::evidence::gauge::{
    option_view, ratio_evidence, value_evidence, EntityView, GaugeEntity, GaugeEvidence,
    GaugeEvidenceView, GaugeRatio, GaugeValueInput,
};
use crate::evidence::sink::{FindingSink, Step};
use crate::evidence::value::{GaugeUnit, ThresholdKind};
use crate::float64::{Float64, ONE};
use crate::inspect::{
    charge, cluster_steps, draft_view, emit_optional, emitted, evaluate_members,
    lemma_first_part_refused, lemma_two_parts, MemberLens,
};
use crate::lens::{reported, Lens};
use crate::model::{EpisodeRefV1, EpisodeView, IdentityValue, IdentityView};
use crate::order::{ints, key_of, lex_less, views, Keyed, Ranked};
use crate::ordered::{
    contents, entry_at, lemma_entry, lemma_listing, listing, names, well_formed, MapEntry,
    OrderedMap,
};
use crate::series::{SeriesSet, SeriesSetView};
use crate::text::{push_int, text_eq};
use crate::typed::counter::{AlignedSums, AlignedView};
use crate::typed::gauge::capped;
use crate::typed::inputs::{aligned_option, TypedInputs, TypedView};
use crate::typed::snapshot::{PlanFork, PlanSample};
use vstd::prelude::*;

verus! {

pub const STATEMENTS: &'static str = "pg_stat_statements";

pub const PLANS_OSSC: &'static str = "pg_store_plans_ossc";

pub const PLANS_VADV: &'static str = "pg_store_plans_vadv";

/// Fewest shared intervals behind a statement finding.
pub const MIN_INTERVALS: usize = 3;

/// 50.0 milliseconds per call.
pub const MIN_MS_PER_CALL: u64 = 0x4049_0000_0000_0000;

/// 1000.0 blocks per call.
pub const MIN_BLOCKS_PER_CALL: u64 = 0x408f_4000_0000_0000;

/// `PG-QRY-001`: work per call of one statement, over intervals in which every
/// counter of the statement is usable.
pub struct QueryWorkLens;

/// The counters of a statement: calls, execution time under the given name,
/// rows, then the blocks.
#[verifier::opaque]
pub open spec fn work_columns(time: Seq<char>) -> Seq<Seq<char>> {
    seq![
        "calls"@,
        time,
        "rows"@,
        "shared_blks_hit"@,
        "shared_blks_read"@,
        "shared_blks_dirtied"@,
        "shared_blks_written"@,
        "local_blks_hit"@,
        "local_blks_read"@,
        "local_blks_dirtied"@,
        "local_blks_written"@,
        "temp_blks_read"@,
        "temp_blks_written"@,
    ]
}

/// A sum of numbers from left to right.
pub open spec fn total(values: Seq<Float64>) -> Float64
    decreases values.len(),
{
    if values.len() == 0 {
        Float64 { bits: 0 }
    } else {
        total(values.drop_last()).sum_with(values.last())
    }
}

/// The sums of a statement's counters, where enough intervals are shared.
pub open spec fn statement_sums(
    typed: TypedView,
    identity: Seq<IdentityView>,
    time: Seq<char>,
    context: EvalContext,
) -> Option<AlignedView> {
    match typed.aligned_sums(
        STATEMENTS@,
        identity,
        work_columns(time),
        context.incident_start_us,
        context.incident_end_us,
    ) {
        Some(sums) => if sums.intervals >= MIN_INTERVALS {
            Some(sums)
        } else {
            None
        },
        None => None,
    }
}

/// What reading a statement's counters is paid with.
pub open spec fn statement_charge(
    typed: TypedView,
    identity: Seq<IdentityView>,
    time: Seq<char>,
) -> Seq<Step> {
    seq![Step::Charge(capped(typed.counter_points(STATEMENTS@, identity, work_columns(time))))]
}

/// A ratio per call.
pub open spec fn per_call(
    name: Seq<char>,
    amount: Float64,
    unit: GaugeUnit,
    calls: Float64,
    result_unit: GaugeUnit,
    threshold: Float64,
    sums: AlignedView,
    entity: EntityView,
) -> Option<GaugeEvidenceView> {
    ratio_evidence(
        name,
        amount,
        unit,
        "calls"@,
        calls,
        GaugeUnit::Count,
        result_unit,
        threshold,
        ThresholdKind::AtLeast,
        sums.last_end_us,
        sums.intervals,
        sums.source_window,
        entity,
    )
}

/// Whether the work per call is worth a finding.
pub open spec fn heavy(sums: AlignedView) -> bool {
    let zero = Float64 { bits: 0 };
    let calls = sums.sums[0];
    let blocks = total(sums.sums.skip(3));
    let ms_per_call = sums.sums[1].quotient_by(calls);
    let blocks_per_call = blocks.quotient_by(calls);
    &&& !calls.at_most(zero)
    &&& !sums.sums[1].below(zero)
    &&& !sums.sums[2].below(zero)
    &&& !blocks.below(zero)
    &&& ms_per_call.finite()
    &&& blocks_per_call.finite()
    &&& !ms_per_call.below(Float64 { bits: MIN_MS_PER_CALL }) || !blocks_per_call.below(
        Float64 { bits: MIN_BLOCKS_PER_CALL },
    )
}

/// The draft about a statement: its calls, then time, rows and blocks per call.
pub open spec fn work_draft(member: EpisodeView, sums: AlignedView) -> Option<DraftView> {
    let zero = Float64 { bits: 0 };
    let about = entity_of(STATEMENTS@, member.identity);
    let calls = sums.sums[0];
    if heavy(sums) {
        match (
            value_evidence(
                "calls"@,
                calls,
                GaugeUnit::Count,
                Float64 { bits: ONE },
                ThresholdKind::AtLeast,
                sums.last_end_us,
                sums.intervals,
                sums.source_window,
                about,
            ),
            per_call(
                "execution_time_ms"@,
                sums.sums[1],
                GaugeUnit::Milliseconds,
                calls,
                GaugeUnit::MillisecondsPerCall,
                Float64 { bits: MIN_MS_PER_CALL },
                sums,
                about,
            ),
            per_call(
                "rows"@,
                sums.sums[2],
                GaugeUnit::Count,
                calls,
                GaugeUnit::RowsPerCall,
                zero,
                sums,
                about,
            ),
            per_call(
                "blocks"@,
                total(sums.sums.skip(3)),
                GaugeUnit::Count,
                calls,
                GaugeUnit::BlocksPerCall,
                Float64 { bits: MIN_BLOCKS_PER_CALL },
                sums,
                about,
            ),
        ) {
            (Some(a), Some(b), Some(c), Some(d)) => Some(
                observations_draft(Role::Amplifier, member, seq![a, b, c, d]),
            ),
            _ => None,
        }
    } else {
        None
    }
}

/// Adds numbers from left to right, from a position on.
pub fn total_from(values: &Vec<Float64>, from: usize) -> (r: Float64)
    requires
        from <= values.len(),
    ensures
        r == total(values@.skip(from as int)),
{
    let ghost tail = values@.skip(from as int);
    let mut sum = Float64 { bits: 0 };
    let mut i: usize = from;
    proof {
        assert(tail.take(0) =~= Seq::empty());
    }
    while i < values.len()
        invariant
            from <= i <= values.len(),
            tail == values@.skip(from as int),
            sum == total(tail.take(i - from)),
        decreases values.len() - i,
    {
        proof {
            assert(tail.take(i + 1 - from).drop_last() =~= tail.take(i - from));
            assert(tail.take(i + 1 - from).last() == values@[i as int]);
        }
        sum = sum.plus(values[i]);
        i = i + 1;
    }
    proof {
        assert(tail.take(i - from) =~= tail);
    }
    sum
}

impl QueryWorkLens {
    /// Pays for the counters of a statement and sums them.
    fn read_sums(
        typed: &TypedInputs,
        member: &EpisodeRefV1,
        time: &'static str,
        context: &EvalContext,
        sink: &mut FindingSink<'_>,
    ) -> (r: Result<Option<AlignedSums>, LimitHit>)
        ensures
            reported(
                old(sink)@,
                final(sink)@,
                statement_charge(typed@, member@.identity, time@),
                match r {
                    Ok(_) => Ok(()),
                    Err(hit) => Err(hit),
                },
            ),
            r matches Ok(sums) ==> aligned_option(sums) == statement_sums(
                typed@,
                member@.identity,
                time@,
                *context,
            ),
            r matches Ok(Some(sums)) ==> sums.sums.len() == 13,
            *final(final(sink).findings) == *final(old(sink).findings),
            *final(final(sink).budget) == *final(old(sink).budget),
            *final(final(sink).counts) == *final(old(sink).counts),
    {
        let columns: [&'static str; 13] = [
            "calls",
            time,
            "rows",
            "shared_blks_hit",
            "shared_blks_read",
            "shared_blks_dirtied",
            "shared_blks_written",
            "local_blks_hit",
            "local_blks_read",
            "local_blks_dirtied",
            "local_blks_written",
            "temp_blks_read",
            "temp_blks_written",
        ];
        proof {
            reveal(work_columns);
            assert(texts(columns@) =~= work_columns(time@));
        }
        match charge(
            sink,
            typed.aligned_counter_points(STATEMENTS, member.identity.as_slice(), &columns),
        ) {
            Ok(_) => {},
            Err(hit) => {
                return Err(hit);
            },
        }
        match typed.aligned_delta_sums(
            STATEMENTS,
            member.identity.as_slice(),
            &columns,
            context.incident_start_us,
            context.incident_end_us,
        ) {
            Some(sums) => if sums.intervals >= MIN_INTERVALS {
                Ok(Some(sums))
            } else {
                Ok(None)
            },
            None => Ok(None),
        }
    }

    /// Measures an amount per call.
    fn measure_per_call(
        name: &'static str,
        amount: Float64,
        unit: GaugeUnit,
        result_unit: GaugeUnit,
        threshold: Float64,
        sums: &AlignedSums,
        member: &EpisodeRefV1,
    ) -> (r: Option<GaugeEvidence>)
        requires
            sums.sums.len() > 0,
        ensures
            option_view(r) == per_call(
                name@,
                amount,
                unit,
                sums@.sums[0],
                result_unit,
                threshold,
                sums@,
                entity_of(STATEMENTS@, member@.identity),
            ),
    {
        GaugeEvidence::ratio(
            GaugeRatio::with_units(
                name,
                amount,
                unit,
                "calls",
                sums.sums[0],
                GaugeUnit::Count,
                result_unit,
            ),
            threshold,
            ThresholdKind::AtLeast,
            sums.last_end_us,
            sums.intervals,
            sums.source_window,
            entity(STATEMENTS, &member.identity),
        )
    }

    fn draft_work(member: &EpisodeRefV1, sums: &AlignedSums) -> (r: Option<FindingDraft>)
        requires
            sums.sums.len() == 13,
        ensures
            draft_view(r) == work_draft(member@, sums@),
    {
        let zero = Float64 { bits: 0 };
        let ms_floor = Float64 { bits: MIN_MS_PER_CALL };
        let block_floor = Float64 { bits: MIN_BLOCKS_PER_CALL };
        let calls: Float64 = sums.sums[0];
        let total_ms: Float64 = sums.sums[1];
        let rows: Float64 = sums.sums[2];
        let block_work: Float64 = total_from(&sums.sums, 3);
        if calls.less_or_equal(zero) || total_ms.less(zero) || rows.less(zero) || block_work.less(
            zero,
        ) {
            return None;
        }
        let ms_per_call: Float64 = total_ms.divided_by(calls);
        let blocks_per_call: Float64 = block_work.divided_by(calls);
        if !ms_per_call.is_finite() || !blocks_per_call.is_finite() || (ms_per_call.less(ms_floor)
            && blocks_per_call.less(block_floor)) {
            return None;
        }
        let count: Option<GaugeEvidence> = GaugeEvidence::value(
            GaugeValueInput {
                operand: "calls",
                value: calls,
                unit: GaugeUnit::Count,
                threshold: Float64 { bits: ONE },
                threshold_kind: ThresholdKind::AtLeast,
                observed_at_us: sums.last_end_us,
                samples: sums.intervals,
                source_window: sums.source_window,
                entity: entity(STATEMENTS, &member.identity),
            },
        );
        let time: Option<GaugeEvidence> = Self::measure_per_call(
            "execution_time_ms",
            total_ms,
            GaugeUnit::Milliseconds,
            GaugeUnit::MillisecondsPerCall,
            ms_floor,
            sums,
            member,
        );
        let returned: Option<GaugeEvidence> = Self::measure_per_call(
            "rows",
            rows,
            GaugeUnit::Count,
            GaugeUnit::RowsPerCall,
            zero,
            sums,
            member,
        );
        let touched: Option<GaugeEvidence> = Self::measure_per_call(
            "blocks",
            block_work,
            GaugeUnit::Count,
            GaugeUnit::BlocksPerCall,
            block_floor,
            sums,
            member,
        );
        match (count, time, returned, touched) {
            (Some(a), Some(b), Some(c), Some(d)) => {
                let ghost all = seq![a@, b@, c@, d@];
                let mut evidence: Vec<GaugeEvidence> = Vec::new();
                evidence.push(a);
                evidence.push(b);
                evidence.push(c);
                evidence.push(d);
                proof {
                    assert(views(evidence@) =~= all);
                }
                Some(draft_observations(Role::Amplifier, member, evidence))
            },
            _ => None,
        }
    }
}

impl MemberLens for QueryWorkLens {
    open spec fn member_steps(
        &self,
        member: EpisodeView,
        typed: TypedView,
        context: EvalContext,
    ) -> Seq<Step> {
        let id = member.identity;
        if member.logical_section != STATEMENTS@ {
            Seq::empty()
        } else {
            statement_charge(typed, id, "total_exec_time"@) + match statement_sums(
                typed,
                id,
                "total_exec_time"@,
                context,
            ) {
                Some(sums) => emitted(work_draft(member, sums)),
                None => statement_charge(typed, id, "total_time"@) + match statement_sums(
                    typed,
                    id,
                    "total_time"@,
                    context,
                ) {
                    Some(sums) => emitted(work_draft(member, sums)),
                    None => Seq::empty(),
                },
            }
        }
    }

    fn evaluate_member(
        &self,
        member: &EpisodeRefV1,
        typed: &TypedInputs,
        context: &EvalContext,
        sink: &mut FindingSink<'_>,
    ) -> (r: Result<(), LimitHit>) {
        let ghost before = sink@;
        if !text_eq(member.logical_section, STATEMENTS) {
            return Ok(());
        }
        let ghost id = member@.identity;
        let ghost first = statement_charge(typed@, id, "total_exec_time"@);
        let ghost second = statement_charge(typed@, id, "total_time"@);
        let ghost last = match statement_sums(typed@, id, "total_time"@, *context) {
            Some(sums) => emitted(work_draft(member@, sums)),
            None => Seq::empty(),
        };
        let ghost rest = match statement_sums(typed@, id, "total_exec_time"@, *context) {
            Some(sums) => emitted(work_draft(member@, sums)),
            None => second + last,
        };
        proof {
            assert(self.member_steps(member@, typed@, *context) == first + rest);
        }
        let current: Option<AlignedSums> = match Self::read_sums(
            typed,
            member,
            "total_exec_time",
            context,
            sink,
        ) {
            Ok(sums) => sums,
            Err(hit) => {
                proof {
                    lemma_first_part_refused(before, sink@, first, rest, Err(hit));
                }
                return Err(hit);
            },
        };
        let ghost paid = sink@;
        if let Some(sums) = current {
            let draft = Self::draft_work(member, &sums);
            let r = emit_optional(sink, draft);
            proof {
                lemma_two_parts(before, paid, sink@, first, rest, r);
            }
            return r;
        }
        let legacy: Option<AlignedSums> = match Self::read_sums(
            typed,
            member,
            "total_time",
            context,
            sink,
        ) {
            Ok(sums) => sums,
            Err(hit) => {
                proof {
                    lemma_first_part_refused(paid, sink@, second, last, Err(hit));
                    lemma_two_parts(before, paid, sink@, first, rest, Err(hit));
                }
                return Err(hit);
            },
        };
        let ghost paid_twice = sink@;
        let draft: Option<FindingDraft> = match legacy {
            Some(sums) => Self::draft_work(member, &sums),
            None => None,
        };
        let r = emit_optional(sink, draft);
        proof {
            lemma_two_parts(paid, paid_twice, sink@, second, last, r);
            lemma_two_parts(before, paid, sink@, first, rest, r);
        }
        r
    }
}

impl Lens for QueryWorkLens {
    open spec fn id_text(&self) -> Seq<char> {
        "PG-QRY-001"@
    }

    open spec fn input_list(&self) -> Seq<SectionColumn> {
        seq![
            SectionColumn { section: STATEMENTS, column: "calls" },
            SectionColumn { section: STATEMENTS, column: "total_exec_time" },
            SectionColumn { section: STATEMENTS, column: "total_time" },
        ]
    }

    open spec fn cap(&self) -> ConfidenceCap {
        ConfidenceCap::Medium
    }

    open spec fn steps(
        &self,
        cluster: ClusterView,
        series: SeriesSetView,
        typed: TypedView,
        context: EvalContext,
    ) -> Seq<Step> {
        cluster_steps(self, cluster, typed, context)
    }

    fn id(&self) -> (r: &'static str) {
        "PG-QRY-001"
    }

    fn inputs(&self) -> (r: &'static [SectionColumn]) {
        &[
            SectionColumn { section: STATEMENTS, column: "calls" },
            SectionColumn { section: STATEMENTS, column: "total_exec_time" },
            SectionColumn { section: STATEMENTS, column: "total_time" },
        ]
    }

    fn confidence_cap(&self) -> (r: ConfidenceCap) {
        ConfidenceCap::Medium
    }

    fn evaluate(
        &self,
        cluster: &Cluster,
        series: &SeriesSet,
        typed: &TypedInputs,
        context: &EvalContext,
        sink: &mut FindingSink<'_>,
    ) -> (r: Result<(), LimitHit>) {
        evaluate_members(self, cluster, typed, context, sink)
    }
}

/// Longest pause between two snapshots that are compared: ten minutes.
pub const MAX_PAIRED_GAP_US: i64 = 600_000_000;

/// `PG-PLAN-002`: a plan that appeared between two snapshots and did work
/// before the next one.
pub struct PlanChurnLens;

/// What joins the plans of one statement across snapshots. One of the two
/// stores attributes plans to statements only loosely, so there the query
/// does not take part.
#[derive(Debug, Clone, Copy, PartialEq, Eq, PartialOrd, Ord, Structural)]
pub struct Bridge {
    pub fork: PlanFork,
    pub dbid: u64,
    pub userid: u64,
    pub queryid: i64,
}

/// One plan of a bridge in one snapshot.
#[derive(Debug, Clone, Copy, PartialEq, Eq, Structural)]
pub struct PlanKey {
    pub bridge: Bridge,
    pub ts: i64,
    pub planid: i64,
}

impl View for PlanKey {
    type V = PlanKey;

    open spec fn view(&self) -> PlanKey {
        *self
    }
}

/// Plans order by bridge, time and plan.
impl Ranked for PlanKey {
    open spec fn rank(self) -> Seq<int> {
        seq![
            self.bridge.fork.place(),
            self.bridge.dbid as int,
            self.bridge.userid as int,
            self.bridge.queryid as int,
            self.ts as int,
            self.planid as int,
        ]
    }

    proof fn rank_splits(a: Self, b: Self, x: Seq<int>, y: Seq<int>) {
        let left = a.rank() + x;
        let right = b.rank() + y;
        assert forall|i: int| 0 <= i < 6 implies #[trigger] a.rank()[i] == b.rank()[i] by {
            assert(left[i] == a.rank()[i] && right[i] == b.rank()[i]);
        }
        assert(a.rank()[0] == b.rank()[0]);
        assert(a.rank()[1] == b.rank()[1]);
        assert(a.rank()[2] == b.rank()[2]);
        assert(a.rank()[3] == b.rank()[3]);
        assert(a.rank()[4] == b.rank()[4]);
        assert(a.rank()[5] == b.rank()[5]);
        assert(x =~= left.skip(6));
        assert(y =~= right.skip(6));
    }
}

impl Keyed<PlanKey> for PlanKey {
    fn key_into(&self, out: &mut Vec<i128>) {
        let ghost start = ints(out@);
        push_int(out, self.bridge.fork.number());
        push_int(out, self.bridge.dbid as i128);
        push_int(out, self.bridge.userid as i128);
        push_int(out, self.bridge.queryid as i128);
        push_int(out, self.ts as i128);
        push_int(out, self.planid as i128);
        proof {
            assert(ints(out@) =~= start + self@.rank());
        }
    }
}

/// Whether a bridge comes before another.
pub open spec fn bridge_before(a: Bridge, b: Bridge) -> bool {
    if a.fork != b.fork {
        a.fork.place() < b.fork.place()
    } else if a.dbid != b.dbid {
        a.dbid < b.dbid
    } else if a.userid != b.userid {
        a.userid < b.userid
    } else {
        a.queryid < b.queryid
    }
}

/// Whether a plan comes before another.
pub open spec fn plan_before(a: PlanKey, b: PlanKey) -> bool {
    if a.bridge != b.bridge {
        bridge_before(a.bridge, b.bridge)
    } else if a.ts != b.ts {
        a.ts < b.ts
    } else {
        a.planid < b.planid
    }
}

proof fn lemma_plan_order(a: PlanKey, b: PlanKey)
    ensures
        lex_less(a.rank(), b.rank()) == plan_before(a, b),
{
    let x = a.rank();
    let y = b.rank();
    assert(x.drop_first() =~= x.skip(1) && y.drop_first() =~= y.skip(1));
    assert(x.skip(1).drop_first() =~= x.skip(2) && y.skip(1).drop_first() =~= y.skip(2));
    assert(x.skip(2).drop_first() =~= x.skip(3) && y.skip(2).drop_first() =~= y.skip(3));
    assert(x.skip(3).drop_first() =~= x.skip(4) && y.skip(3).drop_first() =~= y.skip(4));
    assert(x.skip(4).drop_first() =~= x.skip(5) && y.skip(4).drop_first() =~= y.skip(5));
    assert(lex_less(x.skip(5).drop_first(), y.skip(5).drop_first()) == false);
    assert(lex_less(x.skip(5), y.skip(5)) == (x[5] < y[5]));
    assert(lex_less(x.skip(4), y.skip(4)) == (x[4] < y[4] || (x[4] == y[4] && x[5] < y[5])));
    assert(lex_less(x.skip(3), y.skip(3)) == (x[3] < y[3] || (x[3] == y[3] && lex_less(
        x.skip(4),
        y.skip(4),
    ))));
    assert(lex_less(x.skip(2), y.skip(2)) == (x[2] < y[2] || (x[2] == y[2] && lex_less(
        x.skip(3),
        y.skip(3),
    ))));
    assert(lex_less(x.skip(1), y.skip(1)) == (x[1] < y[1] || (x[1] == y[1] && lex_less(
        x.skip(2),
        y.skip(2),
    ))));
    assert(lex_less(x, y) == (x[0] < y[0] || (x[0] == y[0] && lex_less(x.skip(1), y.skip(1)))));
}

/// The bridge of a sample.
pub open spec fn bridge_of(sample: PlanSample) -> Bridge {
    Bridge {
        fork: sample.fork,
        dbid: sample.dbid,
        userid: sample.userid,
        queryid: if sample.fork == PlanFork::Ossc {
            sample.queryid
        } else {
            0
        },
    }
}

pub open spec fn plan_key(sample: PlanSample) -> PlanKey {
    PlanKey { bridge: bridge_of(sample), ts: sample.ts, planid: sample.planid }
}

/// The sample of a plan in a snapshot; of several, the last.
pub open spec fn plan_sample(samples: Seq<PlanSample>, key: PlanKey) -> Option<PlanSample>
    decreases samples.len(),
{
    if samples.len() == 0 {
        None
    } else if plan_key(samples.last()) == key {
        Some(samples.last())
    } else {
        plan_sample(samples.drop_last(), key)
    }
}

/// Whether a bridge has a plan in the snapshot of a time.
pub open spec fn plan_time(samples: Seq<PlanSample>, bridge: Bridge, ts: i64) -> bool {
    exists|planid: i64| #[trigger]
        plan_sample(samples, PlanKey { bridge, ts, planid }) is Some
}

/// Whether `before` is the last time of a bridge before `ts`.
pub open spec fn is_previous(
    samples: Seq<PlanSample>,
    bridge: Bridge,
    ts: i64,
    before: i64,
) -> bool {
    &&& before < ts
    &&& plan_time(samples, bridge, before)
    &&& forall|t: i64| #[trigger] plan_time(samples, bridge, t) && t < ts ==> t <= before
}

/// Whether `after` is the first time of a bridge after `ts`.
pub open spec fn is_next(samples: Seq<PlanSample>, bridge: Bridge, ts: i64, after: i64) -> bool {
    &&& ts < after
    &&& plan_time(samples, bridge, after)
    &&& forall|t: i64| #[trigger] plan_time(samples, bridge, t) && ts < t ==> after <= t
}

/// The plans of a bridge in the snapshot of a time, in order.
pub open spec fn plans_at(samples: Seq<PlanSample>, bridge: Bridge, ts: i64) -> Seq<i64> {
    listing(has_plan(samples, bridge, ts))
}

pub open spec fn has_plan(samples: Seq<PlanSample>, bridge: Bridge, ts: i64) -> spec_fn(
    i64,
) -> bool {
    |planid: i64| plan_sample(samples, PlanKey { bridge, ts, planid }) is Some
}

/// Calls that some plans of a snapshot gained up to a later one.
pub open spec fn gained_calls(
    samples: Seq<PlanSample>,
    bridge: Bridge,
    ts: i64,
    after: i64,
    planids: Seq<i64>,
) -> Float64
    decreases planids.len(),
{
    if planids.len() == 0 {
        Float64 { bits: 0 }
    } else {
        let sum = gained_calls(samples, bridge, ts, after, planids.drop_last());
        match (
            plan_sample(samples, PlanKey { bridge, ts, planid: planids.last() }),
            plan_sample(samples, PlanKey { bridge, ts: after, planid: planids.last() }),
        ) {
            (Some(current), Some(next)) => {
                let delta = next.calls.sum_with(current.calls.negated());
                if delta.finite() && (Float64 { bits: 0 }).below(delta) {
                    sum.sum_with(delta)
                } else {
                    sum
                }
            },
            _ => sum,
        }
    }
}

/// The snapshots around one in which plans may have appeared.
pub struct PlanWindow {
    pub before: i64,
    pub after: i64,
    /// Calls that the plans of the snapshot gained up to the next one.
    pub calls: Float64,
}

/// The window around a snapshot of a bridge: it has a snapshot before and one
/// after it, neither too far away, and its plans gained calls.
pub open spec fn plan_window(samples: Seq<PlanSample>, bridge: Bridge, ts: i64) -> Option<
    PlanWindow,
> {
    let before = choose|t: i64| is_previous(samples, bridge, ts, t);
    let after = choose|t: i64| is_next(samples, bridge, ts, t);
    let calls = gained_calls(samples, bridge, ts, after, plans_at(samples, bridge, ts));
    if is_previous(samples, bridge, ts, before) && is_next(samples, bridge, ts, after) && ts
        - before <= MAX_PAIRED_GAP_US && after - ts <= MAX_PAIRED_GAP_US && (Float64 {
        bits: 0,
    }).below(calls) && calls.finite() {
        Some(PlanWindow { before, after, calls })
    } else {
        None
    }
}

/// A plan that appeared, and its work.
#[derive(Debug, Clone, Copy, PartialEq, Eq, Structural)]
pub struct PlanCandidate {
    pub bridge: Bridge,
    pub planid: i64,
    pub attributed_queryid: i64,
    pub calls: Float64,
    pub total_time_ms: Float64,
    pub calls_denominator: Float64,
    pub observed_at_us: i64,
}

/// The work of a plan that appeared in a snapshot with the given window.
pub open spec fn work_of(
    samples: Seq<PlanSample>,
    key: PlanKey,
    window: PlanWindow,
) -> Option<PlanCandidate> {
    let zero = Float64 { bits: 0 };
    match (
        plan_sample(samples, PlanKey { ts: window.before, ..key }),
        plan_sample(samples, key),
        plan_sample(samples, PlanKey { ts: window.after, ..key }),
    ) {
        (None, Some(current), Some(next)) => {
            let calls = next.calls.sum_with(current.calls.negated());
            let total_time_ms = next.total_time_ms.sum_with(current.total_time_ms.negated());
            if zero.below(calls) && calls.finite() && zero.below(total_time_ms)
                && total_time_ms.finite() {
                Some(
                    PlanCandidate {
                        bridge: key.bridge,
                        planid: key.planid,
                        attributed_queryid: next.queryid,
                        calls,
                        total_time_ms,
                        calls_denominator: window.calls,
                        observed_at_us: window.after,
                    },
                )
            } else {
                None
            }
        },
        _ => None,
    }
}

/// The work of a plan that appeared in a snapshot.
#[verifier::opaque]
pub open spec fn appeared(samples: Seq<PlanSample>, key: PlanKey) -> Option<PlanCandidate> {
    match plan_window(samples, key.bridge, key.ts) {
        Some(window) => work_of(samples, key, window),
        None => None,
    }
}

/// Whether the plan took at least as long as every other that appeared; of
/// equally long ones it is the first.
pub open spec fn is_costliest(samples: Seq<PlanSample>, key: PlanKey) -> bool {
    &&& appeared(samples, key) is Some
    &&& forall|other: PlanKey| #[trigger]
        appeared(samples, other) is Some ==> not_costlier(samples, other, key)
}

pub open spec fn not_costlier(samples: Seq<PlanSample>, other: PlanKey, key: PlanKey) -> bool {
    let a = appeared(samples, other)->Some_0.total_time_ms;
    let b = appeared(samples, key)->Some_0.total_time_ms;
    a.below(b) || (!b.below(a) && !plan_before(other, key))
}

/// The plan to report, if any appeared.
pub open spec fn costliest(samples: Seq<PlanSample>) -> Option<PlanCandidate> {
    if exists|key: PlanKey| is_costliest(samples, key) {
        appeared(samples, choose|key: PlanKey| is_costliest(samples, key))
    } else {
        None
    }
}

/// Whether a map holds the samples of every plan.
pub open spec fn holds_plans(map: Map<PlanKey, PlanSample>, samples: Seq<PlanSample>) -> bool {
    forall|key: PlanKey|
        #![trigger map.dom().contains(key)]
        #![trigger plan_sample(samples, key)]
        plan_sample(samples, key) == if map.dom().contains(key) {
            Some(map[key])
        } else {
            None
        }
}

/// Whether entries hold the samples of every plan, in order.
pub open spec fn lists_plans(
    entries: Seq<MapEntry<PlanKey, PlanSample>>,
    samples: Seq<PlanSample>,
) -> bool {
    &&& forall|i: int, j: int|
        0 <= i < j < entries.len() ==> plan_before(
            (#[trigger] entries[i]).name,
            (#[trigger] entries[j]).name,
        )
    &&& forall|i: int|
        0 <= i < entries.len() ==> plan_sample(samples, (#[trigger] entries[i]).name) == Some(
            entries[i].value,
        )
    &&& forall|key: PlanKey| #[trigger]
        plan_sample(samples, key) is Some ==> exists|i: int|
            0 <= i < entries.len() && (#[trigger] entries[i]).name == key
}

/// Whether the entries from `start` to `end` are those of one snapshot.
pub open spec fn is_snapshot(
    entries: Seq<MapEntry<PlanKey, PlanSample>>,
    start: int,
    end: int,
) -> bool {
    &&& 0 <= start < end <= entries.len()
    &&& forall|i: int|
        start <= i < end ==> same_snapshot((#[trigger] entries[i]).name, entries[start].name)
    &&& start > 0 ==> !same_snapshot(entries[start - 1].name, entries[start].name)
    &&& end < entries.len() ==> !same_snapshot(entries[end].name, entries[start].name)
}

pub open spec fn same_snapshot(a: PlanKey, b: PlanKey) -> bool {
    a.bridge == b.bridge && a.ts == b.ts
}

/// Where the entry of a plan of the snapshot stands.
proof fn lemma_in_snapshot(
    entries: Seq<MapEntry<PlanKey, PlanSample>>,
    samples: Seq<PlanSample>,
    start: int,
    end: int,
    i: int,
)
    requires
        lists_plans(entries, samples),
        is_snapshot(entries, start, end),
        0 <= i < entries.len(),
        same_snapshot(entries[i].name, entries[start].name),
    ensures
        start <= i < end,
{
    if i < start {
        let p = entries[start - 1].name;
        assert(plan_before(p, entries[start].name));
        if i < start - 1 {
            assert(plan_before(entries[i].name, p));
        }
    }
    if i >= end {
        let p = entries[end].name;
        assert(plan_before(entries[start].name, p));
        if i > end {
            assert(plan_before(p, entries[i].name));
        }
    }
}

/// The plans of a snapshot are listed by its entries.
proof fn lemma_snapshot_plans(
    entries: Seq<MapEntry<PlanKey, PlanSample>>,
    samples: Seq<PlanSample>,
    start: int,
    end: int,
)
    requires
        lists_plans(entries, samples),
        is_snapshot(entries, start, end),
    ensures
        plans_at(samples, entries[start].name.bridge, entries[start].name.ts) == Seq::new(
            (end - start) as nat,
            |i: int| entries[start + i].name.planid,
        ),
{
    let key = entries[start].name;
    let list = Seq::new((end - start) as nat, |i: int| entries[start + i].name.planid);
    let all = has_plan(samples, key.bridge, key.ts);
    assert forall|i: int, j: int| 0 <= i < j < list.len() implies lex_less(
        (#[trigger] list[i]).rank(),
        (#[trigger] list[j]).rank(),
    ) by {
        let a = entries[start + i].name;
        let b = entries[start + j].name;
        assert(plan_before(a, b));
        assert(same_snapshot(a, key) && same_snapshot(b, key));
        assert(a.planid < b.planid);
    }
    assert forall|p: i64| #[trigger] list.contains(p) <==> all(p) by {
        let wanted = PlanKey { bridge: key.bridge, ts: key.ts, planid: p };
        if list.contains(p) {
            let i = choose|i: int| 0 <= i < list.len() && list[i] == p;
            assert(same_snapshot(entries[start + i].name, key));
            assert(entries[start + i].name == wanted);
        }
        if all(p) {
            assert(plan_sample(samples, wanted) is Some);
            let i = choose|i: int|
                0 <= i < entries.len() && (#[trigger] entries[i]).name == wanted;
            lemma_in_snapshot(entries, samples, start, end, i);
            assert(list[i - start] == p);
        }
    }
    lemma_listing(list, all);
}

/// The snapshot before is that of the entry before.
proof fn lemma_previous(
    entries: Seq<MapEntry<PlanKey, PlanSample>>,
    samples: Seq<PlanSample>,
    start: int,
    end: int,
)
    requires
        lists_plans(entries, samples),
        is_snapshot(entries, start, end),
    ensures
        ({
            let key = entries[start].name;
            if start > 0 && entries[start - 1].name.bridge == key.bridge {
                forall|t: i64|
                    #[trigger] is_previous(samples, key.bridge, key.ts, t) <==> t
                        == entries[start - 1].name.ts
            } else {
                forall|t: i64| !(#[trigger] is_previous(samples, key.bridge, key.ts, t))
            }
        }),
{
    let key = entries[start].name;
    assert forall|t: i64| #[trigger] plan_time(samples, key.bridge, t) && t < key.ts implies start
        > 0 && entries[start - 1].name.bridge == key.bridge && t <= entries[start - 1].name.ts by {
        let planid = choose|planid: i64| #[trigger]
            plan_sample(samples, PlanKey { bridge: key.bridge, ts: t, planid }) is Some;
        let wanted = PlanKey { bridge: key.bridge, ts: t, planid };
        let i = choose|i: int| 0 <= i < entries.len() && (#[trigger] entries[i]).name == wanted;
        if i > start {
            assert(plan_before(key, wanted));
        }
        assert(i < start);
        let p = entries[start - 1].name;
        assert(plan_before(p, key));
        if i < start - 1 {
            assert(plan_before(wanted, p));
        }
    }
    if start > 0 && entries[start - 1].name.bridge == key.bridge {
        let p = entries[start - 1].name;
        assert(plan_before(p, key));
        assert(plan_sample(samples, PlanKey { bridge: key.bridge, ts: p.ts, planid: p.planid })
            is Some);
        assert(plan_time(samples, key.bridge, p.ts));
        assert(is_previous(samples, key.bridge, key.ts, p.ts));
    }
}

/// The snapshot after is that of the entry after.
proof fn lemma_next(
    entries: Seq<MapEntry<PlanKey, PlanSample>>,
    samples: Seq<PlanSample>,
    start: int,
    end: int,
)
    requires
        lists_plans(entries, samples),
        is_snapshot(entries, start, end),
    ensures
        ({
            let key = entries[start].name;
            if end < entries.len() && entries[end].name.bridge == key.bridge {
                forall|t: i64|
                    #[trigger] is_next(samples, key.bridge, key.ts, t) <==> t
                        == entries[end].name.ts
            } else {
                forall|t: i64| !(#[trigger] is_next(samples, key.bridge, key.ts, t))
            }
        }),
{
    let key = entries[start].name;
    assert forall|t: i64| #[trigger] plan_time(samples, key.bridge, t) && key.ts < t implies end
        < entries.len() && entries[end].name.bridge == key.bridge && entries[end].name.ts <= t by {
        let planid = choose|planid: i64| #[trigger]
            plan_sample(samples, PlanKey { bridge: key.bridge, ts: t, planid }) is Some;
        let wanted = PlanKey { bridge: key.bridge, ts: t, planid };
        let i = choose|i: int| 0 <= i < entries.len() && (#[trigger] entries[i]).name == wanted;
        if i < start {
            assert(plan_before(wanted, key));
        }
        if start <= i < end {
            assert(same_snapshot(entries[i].name, key));
        }
        assert(i >= end);
        let p = entries[end].name;
        assert(plan_before(key, p));
        if i > end {
            assert(plan_before(p, wanted));
        }
    }
    if end < entries.len() && entries[end].name.bridge == key.bridge {
        let p = entries[end].name;
        assert(plan_before(key, p));
        assert(plan_sample(samples, PlanKey { bridge: key.bridge, ts: p.ts, planid: p.planid })
            is Some);
        assert(plan_time(samples, key.bridge, p.ts));
        assert(is_next(samples, key.bridge, key.ts, p.ts));
    }
}

impl PlanChurnLens {
    pub fn bridge(sample: &PlanSample) -> (r: Bridge)
        ensures
            r == bridge_of(*sample),
    {
        Bridge {
            fork: sample.fork,
            dbid: sample.dbid,
            userid: sample.userid,
            queryid: match sample.fork {
                PlanFork::Ossc => sample.queryid,
                PlanFork::Vadv => 0,
            },
        }
    }

    /// Groups samples by plan and snapshot.
    fn group(samples: &[PlanSample]) -> (r: OrderedMap<PlanKey, PlanSample>)
        ensures
            well_formed::<PlanKey, _, _>(r.entries@),
            holds_plans(contents::<PlanKey, _, _>(r.entries@), samples@),
            lists_plans(r.entries@, samples@),
    {
        let mut map: OrderedMap<PlanKey, PlanSample> = OrderedMap::new::<PlanKey>();
        let mut i: usize = 0;
        proof {
            assert(samples@.take(0) =~= Seq::empty());
        }
        while i < samples.len()
            invariant
                i <= samples.len(),
                well_formed::<PlanKey, _, _>(map.entries@),
                holds_plans(contents::<PlanKey, _, _>(map.entries@), samples@.take(i as int)),
            decreases samples.len() - i,
        {
            let sample: PlanSample = samples[i];
            let ghost old_map = contents::<PlanKey, _, _>(map.entries@);
            proof {
                assert(samples@.take(i + 1).drop_last() =~= samples@.take(i as int));
                assert(samples@.take(i + 1).last() == sample);
            }
            let key = PlanKey { bridge: Self::bridge(&sample), ts: sample.ts, planid: sample.planid };
            map.insert::<PlanKey>(key, sample);
            proof {
                let now = contents::<PlanKey, _, _>(map.entries@);
                assert forall|k: PlanKey|
                    #![trigger now.dom().contains(k)]
                    #![trigger plan_sample(samples@.take(i + 1), k)]
                    plan_sample(samples@.take(i + 1), k) == if now.dom().contains(k) {
                        Some(now[k])
                    } else {
                        None
                    } by {
                    assert(plan_sample(samples@.take(i as int), k) == if old_map.dom().contains(k) {
                        Some(old_map[k])
                    } else {
                        None
                    });
                }
            }
            i = i + 1;
        }
        proof {
            assert(samples@.take(i as int) =~= samples@);
            let entries = map.entries@;
            let all = names::<PlanKey, PlanKey, PlanSample>(entries);
            assert forall|a: int, b: int| 0 <= a < b < entries.len() implies plan_before(
                (#[trigger] entries[a]).name,
                (#[trigger] entries[b]).name,
            ) by {
                assert(lex_less(all[a].rank(), all[b].rank()));
                lemma_plan_order(all[a], all[b]);
            }
            assert forall|k: int| 0 <= k < entries.len() implies plan_sample(
                samples@,
                (#[trigger] entries[k]).name,
            ) == Some(entries[k].value) by {
                lemma_entry::<PlanKey, PlanKey, PlanSample>(entries, k);
            }
            assert forall|key: PlanKey| #[trigger] plan_sample(samples@, key)
                is Some implies exists|k: int|
                0 <= k < entries.len() && (#[trigger] entries[k]).name == key by {
                assert(contents::<PlanKey, PlanKey, PlanSample>(entries).dom().contains(key));
                let k = choose|k: int|
                    entry_at::<PlanKey, PlanKey, PlanSample>(entries, key, k);
                assert(entries[k].name@ == key);
            }
        }
        map
    }

    /// Looks a plan up.
    fn find(
        map: &OrderedMap<PlanKey, PlanSample>,
        bridge: Bridge,
        ts: i64,
        planid: i64,
        samples: &[PlanSample],
    ) -> (r: Option<PlanSample>)
        requires
            well_formed::<PlanKey, _, _>(map.entries@),
            holds_plans(contents::<PlanKey, _, _>(map.entries@), samples@),
        ensures
            r == plan_sample(samples@, PlanKey { bridge, ts, planid }),
    {
        let wanted = PlanKey { bridge, ts, planid };
        let key: Vec<i128> = key_of(&wanted);
        let found = map.get_by_key::<PlanKey>(&key);
        assert(contents::<PlanKey, PlanKey, PlanSample>(map.entries@).dom().contains(wanted)
            || !contents::<PlanKey, PlanKey, PlanSample>(map.entries@).dom().contains(wanted));
        match found {
            Some(sample) => Some(*sample),
            None => None,
        }
    }

    /// The end of the snapshot that starts at an entry.
    fn snapshot_end(map: &OrderedMap<PlanKey, PlanSample>, start: usize) -> (end: usize)
        requires
            start < map.entries.len(),
            start > 0 ==> !same_snapshot(
                map.entries@[start - 1].name,
                map.entries@[start as int].name,
            ),
        ensures
            is_snapshot(map.entries@, start as int, end as int),
    {
        let first: PlanKey = map.entries[start].name;
        let mut end: usize = start + 1;
        while end < map.entries.len() && map.entries[end].name.ts == first.ts
            && map.entries[end].name.bridge == first.bridge
            invariant
                start < end <= map.entries.len(),
                first == map.entries@[start as int].name,
                forall|i: int|
                    start <= i < end ==> same_snapshot((#[trigger] map.entries@[i]).name, first),
            decreases map.entries.len() - end,
        {
            end = end + 1;
        }
        end
    }

    /// Adds the calls that the plans of a snapshot gained.
    fn gain(
        map: &OrderedMap<PlanKey, PlanSample>,
        start: usize,
        end: usize,
        after: i64,
        samples: &[PlanSample],
    ) -> (r: Float64)
        requires
            well_formed::<PlanKey, _, _>(map.entries@),
            holds_plans(contents::<PlanKey, _, _>(map.entries@), samples@),
            lists_plans(map.entries@, samples@),
            is_snapshot(map.entries@, start as int, end as int),
        ensures
            ({
                let key = map.entries@[start as int].name;
                r == gained_calls(
                    samples@,
                    key.bridge,
                    key.ts,
                    after,
                    plans_at(samples@, key.bridge, key.ts),
                )
            }),
    {
        let zero = Float64 { bits: 0 };
        let key: PlanKey = map.entries[start].name;
        let ghost list = Seq::new(
            (end - start) as nat,
            |i: int| map.entries@[start + i].name.planid,
        );
        proof {
            lemma_snapshot_plans(map.entries@, samples@, start as int, end as int);
            assert(list.take(0) =~= Seq::empty());
        }
        let mut sum = Float64 { bits: 0 };
        let mut i: usize = start;
        while i < end
            invariant
                start <= i <= end,
                zero == (Float64 { bits: 0 }),
                key == map.entries@[start as int].name,
                list == Seq::new(
                    (end - start) as nat,
                    |i: int| map.entries@[start + i].name.planid,
                ),
                well_formed::<PlanKey, _, _>(map.entries@),
                holds_plans(contents::<PlanKey, _, _>(map.entries@), samples@),
                lists_plans(map.entries@, samples@),
                is_snapshot(map.entries@, start as int, end as int),
                sum == gained_calls(
                    samples@,
                    key.bridge,
                    key.ts,
                    after,
                    list.take(i - start),
                ),
            decreases end - i,
        {
            let planid: i64 = map.entries[i].name.planid;
            let current: PlanSample = map.entries[i].value;
            proof {
                assert(same_snapshot(map.entries@[i as int].name, key));
                assert(list.take(i + 1 - start).drop_last() =~= list.take(i - start));
                assert(list.take(i + 1 - start).last() == planid);
                assert(map.entries@[i as int].name == (PlanKey {
                    bridge: key.bridge,
                    ts: key.ts,
                    planid,
                }));
            }
            if let Some(next) = Self::find(map, key.bridge, after, planid, samples) {
                let delta: Float64 = next.calls.minus(current.calls);
                if delta.is_finite() && zero.less(delta) {
                    sum = sum.plus(delta);
                }
            }
            i = i + 1;
        }
        proof {
            assert(list.take(i - start) =~= list);
        }
        sum
    }

    /// The window around a snapshot.
    fn window(
        map: &OrderedMap<PlanKey, PlanSample>,
        start: usize,
        end: usize,
        samples: &[PlanSample],
    ) -> (r: Option<PlanWindow>)
        requires
            well_formed::<PlanKey, _, _>(map.entries@),
            holds_plans(contents::<PlanKey, _, _>(map.entries@), samples@),
            lists_plans(map.entries@, samples@),
            is_snapshot(map.entries@, start as int, end as int),
        ensures
            ({
                let key = map.entries@[start as int].name;
                r == plan_window(samples@, key.bridge, key.ts)
            }),
    {
        let key: PlanKey = map.entries[start].name;
        proof {
            lemma_previous(map.entries@, samples@, start as int, end as int);
            lemma_next(map.entries@, samples@, start as int, end as int);
        }
        if start == 0 || end == map.entries.len() {
            return None;
        }
        let previous: PlanKey = map.entries[start - 1].name;
        let next: PlanKey = map.entries[end].name;
        if previous.bridge != key.bridge || next.bridge != key.bridge {
            return None;
        }
        proof {
            assert(is_previous(samples@, key.bridge, key.ts, previous.ts));
            assert(is_next(samples@, key.bridge, key.ts, next.ts));
        }
        if key.ts as i128 - previous.ts as i128 > MAX_PAIRED_GAP_US as i128 || next.ts as i128
            - key.ts as i128 > MAX_PAIRED_GAP_US as i128 {
            return None;
        }
        let calls: Float64 = Self::gain(map, start, end, next.ts, samples);
        if (Float64 { bits: 0 }).less(calls) && calls.is_finite() {
            Some(PlanWindow { before: previous.ts, after: next.ts, calls })
        } else {
            None
        }
    }

    /// The work of a plan that appeared.
    fn weigh(
        map: &OrderedMap<PlanKey, PlanSample>,
        i: usize,
        window: &PlanWindow,
        samples: &[PlanSample],
    ) -> (r: Option<PlanCandidate>)
        requires
            well_formed::<PlanKey, _, _>(map.entries@),
            holds_plans(contents::<PlanKey, _, _>(map.entries@), samples@),
            lists_plans(map.entries@, samples@),
            i < map.entries.len(),
        ensures
            r == work_of(samples@, map.entries@[i as int].name, *window),
    {
        let zero = Float64 { bits: 0 };
        let key: PlanKey = map.entries[i].name;
        let current: PlanSample = map.entries[i].value;
        if Self::find(map, key.bridge, window.before, key.planid, samples).is_some() {
            return None;
        }
        let next: PlanSample = match Self::find(
            map,
            key.bridge,
            window.after,
            key.planid,
            samples,
        ) {
            Some(next) => next,
            None => {
                return None;
            },
        };
        let calls: Float64 = next.calls.minus(current.calls);
        let total_time_ms: Float64 = next.total_time_ms.minus(current.total_time_ms);
        if zero.less(calls) && calls.is_finite() && zero.less(total_time_ms)
            && total_time_ms.is_finite() {
            Some(
                PlanCandidate {
                    bridge: key.bridge,
                    planid: key.planid,
                    attributed_queryid: next.queryid,
                    calls,
                    total_time_ms,
                    calls_denominator: window.calls,
                    observed_at_us: window.after,
                },
            )
        } else {
            None
        }
    }

    /// Finds the plan that appeared and took the longest.
    pub fn candidate(samples: &[PlanSample]) -> (r: Option<PlanCandidate>)
        ensures
            r == costliest(samples@),
    {
        let map: OrderedMap<PlanKey, PlanSample> = Self::group(samples);
        let mut best: Option<PlanCandidate> = None;
        let ghost mut chosen: int = 0;
        let mut start: usize = 0;
        while start < map.entries.len()
            invariant
                start <= map.entries.len(),
                well_formed::<PlanKey, _, _>(map.entries@),
                holds_plans(contents::<PlanKey, _, _>(map.entries@), samples@),
                lists_plans(map.entries@, samples@),
                0 < start < map.entries.len() ==> !same_snapshot(
                    map.entries@[start - 1].name,
                    map.entries@[start as int].name,
                ),
                leads(map.entries@, samples@, best, chosen, start as int),
            decreases map.entries.len() - start,
        {
            let end: usize = Self::snapshot_end(&map, start);
            match Self::window(&map, start, end, samples) {
                Some(window) => {
                    let mut i: usize = start;
                    while i < end
                        invariant
                            start <= i <= end,
                            well_formed::<PlanKey, _, _>(map.entries@),
                            holds_plans(contents::<PlanKey, _, _>(map.entries@), samples@),
                            lists_plans(map.entries@, samples@),
                            is_snapshot(map.entries@, start as int, end as int),
                            plan_window(
                                samples@,
                                map.entries@[start as int].name.bridge,
                                map.entries@[start as int].name.ts,
                            ) == Some(window),
                            leads(map.entries@, samples@, best, chosen, i as int),
                        decreases end - i,
                    {
                        let found: Option<PlanCandidate> = Self::weigh(&map, i, &window, samples);
                        proof {
                            assert(same_snapshot(
                                map.entries@[i as int].name,
                                map.entries@[start as int].name,
                            ));
                            reveal(appeared);
                            assert(appeared(samples@, map.entries@[i as int].name) == found);
                        }
                        let replaces: bool = match (best, found) {
                            (Some(current), Some(candidate)) => current.total_time_ms.less(
                                candidate.total_time_ms,
                            ),
                            (None, Some(_)) => true,
                            (_, None) => false,
                        };
                        proof {
                            lemma_lead(map.entries@, samples@, best, chosen, i as int);
                        }
                        if replaces {
                            best = found;
                            proof {
                                chosen = i as int;
                            }
                        }
                        i = i + 1;
                    }
                },
                None => {
                    proof {
                        assert forall|k: int| start <= k < end implies appeared(
                            samples@,
                            (#[trigger] map.entries@[k]).name,
                        ) is None by {
                            reveal(appeared);
                            assert(same_snapshot(
                                map.entries@[k].name,
                                map.entries@[start as int].name,
                            ));
                        }
                    }
                },
            }
            proof {
                if end < map.entries.len() {
                    assert(same_snapshot(
                        map.entries@[end - 1].name,
                        map.entries@[start as int].name,
                    ));
                }
            }
            start = end;
        }
        proof {
            lemma_leader(map.entries@, samples@, best, chosen);
        }
        best
    }
}

/// Whether a candidate leads those of the first entries.
pub open spec fn leads(
    entries: Seq<MapEntry<PlanKey, PlanSample>>,
    samples: Seq<PlanSample>,
    best: Option<PlanCandidate>,
    chosen: int,
    count: int,
) -> bool {
    match best {
        Some(candidate) => {
            &&& 0 <= chosen < count
            &&& appeared(samples, entries[chosen].name) == Some(candidate)
            &&& forall|k: int|
                0 <= k < count && appeared(samples, (#[trigger] entries[k]).name) is Some
                    ==> not_costlier(samples, entries[k].name, entries[chosen].name)
        },
        None => forall|k: int|
            0 <= k < count ==> appeared(samples, (#[trigger] entries[k]).name) is None,
    }
}

/// The time of a plan that appeared is a number.
proof fn lemma_appeared(samples: Seq<PlanSample>, key: PlanKey)
    ensures
        appeared(samples, key) matches Some(found) ==> found.total_time_ms.finite() && plan_sample(
            samples,
            key,
        ) is Some,
{
    reveal(appeared);
}

/// The next entry takes the lead where it took longer.
proof fn lemma_lead(
    entries: Seq<MapEntry<PlanKey, PlanSample>>,
    samples: Seq<PlanSample>,
    best: Option<PlanCandidate>,
    chosen: int,
    i: int,
)
    requires
        lists_plans(entries, samples),
        leads(entries, samples, best, chosen, i),
        0 <= i < entries.len(),
    ensures
        match (best, appeared(samples, entries[i].name)) {
            (Some(current), Some(found)) => if current.total_time_ms.below(found.total_time_ms) {
                leads(entries, samples, Some(found), i, i + 1)
            } else {
                leads(entries, samples, best, chosen, i + 1)
            },
            (None, Some(found)) => leads(entries, samples, Some(found), i, i + 1),
            (_, None) => leads(entries, samples, best, chosen, i + 1),
        },
{
    let key = entries[i].name;
    assert forall|k: int| 0 <= k < i implies plan_before((#[trigger] entries[k]).name, key) by {}
    if let Some(found) = appeared(samples, key) {
        lemma_appeared(samples, key);
        assert(not_costlier(samples, key, key));
        if let Some(current) = best {
            lemma_appeared(samples, entries[chosen].name);
            assert forall|k: int|
                0 <= k < i && appeared(samples, (#[trigger] entries[k]).name) is Some
                    && current.total_time_ms.below(found.total_time_ms) implies not_costlier(
                samples,
                entries[k].name,
                key,
            ) by {
                assert(not_costlier(samples, entries[k].name, entries[chosen].name));
                lemma_appeared(samples, entries[k].name);
            }
            if !current.total_time_ms.below(found.total_time_ms) {
                assert(plan_before(entries[chosen].name, key));
                assert(!plan_before(key, entries[chosen].name));
                assert(not_costlier(samples, key, entries[chosen].name));
            }
        }
    }
}

/// The leader of all entries is the plan to report.
proof fn lemma_leader(
    entries: Seq<MapEntry<PlanKey, PlanSample>>,
    samples: Seq<PlanSample>,
    best: Option<PlanCandidate>,
    chosen: int,
)
    requires
        lists_plans(entries, samples),
        leads(entries, samples, best, chosen, entries.len() as int),
    ensures
        best == costliest(samples),
{
    assert forall|key: PlanKey| #[trigger] appeared(samples, key) is Some implies exists|k: int|
        0 <= k < entries.len() && (#[trigger] entries[k]).name == key by {
        lemma_appeared(samples, key);
    }
    if best is Some {
        let key = entries[chosen].name;
        assert(is_costliest(samples, key));
        let other = choose|k: PlanKey| is_costliest(samples, k);
        assert(is_costliest(samples, other));
        lemma_appeared(samples, key);
        lemma_appeared(samples, other);
        assert(not_costlier(samples, other, key));
        assert(not_costlier(samples, key, other));
        let i = choose|k: int| 0 <= k < entries.len() && (#[trigger] entries[k]).name == other;
        if i < chosen {
            assert(plan_before(entries[i].name, entries[chosen].name));
        } else if i > chosen {
            assert(plan_before(entries[chosen].name, entries[i].name));
        }
    } else {
        assert forall|key: PlanKey| !is_costliest(samples, key) by {}
    }
}

/// The first member of either plan store.
pub open spec fn first_plan_member(members: Seq<EpisodeView>) -> Option<EpisodeView>
    decreases members.len(),
{
    if members.len() == 0 {
        None
    } else if members[0].logical_section == PLANS_OSSC@ || members[0].logical_section
        == PLANS_VADV@ {
        Some(members[0])
    } else {
        first_plan_member(members.drop_first())
    }
}

/// The identity of a plan that appeared.
pub open spec fn plan_identity(candidate: PlanCandidate) -> Seq<IdentityView> {
    seq![
        IdentityView::Text(
            match candidate.bridge.fork {
                PlanFork::Ossc => "ossc_exact_queryid"@,
                PlanFork::Vadv => "vadv_plan_identity"@,
            },
        ),
        IdentityView::U64(candidate.bridge.dbid),
        IdentityView::U64(candidate.bridge.userid),
        IdentityView::I64(candidate.attributed_queryid),
        IdentityView::I64(candidate.planid),
    ]
}

/// The coverage of a plan comparison: two samples without a proven cadence.
pub open spec fn plan_coverage(context: EvalContext) -> SourceWindow {
    SourceWindow {
        window_span_us: span_of(context.incident_start_us, context.incident_end_us),
        observed_period_us: None,
        usable_samples: 2,
    }
}

/// The draft about a plan that appeared: its calls, its time and its share of
/// the calls.
pub open spec fn churn_draft(
    member: EpisodeView,
    candidate: PlanCandidate,
    context: EvalContext,
) -> Option<DraftView> {
    let zero = Float64 { bits: 0 };
    let about = entity_of(member.logical_section, plan_identity(candidate));
    match (
        value_evidence(
            "calls"@,
            candidate.calls,
            GaugeUnit::Count,
            Float64 { bits: ONE },
            ThresholdKind::AtLeast,
            candidate.observed_at_us,
            2,
            plan_coverage(context),
            about,
        ),
        value_evidence(
            "total_time_ms"@,
            candidate.total_time_ms,
            GaugeUnit::Milliseconds,
            zero,
            ThresholdKind::AtLeast,
            candidate.observed_at_us,
            2,
            plan_coverage(context),
            about,
        ),
        ratio_evidence(
            "calls"@,
            candidate.calls,
            GaugeUnit::Count,
            "interval_calls"@,
            candidate.calls_denominator,
            GaugeUnit::Count,
            GaugeUnit::Ratio,
            zero,
            ThresholdKind::AtLeast,
            candidate.observed_at_us,
            2,
            plan_coverage(context),
            about,
        ),
    ) {
        (Some(a), Some(b), Some(c)) => Some(
            observations_draft(Role::Coincident, member, seq![a, b, c]),
        ),
        _ => None,
    }
}

/// Reports about a cluster.
pub open spec fn churn_steps(
    cluster: ClusterView,
    typed: TypedView,
    context: EvalContext,
) -> Seq<Step> {
    let samples = typed.plan_window(context.incident_start_us, context.incident_end_us);
    seq![Step::Charge(cluster.members.len() as usize)] + match first_plan_member(cluster.members) {
        Some(member) => seq![Step::Charge(samples.len() as usize)] + emitted(
            match costliest(samples) {
                Some(candidate) => churn_draft(member, candidate, context),
                None => None,
            },
        ),
        None => Seq::empty(),
    }
}

impl PlanChurnLens {
    /// Finds the first member of either plan store.
    fn plan_member(cluster: &Cluster) -> (r: Option<&EpisodeRefV1>)
        ensures
            match r {
                Some(member) => first_plan_member(cluster@.members) == Some(member@),
                None => first_plan_member(cluster@.members) is None,
            },
    {
        let ghost all = cluster@.members;
        let mut i: usize = 0;
        proof {
            assert(all.skip(0) =~= all);
        }
        while i < cluster.members.len()
            invariant
                i <= cluster.members.len(),
                all == views(cluster.members@),
                first_plan_member(all) == first_plan_member(all.skip(i as int)),
            decreases cluster.members.len() - i,
        {
            proof {
                assert(all.skip(i as int)[0] == cluster.members@[i as int]@);
                assert(all.skip(i as int).drop_first() =~= all.skip(i + 1));
            }
            if text_eq(cluster.members[i].logical_section, PLANS_OSSC) || text_eq(
                cluster.members[i].logical_section,
                PLANS_VADV,
            ) {
                return Some(&cluster.members[i]);
            }
            i = i + 1;
        }
        None
    }

    fn entity(section: &'static str, candidate: &PlanCandidate) -> (r: GaugeEntity)
        ensures
            r@ == entity_of(section@, plan_identity(*candidate)),
    {
        let fork: &'static str = match candidate.bridge.fork {
            PlanFork::Ossc => "ossc_exact_queryid",
            PlanFork::Vadv => "vadv_plan_identity",
        };
        let mut identity: Vec<IdentityValue> = Vec::new();
        identity.push(IdentityValue::Text(fork.to_string()));
        identity.push(IdentityValue::U64(candidate.bridge.dbid));
        identity.push(IdentityValue::U64(candidate.bridge.userid));
        identity.push(IdentityValue::I64(candidate.attributed_queryid));
        identity.push(IdentityValue::I64(candidate.planid));
        proof {
            assert(views(identity@) =~= plan_identity(*candidate));
        }
        GaugeEntity::new(section, identity)
    }

    fn draft_churn(member: &EpisodeRefV1, candidate: &PlanCandidate, context: &EvalContext) -> (r:
        Option<FindingDraft>)
        ensures
            draft_view(r) == churn_draft(member@, *candidate, *context),
    {
        let zero = Float64 { bits: 0 };
        let source_window: SourceWindow = SourceWindow::from_bounds(
            context.incident_start_us,
            context.incident_end_us,
            None,
            2,
        );
        let calls: Option<GaugeEvidence> = GaugeEvidence::value(
            GaugeValueInput {
                operand: "calls",
                value: candidate.calls,
                unit: GaugeUnit::Count,
                threshold: Float64 { bits: ONE },
                threshold_kind: ThresholdKind::AtLeast,
                observed_at_us: candidate.observed_at_us,
                samples: 2,
                source_window,
                entity: Self::entity(member.logical_section, candidate),
            },
        );
        let time: Option<GaugeEvidence> = GaugeEvidence::value(
            GaugeValueInput {
                operand: "total_time_ms",
                value: candidate.total_time_ms,
                unit: GaugeUnit::Milliseconds,
                threshold: zero,
                threshold_kind: ThresholdKind::AtLeast,
                observed_at_us: candidate.observed_at_us,
                samples: 2,
                source_window,
                entity: Self::entity(member.logical_section, candidate),
            },
        );
        let share: Option<GaugeEvidence> = GaugeEvidence::ratio(
            GaugeRatio::new(
                "calls",
                candidate.calls,
                "interval_calls",
                candidate.calls_denominator,
                GaugeUnit::Count,
            ),
            zero,
            ThresholdKind::AtLeast,
            candidate.observed_at_us,
            2,
            source_window,
            Self::entity(member.logical_section, candidate),
        );
        match (calls, time, share) {
            (Some(a), Some(b), Some(c)) => {
                let ghost all = seq![a@, b@, c@];
                let mut evidence: Vec<GaugeEvidence> = Vec::new();
                evidence.push(a);
                evidence.push(b);
                evidence.push(c);
                proof {
                    assert(views(evidence@) =~= all);
                }
                Some(draft_observations(Role::Coincident, member, evidence))
            },
            _ => None,
        }
    }
}

impl Lens for PlanChurnLens {
    open spec fn id_text(&self) -> Seq<char> {
        "PG-PLAN-002"@
    }

    open spec fn input_list(&self) -> Seq<SectionColumn> {
        seq![
            SectionColumn { section: PLANS_OSSC, column: "planid" },
            SectionColumn { section: PLANS_VADV, column: "planid" },
        ]
    }

    open spec fn cap(&self) -> ConfidenceCap {
        ConfidenceCap::Medium
    }

    open spec fn steps(
        &self,
        cluster: ClusterView,
        series: SeriesSetView,
        typed: TypedView,
        context: EvalContext,
    ) -> Seq<Step> {
        churn_steps(cluster, typed, context)
    }

    fn id(&self) -> (r: &'static str) {
        "PG-PLAN-002"
    }

    fn inputs(&self) -> (r: &'static [SectionColumn]) {
        &[
            SectionColumn { section: PLANS_OSSC, column: "planid" },
            SectionColumn { section: PLANS_VADV, column: "planid" },
        ]
    }

    fn confidence_cap(&self) -> (r: ConfidenceCap) {
        ConfidenceCap::Medium
    }

    fn evaluate(
        &self,
        cluster: &Cluster,
        series: &SeriesSet,
        typed: &TypedInputs,
        context: &EvalContext,
        sink: &mut FindingSink<'_>,
    ) -> (r: Result<(), LimitHit>) {
        let ghost before = sink@;
        let ghost start = seq![Step::Charge(cluster.members.len())];
        let ghost samples = typed@.plan_window(
            context.incident_start_us,
            context.incident_end_us,
        );
        let ghost points = seq![Step::Charge(samples.len() as usize)];
        let ghost last = |member: EpisodeView|
            emitted(
                match costliest(samples) {
                    Some(candidate) => churn_draft(member, candidate, *context),
                    None => None,
                },
            );
        let ghost rest = match first_plan_member(cluster@.members) {
            Some(member) => points + last(member),
            None => Seq::empty(),
        };
        proof {
            assert(churn_steps(cluster@, typed@, *context) == start + rest);
        }
        match charge(sink, cluster.members.len()) {
            Ok(_) => {},
            Err(hit) => {
                proof {
                    lemma_first_part_refused(before, sink@, start, rest, Err(hit));
                }
                return Err(hit);
            },
        }
        let ghost entered = sink@;
        let member: &EpisodeRefV1 = match Self::plan_member(cluster) {
            Some(member) => member,
            None => {
                proof {
                    assert(start + rest =~= start);
                }
                return Ok(());
            },
        };
        let window: Vec<PlanSample> = typed.plan_window(
            context.incident_start_us,
            context.incident_end_us,
        );
        match charge(sink, window.len()) {
            Ok(_) => {},
            Err(hit) => {
                proof {
                    lemma_first_part_refused(entered, sink@, points, last(member@), Err(hit));
                    lemma_two_parts(before, entered, sink@, start, rest, Err(hit));
                }
                return Err(hit);
            },
        }
        let ghost paid = sink@;
        let draft: Option<FindingDraft> = match Self::candidate(window.as_slice()) {
            Some(candidate) => Self::draft_churn(member, &candidate, context),
            None => None,
        };
        let r = emit_optional(sink, draft);
        proof {
            lemma_two_parts(entered, paid, sink@, points, last(member@), r);
            lemma_two_parts(before, entered, sink@, start, rest, r);
        }
        r
    }
}

} // verus!
