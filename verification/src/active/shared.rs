//! What the active lenses share: section names, evidence over counter pairs,
//! exact numbers, and reading of activity snapshots.

use crate::cluster::{Cluster, ClusterView};
use crate::dispatch::LimitHit;
use crate::engine::EvalContext;
use crate::evidence::confidence::Role;
use crate::evidence::counter::{
    aggregate_evidence, operand, option_view, CounterEvidence, CounterEvidenceInput,
    CounterEvidenceView, CounterEvidenceWindow, CounterEvidenceWindowInput, CounterMeasurementKind,
    CounterOperand, CounterOperandPurpose, OperandView,
};
use crate::evidence::finding::{
    DraftView, Evidence, EvidenceView, FindingDraft, FindingScope, ScopeView,
};
use crate::evidence::gauge::{EntityView, GaugeEntity};
use crate::evidence::sink::{FindingSink, Step};
use crate::evidence::value::{GaugeUnit, ThresholdKind};
use crate::float64::Float64;
use crate::inspect::{charge, lemma_first_part_refused, lemma_two_parts, InspectLens, MemberLens};
use crate::lens::reported;
use crate::model::{clone_identity, EpisodeRefV1, EpisodeView, IdentityValue};
use crate::order::views;
use crate::text::text_eq;
use crate::typed::counter::PairedSums;
use crate::typed::gauge::capped;
use crate::typed::inputs::{TypedInputs, TypedView};
use crate::typed::snapshot::{str_view, ActivitySnapshot, ActivityView};
use crate::dispatch::texts;
use vstd::prelude::*;

verus! {

pub const PG_STAT_DATABASE: &'static str = "pg_stat_database";

pub const PG_STAT_WAL: &'static str = "pg_stat_wal";

pub const CHECKPOINTER: &'static str = "pg_stat_bgwriter + pg_stat_checkpointer";

pub const PG_STAT_IO: &'static str = "pg_stat_io";

pub const PG_STAT_USER_TABLES: &'static str = "pg_stat_user_tables";

pub const PG_STAT_ARCHIVER: &'static str = "pg_stat_archiver";

pub const PG_STAT_ACTIVITY: &'static str = "pg_stat_activity";

pub const PG_LOCKS: &'static str = "pg_locks";

pub const OS_NETDEV: &'static str = "os_netdev";

pub const OS_CGROUP_CPU: &'static str = "os_cgroup_cpu";

pub const OS_MEMINFO: &'static str = "os_meminfo";

/// What counter evidence states of a pair of sums.
pub struct CounterEvidenceSpec {
    pub kind: CounterMeasurementKind,
    pub formula: &'static str,
    pub value: Float64,
    pub unit: GaugeUnit,
    pub threshold: Float64,
    pub threshold_kind: ThresholdKind,
    pub operands: Vec<CounterOperandSpec>,
}

/// One operand of counter evidence.
pub struct CounterOperandSpec {
    pub name: &'static str,
    pub value: Float64,
    pub unit: GaugeUnit,
    pub purpose: CounterOperandPurpose,
}

impl View for CounterOperandSpec {
    type V = OperandView;

    open spec fn view(&self) -> OperandView {
        OperandView {
            name: self.name@,
            value: self.value,
            unit: self.unit,
            purpose: self.purpose,
        }
    }
}

/// The mathematical value of a statement over a pair of sums.
#[verifier::ext_equal]
pub struct ReadingView {
    pub kind: CounterMeasurementKind,
    pub formula: Seq<char>,
    pub value: Float64,
    pub unit: GaugeUnit,
    pub threshold: Float64,
    pub threshold_kind: ThresholdKind,
    /// Names, raw values, units and purposes.
    pub operands: Seq<OperandView>,
}

impl View for CounterEvidenceSpec {
    type V = ReadingView;

    open spec fn view(&self) -> ReadingView {
        ReadingView {
            kind: self.kind,
            formula: self.formula@,
            value: self.value,
            unit: self.unit,
            threshold: self.threshold,
            threshold_kind: self.threshold_kind,
            operands: views(self.operands@),
        }
    }
}

pub open spec fn reading_view(reading: Option<CounterEvidenceSpec>) -> Option<ReadingView> {
    match reading {
        Some(found) => Some(found@),
        None => None,
    }
}

/// The window of counter evidence over a pair of sums.
pub open spec fn sums_window(sums: PairedSums, context: EvalContext) -> Option<
    CounterEvidenceWindowInput,
> {
    match (sums.first_start_us, sums.first_end_us, sums.last_end_us) {
        (Some(first_start), Some(first_end), Some(last_end)) => {
            let window = CounterEvidenceWindowInput {
                selection_from_us: context.incident_start_us,
                selection_to_us: context.incident_end_us,
                first_interval_start_us: first_start,
                first_interval_end_us: first_end,
                last_interval_end_us: last_end,
                usable_intervals: sums.intervals,
                candidate_intervals: sums.candidate_intervals,
                unmatched_endpoint_intervals: sums.unmatched_endpoint_intervals,
                unusable_delta_intervals: sums.unusable_delta_intervals,
                unaligned_duration_intervals: sums.unaligned_duration_intervals,
                numeric_limit_intervals: sums.numeric_limit_intervals,
                elapsed_us: sums.elapsed_us,
                observed_period_us: sums.observed_period_us,
            };
            if window.valid() {
                Some(window)
            } else {
                None
            }
        },
        _ => None,
    }
}

/// Whether raw operands admit operands.
pub open spec fn operands_admit(raw: Seq<OperandView>) -> bool {
    forall|i: int|
        0 <= i < raw.len() ==> {
            let o = #[trigger] raw[i];
            operand(o.name, o.value, o.unit, o.purpose) is Some
        }
}

/// The operands of raw ones.
pub open spec fn operands_of(raw: Seq<OperandView>) -> Seq<OperandView> {
    Seq::new(
        raw.len(),
        |i: int| operand(raw[i].name, raw[i].value, raw[i].unit, raw[i].purpose)->Some_0,
    )
}

/// The evidence of a statement over a pair of sums.
pub open spec fn sums_evidence(
    sums: PairedSums,
    context: EvalContext,
    entity: EntityView,
    reading: ReadingView,
) -> Option<CounterEvidenceView> {
    match sums_window(sums, context) {
        Some(window) => if operands_admit(reading.operands) {
            aggregate_evidence(
                reading.kind,
                reading.formula,
                reading.value,
                reading.unit,
                reading.threshold,
                reading.threshold_kind,
                operands_of(reading.operands),
                window,
                entity,
            )
        } else {
            None
        },
        None => None,
    }
}

/// Builds counter evidence over a pair of sums.
pub fn counter_evidence(
    sums: PairedSums,
    context: &EvalContext,
    section: &'static str,
    identity: &Vec<IdentityValue>,
    spec: CounterEvidenceSpec,
) -> (r: Option<CounterEvidence>)
    ensures
        option_view(r) == sums_evidence(
            sums,
            *context,
            EntityView { section: section@, identity: views(identity@) },
            spec@,
        ),
{
    let (first_start, first_end, last_end): (i64, i64, i64) = match (
        sums.first_start_us,
        sums.first_end_us,
        sums.last_end_us,
    ) {
        (Some(a), Some(b), Some(c)) => (a, b, c),
        _ => {
            return None;
        },
    };
    let window = match CounterEvidenceWindow::new(
        CounterEvidenceWindowInput {
            selection_from_us: context.incident_start_us,
            selection_to_us: context.incident_end_us,
            first_interval_start_us: first_start,
            first_interval_end_us: first_end,
            last_interval_end_us: last_end,
            usable_intervals: sums.intervals,
            candidate_intervals: sums.candidate_intervals,
            unmatched_endpoint_intervals: sums.unmatched_endpoint_intervals,
            unusable_delta_intervals: sums.unusable_delta_intervals,
            unaligned_duration_intervals: sums.unaligned_duration_intervals,
            numeric_limit_intervals: sums.numeric_limit_intervals,
            elapsed_us: sums.elapsed_us,
            observed_period_us: sums.observed_period_us,
        },
    ) {
        Some(window) => window,
        None => {
            return None;
        },
    };
    let ghost raw = spec@.operands;
    let mut operands: Vec<CounterOperand> = Vec::new();
    let mut i: usize = 0;
    while i < spec.operands.len()
        invariant
            i <= spec.operands.len(),
            raw == views(spec.operands@),
            sums_window(sums, *context) is Some,
            spec@.operands == raw,
            operands.len() == i,
            forall|j: int|
                0 <= j < i ==> {
                    let o = #[trigger] raw[j];
                    operand(o.name, o.value, o.unit, o.purpose) == Some(operands@[j]@)
                },
        decreases spec.operands.len() - i,
    {
        let given: &CounterOperandSpec = &spec.operands[i];
        assert(raw[i as int] == given@);
        match CounterOperand::new(given.name, given.value, given.unit, given.purpose) {
            Some(built) => {
                operands.push(built);
            },
            None => {
                assert(!operands_admit(raw));
                return None;
            },
        }
        i = i + 1;
    }
    proof {
        assert(operands_admit(raw));
        assert(views(operands@) =~= operands_of(raw));
    }
    CounterEvidence::new(
        CounterEvidenceInput {
            kind: spec.kind,
            formula: spec.formula,
            value: spec.value,
            unit: spec.unit,
            threshold: spec.threshold,
            threshold_kind: spec.threshold_kind,
            operands,
            window,
            entity: GaugeEntity::new(section, clone_identity(identity)),
        },
    )
}

/// Two counter columns that a lens reads together.
pub struct PairContract {
    pub section: &'static str,
    /// Column whose episodes the lens looks at.
    pub anchor: &'static str,
    pub column_a: &'static str,
    pub column_b: &'static str,
    pub min_intervals: usize,
    pub role: Role,
}

/// The mathematical value of a pair contract.
#[verifier::ext_equal]
pub struct PairContractView {
    pub section: Seq<char>,
    pub anchor: Seq<char>,
    pub column_a: Seq<char>,
    pub column_b: Seq<char>,
    pub min_intervals: usize,
    pub role: Role,
}

impl View for PairContract {
    type V = PairContractView;

    open spec fn view(&self) -> PairContractView {
        PairContractView {
            section: self.section@,
            anchor: self.anchor@,
            column_a: self.column_a@,
            column_b: self.column_b@,
            min_intervals: self.min_intervals,
            role: self.role,
        }
    }
}

/// A lens over the sums of two counter columns.
pub trait PairLens {
    spec fn pair(&self) -> PairContractView;

    /// What the lens states of a pair of sums, if anything.
    spec fn reading(&self, sums: PairedSums) -> Option<ReadingView>;

    fn contract(&self) -> (r: PairContract)
        ensures
            r@ == self.pair(),
    ;

    fn read(&self, sums: PairedSums) -> (r: Option<CounterEvidenceSpec>)
        ensures
            reading_view(r) == self.reading(sums),
    ;
}

/// The draft of a statement over a pair of sums.
pub open spec fn pair_draft(
    pair: PairContractView,
    sums: Option<PairedSums>,
    reading: Option<ReadingView>,
    member: EpisodeView,
    context: EvalContext,
) -> Option<DraftView> {
    if sums is None || !sums->Some_0.covers(pair.min_intervals) || reading is None {
        None
    } else {
        match sums_evidence(
            sums->Some_0,
            context,
            EntityView { section: pair.section, identity: member.identity },
            reading->Some_0,
        ) {
            Some(evidence) => Some(
                DraftView {
                    requested_role: pair.role,
                    scope: ScopeView::of_episode(member),
                    evidence: seq![EvidenceView::CounterAggregate(evidence)],
                    temporal_direction: false,
                },
            ),
            None => None,
        }
    }
}

impl<L: PairLens> InspectLens for L {
    open spec fn inspected(
        &self,
        member: EpisodeView,
        typed: TypedView,
        context: EvalContext,
    ) -> Option<usize> {
        let pair = self.pair();
        if member.logical_section == pair.section && member.column == pair.anchor {
            Some(
                capped(
                    typed.counter_points(
                        pair.section,
                        member.identity,
                        seq![pair.column_a, pair.column_b],
                    ),
                ),
            )
        } else {
            None
        }
    }

    open spec fn drafted(
        &self,
        member: EpisodeView,
        typed: TypedView,
        context: EvalContext,
    ) -> Option<DraftView> {
        let pair = self.pair();
        let sums = typed.pair_sums(
            pair.section,
            member.identity,
            pair.column_a,
            pair.column_b,
            context.incident_start_us,
            context.incident_end_us,
        );
        pair_draft(pair, sums, self.reading(sums->Some_0), member, context)
    }

    fn inspect(&self, member: &EpisodeRefV1, typed: &TypedInputs, context: &EvalContext) -> (r:
        Option<usize>) {
        let contract: PairContract = self.contract();
        if text_eq(member.logical_section, contract.section) && text_eq(
            member.column,
            contract.anchor,
        ) {
            let columns: [&'static str; 2] = [contract.column_a, contract.column_b];
            proof {
                assert(texts(columns@) =~= seq![contract.column_a@, contract.column_b@]);
            }
            Some(
                typed.aligned_counter_points(
                    contract.section,
                    member.identity.as_slice(),
                    &columns,
                ),
            )
        } else {
            None
        }
    }

    fn draft(&self, member: &EpisodeRefV1, typed: &TypedInputs, context: &EvalContext) -> (r: Option<
        FindingDraft,
    >) {
        let contract: PairContract = self.contract();
        let sums: PairedSums = match typed.paired_delta_sums(
            contract.section,
            member.identity.as_slice(),
            contract.column_a,
            contract.column_b,
            context.incident_start_us,
            context.incident_end_us,
        ) {
            Some(sums) => sums,
            None => {
                return None;
            },
        };
        if !sums.meets_pairing_coverage(contract.min_intervals) {
            return None;
        }
        let spec: CounterEvidenceSpec = match self.read(sums) {
            Some(spec) => spec,
            None => {
                return None;
            },
        };
        match counter_evidence(sums, context, contract.section, &member.identity, spec) {
            Some(evidence) => Some(aggregate_draft(contract.role, member, evidence)),
            None => None,
        }
    }
}

/// A draft with one aggregate about an episode.
fn aggregate_draft(role: Role, member: &EpisodeRefV1, evidence: CounterEvidence) -> (r: FindingDraft)
    ensures
        r@ == (DraftView {
            requested_role: role,
            scope: ScopeView::of_episode(member@),
            evidence: seq![EvidenceView::CounterAggregate(evidence@)],
            temporal_direction: false,
        }),
{
    let mut list: Vec<Evidence> = Vec::new();
    let ghost v = evidence@;
    list.push(Evidence::CounterAggregate(evidence));
    proof {
        assert(views(list@) =~= seq![EvidenceView::CounterAggregate(v)]);
    }
    FindingDraft::new(role, FindingScope::from_episode(member), list)
}

/// One operand.
pub fn operand_spec(
    name: &'static str,
    value: Float64,
    unit: GaugeUnit,
    purpose: CounterOperandPurpose,
) -> (r: CounterOperandSpec)
    ensures
        r@ == (OperandView { name: name@, value, unit, purpose }),
{
    CounterOperandSpec { name, value, unit, purpose }
}

/// Two operands.
pub fn two_operands(a: CounterOperandSpec, b: CounterOperandSpec) -> (r: Vec<CounterOperandSpec>)
    ensures
        views(r@) == seq![a@, b@],
{
    let ghost va = a@;
    let ghost vb = b@;
    let mut r: Vec<CounterOperandSpec> = Vec::new();
    r.push(a);
    r.push(b);
    proof {
        assert(views(r@) =~= seq![va, vb]);
    }
    r
}

/// Three operands.
pub fn three_operands(
    a: CounterOperandSpec,
    b: CounterOperandSpec,
    c: CounterOperandSpec,
) -> (r: Vec<CounterOperandSpec>)
    ensures
        views(r@) == seq![a@, b@, c@],
{
    let ghost va = a@;
    let ghost vb = b@;
    let ghost vc = c@;
    let mut r: Vec<CounterOperandSpec> = Vec::new();
    r.push(a);
    r.push(b);
    r.push(c);
    proof {
        assert(views(r@) =~= seq![va, vb, vc]);
    }
    r
}

/// Pays for two counter columns and sums their deltas over the incident.
pub fn paired_sums(
    typed: &TypedInputs,
    section: &'static str,
    identity: &[IdentityValue],
    column_a: &'static str,
    column_b: &'static str,
    context: &EvalContext,
    sink: &mut FindingSink<'_>,
) -> (r: Result<Option<PairedSums>, LimitHit>)
    ensures
        reported(
            old(sink)@,
            final(sink)@,
            seq![
                Step::Charge(
                    capped(
                        typed@.counter_points(
                            section@,
                            views(identity@),
                            seq![column_a@, column_b@],
                        ),
                    ),
                ),
            ],
            match r {
                Ok(_) => Ok(()),
                Err(hit) => Err(hit),
            },
        ),
        r matches Ok(sums) ==> sums == typed@.pair_sums(
            section@,
            views(identity@),
            column_a@,
            column_b@,
            context.incident_start_us,
            context.incident_end_us,
        ),
        *final(final(sink).findings) == *final(old(sink).findings),
        *final(final(sink).budget) == *final(old(sink).budget),
        *final(final(sink).counts) == *final(old(sink).counts),
{
    let columns: [&'static str; 2] = [column_a, column_b];
    proof {
        assert(texts(columns@) =~= seq![column_a@, column_b@]);
    }
    match charge(sink, typed.aligned_counter_points(section, identity, &columns)) {
        Ok(_) => Ok(
            typed.paired_delta_sums(
                section,
                identity,
                column_a,
                column_b,
                context.incident_start_us,
                context.incident_end_us,
            ),
        ),
        Err(hit) => Err(hit),
    }
}

/// The largest magnitude up to which every integer is a binary64 number.
pub const MAX_EXACT: u64 = 0x20_0000_0000_0000;

/// The number equal to an integer, where every integer up to it has one.
pub open spec fn exact_number(value: int) -> Option<Float64> {
    if -MAX_EXACT <= value <= MAX_EXACT {
        Some(Float64::of_int(value))
    } else {
        None
    }
}

pub fn exact_u64_as_f64(value: u64) -> (r: Option<Float64>)
    ensures
        r == exact_number(value as int),
{
    if value > MAX_EXACT {
        None
    } else {
        Some(Float64::from_i128(value as i128))
    }
}

pub fn exact_i64_as_f64(value: i64) -> (r: Option<Float64>)
    ensures
        r == exact_number(value as int),
{
    if value > MAX_EXACT as i64 || value < -(MAX_EXACT as i64) {
        None
    } else {
        Some(Float64::from_i128(value as i128))
    }
}

/// The first member of a section.
pub open spec fn first_of_section(members: Seq<EpisodeView>, section: Seq<char>) -> Option<
    EpisodeView,
>
    decreases members.len(),
{
    if members.len() == 0 {
        None
    } else if members[0].logical_section == section {
        Some(members[0])
    } else {
        first_of_section(members.drop_first(), section)
    }
}

pub open spec fn member_view(member: Option<&EpisodeRefV1>) -> Option<EpisodeView> {
    match member {
        Some(found) => Some(found@),
        None => None,
    }
}

/// Finds the first member of a section.
pub fn section_member<'a>(cluster: &'a Cluster, section: &str) -> (r: Option<&'a EpisodeRefV1>)
    ensures
        member_view(r) == first_of_section(cluster@.members, section@),
{
    let ghost all = cluster@.members;
    let mut i: usize = 0;
    proof {
        assert(all.skip(0) =~= all);
    }
    while i < cluster.members.len()
        invariant
            i <= cluster.members.len(),
            all == views(cluster.members@),
            first_of_section(all, section@) == first_of_section(all.skip(i as int), section@),
        decreases cluster.members.len() - i,
    {
        proof {
            assert(all.skip(i as int)[0] == cluster.members@[i as int]@);
            assert(all.skip(i as int).drop_first() =~= all.skip(i + 1));
        }
        if text_eq(cluster.members[i].logical_section, section) {
            return Some(&cluster.members[i]);
        }
        i = i + 1;
    }
    None
}

/// The first activity episode of a cluster. The activity lenses report once per
/// incident, scoped to this episode.
pub fn activity_member(cluster: &Cluster) -> (r: Option<&EpisodeRefV1>)
    ensures
        member_view(r) == first_of_section(cluster@.members, PG_STAT_ACTIVITY@),
{
    section_member(cluster, PG_STAT_ACTIVITY)
}

/// What a lens reports about the first member of a section: the members are
/// paid for first, and a cluster without such a member gets no more.
pub open spec fn first_member_steps<L: MemberLens>(
    lens: &L,
    section: Seq<char>,
    cluster: ClusterView,
    typed: TypedView,
    context: EvalContext,
) -> Seq<Step> {
    seq![Step::Charge(cluster.members.len() as usize)] + match first_of_section(
        cluster.members,
        section,
    ) {
        Some(member) => lens.member_steps(member, typed, context),
        None => Seq::empty(),
    }
}

/// Evaluates the first member of a section.
pub fn evaluate_first_member<L: MemberLens>(
    lens: &L,
    section: &str,
    cluster: &Cluster,
    typed: &TypedInputs,
    context: &EvalContext,
    sink: &mut FindingSink<'_>,
) -> (r: Result<(), LimitHit>)
    ensures
        reported(
            old(sink)@,
            final(sink)@,
            first_member_steps(lens, section@, cluster@, typed@, *context),
            r,
        ),
        *final(final(sink).findings) == *final(old(sink).findings),
        *final(final(sink).budget) == *final(old(sink).budget),
        *final(final(sink).counts) == *final(old(sink).counts),
{
    let ghost before = sink@;
    let ghost start = seq![Step::Charge(cluster.members.len())];
    let ghost rest = match first_of_section(cluster@.members, section@) {
        Some(member) => lens.member_steps(member, typed@, *context),
        None => Seq::empty(),
    };
    match charge(sink, cluster.members.len()) {
        Ok(_) => {},
        Err(hit) => {
            proof {
                lemma_first_part_refused(before, sink@, start, rest, Err(hit));
            }
            return Err(hit);
        },
    }
    let ghost entered = sink@;
    match section_member(cluster, section) {
        Some(member) => {
            let r = lens.evaluate_member(member, typed, context, sink);
            proof {
                lemma_two_parts(before, entered, sink@, start, rest, r);
            }
            r
        },
        None => {
            proof {
                assert(start + rest =~= start);
            }
            Ok(())
        },
    }
}

/// Backends of some snapshots together.
pub open spec fn backend_count(snapshots: Seq<ActivityView>) -> nat
    decreases snapshots.len(),
{
    if snapshots.len() == 0 {
        0
    } else {
        backend_count(snapshots.drop_last()) + snapshots.last().backends.len()
    }
}

/// Total backends the activity lenses scan over the incident window.
pub fn activity_backends_examined(typed: &TypedInputs, start: i64, end: i64) -> (r: usize)
    ensures
        r == capped(backend_count(typed@.activity_window(start, end))),
{
    let snapshots = typed.activity_window(start, end);
    let ghost all = views(snapshots@);
    let mut total: usize = 0;
    let mut i: usize = 0;
    proof {
        assert(all.take(0) =~= Seq::empty());
    }
    while i < snapshots.len()
        invariant
            i <= snapshots.len(),
            all == views(snapshots@),
            total == capped(backend_count(all.take(i as int))),
        decreases snapshots.len() - i,
    {
        let snapshot: &ActivitySnapshot = snapshots[i];
        proof {
            assert(all.take(i + 1).drop_last() =~= all.take(i as int));
            assert(all.take(i + 1).last() == snapshot@);
        }
        let here: usize = snapshot.backends.len();
        total = if total <= usize::MAX - here {
            total + here
        } else {
            usize::MAX
        };
        i = i + 1;
    }
    proof {
        assert(all.take(i as int) =~= all);
    }
    total
}

/// Whether an optional label equals a text.
pub fn label_is(label: Option<&str>, text: &str) -> (r: bool)
    ensures
        r == (str_view(label) == Some(text@)),
{
    match label {
        Some(found) => text_eq(found, text),
        None => false,
    }
}

/// Whether a session state is an open but idle transaction.
pub open spec fn idles(state: Option<Seq<char>>) -> bool {
    state == Some("idle in transaction"@) || state == Some("idle in transaction (aborted)"@)
}

/// Whether a session state is an open but idle transaction, which pins the
/// vacuum horizon without doing work.
pub fn idle_in_transaction(state: Option<&str>) -> (r: bool)
    ensures
        r == idles(str_view(state)),
{
    label_is(state, "idle in transaction") || label_is(state, "idle in transaction (aborted)")
}

/// Whether a wait event is the synchronous-replication commit wait.
pub fn is_syncrep(wait_event: Option<&str>) -> (r: bool)
    ensures
        r == (str_view(wait_event) == Some("SyncRep"@)),
{
    label_is(wait_event, "SyncRep")
}

/// Whether a wait-event class is an internal (non-client) contention point.
pub fn is_internal_wait(wait_event_type: Option<&str>) -> (r: bool)
    ensures
        r == (str_view(wait_event_type) == Some("LWLock"@) || str_view(wait_event_type) == Some(
            "BufferPin"@,
        ) || str_view(wait_event_type) == Some("IO"@)),
{
    label_is(wait_event_type, "LWLock") || label_is(wait_event_type, "BufferPin") || label_is(
        wait_event_type,
        "IO",
    )
}

} // verus!
