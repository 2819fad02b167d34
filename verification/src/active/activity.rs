//! Lenses over sampled backend activity.

use super::observe::{draft_observations, draft_observed, entity_of, observations_draft, observed};
use super::shared::{
    activity_backends_examined, backend_count, evaluate_first_member, exact_i64_as_f64,
    exact_number, first_member_steps, idle_in_transaction, idles, is_syncrep, label_is, PG_LOCKS,
    PG_STAT_ACTIVITY,
};
use crate::cluster::{Cluster, ClusterView};
use crate::dispatch::{LimitHit, SectionColumn};
use crate::engine::EvalContext;
use crate::evidence::confidence::{ConfidenceCap, Role};
use crate::evidence::coverage::{span_of, SourceWindow};
use crate::evidence::direct::{DirectEvidence, LockParticipant};
use crate::evidence::finding::{
    DraftView, Evidence, EvidenceView, FindingDraft, FindingScope, ScopeView,
};
use crate::evidence::gauge::{
    option_view, ratio_evidence, value_evidence, GaugeEntity, GaugeEvidence, GaugeEvidenceView,
    GaugeRatio, GaugeValueInput,
};
use crate::evidence::sink::{FindingSink, Step};
use crate::evidence::value::{GaugeUnit, ThresholdKind};
use crate::float64::{law_small_integers_are_exact, Float64};
use crate::inspect::{
    charge, emit_each, emits, lemma_first_part_refused, lemma_two_parts, InspectLens, MemberLens,
};
use crate::lens::Lens;
use crate::model::{EpisodeRefV1, EpisodeView, IdentityValue, IdentityView};
use crate::order::{ints, key_of, views, Keyed, Ranked};
use crate::ordered::{
    contents, extended, is_lowest, lemma_entry, lemma_lowest, lowest, names, well_formed,
    OrderedMap,
};
use crate::series::{SeriesSet, SeriesSetView};
use crate::text::{lemma_views_push, push_int};
use crate::typed::gauge::capped;
use crate::typed::inputs::{TypedInputs, TypedView};
use crate::typed::snapshot::{
    label_text, ActivityBackend, ActivitySnapshot, ActivityView, BackendView, LockEdge,
    LockSnapshot, LockView, ProcessMoment, SnapshotCompleteness,
};
use vstd::prelude::*;

verus! {

/// A backend as one snapshot of a window shows it.
pub struct Sighting {
    pub ts: i64,
    pub backend: BackendView,
}

/// The backends of a window, snapshot by snapshot.
pub open spec fn sightings(window: Seq<ActivityView>) -> Seq<Sighting>
    decreases window.len(),
{
    if window.len() == 0 {
        Seq::empty()
    } else {
        sightings(window.drop_last()) + snapshot_sightings(window.last())
    }
}

pub open spec fn snapshot_sightings(snapshot: ActivityView) -> Seq<Sighting> {
    Seq::new(
        snapshot.backends.len(),
        |i: int| Sighting { ts: snapshot.ts, backend: snapshot.backends[i] },
    )
}

/// A sighting of a backend held by a snapshot.
pub struct Seen<'a> {
    pub ts: i64,
    pub backend: &'a ActivityBackend,
}

impl<'a> View for Seen<'a> {
    type V = Sighting;

    open spec fn view(&self) -> Sighting {
        Sighting { ts: self.ts, backend: self.backend@ }
    }
}

/// Lists the backends of a window.
fn see<'a>(window: &Vec<&'a ActivitySnapshot>) -> (r: Vec<Seen<'a>>)
    ensures
        views(r@) == sightings(views(window@)),
{
    let ghost all = views(window@);
    let mut r: Vec<Seen<'a>> = Vec::new();
    let mut i: usize = 0;
    proof {
        assert(all.take(0) =~= Seq::empty());
        assert(views(r@) =~= sightings(all.take(0)));
    }
    while i < window.len()
        invariant
            i <= window.len(),
            all == views(window@),
            views(r@) == sightings(all.take(i as int)),
        decreases window.len() - i,
    {
        let snapshot: &'a ActivitySnapshot = window[i];
        let ghost before = r@;
        let ghost here = snapshot_sightings(snapshot@);
        let mut j: usize = 0;
        proof {
            assert(here.take(0) =~= Seq::empty());
            assert(views(before) + here.take(0) =~= views(before));
        }
        while j < snapshot.backends.len()
            invariant
                j <= snapshot.backends.len(),
                here == snapshot_sightings(snapshot@),
                here.len() == snapshot.backends.len(),
                views(r@) == views(before) + here.take(j as int),
            decreases snapshot.backends.len() - j,
        {
            let seen = Seen { ts: snapshot.ts, backend: &snapshot.backends[j] };
            proof {
                lemma_views_push(r@, seen);
                assert(seen@ == here[j as int]);
                assert(here.take(j + 1) =~= here.take(j as int).push(here[j as int]));
                assert(views(before) + here.take(j + 1) =~= (views(before) + here.take(
                    j as int,
                )).push(here[j as int]));
            }
            r.push(seen);
            j = j + 1;
        }
        proof {
            assert(here.take(j as int) =~= here);
            assert(all.take(i + 1).drop_last() =~= all.take(i as int));
            assert(all.take(i + 1).last() == snapshot@);
        }
        i = i + 1;
    }
    proof {
        assert(all.take(i as int) =~= all);
    }
    r
}

/// The coverage of a window without a proven cadence.
pub open spec fn bare_window(context: EvalContext, samples: usize) -> SourceWindow {
    SourceWindow {
        window_span_us: span_of(context.incident_start_us, context.incident_end_us),
        observed_period_us: None,
        usable_samples: samples as u64,
    }
}

/// The identity of a session.
pub open spec fn session_identity(pid: i64, backend_start: i64) -> Seq<IdentityView> {
    seq![IdentityView::I64(pid), IdentityView::I64(backend_start)]
}

fn session_entity(pid: i64, backend_start: i64) -> (r: GaugeEntity)
    ensures
        r@ == entity_of(PG_STAT_ACTIVITY@, session_identity(pid, backend_start)),
{
    let mut identity: Vec<IdentityValue> = Vec::new();
    identity.push(IdentityValue::I64(pid));
    identity.push(IdentityValue::I64(backend_start));
    proof {
        assert(views(identity@) =~= session_identity(pid, backend_start));
    }
    GaugeEntity::new(PG_STAT_ACTIVITY, identity)
}

/// Below this age a horizon is ordinary transaction churn, not one that a
/// vacuum is waiting on.
pub const MIN_XMIN_AGE: i64 = 1_000_000;

/// 1000000.0: the same age as a number.
pub const XMIN_AGE_FLOOR: u64 = 0x412e_8480_0000_0000;

/// A running transaction must be at least this old to count as a long one:
/// five minutes, in microseconds.
pub const MIN_LONG_XACT_US: i64 = 300_000_000;

/// 300000000.0: the same age as a number.
pub const XACT_AGE_FLOOR_US: u64 = 0x41b1_e1a3_0000_0000;

/// `PG-HORIZON-013`: an observed old transaction with an assigned horizon that
/// can hold vacuum back. Prepared transactions, slots, and standby feedback are
/// independent alternatives outside this row observation. Unseen snapshots
/// prevent a global-cause or persistence claim.
pub struct XminHorizonHoldLens;

/// Whether a backend holds the vacuum horizon.
pub open spec fn holds(backend: BackendView) -> bool {
    &&& backend.xmin_age matches Some(age) && age >= MIN_XMIN_AGE
    &&& idles(backend.state) || (backend.xact_age_us matches Some(age) && age >= MIN_LONG_XACT_US)
}

/// Whether a sighting is of a known session that holds the horizon.
pub open spec fn hold_sighted(sighting: Sighting) -> bool {
    sighting.backend.pid > 0 && sighting.backend.backend_start > 0 && holds(sighting.backend)
}

/// The oldest hold among some sightings; of equally old ones, the last.
pub open spec fn oldest_hold(seen: Seq<Sighting>) -> Option<Sighting>
    decreases seen.len(),
{
    if seen.len() == 0 {
        None
    } else {
        let earlier = oldest_hold(seen.drop_last());
        if hold_sighted(seen.last()) && (earlier matches Some(other)
            ==> other.backend.xmin_age->Some_0 <= seen.last().backend.xmin_age->Some_0) {
            Some(seen.last())
        } else {
            earlier
        }
    }
}

/// The evidence of a hold: the age of its horizon and, where it is known, of
/// its transaction.
pub open spec fn hold_evidence(hold: Sighting, context: EvalContext) -> Option<
    Seq<GaugeEvidenceView>,
> {
    let entity = entity_of(
        PG_STAT_ACTIVITY@,
        session_identity(hold.backend.pid, hold.backend.backend_start),
    );
    let xmin = match exact_number(hold.backend.xmin_age->Some_0 as int) {
        Some(age) => value_evidence(
            "xmin_age"@,
            age,
            GaugeUnit::Count,
            Float64 { bits: XMIN_AGE_FLOOR },
            ThresholdKind::AtLeast,
            hold.ts,
            1,
            bare_window(context, 1),
            entity,
        ),
        None => None,
    };
    let xact = match hold.backend.xact_age_us {
        Some(age) => match exact_number(age as int) {
            Some(age_us) => value_evidence(
                "xact_age_us"@,
                age_us,
                GaugeUnit::Microseconds,
                Float64 { bits: XACT_AGE_FLOOR_US },
                ThresholdKind::AtLeast,
                hold.ts,
                1,
                bare_window(context, 1),
                entity,
            ),
            None => None,
        },
        None => None,
    };
    match (xmin, xact) {
        (Some(a), Some(b)) => Some(seq![a, b]),
        (Some(a), None) => Some(seq![a]),
        _ => None,
    }
}

impl XminHorizonHoldLens {
    pub fn holds_horizon(backend: &ActivityBackend) -> (r: bool)
        ensures
            r == holds(backend@),
    {
        let old_horizon: bool = match backend.xmin_age {
            Some(age) => age >= MIN_XMIN_AGE,
            None => false,
        };
        let long_transaction: bool = match backend.xact_age_us {
            Some(age) => age >= MIN_LONG_XACT_US,
            None => false,
        };
        old_horizon && (idle_in_transaction(label_text(&backend.state)) || long_transaction)
    }

    /// Finds the oldest hold.
    fn oldest<'a>(seen: &Vec<Seen<'a>>) -> (r: Option<(i64, &'a ActivityBackend)>)
        ensures
            match (r, oldest_hold(views(seen@))) {
                (Some((ts, backend)), Some(hold)) => hold.ts == ts && hold.backend == backend@
                    && backend.xmin_age is Some,
                (None, None) => true,
                _ => false,
            },
    {
        let ghost all = views(seen@);
        let mut best: Option<(i64, &'a ActivityBackend)> = None;
        let mut best_age: i64 = 0;
        let mut i: usize = 0;
        proof {
            assert(all.take(0) =~= Seq::empty());
        }
        while i < seen.len()
            invariant
                i <= seen.len(),
                all == views(seen@),
                match (best, oldest_hold(all.take(i as int))) {
                    (Some((ts, backend)), Some(hold)) => hold.ts == ts && hold.backend == backend@
                        && backend.xmin_age == Some(best_age),
                    (None, None) => true,
                    _ => false,
                },
            decreases seen.len() - i,
        {
            let backend: &'a ActivityBackend = seen[i].backend;
            proof {
                assert(all.take(i + 1).drop_last() =~= all.take(i as int));
                assert(all.take(i + 1).last() == seen@[i as int]@);
            }
            if backend.pid > 0 && backend.backend_start > 0 && Self::holds_horizon(backend) {
                let age: i64 = match backend.xmin_age {
                    Some(age) => age,
                    None => 0,
                };
                let replaces: bool = match best {
                    Some(_) => best_age <= age,
                    None => true,
                };
                if replaces {
                    best = Some((seen[i].ts, backend));
                    best_age = age;
                }
            }
            i = i + 1;
        }
        proof {
            assert(all.take(i as int) =~= all);
        }
        best
    }
}

impl InspectLens for XminHorizonHoldLens {
    open spec fn inspected(
        &self,
        member: EpisodeView,
        typed: TypedView,
        context: EvalContext,
    ) -> Option<usize> {
        Some(
            capped(
                backend_count(
                    typed.activity_window(context.incident_start_us, context.incident_end_us),
                ),
            ),
        )
    }

    open spec fn drafted(
        &self,
        member: EpisodeView,
        typed: TypedView,
        context: EvalContext,
    ) -> Option<DraftView> {
        let window = typed.activity_window(context.incident_start_us, context.incident_end_us);
        match oldest_hold(sightings(window)) {
            Some(hold) => match hold_evidence(hold, context) {
                Some(evidence) => Some(observations_draft(Role::Amplifier, member, evidence)),
                None => None,
            },
            None => None,
        }
    }

    fn inspect(&self, member: &EpisodeRefV1, typed: &TypedInputs, context: &EvalContext) -> (r:
        Option<usize>) {
        Some(
            activity_backends_examined(typed, context.incident_start_us, context.incident_end_us),
        )
    }

    fn draft(&self, member: &EpisodeRefV1, typed: &TypedInputs, context: &EvalContext) -> (r: Option<
        FindingDraft,
    >) {
        let window: Vec<&ActivitySnapshot> = typed.activity_window(
            context.incident_start_us,
            context.incident_end_us,
        );
        let seen: Vec<Seen> = see(&window);
        let (observed_at_us, backend): (i64, &ActivityBackend) = match Self::oldest(&seen) {
            Some(found) => found,
            None => {
                return None;
            },
        };
        let source_window: SourceWindow = SourceWindow::from_bounds(
            context.incident_start_us,
            context.incident_end_us,
            None,
            1,
        );
        let age: Option<Float64> = match backend.xmin_age {
            Some(age) => exact_i64_as_f64(age),
            None => None,
        };
        let xmin: GaugeEvidence = match age {
            Some(value) => {
                match GaugeEvidence::value(
                    GaugeValueInput {
                        operand: "xmin_age",
                        value,
                        unit: GaugeUnit::Count,
                        threshold: Float64 { bits: XMIN_AGE_FLOOR },
                        threshold_kind: ThresholdKind::AtLeast,
                        observed_at_us,
                        samples: 1,
                        source_window,
                        entity: session_entity(backend.pid, backend.backend_start),
                    },
                ) {
                    Some(evidence) => evidence,
                    None => {
                        return None;
                    },
                }
            },
            None => {
                return None;
            },
        };
        let xact_age: Option<Float64> = match backend.xact_age_us {
            Some(age) => exact_i64_as_f64(age),
            None => None,
        };
        let xact: Option<GaugeEvidence> = match xact_age {
            Some(value) => GaugeEvidence::value(
                GaugeValueInput {
                    operand: "xact_age_us",
                    value,
                    unit: GaugeUnit::Microseconds,
                    threshold: Float64 { bits: XACT_AGE_FLOOR_US },
                    threshold_kind: ThresholdKind::AtLeast,
                    observed_at_us,
                    samples: 1,
                    source_window,
                    entity: session_entity(backend.pid, backend.backend_start),
                },
            ),
            None => None,
        };
        let ghost a = xmin@;
        let mut evidence: Vec<GaugeEvidence> = Vec::new();
        evidence.push(xmin);
        match xact {
            Some(found) => {
                let ghost b = found@;
                evidence.push(found);
                proof {
                    assert(views(evidence@) =~= seq![a, b]);
                }
            },
            None => {
                proof {
                    assert(views(evidence@) =~= seq![a]);
                }
            },
        }
        Some(draft_observations(Role::Amplifier, member, evidence))
    }
}

impl Lens for XminHorizonHoldLens {
    open spec fn id_text(&self) -> Seq<char> {
        "PG-HORIZON-013"@
    }

    open spec fn input_list(&self) -> Seq<SectionColumn> {
        seq![
            SectionColumn { section: PG_STAT_ACTIVITY, column: "backend_xmin_age" },
            SectionColumn { section: PG_STAT_ACTIVITY, column: "xact_start" },
        ]
    }

    open spec fn cap(&self) -> ConfidenceCap {
        ConfidenceCap::Medium
    }

    open spec fn steps(
        &self,
        cluster: ClusterView,
        series: SeriesSetView,
        typed: TypedView,
        context: EvalContext,
    ) -> Seq<Step> {
        first_member_steps(self, PG_STAT_ACTIVITY@, cluster, typed, context)
    }

    fn id(&self) -> (r: &'static str) {
        "PG-HORIZON-013"
    }

    fn inputs(&self) -> (r: &'static [SectionColumn]) {
        &[
            SectionColumn { section: PG_STAT_ACTIVITY, column: "backend_xmin_age" },
            SectionColumn { section: PG_STAT_ACTIVITY, column: "xact_start" },
        ]
    }

    fn confidence_cap(&self) -> (r: ConfidenceCap) {
        ConfidenceCap::Medium
    }

    fn evaluate(
        &self,
        cluster: &Cluster,
        series: &SeriesSet,
        typed: &TypedInputs,
        context: &EvalContext,
        sink: &mut FindingSink<'_>,
    ) -> (r: Result<(), LimitHit>) {
        evaluate_first_member(self, PG_STAT_ACTIVITY, cluster, typed, context, sink)
    }
}

/// The reported hold is one of the sightings, it holds the horizon, and no
/// other sighted hold is older.
pub proof fn law_reported_hold_is_the_oldest(seen: Seq<Sighting>)
    ensures
        match oldest_hold(seen) {
            Some(hold) => seen.contains(hold) && hold_sighted(hold) && forall|i: int|
                0 <= i < seen.len() && hold_sighted(#[trigger] seen[i])
                    ==> seen[i].backend.xmin_age->Some_0 <= hold.backend.xmin_age->Some_0,
            None => forall|i: int| 0 <= i < seen.len() ==> !hold_sighted(#[trigger] seen[i]),
        },
    decreases seen.len(),
{
    if seen.len() > 0 {
        let rest = seen.drop_last();
        law_reported_hold_is_the_oldest(rest);
        assert forall|i: int| 0 <= i < seen.len() - 1 implies seen[i] == #[trigger] rest[i] by {}
        if let Some(hold) = oldest_hold(rest) {
            let k = rest.index_of(hold);
            assert(seen[k] == hold);
        }
        assert(seen[seen.len() - 1] == seen.last());
        assert forall|i: int| 0 <= i < seen.len() && hold_sighted(#[trigger] seen[i]) implies (
        oldest_hold(seen) matches Some(hold) && seen[i].backend.xmin_age->Some_0
            <= hold.backend.xmin_age->Some_0) by {
            if i < seen.len() - 1 {
                assert(hold_sighted(rest[i]));
            }
        }
    }
}

/// Fewest consecutive stored snapshots that must show the same session
/// waiting. This is sampled persistence, not elapsed wait duration.
pub const MIN_CONSECUTIVE_SAMPLES: usize = 3;

/// 3.0: the same number of samples.
pub const CONSECUTIVE_FLOOR: u64 = 0x4008_0000_0000_0000;

/// One backend session.
#[derive(Debug, Clone, Copy, PartialEq, Eq, Structural)]
pub struct Session {
    pub pid: i64,
    pub backend_start: i64,
}

impl View for Session {
    type V = Session;

    open spec fn view(&self) -> Session {
        *self
    }
}

impl Ranked for Session {
    open spec fn rank(self) -> Seq<int> {
        (self.pid, self.backend_start).rank()
    }

    proof fn rank_splits(a: Self, b: Self, x: Seq<int>, y: Seq<int>) {
        <(i64, i64)>::rank_splits((a.pid, a.backend_start), (b.pid, b.backend_start), x, y);
    }
}

impl Keyed<Session> for Session {
    fn key_into(&self, out: &mut Vec<i128>) {
        let ghost start = ints(out@);
        push_int(out, self.pid as i128);
        push_int(out, self.backend_start as i128);
        proof {
            assert(ints(out@) =~= start + self@.rank());
        }
    }
}

/// The running count of samples that show a session waiting, beside the longest
/// run so far.
#[derive(Clone, Copy)]
pub struct SessionRun {
    /// Place of the last such snapshot in the window.
    pub last: usize,
    /// Length of the unbroken run that ends there.
    pub running: usize,
    pub best: WaitRun,
}

/// An unbroken run of snapshots that show a session waiting.
#[derive(Debug, Clone, Copy, PartialEq, Eq, Structural)]
pub struct WaitRun {
    /// Place of the last snapshot of the run in the window.
    pub last: usize,
    pub samples: usize,
    /// Time of that snapshot.
    pub ts: i64,
}

/// `PG-SYNC-018`: the same backend session sampled on the synchronous
/// replication wait in three consecutive snapshots. This is a positive sampled
/// observation, not elapsed wait duration or a standby root cause.
pub struct SyncReplicationWaitLens;

/// Whether a backend is a session that waits for synchronous replication.
pub open spec fn waits(backend: BackendView, session: Session) -> bool {
    backend.pid > 0 && backend.backend_start > 0 && backend.wait_event == Some("SyncRep"@)
        && backend.pid == session.pid && backend.backend_start == session.backend_start
}

/// Whether a snapshot of a window shows a session waiting.
pub open spec fn waits_at(window: Seq<ActivityView>, session: Session, at: int) -> bool {
    0 <= at < window.len() && exists|i: int|
        0 <= i < window[at].backends.len() && waits(#[trigger] window[at].backends[i], session)
}

/// Whether a session waits in every snapshot from `first` through `last`.
pub open spec fn is_run(
    window: Seq<ActivityView>,
    session: Session,
    first: int,
    last: int,
) -> bool {
    first <= last && forall|at: int|
        first <= at <= last ==> #[trigger] waits_at(window, session, at)
}

/// Whether a run is the longest of a session, and the latest of its length.
pub open spec fn is_session_run(
    window: Seq<ActivityView>,
    session: Session,
    found: WaitRun,
) -> bool {
    &&& found.last < window.len()
    &&& is_run(window, session, found.last - found.samples + 1, found.last as int)
    &&& forall|first: int, last: int| #[trigger]
        is_run(window, session, first, last) ==> last - first + 1 < found.samples || (last - first
            + 1 == found.samples && last <= found.last)
    &&& found.ts == window[found.last as int].ts
}

/// The longest run of a session, the latest of its length.
pub open spec fn session_run(window: Seq<ActivityView>, session: Session) -> Option<WaitRun> {
    if exists|found: WaitRun| is_session_run(window, session, found) {
        Some(choose|found: WaitRun| is_session_run(window, session, found))
    } else {
        None
    }
}

proof fn lemma_session_run(window: Seq<ActivityView>, session: Session, found: WaitRun)
    requires
        is_session_run(window, session, found),
    ensures
        session_run(window, session) == Some(found),
{
    let chosen = choose|other: WaitRun| is_session_run(window, session, other);
    assert(is_session_run(window, session, chosen));
    assert(is_run(window, session, chosen.last - chosen.samples + 1, chosen.last as int));
    assert(is_run(window, session, found.last - found.samples + 1, found.last as int));
}

/// Whether a session has a run that is long enough to report.
pub open spec fn persists(window: Seq<ActivityView>, session: Session) -> bool {
    session_run(window, session) matches Some(found) && found.samples >= MIN_CONSECUTIVE_SAMPLES
}

/// Whether the run of `b` is reported before that of `a`: it is longer, or as
/// long and of the greater session.
pub open spec fn outlasted(window: Seq<ActivityView>, a: Session, b: Session) -> bool {
    let x = session_run(window, a)->Some_0.samples;
    let y = session_run(window, b)->Some_0.samples;
    x < y || (x == y && (a.pid < b.pid || (a.pid == b.pid && a.backend_start <= b.backend_start)))
}

/// Whether a session has the run to report.
pub open spec fn is_longest(window: Seq<ActivityView>, session: Session) -> bool {
    &&& persists(window, session)
    &&& forall|other: Session|
        #[trigger] persists(window, other) ==> outlasted(window, other, session)
}

/// The session to report, if any run is long enough.
pub open spec fn longest_waiter(window: Seq<ActivityView>) -> Option<Session> {
    if exists|session: Session| is_longest(window, session) {
        Some(choose|session: Session| is_longest(window, session))
    } else {
        None
    }
}

/// The evidence of a run.
pub open spec fn run_evidence(
    session: Session,
    found: WaitRun,
    context: EvalContext,
) -> Option<GaugeEvidenceView> {
    if found.samples <= u32::MAX {
        value_evidence(
            "consecutive_syncrep_samples"@,
            Float64::of_int(found.samples as int),
            GaugeUnit::Count,
            Float64 { bits: CONSECUTIVE_FLOOR },
            ThresholdKind::AtLeast,
            found.ts,
            found.samples,
            bare_window(context, found.samples),
            entity_of(PG_STAT_ACTIVITY@, session_identity(session.pid, session.backend_start)),
        )
    } else {
        None
    }
}

/// Whether the counts of a session are those of a window.
pub open spec fn follows(window: Seq<ActivityView>, session: Session, run: SessionRun) -> bool {
    &&& forall|at: int| #[trigger] waits_at(window, session, at) ==> at <= run.last
    &&& 1 <= run.running <= run.last + 1
    &&& is_run(window, session, run.last - run.running + 1, run.last as int)
    &&& !waits_at(window, session, run.last - run.running)
    &&& is_session_run(window, session, run.best)
}

/// Whether a map holds the counts of all sessions of a window.
pub open spec fn holds_runs(runs: Map<Session, SessionRun>, window: Seq<ActivityView>) -> bool {
    forall|session: Session| #[trigger]
        runs.dom().contains(session) && follows(window, session, runs[session]) || (
        !runs.dom().contains(session) && forall|at: int| !#[trigger] waits_at(window, session, at))
}

/// Whether a session waits in the same snapshots of two windows.
pub open spec fn same_waits(a: Seq<ActivityView>, b: Seq<ActivityView>, session: Session) -> bool {
    &&& a.len() <= b.len()
    &&& forall|at: int| 0 <= at < a.len() ==> (#[trigger] a[at]).ts == b[at].ts
    &&& forall|at: int|
        #![trigger waits_at(a, session, at)]
        #![trigger waits_at(b, session, at)]
        waits_at(a, session, at) == waits_at(b, session, at)
}

proof fn lemma_same_runs(a: Seq<ActivityView>, b: Seq<ActivityView>, session: Session)
    requires
        same_waits(a, b, session),
    ensures
        forall|first: int, last: int|
            #![trigger is_run(a, session, first, last)]
            #![trigger is_run(b, session, first, last)]
            is_run(a, session, first, last) == is_run(b, session, first, last),
{
    assert forall|first: int, last: int|
        #![trigger is_run(a, session, first, last)]
        #![trigger is_run(b, session, first, last)]
        is_run(a, session, first, last) == is_run(b, session, first, last) by {
        if is_run(a, session, first, last) {
            assert forall|at: int| first <= at <= last implies #[trigger] waits_at(
                b,
                session,
                at,
            ) by {
                assert(waits_at(a, session, at));
            }
        }
        if is_run(b, session, first, last) {
            assert forall|at: int| first <= at <= last implies #[trigger] waits_at(
                a,
                session,
                at,
            ) by {
                assert(waits_at(b, session, at));
            }
        }
    }
}

proof fn lemma_follows_same(
    a: Seq<ActivityView>,
    b: Seq<ActivityView>,
    session: Session,
    run: SessionRun,
)
    requires
        same_waits(a, b, session),
        follows(a, session, run),
    ensures
        follows(b, session, run),
{
    lemma_same_runs(a, b, session);
    assert(a[run.best.last as int].ts == b[run.best.last as int].ts);
}

/// A session's counts after one more sample in the last snapshot.
pub open spec fn resumed(earlier: Option<SessionRun>, at: usize, ts: i64) -> SessionRun {
    match earlier {
        Some(run) if run.last == at => run,
        _ => {
            let running: usize = if earlier is Some && earlier->Some_0.last + 1 == at {
                (earlier->Some_0.running + 1) as usize
            } else {
                1
            };
            SessionRun {
                last: at,
                running,
                best: if earlier is Some && earlier->Some_0.best.samples > running {
                    earlier->Some_0.best
                } else {
                    WaitRun { last: at, samples: running, ts }
                },
            }
        },
    }
}

proof fn lemma_follows_more(
    a: Seq<ActivityView>,
    b: Seq<ActivityView>,
    session: Session,
    earlier: Option<SessionRun>,
    here: usize,
)
    requires
        a.len() == b.len() == here + 1 <= usize::MAX,
        forall|at: int| 0 <= at < a.len() ==> (#[trigger] a[at]).ts == b[at].ts,
        forall|at: int|
            #![trigger waits_at(a, session, at)]
            #![trigger waits_at(b, session, at)]
            waits_at(b, session, at) == (waits_at(a, session, at) || at == here),
        match earlier {
            Some(run) => follows(a, session, run),
            None => forall|at: int| !#[trigger] waits_at(a, session, at),
        },
    ensures
        follows(b, session, resumed(earlier, here, b[here as int].ts)),
{
    let now = resumed(earlier, here, b[here as int].ts);
    assert(waits_at(b, session, here as int));
    if earlier is Some && earlier->Some_0.last == here {
        let run = earlier->Some_0;
        assert(waits_at(a, session, here as int));
        assert(same_waits(a, b, session));
        lemma_follows_same(a, b, session, run);
    } else {
        let start = here - now.running + 1;
        assert(!waits_at(b, session, start - 1)) by {
            if earlier is Some {
                let run = earlier->Some_0;
                assert(waits_at(a, session, run.last as int));
                if run.last + 1 == here {
                    assert(now.running == run.running + 1);
                    assert(start - 1 == run.last - run.running);
                } else {
                    assert(now.running == 1);
                    assert(!waits_at(a, session, here - 1));
                }
                assert(!waits_at(a, session, start - 1));
            } else {
                assert(!waits_at(a, session, here - 1));
            }
        }
        assert(is_run(b, session, start, here as int)) by {
            assert forall|at: int| start <= at <= here implies #[trigger] waits_at(
                b,
                session,
                at,
            ) by {
                if at < here {
                    assert(waits_at(a, session, at));
                }
            }
        }
        let best = now.best;
        assert(is_run(b, session, best.last - best.samples + 1, best.last as int)) by {
            if best.last != here {
                assert forall|at: int|
                    best.last - best.samples + 1 <= at <= best.last implies #[trigger] waits_at(
                    b,
                    session,
                    at,
                ) by {
                    assert(waits_at(a, session, at));
                }
            }
        }
        assert forall|first: int, last: int| #[trigger]
            is_run(b, session, first, last) implies last - first + 1 < best.samples || (last - first
            + 1 == best.samples && last <= best.last) by {
            assert(waits_at(b, session, last));
            if last == here {
                if first < start {
                    assert(waits_at(b, session, start - 1));
                }
            } else {
                assert(is_run(a, session, first, last)) by {
                    assert forall|at: int| first <= at <= last implies #[trigger] waits_at(
                        a,
                        session,
                        at,
                    ) by {
                        assert(waits_at(b, session, at));
                        assert(at <= last);
                    }
                }
            }
        }
    }
}

/// A window up to a snapshot, of which only the first backends count.
pub open spec fn partial(window: Seq<ActivityView>, at: int, backends: int) -> Seq<ActivityView> {
    window.take(at).push(
        ActivityView { backends: window[at].backends.take(backends), ..window[at] },
    )
}

proof fn lemma_partial_waits(window: Seq<ActivityView>, at: int, backends: int, session: Session)
    requires
        0 <= at < window.len(),
        0 <= backends < window[at].backends.len(),
    ensures
        forall|k: int|
            #![trigger waits_at(partial(window, at, backends), session, k)]
            #![trigger waits_at(partial(window, at, backends + 1), session, k)]
            waits_at(partial(window, at, backends + 1), session, k) == (waits_at(
                partial(window, at, backends),
                session,
                k,
            ) || (k == at && waits(window[at].backends[backends], session))),
{
    let a = partial(window, at, backends);
    let b = partial(window, at, backends + 1);
    assert forall|k: int|
        #![trigger waits_at(a, session, k)]
        #![trigger waits_at(b, session, k)]
        waits_at(b, session, k) == (waits_at(a, session, k) || (k == at && waits(
            window[at].backends[backends],
            session,
        ))) by {
        if 0 <= k < at {
            assert(a[k] == b[k]);
        } else if k == at {
            if waits_at(b, session, k) {
                let i = choose|i: int|
                    0 <= i < b[k].backends.len() && waits(#[trigger] b[k].backends[i], session);
                if i < backends {
                    assert(a[k].backends[i] == b[k].backends[i]);
                }
            }
            if waits_at(a, session, k) {
                let i = choose|i: int|
                    0 <= i < a[k].backends.len() && waits(#[trigger] a[k].backends[i], session);
                assert(a[k].backends[i] == b[k].backends[i]);
            }
            if waits(window[at].backends[backends], session) {
                assert(b[k].backends[backends] == window[at].backends[backends]);
            }
        }
    }
}

proof fn lemma_partial_start(window: Seq<ActivityView>, at: int, session: Session)
    requires
        0 <= at < window.len(),
    ensures
        same_waits(window.take(at), partial(window, at, 0), session),
{
    let a = window.take(at);
    let b = partial(window, at, 0);
    assert forall|k: int|
        #![trigger waits_at(a, session, k)]
        #![trigger waits_at(b, session, k)]
        waits_at(a, session, k) == waits_at(b, session, k) by {
        if 0 <= k < at {
            assert(a[k] == b[k]);
        }
    }
}

impl SyncReplicationWaitLens {
    /// Adds one sample to a session's counts.
    fn resume(earlier: Option<SessionRun>, at: usize, ts: i64) -> (r: SessionRun)
        requires
            at < usize::MAX,
            earlier matches Some(run) ==> run.running <= run.last + 1 && run.last <= at,
        ensures
            r == resumed(earlier, at, ts),
    {
        let mut running: usize = 1;
        let mut best: Option<WaitRun> = None;
        if let Some(run) = earlier {
            if run.last == at {
                return run;
            }
            if run.last + 1 == at {
                running = run.running + 1;
            }
            best = Some(run.best);
        }
        let here = WaitRun { last: at, samples: running, ts };
        SessionRun {
            last: at,
            running,
            best: match best {
                Some(run) => if run.samples > running {
                    run
                } else {
                    here
                },
                None => here,
            },
        }
    }

    /// Follows the runs of all sessions.
    fn runs(window: &Vec<&ActivitySnapshot>) -> (r: OrderedMap<Session, SessionRun>)
        ensures
            well_formed::<Session, _, _>(r.entries@),
            holds_runs(contents::<Session, _, _>(r.entries@), views(window@)),
    {
        let ghost all = views(window@);
        let mut runs: OrderedMap<Session, SessionRun> = OrderedMap::new::<Session>();
        let mut i: usize = 0;
        while i < window.len()
            invariant
                i <= window.len(),
                all == views(window@),
                well_formed::<Session, _, _>(runs.entries@),
                holds_runs(contents::<Session, _, _>(runs.entries@), all.take(i as int)),
            decreases window.len() - i,
        {
            let snapshot: &ActivitySnapshot = window[i];
            let mut j: usize = 0;
            proof {
                let map = contents::<Session, _, _>(runs.entries@);
                let before = all.take(i as int);
                let part = partial(all, i as int, 0);
                assert forall|session: Session| #[trigger]
                    map.dom().contains(session) && follows(part, session, map[session]) || (
                    !map.dom().contains(session) && forall|at: int|
                        !#[trigger] waits_at(part, session, at)) by {
                    lemma_partial_start(all, i as int, session);
                    if map.dom().contains(session) {
                        lemma_follows_same(before, part, session, map[session]);
                    } else {
                        assert forall|at: int| !#[trigger] waits_at(part, session, at) by {
                            assert(!waits_at(before, session, at));
                        }
                    }
                }
            }
            while j < snapshot.backends.len()
                invariant
                    i < window.len(),
                    all == views(window@),
                    snapshot == window@[i as int],
                    snapshot@ == all[i as int],
                    j <= snapshot.backends.len(),
                    well_formed::<Session, _, _>(runs.entries@),
                    holds_runs(
                        contents::<Session, _, _>(runs.entries@),
                        partial(all, i as int, j as int),
                    ),
                decreases snapshot.backends.len() - j,
            {
                let backend: &ActivityBackend = &snapshot.backends[j];
                let ghost old_map = contents::<Session, _, _>(runs.entries@);
                let ghost part = partial(all, i as int, j as int);
                let ghost next = partial(all, i as int, j + 1);
                let ghost mut added: Option<Session> = None;
                proof {
                    assert(all[i as int].backends[j as int] == backend@);
                }
                if backend.pid > 0 && backend.backend_start > 0 && is_syncrep(
                    label_text(&backend.wait_event),
                ) {
                    let session = Session {
                        pid: backend.pid,
                        backend_start: backend.backend_start,
                    };
                    let key: Vec<i128> = key_of(&session);
                    let earlier: Option<SessionRun> = match runs.get_by_key::<Session>(&key) {
                        Some(run) => Some(*run),
                        None => None,
                    };
                    proof {
                        added = Some(session);
                        assert(old_map.dom().contains(session) || !old_map.dom().contains(session));
                        if old_map.dom().contains(session) {
                            let run = old_map[session];
                            assert(waits_at(part, session, run.last as int));
                        }
                        lemma_partial_waits(all, i as int, j as int, session);
                        lemma_follows_more(part, next, session, earlier, i);
                    }
                    let run: SessionRun = Self::resume(earlier, i, snapshot.ts);
                    runs.insert::<Session>(session, run);
                }
                proof {
                    let map = contents::<Session, _, _>(runs.entries@);
                    assert forall|session: Session| #[trigger]
                        map.dom().contains(session) && follows(next, session, map[session]) || (
                        !map.dom().contains(session) && forall|at: int|
                            !#[trigger] waits_at(next, session, at)) by {
                        assert(old_map.dom().contains(session) || !old_map.dom().contains(session));
                        if added != Some(session) {
                            lemma_partial_waits(all, i as int, j as int, session);
                            assert(!waits(backend@, session));
                            assert(same_waits(part, next, session));
                            if old_map.dom().contains(session) {
                                lemma_follows_same(part, next, session, old_map[session]);
                            } else {
                                assert forall|at: int| !#[trigger] waits_at(
                                    next,
                                    session,
                                    at,
                                ) by {
                                    assert(!waits_at(part, session, at));
                                }
                            }
                        }
                    }
                }
                j = j + 1;
            }
            proof {
                assert(all[i as int].backends.take(j as int) =~= all[i as int].backends);
                assert(partial(all, i as int, j as int) =~= all.take(i + 1));
            }
            i = i + 1;
        }
        proof {
            assert(all.take(i as int) =~= all);
        }
        runs
    }

    /// Finds the longest run.
    fn longest(window: &Vec<&ActivitySnapshot>) -> (r: Option<(Session, WaitRun)>)
        ensures
            match r {
                Some((session, found)) => longest_waiter(views(window@)) == Some(session)
                    && session_run(views(window@), session) == Some(found),
                None => longest_waiter(views(window@)) is None,
            },
    {
        let ghost all = views(window@);
        let runs: OrderedMap<Session, SessionRun> = Self::runs(window);
        let ghost map = contents::<Session, _, _>(runs.entries@);
        let mut best: Option<(Session, WaitRun)> = None;
        let mut i: usize = 0;
        while i < runs.entries.len()
            invariant
                i <= runs.entries.len(),
                all == views(window@),
                map == contents::<Session, _, _>(runs.entries@),
                well_formed::<Session, _, _>(runs.entries@),
                holds_runs(map, all),
                match best {
                    Some((session, found)) => persists(all, session) && session_run(all, session)
                        == Some(found) && forall|k: int|
                        0 <= k < i && persists(all, (#[trigger] runs.entries@[k]).name)
                            ==> outlasted(all, runs.entries@[k].name, session),
                    None => forall|k: int|
                        0 <= k < i ==> !persists(all, (#[trigger] runs.entries@[k]).name),
                },
            decreases runs.entries.len() - i,
        {
            let session: Session = runs.entries[i].name;
            let found: WaitRun = runs.entries[i].value.best;
            proof {
                lemma_entry::<Session, _, _>(runs.entries@, i as int);
                assert(runs.entries@[i as int].name@ == session);
                assert(map.dom().contains(session));
                lemma_session_run(all, session, found);
            }
            if found.samples >= MIN_CONSECUTIVE_SAMPLES {
                let replaces: bool = match best {
                    Some((other, run)) => run.samples < found.samples || (run.samples
                        == found.samples && (other.pid < session.pid || (other.pid == session.pid
                        && other.backend_start <= session.backend_start))),
                    None => true,
                };
                if replaces {
                    best = Some((session, found));
                }
            }
            i = i + 1;
        }
        proof {
            assert forall|other: Session| #[trigger] persists(all, other) implies (best matches
                Some((session, _)) && outlasted(all, other, session)) by {
                let found = session_run(all, other)->Some_0;
                assert(is_session_run(all, other, found));
                assert(waits_at(all, other, found.last as int));
                assert(map.dom().contains(other));
                let k = choose|k: int|
                    crate::ordered::entry_at::<Session, Session, SessionRun>(
                        runs.entries@,
                        other,
                        k,
                    );
                assert(runs.entries@[k].name@ == other);
                assert(persists(all, runs.entries@[k].name));
            }
            if let Some((session, _)) = best {
                assert(is_longest(all, session));
                let chosen = choose|s: Session| is_longest(all, s);
                assert(is_longest(all, chosen));
                assert(outlasted(all, chosen, session));
                assert(outlasted(all, session, chosen));
            } else {
                assert forall|session: Session| !is_longest(all, session) by {}
            }
        }
        best
    }
}

impl InspectLens for SyncReplicationWaitLens {
    open spec fn inspected(
        &self,
        member: EpisodeView,
        typed: TypedView,
        context: EvalContext,
    ) -> Option<usize> {
        Some(
            capped(
                backend_count(
                    typed.activity_window(context.incident_start_us, context.incident_end_us),
                ),
            ),
        )
    }

    open spec fn drafted(
        &self,
        member: EpisodeView,
        typed: TypedView,
        context: EvalContext,
    ) -> Option<DraftView> {
        let window = typed.activity_window(context.incident_start_us, context.incident_end_us);
        match longest_waiter(window) {
            Some(session) => observed(
                member,
                run_evidence(session, session_run(window, session)->Some_0, context),
            ),
            None => None,
        }
    }

    fn inspect(&self, member: &EpisodeRefV1, typed: &TypedInputs, context: &EvalContext) -> (r:
        Option<usize>) {
        Some(
            activity_backends_examined(typed, context.incident_start_us, context.incident_end_us),
        )
    }

    fn draft(&self, member: &EpisodeRefV1, typed: &TypedInputs, context: &EvalContext) -> (r: Option<
        FindingDraft,
    >) {
        let window: Vec<&ActivitySnapshot> = typed.activity_window(
            context.incident_start_us,
            context.incident_end_us,
        );
        let (session, found): (Session, WaitRun) = match Self::longest(&window) {
            Some(found) => found,
            None => {
                return None;
            },
        };
        if found.samples > u32::MAX as usize {
            return None;
        }
        draft_observed(
            member,
            GaugeEvidence::value(
                GaugeValueInput {
                    operand: "consecutive_syncrep_samples",
                    value: Float64::from_i128(found.samples as i128),
                    unit: GaugeUnit::Count,
                    threshold: Float64 { bits: CONSECUTIVE_FLOOR },
                    threshold_kind: ThresholdKind::AtLeast,
                    observed_at_us: found.ts,
                    samples: found.samples,
                    source_window: SourceWindow::from_bounds(
                        context.incident_start_us,
                        context.incident_end_us,
                        None,
                        found.samples,
                    ),
                    entity: session_entity(session.pid, session.backend_start),
                },
            ),
        )
    }
}

impl Lens for SyncReplicationWaitLens {
    open spec fn id_text(&self) -> Seq<char> {
        "PG-SYNC-018"@
    }

    open spec fn input_list(&self) -> Seq<SectionColumn> {
        seq![
            SectionColumn { section: PG_STAT_ACTIVITY, column: "wait_event" },
        ]
    }

    open spec fn cap(&self) -> ConfidenceCap {
        ConfidenceCap::Medium
    }

    open spec fn steps(
        &self,
        cluster: ClusterView,
        series: SeriesSetView,
        typed: TypedView,
        context: EvalContext,
    ) -> Seq<Step> {
        first_member_steps(self, PG_STAT_ACTIVITY@, cluster, typed, context)
    }

    fn id(&self) -> (r: &'static str) {
        "PG-SYNC-018"
    }

    fn inputs(&self) -> (r: &'static [SectionColumn]) {
        &[
            SectionColumn { section: PG_STAT_ACTIVITY, column: "wait_event" },
        ]
    }

    fn confidence_cap(&self) -> (r: ConfidenceCap) {
        ConfidenceCap::Medium
    }

    fn evaluate(
        &self,
        cluster: &Cluster,
        series: &SeriesSet,
        typed: &TypedInputs,
        context: &EvalContext,
        sink: &mut FindingSink<'_>,
    ) -> (r: Result<(), LimitHit>) {
        evaluate_first_member(self, PG_STAT_ACTIVITY, cluster, typed, context, sink)
    }
}

/// A bounded property that holds somewhere holds at a greatest place.
proof fn lemma_greatest(holds: spec_fn(int) -> bool, at: int, bound: int) -> (top: int)
    requires
        holds(at),
        forall|x: int| #[trigger] holds(x) ==> x <= bound,
    ensures
        holds(top),
        forall|x: int| #[trigger] holds(x) ==> x <= top,
    decreases bound - at,
{
    if exists|x: int| x > at && #[trigger] holds(x) {
        let next = choose|x: int| x > at && #[trigger] holds(x);
        lemma_greatest(holds, next, bound)
    } else {
        at
    }
}

/// A session that waits somewhere has a longest run.
proof fn lemma_session_run_exists(window: Seq<ActivityView>, session: Session, at: int)
    requires
        window.len() <= usize::MAX,
        waits_at(window, session, at),
    ensures
        session_run(window, session) matches Some(found) && is_session_run(window, session, found),
{
    let long = |n: int| exists|last: int| #[trigger] is_run(window, session, last - n + 1, last);
    assert forall|n: int| #[trigger] long(n) implies n <= window.len() by {
        let last = choose|last: int| #[trigger] is_run(window, session, last - n + 1, last);
        assert(waits_at(window, session, last));
        assert(waits_at(window, session, last - n + 1));
    }
    assert(is_run(window, session, at - 1 + 1, at));
    assert(long(1));
    let samples = lemma_greatest(long, 1, window.len() as int);
    let ends = |last: int| is_run(window, session, last - samples + 1, last);
    assert forall|last: int| #[trigger] ends(last) implies last <= window.len() by {
        assert(waits_at(window, session, last));
    }
    let some = choose|last: int| #[trigger] is_run(window, session, last - samples + 1, last);
    assert(ends(some));
    let last = lemma_greatest(ends, some, window.len() as int);
    assert(waits_at(window, session, last));
    let found = WaitRun {
        last: last as usize,
        samples: samples as usize,
        ts: window[last].ts,
    };
    assert forall|f: int, l: int| #[trigger] is_run(window, session, f, l) implies l - f + 1
        < samples || (l - f + 1 == samples && l <= last) by {
        let n = l - f + 1;
        assert(is_run(window, session, l - n + 1, l));
        assert(long(n));
        if n == samples {
            assert(ends(l));
        }
    }
    assert(is_session_run(window, session, found));
}

/// Among sessions that persist, one is reported.
proof fn lemma_longest_waiter_exists(window: Seq<ActivityView>, session: Session)
    requires
        window.len() <= usize::MAX,
        persists(window, session),
    ensures
        longest_waiter(window) matches Some(reported) && is_longest(window, reported),
{
    let samples_of = |s: Session| session_run(window, s)->Some_0.samples as int;
    let long = |n: int| exists|s: Session| #[trigger] persists(window, s) && samples_of(s) == n;
    assert(long(samples_of(session)));
    let n = lemma_greatest(long, samples_of(session), usize::MAX as int);
    let first = choose|s: Session| #[trigger] persists(window, s) && samples_of(s) == n;
    let pids = |p: int|
        exists|s: Session| #[trigger] persists(window, s) && samples_of(s) == n && s.pid == p;
    assert(pids(first.pid as int));
    let p = lemma_greatest(pids, first.pid as int, i64::MAX as int);
    let second = choose|s: Session| #[trigger]
        persists(window, s) && samples_of(s) == n && s.pid == p;
    let starts = |b: int|
        exists|s: Session| #[trigger]
            persists(window, s) && samples_of(s) == n && s.pid == p && s.backend_start == b;
    assert(starts(second.backend_start as int));
    let b = lemma_greatest(starts, second.backend_start as int, i64::MAX as int);
    let top = choose|s: Session| #[trigger]
        persists(window, s) && samples_of(s) == n && s.pid == p && s.backend_start == b;
    assert forall|other: Session| #[trigger] persists(window, other) implies outlasted(
        window,
        other,
        top,
    ) by {
        assert(long(samples_of(other)));
        if samples_of(other) == n {
            assert(pids(other.pid as int));
            if other.pid == p {
                assert(starts(other.backend_start as int));
            }
        }
    }
    assert(is_longest(window, top));
}

/// Synchronous replication is reported exactly if some session is sampled
/// waiting for it in three consecutive snapshots of the window, wherever they
/// lie and whatever follows them.
pub proof fn law_three_consecutive_waits_are_reported(
    member: EpisodeView,
    typed: TypedView,
    context: EvalContext,
)
    requires
        typed.activity_window(context.incident_start_us, context.incident_end_us).len()
            <= u32::MAX,
    ensures
        SyncReplicationWaitLens.drafted(member, typed, context) is Some <==> exists|
            session: Session,
            first: int,
        | #[trigger]
            is_run(
                typed.activity_window(context.incident_start_us, context.incident_end_us),
                session,
                first,
                first + 2,
            ),
{
    let window = typed.activity_window(context.incident_start_us, context.incident_end_us);
    if exists|session: Session, first: int| #[trigger] is_run(window, session, first, first + 2) {
        let (session, first) = choose|session: Session, first: int| #[trigger]
            is_run(window, session, first, first + 2);
        assert(waits_at(window, session, first));
        lemma_session_run_exists(window, session, first);
        assert(persists(window, session));
        lemma_longest_waiter_exists(window, session);
        let reported = longest_waiter(window)->Some_0;
        let found = session_run(window, reported)->Some_0;
        assert(is_session_run(window, reported, found));
        assert(waits_at(window, reported, found.last - found.samples + 1));
        law_small_integers_are_exact(found.samples as int);
        assert((Float64 { bits: CONSECUTIVE_FLOOR }).finite());
        reveal_strlit("consecutive_syncrep_samples");
        reveal_strlit("pg_stat_activity");
    }
    if let Some(session) = longest_waiter(window) {
        assert(is_longest(window, session));
        let found = session_run(window, session)->Some_0;
        assert(is_session_run(window, session, found));
        let first = found.last - 2;
        assert forall|at: int| first <= at <= first + 2 implies #[trigger] waits_at(
            window,
            session,
            at,
        ) by {}
        assert(is_run(window, session, first, first + 2));
    }
}

/// A fraction over too few active backends is noise; this floor makes the
/// concentration meaningful.
pub const MIN_ACTIVE: usize = 3;

/// Fewest snapshots behind a concentration.
pub const MIN_SNAPSHOTS: usize = 3;

/// Most lock edges listed as evidence.
pub const MAX_LOCK_EDGE_EVIDENCE: usize = 128;

/// 0.5 of the active backends in one wait class.
pub const WAIT_FRACTION: u64 = 0x3fe0_0000_0000_0000;

/// `PG-WAIT-019`: sampled wait-class concentration. A heavyweight lock sample
/// additionally requires an edge of the same snapshot and the same session.
pub struct InternalWaitConcentrationLens;

/// A class of waits inside the server.
#[derive(Debug, Clone, Copy, PartialEq, Eq, Structural)]
pub enum WaitClass {
    LwLock,
    BufferPin,
    Io,
    Lock,
}

impl WaitClass {
    pub open spec fn name(self) -> Seq<char> {
        match self {
            WaitClass::LwLock => "LWLock"@,
            WaitClass::BufferPin => "BufferPin"@,
            WaitClass::Io => "IO"@,
            WaitClass::Lock => "Lock"@,
        }
    }

    pub fn label(self) -> (r: &'static str)
        ensures
            r@ == self.name(),
    {
        match self {
            WaitClass::LwLock => "LWLock",
            WaitClass::BufferPin => "BufferPin",
            WaitClass::Io => "IO",
            WaitClass::Lock => "Lock",
        }
    }
}

/// The edges of the lock snapshots that name the activity snapshot of the same
/// time, with that time.
pub open spec fn linked_edges(window: Seq<LockView>) -> Seq<(i64, LockEdge)>
    decreases window.len(),
{
    if window.len() == 0 {
        Seq::empty()
    } else {
        let earlier = linked_edges(window.drop_last());
        let last = window.last();
        if last.activity_snapshot_ts == Some(last.ts) {
            earlier + Seq::new(last.edges.len(), |i: int| (last.ts, last.edges[i]))
        } else {
            earlier
        }
    }
}

/// Whether an edge shows a session waiting at a time.
pub open spec fn edge_shows(sample: (i64, LockEdge), at: ProcessMoment) -> bool {
    &&& sample.0 == at.ts
    &&& sample.1.waiter_backend_start == Some(at.starttime)
    &&& at.starttime > 0
    &&& sample.1.waiter_pid == at.pid
    &&& at.pid > 0
    &&& sample.1.blocker_pid >= 0
    &&& sample.1.blocker_pid != at.pid
}

/// The blockers of a session at a time, in the order of the edges.
pub open spec fn blockers(edges: Seq<(i64, LockEdge)>, at: ProcessMoment) -> Seq<i64>
    decreases edges.len(),
{
    if edges.len() == 0 {
        Seq::empty()
    } else if edge_shows(edges.last(), at) {
        blockers(edges.drop_last(), at).push(edges.last().1.blocker_pid)
    } else {
        blockers(edges.drop_last(), at)
    }
}

/// The active backends of a snapshot, with its time.
pub open spec fn active_of(ts: i64, backends: Seq<BackendView>) -> Seq<(i64, BackendView)>
    decreases backends.len(),
{
    if backends.len() == 0 {
        Seq::empty()
    } else if backends.last().state == Some("active"@) {
        active_of(ts, backends.drop_last()).push((ts, backends.last()))
    } else {
        active_of(ts, backends.drop_last())
    }
}

/// Whether a snapshot shows every session and enough of them are active.
pub open spec fn usable(snapshot: ActivityView) -> bool {
    snapshot.completeness == SnapshotCompleteness::Complete && active_of(
        snapshot.ts,
        snapshot.backends,
    ).len() >= MIN_ACTIVE
}

/// The times of the usable snapshots.
pub open spec fn usable_times(window: Seq<ActivityView>) -> Seq<i64>
    decreases window.len(),
{
    if window.len() == 0 {
        Seq::empty()
    } else if usable(window.last()) {
        usable_times(window.drop_last()).push(window.last().ts)
    } else {
        usable_times(window.drop_last())
    }
}

/// The active backends of the usable snapshots.
pub open spec fn active_samples(window: Seq<ActivityView>) -> Seq<(i64, BackendView)>
    decreases window.len(),
{
    if window.len() == 0 {
        Seq::empty()
    } else if usable(window.last()) {
        active_samples(window.drop_last()) + active_of(window.last().ts, window.last().backends)
    } else {
        active_samples(window.drop_last())
    }
}

/// A backend at the time of its sample.
pub open spec fn moment_of(sample: (i64, BackendView)) -> ProcessMoment {
    ProcessMoment { pid: sample.1.pid, starttime: sample.1.backend_start, ts: sample.0 }
}

/// Whether a sample waits in a class. A lock wait counts only with an edge.
pub open spec fn waits_in(
    sample: (i64, BackendView),
    class: WaitClass,
    edges: Seq<(i64, LockEdge)>,
) -> bool {
    sample.1.wait_event_type == Some(class.name()) && (class == WaitClass::Lock ==> sample.1.pid > 0
        && sample.1.backend_start > 0 && blockers(edges, moment_of(sample)).len() > 0)
}

/// How many samples wait in a class.
pub open spec fn waiting_in(
    samples: Seq<(i64, BackendView)>,
    class: WaitClass,
    edges: Seq<(i64, LockEdge)>,
) -> nat
    decreases samples.len(),
{
    if samples.len() == 0 {
        0
    } else {
        waiting_in(samples.drop_last(), class, edges) + if waits_in(samples.last(), class, edges) {
            1nat
        } else {
            0
        }
    }
}

/// A blocking edge between two backends at one time.
#[derive(Debug, Clone, Copy, PartialEq, Eq, Structural)]
pub struct EdgeSample {
    pub ts: i64,
    pub waiter: i64,
    pub blocker: i64,
}

impl View for EdgeSample {
    type V = EdgeSample;

    open spec fn view(&self) -> EdgeSample {
        *self
    }
}

impl Ranked for EdgeSample {
    open spec fn rank(self) -> Seq<int> {
        (self.ts, (self.waiter, self.blocker)).rank()
    }

    proof fn rank_splits(a: Self, b: Self, x: Seq<int>, y: Seq<int>) {
        <(i64, (i64, i64))>::rank_splits(
            (a.ts, (a.waiter, a.blocker)),
            (b.ts, (b.waiter, b.blocker)),
            x,
            y,
        );
    }
}

impl Keyed<EdgeSample> for EdgeSample {
    fn key_into(&self, out: &mut Vec<i128>) {
        let ghost start = ints(out@);
        push_int(out, self.ts as i128);
        push_int(out, self.waiter as i128);
        push_int(out, self.blocker as i128);
        proof {
            assert(ints(out@) =~= start + self@.rank());
        }
    }
}

/// Whether a sample that waits on a lock has the given edge.
pub open spec fn sample_has_edge(
    sample: (i64, BackendView),
    edges: Seq<(i64, LockEdge)>,
    edge: EdgeSample,
) -> bool {
    waits_in(sample, WaitClass::Lock, edges) && edge.ts == sample.0 && edge.waiter == sample.1.pid
        && blockers(edges, moment_of(sample)).contains(edge.blocker)
}

/// The edges of the samples that wait on a lock.
pub open spec fn matched(samples: Seq<(i64, BackendView)>, edges: Seq<(i64, LockEdge)>) -> spec_fn(
    EdgeSample,
) -> bool {
    |edge: EdgeSample|
        exists|i: int|
            0 <= i < samples.len() && sample_has_edge(#[trigger] samples[i], edges, edge)
}

/// The edges listed as evidence: the lowest of the matched ones.
pub open spec fn listed_edges(
    samples: Seq<(i64, BackendView)>,
    edges: Seq<(i64, LockEdge)>,
) -> Seq<EdgeSample> {
    lowest(matched(samples, edges), MAX_LOCK_EDGE_EVIDENCE as nat)
}

/// What the usable samples of an incident show.
pub struct WaitSamples {
    pub times: Seq<i64>,
    pub samples: Seq<(i64, BackendView)>,
    pub edges: Seq<(i64, LockEdge)>,
}

pub open spec fn wait_samples(typed: TypedView, context: EvalContext) -> WaitSamples {
    let (from_us, to_us) = (context.incident_start_us, context.incident_end_us);
    let window = typed.activity_window(from_us, to_us);
    WaitSamples {
        times: usable_times(window),
        samples: active_samples(window),
        edges: linked_edges(typed.lock_window(from_us, to_us)),
    }
}

/// The share of the active backends in a class.
pub open spec fn class_evidence(
    class: WaitClass,
    waiting: nat,
    active: nat,
    snapshots: nat,
    observed_at_us: i64,
    context: EvalContext,
) -> Option<GaugeEvidenceView> {
    if snapshots >= MIN_SNAPSHOTS && active > 0 && 2 * waiting >= active && waiting <= u32::MAX
        && active <= u32::MAX {
        ratio_evidence(
            "waiting_backends"@,
            Float64::of_int(waiting as int),
            GaugeUnit::Count,
            "active_backends"@,
            Float64::of_int(active as int),
            GaugeUnit::Count,
            GaugeUnit::Ratio,
            Float64 { bits: WAIT_FRACTION },
            ThresholdKind::AtLeast,
            observed_at_us,
            snapshots as usize,
            bare_window(context, snapshots as usize),
            entity_of(PG_STAT_ACTIVITY@, seq![IdentityView::Text(class.name())]),
        )
    } else {
        None
    }
}

/// The edges of a lock wait as evidence.
pub open spec fn edge_evidence(class: WaitClass, listed: Seq<EdgeSample>) -> Seq<EvidenceView> {
    if class == WaitClass::Lock {
        Seq::new(
            listed.len(),
            |i: int|
                EvidenceView::Direct(
                    DirectEvidence::of_lock_edge(
                        listed[i].ts,
                        listed[i].waiter,
                        listed[i].blocker,
                        LockParticipant::Waiter,
                    ),
                ),
        )
    } else {
        Seq::empty()
    }
}

/// The drafts about one class, at most one.
pub open spec fn class_drafts(class: WaitClass, found: WaitSamples, context: EvalContext) -> Seq<
    DraftView,
> {
    match class_evidence(
        class,
        waiting_in(found.samples, class, found.edges),
        found.samples.len(),
        found.times.len(),
        found.times.last(),
        context,
    ) {
        Some(evidence) => seq![
            DraftView {
                requested_role: Role::Coincident,
                scope: ScopeView {
                    logical_section: PG_STAT_ACTIVITY@,
                    column: "wait_event_type"@,
                    identity: seq![IdentityView::Text(class.name())],
                },
                evidence: seq![EvidenceView::GaugeObservation(evidence)] + edge_evidence(
                    class,
                    listed_edges(found.samples, found.edges),
                ),
                temporal_direction: false,
            },
        ],
        None => Seq::empty(),
    }
}

/// The drafts about every class.
pub open spec fn wait_drafts(found: WaitSamples, context: EvalContext) -> Seq<DraftView> {
    class_drafts(WaitClass::LwLock, found, context) + class_drafts(
        WaitClass::BufferPin,
        found,
        context,
    ) + class_drafts(WaitClass::Io, found, context) + class_drafts(WaitClass::Lock, found, context)
}

/// Reports about an incident. Every activity row is paid for twice: once as a
/// sample, once as the ceiling of one search for its edges.
pub open spec fn wait_steps(typed: TypedView, context: EvalContext) -> Seq<Step> {
    let (from_us, to_us) = (context.incident_start_us, context.incident_end_us);
    let rows = seq![Step::Charge(capped(backend_count(typed.activity_window(from_us, to_us))))];
    let edges = seq![Step::Charge(capped(linked_edges(typed.lock_window(from_us, to_us)).len()))];
    rows + (edges + (rows + emits(wait_drafts(wait_samples(typed, context), context))))
}

/// Counts the linked edges.
fn count_linked(window: &Vec<&LockSnapshot>) -> (r: usize)
    ensures
        r == capped(linked_edges(views(window@)).len()),
{
    let ghost all = views(window@);
    let mut total: usize = 0;
    let mut i: usize = 0;
    proof {
        assert(all.take(0) =~= Seq::empty());
    }
    while i < window.len()
        invariant
            i <= window.len(),
            all == views(window@),
            total == capped(linked_edges(all.take(i as int)).len()),
        decreases window.len() - i,
    {
        let snapshot: &LockSnapshot = window[i];
        proof {
            assert(all.take(i + 1).drop_last() =~= all.take(i as int));
            assert(all.take(i + 1).last() == snapshot@);
        }
        if is_linked(snapshot) {
            let here: usize = snapshot.edges.len();
            total = if total <= usize::MAX - here {
                total + here
            } else {
                usize::MAX
            };
        }
        i = i + 1;
    }
    proof {
        assert(all.take(i as int) =~= all);
    }
    total
}

fn is_linked(snapshot: &LockSnapshot) -> (r: bool)
    ensures
        r == (snapshot@.activity_snapshot_ts == Some(snapshot@.ts)),
{
    match snapshot.activity_snapshot_ts {
        Some(ts) => ts == snapshot.ts,
        None => false,
    }
}

/// Lists the linked edges.
fn list_linked(window: &Vec<&LockSnapshot>) -> (r: Vec<(i64, LockEdge)>)
    ensures
        r@ == linked_edges(views(window@)),
{
    let ghost all = views(window@);
    let mut r: Vec<(i64, LockEdge)> = Vec::new();
    let mut i: usize = 0;
    proof {
        assert(all.take(0) =~= Seq::empty());
        assert(r@ =~= linked_edges(all.take(0)));
    }
    while i < window.len()
        invariant
            i <= window.len(),
            all == views(window@),
            r@ == linked_edges(all.take(i as int)),
        decreases window.len() - i,
    {
        let snapshot: &LockSnapshot = window[i];
        let ghost before = r@;
        let ghost here = Seq::new(
            snapshot.edges@.len(),
            |k: int| (snapshot.ts, snapshot.edges@[k]),
        );
        proof {
            assert(all.take(i + 1).drop_last() =~= all.take(i as int));
            assert(all.take(i + 1).last() == snapshot@);
        }
        if is_linked(snapshot) {
            let mut j: usize = 0;
            proof {
                assert(before + here.take(0) =~= before);
            }
            while j < snapshot.edges.len()
                invariant
                    j <= snapshot.edges.len(),
                    here == Seq::new(
                        snapshot.edges@.len(),
                        |k: int| (snapshot.ts, snapshot.edges@[k]),
                    ),
                    r@ == before + here.take(j as int),
                decreases snapshot.edges.len() - j,
            {
                proof {
                    assert(here.take(j + 1) =~= here.take(j as int).push(here[j as int]));
                    assert(before + here.take(j + 1) =~= (before + here.take(j as int)).push(
                        here[j as int],
                    ));
                }
                r.push((snapshot.ts, snapshot.edges[j]));
                j = j + 1;
            }
            proof {
                assert(here.take(j as int) =~= here);
            }
        }
        i = i + 1;
    }
    proof {
        assert(all.take(i as int) =~= all);
    }
    r
}

/// Whether a map holds the blockers of every session.
pub open spec fn holds_blockers(
    map: Map<ProcessMoment, Vec<i64>>,
    edges: Seq<(i64, LockEdge)>,
) -> bool {
    forall|at: ProcessMoment|
        #![trigger map.dom().contains(at)]
        #![trigger blockers(edges, at)]
        blockers(edges, at) == if map.dom().contains(at) {
            map[at]@
        } else {
            Seq::empty()
        }
}

/// Groups the edges by their waiting sessions.
fn blockers_by_waiter(edges: &Vec<(i64, LockEdge)>) -> (r: OrderedMap<ProcessMoment, Vec<i64>>)
    ensures
        well_formed::<ProcessMoment, _, _>(r.entries@),
        holds_blockers(contents::<ProcessMoment, _, _>(r.entries@), edges@),
{
    let mut map: OrderedMap<ProcessMoment, Vec<i64>> = OrderedMap::new::<ProcessMoment>();
    let mut i: usize = 0;
    proof {
        assert(edges@.take(0) =~= Seq::empty());
        assert forall|at: ProcessMoment| #[trigger] blockers(edges@.take(0), at) =~= Seq::empty() by {}
    }
    while i < edges.len()
        invariant
            i <= edges.len(),
            well_formed::<ProcessMoment, _, _>(map.entries@),
            holds_blockers(contents::<ProcessMoment, _, _>(map.entries@), edges@.take(i as int)),
        decreases edges.len() - i,
    {
        let ts: i64 = edges[i].0;
        let edge: LockEdge = edges[i].1;
        let ghost old_map = contents::<ProcessMoment, _, _>(map.entries@);
        proof {
            assert(edges@.take(i + 1).drop_last() =~= edges@.take(i as int));
            assert(edges@.take(i + 1).last() == edges@[i as int]);
        }
        let starttime: i64 = match edge.waiter_backend_start {
            Some(start) => start,
            None => 0,
        };
        if starttime > 0 && edge.waiter_pid > 0 && edge.blocker_pid >= 0 && edge.blocker_pid
            != edge.waiter_pid {
            let at = ProcessMoment { pid: edge.waiter_pid, starttime, ts };
            let key: Vec<i128> = key_of(&at);
            let found = map.get_by_key::<ProcessMoment>(&key);
            assert(old_map.dom().contains(at) || !old_map.dom().contains(at));
            let mut list: Vec<i64> = Vec::new();
            if let Some(held) = found {
                let mut j: usize = 0;
                while j < held.len()
                    invariant
                        j <= held.len(),
                        list@ == held@.take(j as int),
                    decreases held.len() - j,
                {
                    proof {
                        assert(held@.take(j + 1) =~= held@.take(j as int).push(held@[j as int]));
                    }
                    list.push(held[j]);
                    j = j + 1;
                }
                proof {
                    assert(held@.take(j as int) =~= held@);
                }
            }
            proof {
                assert(list@ =~= blockers(edges@.take(i as int), at));
            }
            list.push(edge.blocker_pid);
            map.insert::<ProcessMoment>(at, list);
        }
        proof {
            let now = contents::<ProcessMoment, _, _>(map.entries@);
            assert forall|at: ProcessMoment|
                #![trigger now.dom().contains(at)]
                #![trigger blockers(edges@.take(i + 1), at)]
                blockers(edges@.take(i + 1), at) == if now.dom().contains(at) {
                    now[at]@
                } else {
                    Seq::empty()
                } by {
                assert(blockers(edges@.take(i as int), at) == if old_map.dom().contains(at) {
                    old_map[at]@
                } else {
                    Seq::empty()
                });
            }
        }
        i = i + 1;
    }
    proof {
        assert(edges@.take(i as int) =~= edges@);
    }
    map
}

/// A sample of an active backend.
pub struct ActiveSample<'a> {
    pub ts: i64,
    pub backend: &'a ActivityBackend,
}

impl<'a> View for ActiveSample<'a> {
    type V = (i64, BackendView);

    open spec fn view(&self) -> (i64, BackendView) {
        (self.ts, self.backend@)
    }
}

/// Appends the active backends of a snapshot.
fn push_active<'a>(snapshot: &'a ActivitySnapshot, out: &mut Vec<ActiveSample<'a>>)
    ensures
        views(final(out)@) == views(old(out)@) + active_of(
            snapshot@.ts,
            snapshot@.backends,
        ),
{
    let ghost start = views(out@);
    let ghost all = snapshot@.backends;
    let mut i: usize = 0;
    proof {
        assert(all.take(0) =~= Seq::empty());
        assert(start + active_of(snapshot.ts, all.take(0)) =~= start);
    }
    while i < snapshot.backends.len()
        invariant
            i <= snapshot.backends.len(),
            start == views(old(out)@),
            all == views(snapshot.backends@),
            views(out@) == start + active_of(snapshot.ts, all.take(i as int)),
        decreases snapshot.backends.len() - i,
    {
        let backend: &'a ActivityBackend = &snapshot.backends[i];
        proof {
            assert(all.take(i + 1).drop_last() =~= all.take(i as int));
            assert(all.take(i + 1).last() == backend@);
        }
        if label_is(label_text(&backend.state), "active") {
            let sample = ActiveSample { ts: snapshot.ts, backend };
            proof {
                lemma_views_push(out@, sample);
                assert(start + active_of(snapshot.ts, all.take(i + 1)) =~= (start + active_of(
                    snapshot.ts,
                    all.take(i as int),
                )).push(sample@));
            }
            out.push(sample);
        }
        i = i + 1;
    }
    proof {
        assert(all.take(i as int) =~= all);
    }
}

/// Lists the active backends of the usable snapshots and the times of those.
fn list_active<'a>(window: &Vec<&'a ActivitySnapshot>) -> (r: (Vec<ActiveSample<'a>>, Vec<i64>))
    ensures
        views(r.0@) == active_samples(views(window@)),
        r.1@ == usable_times(views(window@)),
{
    let ghost all = views(window@);
    let mut samples: Vec<ActiveSample<'a>> = Vec::new();
    let mut times: Vec<i64> = Vec::new();
    let mut i: usize = 0;
    proof {
        assert(all.take(0) =~= Seq::empty());
        assert(views(samples@) =~= active_samples(all.take(0)));
        assert(times@ =~= usable_times(all.take(0)));
    }
    while i < window.len()
        invariant
            i <= window.len(),
            all == views(window@),
            views(samples@) == active_samples(all.take(i as int)),
            times@ == usable_times(all.take(i as int)),
        decreases window.len() - i,
    {
        let snapshot: &'a ActivitySnapshot = window[i];
        let ghost before = samples@;
        proof {
            assert(all.take(i + 1).drop_last() =~= all.take(i as int));
            assert(all.take(i + 1).last() == snapshot@);
        }
        if snapshot.completeness.denominator_usable() {
            let mut here: Vec<ActiveSample<'a>> = Vec::new();
            push_active(snapshot, &mut here);
            proof {
                assert(views(here@) =~= active_of(snapshot@.ts, snapshot@.backends));
            }
            if here.len() >= MIN_ACTIVE {
                push_active(snapshot, &mut samples);
                times.push(snapshot.ts);
            }
        }
        i = i + 1;
    }
    proof {
        assert(all.take(i as int) =~= all);
    }
    (samples, times)
}

/// Whether a sample waits in a class.
fn sample_waits(
    sample: &ActiveSample<'_>,
    class: WaitClass,
    map: &OrderedMap<ProcessMoment, Vec<i64>>,
    edges: &Vec<(i64, LockEdge)>,
) -> (r: bool)
    requires
        well_formed::<ProcessMoment, _, _>(map.entries@),
        holds_blockers(contents::<ProcessMoment, _, _>(map.entries@), edges@),
    ensures
        r == waits_in(sample@, class, edges@),
{
    if !label_is(label_text(&sample.backend.wait_event_type), class.label()) {
        return false;
    }
    match class {
        WaitClass::Lock => {
            if sample.backend.pid > 0 && sample.backend.backend_start > 0 {
                let at = ProcessMoment {
                    pid: sample.backend.pid,
                    starttime: sample.backend.backend_start,
                    ts: sample.ts,
                };
                proof {
                    assert(at == moment_of(sample@));
                }
                let key: Vec<i128> = key_of(&at);
                let found = map.get_by_key::<ProcessMoment>(&key);
                assert(contents::<ProcessMoment, _, _>(map.entries@).dom().contains(at)
                    || !contents::<ProcessMoment, _, _>(map.entries@).dom().contains(at));
                match found {
                    Some(list) => list.len() > 0,
                    None => false,
                }
            } else {
                false
            }
        },
        _ => true,
    }
}

/// Counts the samples that wait in a class.
fn count_waiting(
    samples: &Vec<ActiveSample<'_>>,
    class: WaitClass,
    map: &OrderedMap<ProcessMoment, Vec<i64>>,
    edges: &Vec<(i64, LockEdge)>,
) -> (r: usize)
    requires
        well_formed::<ProcessMoment, _, _>(map.entries@),
        holds_blockers(contents::<ProcessMoment, _, _>(map.entries@), edges@),
    ensures
        r == waiting_in(views(samples@), class, edges@),
        r <= samples.len(),
{
    let ghost all = views(samples@);
    let mut total: usize = 0;
    let mut i: usize = 0;
    proof {
        assert(all.take(0) =~= Seq::empty());
    }
    while i < samples.len()
        invariant
            i <= samples.len(),
            total <= i,
            all == views(samples@),
            well_formed::<ProcessMoment, _, _>(map.entries@),
            holds_blockers(contents::<ProcessMoment, _, _>(map.entries@), edges@),
            total == waiting_in(all.take(i as int), class, edges@),
        decreases samples.len() - i,
    {
        proof {
            assert(all.take(i + 1).drop_last() =~= all.take(i as int));
            assert(all.take(i + 1).last() == samples@[i as int]@);
        }
        if sample_waits(&samples[i], class, map, edges) {
            total = total + 1;
        }
        i = i + 1;
    }
    proof {
        assert(all.take(i as int) =~= all);
    }
    total
}

/// The edges of a sample, up to a number of its blockers.
pub open spec fn some_edges(
    samples: Seq<(i64, BackendView)>,
    edges: Seq<(i64, LockEdge)>,
    next: (i64, BackendView),
    count: int,
) -> spec_fn(EdgeSample) -> bool {
    |edge: EdgeSample|
        matched(samples, edges)(edge) || (edge.ts == next.0 && edge.waiter == next.1.pid
            && blockers(edges, moment_of(next)).take(count).contains(edge.blocker))
}

/// Lists the lowest edges of the samples that wait on a lock.
fn list_edges(
    samples: &Vec<ActiveSample<'_>>,
    map: &OrderedMap<ProcessMoment, Vec<i64>>,
    edges: &Vec<(i64, LockEdge)>,
) -> (r: Vec<EdgeSample>)
    requires
        well_formed::<ProcessMoment, _, _>(map.entries@),
        holds_blockers(contents::<ProcessMoment, _, _>(map.entries@), edges@),
    ensures
        r@ == listed_edges(views(samples@), edges@),
{
    let ghost all = views(samples@);
    let ghost limit = MAX_LOCK_EDGE_EVIDENCE as nat;
    let mut kept: OrderedMap<EdgeSample, ()> = OrderedMap::new::<EdgeSample>();
    let mut i: usize = 0;
    proof {
        assert(all.take(0) =~= Seq::empty());
        assert(is_lowest(
            names::<EdgeSample, EdgeSample, ()>(kept.entries@),
            matched(all.take(0), edges@),
            limit,
        ));
    }
    while i < samples.len()
        invariant
            i <= samples.len(),
            all == views(samples@),
            limit == MAX_LOCK_EDGE_EVIDENCE,
            well_formed::<ProcessMoment, _, _>(map.entries@),
            holds_blockers(contents::<ProcessMoment, _, _>(map.entries@), edges@),
            well_formed::<EdgeSample, EdgeSample, ()>(kept.entries@),
            is_lowest(
                names::<EdgeSample, EdgeSample, ()>(kept.entries@),
                matched(all.take(i as int), edges@),
                limit,
            ),
        decreases samples.len() - i,
    {
        let sample: &ActiveSample<'_> = &samples[i];
        let ghost past = all.take(i as int);
        let ghost found = blockers(edges@, moment_of(sample@));
        let mut count: usize = 0;
        if sample_waits(sample, WaitClass::Lock, map, edges) {
            let at = ProcessMoment {
                pid: sample.backend.pid,
                starttime: sample.backend.backend_start,
                ts: sample.ts,
            };
            proof {
                assert(at == moment_of(sample@));
            }
            let key: Vec<i128> = key_of(&at);
            let held = map.get_by_key::<ProcessMoment>(&key);
            assert(contents::<ProcessMoment, _, _>(map.entries@).dom().contains(at)
                || !contents::<ProcessMoment, _, _>(map.entries@).dom().contains(at));
            if let Some(list) = held {
                proof {
                    lemma_no_edges_yet(past, edges@, sample@);
                }
                while count < list.len()
                    invariant
                        count <= list.len(),
                        list@ == found,
                        found == blockers(edges@, moment_of(sample@)),
                        limit == MAX_LOCK_EDGE_EVIDENCE,
                        well_formed::<EdgeSample, EdgeSample, ()>(kept.entries@),
                        is_lowest(
                            names::<EdgeSample, EdgeSample, ()>(kept.entries@),
                            some_edges(past, edges@, sample@, count as int),
                            limit,
                        ),
                    decreases list.len() - count,
                {
                    let edge = EdgeSample {
                        ts: sample.ts,
                        waiter: sample.backend.pid,
                        blocker: list[count],
                    };
                    proof {
                        lemma_one_edge_more(past, edges@, sample@, count as int, edge);
                    }
                    kept.keep_lowest::<EdgeSample>(edge, MAX_LOCK_EDGE_EVIDENCE);
                    count = count + 1;
                }
                proof {
                    lemma_all_edges_in(past, edges@, sample@);
                }
            }
        }
        proof {
            assert(all.take(i + 1) =~= past.push(sample@));
            if !waits_in(sample@, WaitClass::Lock, edges@) {
                lemma_no_edges_in(past, edges@, sample@);
            }
        }
        i = i + 1;
    }
    proof {
        assert(all.take(i as int) =~= all);
        lemma_lowest(
            names::<EdgeSample, EdgeSample, ()>(kept.entries@),
            matched(all, edges@),
            limit,
        );
    }
    let mut r: Vec<EdgeSample> = Vec::new();
    let mut j: usize = 0;
    while j < kept.entries.len()
        invariant
            j <= kept.entries.len(),
            r.len() == j,
            forall|k: int| 0 <= k < j ==> #[trigger] r@[k] == kept.entries@[k].name,
        decreases kept.entries.len() - j,
    {
        r.push(kept.entries[j].name);
        j = j + 1;
    }
    proof {
        assert(r@ =~= names::<EdgeSample, EdgeSample, ()>(kept.entries@));
    }
    r
}

proof fn lemma_no_edges_yet(
    past: Seq<(i64, BackendView)>,
    edges: Seq<(i64, LockEdge)>,
    sample: (i64, BackendView),
)
    ensures
        some_edges(past, edges, sample, 0) == matched(past, edges),
{
    assert(blockers(edges, moment_of(sample)).take(0) =~= Seq::empty());
    assert(some_edges(past, edges, sample, 0) =~= matched(past, edges));
}

proof fn lemma_one_edge_more(
    past: Seq<(i64, BackendView)>,
    edges: Seq<(i64, LockEdge)>,
    sample: (i64, BackendView),
    count: int,
    next: EdgeSample,
)
    requires
        0 <= count < blockers(edges, moment_of(sample)).len(),
        next == (EdgeSample {
            ts: sample.0,
            waiter: sample.1.pid,
            blocker: blockers(edges, moment_of(sample))[count],
        }),
    ensures
        some_edges(past, edges, sample, count + 1) == extended(
            some_edges(past, edges, sample, count),
            next,
        ),
{
    let found = blockers(edges, moment_of(sample));
    let more = extended(some_edges(past, edges, sample, count), next);
    assert forall|w: EdgeSample| #[trigger]
        some_edges(past, edges, sample, count + 1)(w) == more(w) by {
        assert(found.take(count + 1) =~= found.take(count).push(found[count]));
        if found.take(count).contains(w.blocker) {
            let k = found.take(count).index_of(w.blocker);
            assert(found.take(count + 1)[k] == w.blocker);
        }
        assert(found.take(count + 1)[count] == found[count]);
        if found.take(count + 1).contains(w.blocker) && w.blocker != found[count] {
            let k = found.take(count + 1).index_of(w.blocker);
            assert(found.take(count)[k] == w.blocker);
        }
    }
    assert(some_edges(past, edges, sample, count + 1) =~= more);
}

proof fn lemma_all_edges_in(
    past: Seq<(i64, BackendView)>,
    edges: Seq<(i64, LockEdge)>,
    sample: (i64, BackendView),
)
    requires
        waits_in(sample, WaitClass::Lock, edges),
    ensures
        matched(past.push(sample), edges) == some_edges(
            past,
            edges,
            sample,
            blockers(edges, moment_of(sample)).len() as int,
        ),
{
    let found = blockers(edges, moment_of(sample));
    let all = some_edges(past, edges, sample, found.len() as int);
    assert(found.take(found.len() as int) =~= found);
    assert forall|w: EdgeSample| #[trigger] matched(past.push(sample), edges)(w) == all(w) by {
        lemma_matched_push(past, edges, sample, w);
    }
    assert(matched(past.push(sample), edges) =~= all);
}

proof fn lemma_no_edges_in(
    past: Seq<(i64, BackendView)>,
    edges: Seq<(i64, LockEdge)>,
    sample: (i64, BackendView),
)
    requires
        !waits_in(sample, WaitClass::Lock, edges),
    ensures
        matched(past.push(sample), edges) == matched(past, edges),
{
    assert forall|w: EdgeSample| #[trigger]
        matched(past.push(sample), edges)(w) == matched(past, edges)(w) by {
        lemma_matched_push(past, edges, sample, w);
    }
    assert(matched(past.push(sample), edges) =~= matched(past, edges));
}

proof fn lemma_matched_push(
    past: Seq<(i64, BackendView)>,
    edges: Seq<(i64, LockEdge)>,
    sample: (i64, BackendView),
    edge: EdgeSample,
)
    ensures
        matched(past.push(sample), edges)(edge) == (matched(past, edges)(edge) || sample_has_edge(
            sample,
            edges,
            edge,
        )),
{
    let all = past.push(sample);
    if matched(past, edges)(edge) {
        let i = choose|i: int|
            0 <= i < past.len() && sample_has_edge(#[trigger] past[i], edges, edge);
        assert(all[i] == past[i]);
    }
    if sample_has_edge(sample, edges, edge) {
        assert(all[past.len() as int] == sample);
    }
    if matched(all, edges)(edge) {
        let i = choose|i: int|
            0 <= i < all.len() && sample_has_edge(#[trigger] all[i], edges, edge);
        if i < past.len() {
            assert(all[i] == past[i]);
        }
    }
}

fn class_identity(class: WaitClass) -> (r: Vec<IdentityValue>)
    ensures
        views(r@) == seq![IdentityView::Text(class.name())],
{
    let mut identity: Vec<IdentityValue> = Vec::new();
    identity.push(IdentityValue::Text(class.label().to_string()));
    proof {
        assert(views(identity@) =~= seq![IdentityView::Text(class.name())]);
    }
    identity
}

/// Measures the share of the active backends in a class.
fn measure_class(
    class: WaitClass,
    waiting: usize,
    active: usize,
    times: &Vec<i64>,
    context: &EvalContext,
) -> (r: Option<GaugeEvidence>)
    ensures
        option_view(r) == class_evidence(
            class,
            waiting as nat,
            active as nat,
            times.len() as nat,
            times@.last(),
            *context,
        ),
{
    if times.len() < MIN_SNAPSHOTS || active == 0 || waiting > u32::MAX as usize || active
        > u32::MAX as usize {
        return None;
    }
    if 2 * (waiting as u64) < active as u64 {
        return None;
    }
    GaugeEvidence::ratio(
        GaugeRatio::new(
            "waiting_backends",
            Float64::from_i128(waiting as i128),
            "active_backends",
            Float64::from_i128(active as i128),
            GaugeUnit::Count,
        ),
        Float64 { bits: WAIT_FRACTION },
        ThresholdKind::AtLeast,
        times[times.len() - 1],
        times.len(),
        SourceWindow::from_bounds(
            context.incident_start_us,
            context.incident_end_us,
            None,
            times.len(),
        ),
        GaugeEntity::new(PG_STAT_ACTIVITY, class_identity(class)),
    )
}

/// Appends the draft about one class, if there is one.
fn push_class_draft(
    class: WaitClass,
    waiting: usize,
    active: usize,
    times: &Vec<i64>,
    listed: &Vec<EdgeSample>,
    context: &EvalContext,
    found: Ghost<WaitSamples>,
    out: &mut Vec<FindingDraft>,
)
    requires
        waiting == waiting_in(found@.samples, class, found@.edges),
        active == found@.samples.len(),
        times@ == found@.times,
        class == WaitClass::Lock ==> listed@ == listed_edges(found@.samples, found@.edges),
    ensures
        views(final(out)@) == views(old(out)@) + class_drafts(class, found@, *context),
{
    let ghost start = views(out@);
    let evidence: GaugeEvidence = match measure_class(class, waiting, active, times, context) {
        Some(evidence) => evidence,
        None => {
            proof {
                assert(start + class_drafts(class, found@, *context) =~= start);
            }
            return ;
        },
    };
    let ghost head = seq![EvidenceView::GaugeObservation(evidence@)];
    let mut list: Vec<Evidence> = Vec::new();
    list.push(Evidence::GaugeObservation(evidence));
    proof {
        assert(views(list@) =~= head);
    }
    match class {
        WaitClass::Lock => {
            let mut i: usize = 0;
            let ghost tail = edge_evidence(class, listed@);
            proof {
                assert(head + tail.take(0) =~= head);
            }
            while i < listed.len()
                invariant
                    i <= listed.len(),
                    class == WaitClass::Lock,
                    tail == edge_evidence(class, listed@),
                    views(list@) == head + tail.take(i as int),
                decreases listed.len() - i,
            {
                let edge: EdgeSample = listed[i];
                let next = Evidence::Direct(
                    DirectEvidence::sampled_lock_edge(
                        edge.ts,
                        edge.waiter,
                        edge.blocker,
                        LockParticipant::Waiter,
                    ),
                );
                proof {
                    lemma_views_push(list@, next);
                    assert(next@ == tail[i as int]);
                    assert(tail.take(i + 1) =~= tail.take(i as int).push(next@));
                    assert(head + tail.take(i + 1) =~= (head + tail.take(i as int)).push(next@));
                }
                list.push(next);
                i = i + 1;
            }
            proof {
                assert(tail.take(i as int) =~= tail);
            }
        },
        _ => {
            proof {
                assert(head + Seq::<EvidenceView>::empty() =~= head);
            }
        },
    }
    let draft: FindingDraft = FindingDraft::new(
        Role::Coincident,
        FindingScope::from_parts(PG_STAT_ACTIVITY, "wait_event_type", class_identity(class)),
        list,
    );
    proof {
        lemma_views_push(out@, draft);
        assert(class_drafts(class, found@, *context) =~= seq![draft@]);
        assert(start + seq![draft@] =~= start.push(draft@));
    }
    out.push(draft);
}

impl InternalWaitConcentrationLens {
    /// The drafts about every class.
    fn drafts(typed: &TypedInputs, context: &EvalContext) -> (r: Vec<FindingDraft>)
        ensures
            views(r@) == wait_drafts(wait_samples(typed@, *context), *context),
    {
        let (start, end): (i64, i64) = (context.incident_start_us, context.incident_end_us);
        let edges: Vec<(i64, LockEdge)> = list_linked(&typed.lock_window(start, end));
        let map: OrderedMap<ProcessMoment, Vec<i64>> = blockers_by_waiter(&edges);
        let window: Vec<&ActivitySnapshot> = typed.activity_window(start, end);
        let (samples, times): (Vec<ActiveSample>, Vec<i64>) = list_active(&window);
        let listed: Vec<EdgeSample> = list_edges(&samples, &map, &edges);
        let active: usize = samples.len();
        let lwlock: usize = count_waiting(&samples, WaitClass::LwLock, &map, &edges);
        let pin: usize = count_waiting(&samples, WaitClass::BufferPin, &map, &edges);
        let io: usize = count_waiting(&samples, WaitClass::Io, &map, &edges);
        let lock: usize = count_waiting(&samples, WaitClass::Lock, &map, &edges);
        let ghost found = wait_samples(typed@, *context);
        let mut out: Vec<FindingDraft> = Vec::new();
        proof {
            assert(views(out@) =~= Seq::empty());
            assert(Seq::<DraftView>::empty() + class_drafts(WaitClass::LwLock, found, *context)
                =~= class_drafts(WaitClass::LwLock, found, *context));
        }
        push_class_draft(
            WaitClass::LwLock,
            lwlock,
            active,
            &times,
            &listed,
            context,
            Ghost(found),
            &mut out,
        );
        push_class_draft(
            WaitClass::BufferPin,
            pin,
            active,
            &times,
            &listed,
            context,
            Ghost(found),
            &mut out,
        );
        push_class_draft(
            WaitClass::Io,
            io,
            active,
            &times,
            &listed,
            context,
            Ghost(found),
            &mut out,
        );
        push_class_draft(
            WaitClass::Lock,
            lock,
            active,
            &times,
            &listed,
            context,
            Ghost(found),
            &mut out,
        );
        out
    }
}

impl MemberLens for InternalWaitConcentrationLens {
    open spec fn member_steps(
        &self,
        member: EpisodeView,
        typed: TypedView,
        context: EvalContext,
    ) -> Seq<Step> {
        wait_steps(typed, context)
    }

    fn evaluate_member(
        &self,
        member: &EpisodeRefV1,
        typed: &TypedInputs,
        context: &EvalContext,
        sink: &mut FindingSink<'_>,
    ) -> (r: Result<(), LimitHit>) {
        let ghost before = sink@;
        let (start, end): (i64, i64) = (context.incident_start_us, context.incident_end_us);
        let row_points: usize = activity_backends_examined(typed, start, end);
        let edge_points: usize = count_linked(&typed.lock_window(start, end));
        let ghost rows = seq![Step::Charge(row_points)];
        let ghost edges = seq![Step::Charge(edge_points)];
        let ghost last = emits(wait_drafts(wait_samples(typed@, *context), *context));
        proof {
            assert(wait_steps(typed@, *context) == rows + (edges + (rows + last)));
        }
        match charge(sink, row_points) {
            Ok(_) => {},
            Err(hit) => {
                proof {
                    lemma_first_part_refused(
                        before,
                        sink@,
                        rows,
                        edges + (rows + last),
                        Err(hit),
                    );
                }
                return Err(hit);
            },
        }
        let ghost paid = sink@;
        match charge(sink, edge_points) {
            Ok(_) => {},
            Err(hit) => {
                proof {
                    lemma_first_part_refused(paid, sink@, edges, rows + last, Err(hit));
                    lemma_two_parts(before, paid, sink@, rows, edges + (rows + last), Err(hit));
                }
                return Err(hit);
            },
        }
        let ghost paid_edges = sink@;
        match charge(sink, row_points) {
            Ok(_) => {},
            Err(hit) => {
                proof {
                    lemma_first_part_refused(paid_edges, sink@, rows, last, Err(hit));
                    lemma_two_parts(paid, paid_edges, sink@, edges, rows + last, Err(hit));
                    lemma_two_parts(before, paid, sink@, rows, edges + (rows + last), Err(hit));
                }
                return Err(hit);
            },
        }
        let ghost paid_all = sink@;
        let drafts: Vec<FindingDraft> = Self::drafts(typed, context);
        let r = emit_each(sink, drafts);
        proof {
            lemma_two_parts(paid_edges, paid_all, sink@, rows, last, r);
            lemma_two_parts(paid, paid_edges, sink@, edges, rows + last, r);
            lemma_two_parts(before, paid, sink@, rows, edges + (rows + last), r);
        }
        r
    }
}

impl Lens for InternalWaitConcentrationLens {
    open spec fn id_text(&self) -> Seq<char> {
        "PG-WAIT-019"@
    }

    open spec fn input_list(&self) -> Seq<SectionColumn> {
        seq![
            SectionColumn { section: PG_STAT_ACTIVITY, column: "wait_event_type" },
            SectionColumn { section: PG_LOCKS, column: "blocked_by" },
        ]
    }

    open spec fn cap(&self) -> ConfidenceCap {
        ConfidenceCap::Low
    }

    open spec fn steps(
        &self,
        cluster: ClusterView,
        series: SeriesSetView,
        typed: TypedView,
        context: EvalContext,
    ) -> Seq<Step> {
        first_member_steps(self, PG_STAT_ACTIVITY@, cluster, typed, context)
    }

    fn id(&self) -> (r: &'static str) {
        "PG-WAIT-019"
    }

    fn inputs(&self) -> (r: &'static [SectionColumn]) {
        &[
            SectionColumn { section: PG_STAT_ACTIVITY, column: "wait_event_type" },
            SectionColumn { section: PG_LOCKS, column: "blocked_by" },
        ]
    }

    fn confidence_cap(&self) -> (r: ConfidenceCap) {
        ConfidenceCap::Low
    }

    fn evaluate(
        &self,
        cluster: &Cluster,
        series: &SeriesSet,
        typed: &TypedInputs,
        context: &EvalContext,
        sink: &mut FindingSink<'_>,
    ) -> (r: Result<(), LimitHit>) {
        evaluate_first_member(self, PG_STAT_ACTIVITY, cluster, typed, context, sink)
    }
}

} // verus!
