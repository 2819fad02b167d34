//! What is reported of the sessions of a server.

use crate::active::activity::{
    active_of, active_samples, blockers, class_drafts, edge_shows, hold_evidence, hold_sighted,
    is_run, law_reported_hold_is_the_oldest, law_three_consecutive_waits_are_reported, linked_edges,
    moment_of, oldest_hold, sightings, snapshot_sightings, usable, usable_times, wait_drafts,
    wait_samples, waiting_in, waits, waits_at, waits_in, InternalWaitConcentrationLens, Session,
    Sighting, SyncReplicationWaitLens, WaitClass, XminHorizonHoldLens,
};
use crate::cluster::ClusterView;
use crate::engine::EvalContext;
use crate::evidence::confidence::Role;
use crate::evidence::finding::DraftView;
use crate::float64::Float64;
use crate::inspect::{emits, InspectLens, MemberLens};
use crate::laws::integers::lemma_one_million;
use crate::laws::levels::lemma_inspected;
use crate::laws::ratio::{lemma_ratio_finite, lemma_small};
use crate::laws::steps::{drafts, lemma_drafts_after_charge, lemma_drafts_emits};
use crate::laws::subject::{is_about, is_first_of, lemma_first_member, shows_ratio, shows_value};
use crate::lens::Lens;
use crate::model::IdentityView;
use crate::series::SeriesSetView;
use crate::typed::inputs::TypedView;
use crate::typed::snapshot::{
    ActivityView, BackendView, LockEdge, LockView, ProcessMoment, SnapshotCompleteness,
};
use vstd::prelude::*;

verus! {

/// Whether a backend was seen within an incident.
pub open spec fn seen(typed: TypedView, context: EvalContext, n: int, i: int) -> bool {
    &&& 0 <= n < typed.activity.len()
    &&& context.incident_start_us <= typed.activity[n].ts < context.incident_end_us
    &&& 0 <= i < typed.activity[n].backends.len()
}

/// Whether a backend of a known session holds the horizon back by a million
/// transactions, and idles in its own or has had it open for five minutes.
pub open spec fn holds_back(backend: BackendView) -> bool {
    &&& backend.pid > 0
    &&& backend.backend_start > 0
    &&& backend.xmin_age is Some
    &&& backend.xmin_age->Some_0 >= 1_000_000
    &&& backend.state == Some("idle in transaction"@) || backend.state == Some(
        "idle in transaction (aborted)"@,
    ) || (backend.xact_age_us is Some && backend.xact_age_us->Some_0 >= 300_000_000)
}

pub open spec fn hold_seen(typed: TypedView, context: EvalContext, n: int, i: int) -> bool {
    seen(typed, context, n, i) && holds_back(typed.activity[n].backends[i])
}

/// Whether a draft shows the oldest hold that was seen.
pub open spec fn shows_oldest(
    draft: DraftView,
    typed: TypedView,
    context: EvalContext,
    n: int,
    i: int,
) -> bool {
    let age = typed.activity[n].backends[i].xmin_age->Some_0;
    &&& hold_seen(typed, context, n, i)
    &&& shows_value(draft, 0, "xmin_age"@, Float64::of_int(age as int))
    &&& forall|m: int, j: int| #[trigger]
        hold_seen(typed, context, m, j) ==> typed.activity[m].backends[j].xmin_age->Some_0 <= age
}

proof fn lemma_sightings(window: Seq<ActivityView>, one: Sighting)
    ensures
        sightings(window).contains(one) <==> exists|n: int, i: int|
            0 <= n < window.len() && 0 <= i < window[n].backends.len() && one.ts == window[n].ts
                && one.backend == #[trigger] window[n].backends[i],
    decreases window.len(),
{
    if window.len() > 0 {
        let front = window.drop_last();
        let last = snapshot_sightings(window.last());
        let n = window.len() - 1;
        lemma_sightings(front, one);
        let all = sightings(front) + last;
        if sightings(front).contains(one) {
            let k = sightings(front).index_of(one);
            assert(all[k] == one);
            let (m, i) = choose|m: int, i: int|
                0 <= m < front.len() && 0 <= i < front[m].backends.len() && one.ts == front[m].ts
                    && one.backend == #[trigger] front[m].backends[i];
            assert(window[m].backends[i] == one.backend);
        }
        if last.contains(one) {
            let k = last.index_of(one);
            assert(all[sightings(front).len() + k] == one);
            assert(window[n].backends[k] == one.backend);
        }
        if all.contains(one) {
            let k = all.index_of(one);
            if k < sightings(front).len() {
                assert(sightings(front)[k] == one);
            } else {
                assert(last[k - sightings(front).len()] == one);
            }
        }
        if exists|m: int, i: int|
            0 <= m < window.len() && 0 <= i < window[m].backends.len() && one.ts == window[m].ts
                && one.backend == #[trigger] window[m].backends[i] {
            let (m, i) = choose|m: int, i: int|
                0 <= m < window.len() && 0 <= i < window[m].backends.len() && one.ts
                    == window[m].ts && one.backend == #[trigger] window[m].backends[i];
            if m < front.len() {
                assert(front[m].backends[i] == one.backend);
            } else {
                assert(last[i] == one);
            }
        }
    } else {
        assert(!sightings(window).contains(one));
    }
}

/// The backends seen within an incident are those of its window.
proof fn lemma_window(typed: TypedView, context: EvalContext, one: ActivityView)
    ensures
        typed.activity_window(context.incident_start_us, context.incident_end_us).contains(one)
            <==> exists|n: int|
            0 <= n < typed.activity.len() && #[trigger] typed.activity[n] == one
                && context.incident_start_us <= one.ts < context.incident_end_us,
{
    let inside = |s: ActivityView|
        context.incident_start_us <= s.ts < context.incident_end_us;
    let window = typed.activity.filter(inside);
    assert(typed.activity_window(context.incident_start_us, context.incident_end_us) == window);
    if window.contains(one) {
        let k = window.index_of(one);
        typed.activity.lemma_filter_pred(inside, k);
        typed.activity.lemma_filter_contains_rev(inside, one);
        let n = typed.activity.index_of(one);
        assert(typed.activity[n] == one);
    }
    if exists|n: int|
        0 <= n < typed.activity.len() && #[trigger] typed.activity[n] == one
            && context.incident_start_us <= one.ts < context.incident_end_us {
        let n = choose|n: int|
            0 <= n < typed.activity.len() && #[trigger] typed.activity[n] == one
                && context.incident_start_us <= one.ts < context.incident_end_us;
        typed.activity.lemma_filter_contains(inside, n);
    }
}

proof fn lemma_seen(typed: TypedView, context: EvalContext, one: Sighting)
    ensures
        sightings(
            typed.activity_window(context.incident_start_us, context.incident_end_us),
        ).contains(one) <==> exists|n: int, i: int| #[trigger]
            seen(typed, context, n, i) && one.ts == typed.activity[n].ts && one.backend
                == typed.activity[n].backends[i],
{
    let window = typed.activity_window(context.incident_start_us, context.incident_end_us);
    lemma_sightings(window, one);
    if sightings(window).contains(one) {
        let (m, i) = choose|m: int, i: int|
            0 <= m < window.len() && 0 <= i < window[m].backends.len() && one.ts == window[m].ts
                && one.backend == #[trigger] window[m].backends[i];
        assert(window.contains(window[m]));
        lemma_window(typed, context, window[m]);
        let n = choose|n: int|
            0 <= n < typed.activity.len() && #[trigger] typed.activity[n] == window[m]
                && context.incident_start_us <= window[m].ts < context.incident_end_us;
        assert(seen(typed, context, n, i));
    }
    if exists|n: int, i: int| #[trigger]
        seen(typed, context, n, i) && one.ts == typed.activity[n].ts && one.backend
            == typed.activity[n].backends[i] {
        let (n, i) = choose|n: int, i: int| #[trigger]
            seen(typed, context, n, i) && one.ts == typed.activity[n].ts && one.backend
                == typed.activity[n].backends[i];
        lemma_window(typed, context, typed.activity[n]);
        assert(window.contains(typed.activity[n]));
        let m = window.index_of(typed.activity[n]);
        assert(window[m].backends[i] == one.backend);
    }
}

/// A session that holds the horizon back is reported exactly if one was seen: of
/// several, the one that holds it back furthest.
pub proof fn law_the_oldest_hold_is_reported(
    cluster: ClusterView,
    series: SeriesSetView,
    typed: TypedView,
    context: EvalContext,
    at: int,
)
    requires
        is_first_of(cluster.members, "pg_stat_activity"@, at),
        forall|n: int, i: int| #[trigger]
            hold_seen(typed, context, n, i) ==> typed.activity[n].backends[i].xmin_age->Some_0
                <= 0x20_0000_0000_0000,
    ensures
        ({
            let out = drafts(XminHorizonHoldLens.steps(cluster, series, typed, context));
            &&& out.len() <= 1
            &&& out.len() == 1 <==> exists|n: int, i: int| hold_seen(typed, context, n, i)
            &&& out.len() == 1 ==> out[0].requested_role == Role::Amplifier && is_about(
                out[0],
                cluster.members[at],
            ) && exists|n: int, i: int| shows_oldest(out[0], typed, context, n, i)
        }),
{
    let member = cluster.members[at];
    lemma_first_member(&XminHorizonHoldLens, "pg_stat_activity"@, cluster, typed, context, at);
    lemma_inspected(&XminHorizonHoldLens, member, typed, context);
    let window = typed.activity_window(context.incident_start_us, context.incident_end_us);
    let all = sightings(window);
    law_reported_hold_is_the_oldest(all);
    assert forall|n: int, i: int| #[trigger] hold_seen(typed, context, n, i) implies exists|k: int|
        0 <= k < all.len() && hold_sighted(#[trigger] all[k]) && all[k].backend
            == typed.activity[n].backends[i] by {
        let one = Sighting {
            ts: typed.activity[n].ts,
            backend: typed.activity[n].backends[i],
        };
        assert(seen(typed, context, n, i));
        lemma_seen(typed, context, one);
        let k = all.index_of(one);
        assert(hold_sighted(all[k]));
    }
    if let Some(hold) = oldest_hold(all) {
        lemma_seen(typed, context, hold);
        let (n, i) = choose|n: int, i: int| #[trigger]
            seen(typed, context, n, i) && hold.ts == typed.activity[n].ts && hold.backend
                == typed.activity[n].backends[i];
        assert(hold_seen(typed, context, n, i));
        let age = hold.backend.xmin_age->Some_0;
        assert(age <= 0x20_0000_0000_0000);
        lemma_small(age as int);
        lemma_one_million();
        lemma_small(1_000_000);
        reveal_strlit("xmin_age");
        reveal_strlit("pg_stat_activity");
        let shown = hold_evidence(hold, context);
        assert(shown is Some);
        let draft = XminHorizonHoldLens.drafted(member, typed, context)->Some_0;
        assert forall|m: int, j: int| #[trigger] hold_seen(typed, context, m, j)
            implies typed.activity[m].backends[j].xmin_age->Some_0
            <= age by {
            let k = choose|k: int|
                0 <= k < all.len() && hold_sighted(#[trigger] all[k]) && all[k].backend
                    == typed.activity[m].backends[j];
        }
        assert(shows_oldest(draft, typed, context, n, i));
    }
}

/// Whether a session waits for synchronous replication in a snapshot.
pub open spec fn awaits_replica(
    window: Seq<ActivityView>,
    pid: i64,
    backend_start: i64,
    at: int,
) -> bool {
    0 <= at < window.len() && exists|i: int|
        0 <= i < window[at].backends.len() && (#[trigger] window[at].backends[i]).pid == pid
            && window[at].backends[i].backend_start == backend_start
            && window[at].backends[i].wait_event == Some("SyncRep"@)
}

/// Whether a known session waits in three snapshots in a row.
pub open spec fn keeps_waiting(
    window: Seq<ActivityView>,
    pid: i64,
    backend_start: i64,
    first: int,
) -> bool {
    &&& pid > 0
    &&& backend_start > 0
    &&& awaits_replica(window, pid, backend_start, first)
    &&& awaits_replica(window, pid, backend_start, first + 1)
    &&& awaits_replica(window, pid, backend_start, first + 2)
}

/// A wait for synchronous replication is reported exactly if one session is seen
/// waiting in three snapshots in a row.
pub proof fn law_a_lasting_replica_wait_is_reported(
    cluster: ClusterView,
    series: SeriesSetView,
    typed: TypedView,
    context: EvalContext,
    at: int,
)
    requires
        is_first_of(cluster.members, "pg_stat_activity"@, at),
        typed.activity_window(context.incident_start_us, context.incident_end_us).len()
            <= u32::MAX,
    ensures
        ({
            let out = drafts(SyncReplicationWaitLens.steps(cluster, series, typed, context));
            let window = typed.activity_window(
                context.incident_start_us,
                context.incident_end_us,
            );
            &&& out.len() <= 1
            &&& out.len() == 1 <==> exists|pid: i64, backend_start: i64, first: int|
                keeps_waiting(window, pid, backend_start, first)
            &&& out.len() == 1 ==> out[0].requested_role == Role::Coincident && is_about(
                out[0],
                cluster.members[at],
            )
        }),
{
    let member = cluster.members[at];
    let window = typed.activity_window(context.incident_start_us, context.incident_end_us);
    lemma_first_member(&SyncReplicationWaitLens, "pg_stat_activity"@, cluster, typed, context, at);
    lemma_inspected(&SyncReplicationWaitLens, member, typed, context);
    law_three_consecutive_waits_are_reported(member, typed, context);
    assert forall|session: Session, k: int| #[trigger] waits_at(window, session, k) == (session.pid
        > 0 && session.backend_start > 0 && awaits_replica(
        window,
        session.pid,
        session.backend_start,
        k,
    )) by {
        lemma_waits_at(window, session, k);
    }
    if exists|session: Session, first: int| #[trigger]
        is_run(window, session, first, first + 2) {
        let (session, first) = choose|session: Session, first: int| #[trigger]
            is_run(window, session, first, first + 2);
        assert(waits_at(window, session, first) && waits_at(window, session, first + 1)
            && waits_at(window, session, first + 2));
        assert(keeps_waiting(window, session.pid, session.backend_start, first));
    }
    if exists|pid: i64, backend_start: i64, first: int|
        keeps_waiting(window, pid, backend_start, first) {
        let (pid, backend_start, first) = choose|pid: i64, backend_start: i64, first: int|
            keeps_waiting(window, pid, backend_start, first);
        let session = Session { pid, backend_start };
        assert forall|k: int| first <= k <= first + 2 implies #[trigger] waits_at(
            window,
            session,
            k,
        ) by {
            if k == first {
            } else if k == first + 1 {
            } else {
                assert(k == first + 2);
            }
        }
        assert(is_run(window, session, first, first + 2));
    }
}

proof fn lemma_waits_at(window: Seq<ActivityView>, session: Session, k: int)
    ensures
        waits_at(window, session, k) == (session.pid > 0 && session.backend_start > 0
            && awaits_replica(window, session.pid, session.backend_start, k)),
{
    if waits_at(window, session, k) {
        let i = choose|i: int|
            0 <= i < window[k].backends.len() && waits(#[trigger] window[k].backends[i], session);
        assert(window[k].backends[i].pid == session.pid);
    }
    if session.pid > 0 && session.backend_start > 0 && awaits_replica(
        window,
        session.pid,
        session.backend_start,
        k,
    ) {
        let i = choose|i: int|
            0 <= i < window[k].backends.len() && (#[trigger] window[k].backends[i]).pid
                == session.pid && window[k].backends[i].backend_start == session.backend_start
                && window[k].backends[i].wait_event == Some("SyncRep"@);
        assert(waits(window[k].backends[i], session));
    }
}

/// How many active backends of a snapshot are as asked.
pub open spec fn active_count(
    snapshot: ActivityView,
    is: spec_fn(i64, BackendView) -> bool,
) -> nat {
    snapshot.backends.filter(
        |b: BackendView| b.state == Some("active"@) && is(snapshot.ts, b),
    ).len()
}

/// Whether a snapshot shows all sessions, and at least three active ones.
pub open spec fn is_telling(snapshot: ActivityView) -> bool {
    snapshot.completeness == SnapshotCompleteness::Complete && active_count(
        snapshot,
        |ts: i64, b: BackendView| true,
    ) >= 3
}

/// How many active backends of the telling snapshots are as asked.
pub open spec fn tally(window: Seq<ActivityView>, is: spec_fn(i64, BackendView) -> bool) -> nat
    decreases window.len(),
{
    if window.len() == 0 {
        0
    } else if is_telling(window.last()) {
        tally(window.drop_last(), is) + active_count(window.last(), is)
    } else {
        tally(window.drop_last(), is)
    }
}

pub open spec fn telling_count(window: Seq<ActivityView>) -> nat {
    window.filter(|s: ActivityView| is_telling(s)).len()
}

/// Whether some lock snapshot taken with the activity shows a session waiting
/// for another.
pub open spec fn is_blocked(locks: Seq<LockView>, ts: i64, backend: BackendView) -> bool {
    backend.pid > 0 && backend.backend_start > 0 && exists|n: int, i: int|
        0 <= n < locks.len() && 0 <= i < locks[n].edges.len() && locks[n].ts == ts
            && locks[n].activity_snapshot_ts == Some(ts) && (
        #[trigger] locks[n].edges[i]).waiter_pid == backend.pid
            && locks[n].edges[i].waiter_backend_start == Some(backend.backend_start)
            && locks[n].edges[i].blocker_pid >= 0 && locks[n].edges[i].blocker_pid != backend.pid
}

/// Whether a backend waits in a class; in that of locks only if a lock shows it.
pub open spec fn waits_for(class: WaitClass, locks: Seq<LockView>) -> spec_fn(
    i64,
    BackendView,
) -> bool {
    |ts: i64, b: BackendView|
        match class {
            WaitClass::LwLock => b.wait_event_type == Some("LWLock"@),
            WaitClass::BufferPin => b.wait_event_type == Some("BufferPin"@),
            WaitClass::Io => b.wait_event_type == Some("IO"@),
            WaitClass::Lock => b.wait_event_type == Some("Lock"@) && is_blocked(locks, ts, b),
        }
}

proof fn lemma_active_of(
    ts: i64,
    backends: Seq<BackendView>,
    class: WaitClass,
    edges: Seq<(i64, LockEdge)>,
    locks: Seq<LockView>,
    snapshot: ActivityView,
)
    requires
        snapshot.ts == ts,
        snapshot.backends == backends,
        edges == linked_edges(locks),
    ensures
        active_of(ts, backends).len() == active_count(snapshot, |t: i64, b: BackendView| true),
        waiting_in(active_of(ts, backends), class, edges) == active_count(
            snapshot,
            waits_for(class, locks),
        ),
    decreases backends.len(),
{
    reveal(Seq::filter);
    if backends.len() > 0 {
        let front = backends.drop_last();
        let last = backends.last();
        let smaller = ActivityView { backends: front, ..snapshot };
        lemma_active_of(ts, front, class, edges, locks, smaller);
        let any = |t: i64, b: BackendView| true;
        let is = waits_for(class, locks);
        let keep_any = |b: BackendView| b.state == Some("active"@) && any(ts, b);
        let keep_is = |b: BackendView| b.state == Some("active"@) && is(ts, b);
        assert(snapshot.backends.filter(
            |b: BackendView| b.state == Some("active"@) && any(snapshot.ts, b),
        ) == backends.filter(keep_any));
        assert(snapshot.backends.filter(
            |b: BackendView| b.state == Some("active"@) && is(snapshot.ts, b),
        ) == backends.filter(keep_is));
        if last.state == Some("active"@) {
            let before = active_of(ts, front);
            let all = before.push((ts, last));
            assert(all.drop_last() =~= before);
            lemma_blocked(locks, ts, last);
            assert(waits_in((ts, last), class, edges) == is(ts, last));
        }
    }
}

proof fn lemma_blocked(locks: Seq<LockView>, ts: i64, backend: BackendView)
    ensures
        (backend.pid > 0 && backend.backend_start > 0 && blockers(
            linked_edges(locks),
            moment_of((ts, backend)),
        ).len() > 0) == is_blocked(locks, ts, backend),
{
    let edges = linked_edges(locks);
    let at = moment_of((ts, backend));
    lemma_blockers(edges, at);
    if backend.pid > 0 && backend.backend_start > 0 && blockers(edges, at).len() > 0 {
        let k = choose|k: int| 0 <= k < edges.len() && edge_shows(#[trigger] edges[k], at);
        lemma_linked(locks, edges[k]);
        assert(edges.contains(edges[k]));
        let (n, i) = choose|n: int, i: int|
            0 <= n < locks.len() && 0 <= i < locks[n].edges.len() && locks[n].activity_snapshot_ts
                == Some(locks[n].ts) && edges[k] == (locks[n].ts, #[trigger] locks[n].edges[i]);
        assert(locks[n].edges[i].waiter_pid == backend.pid);
    }
    if is_blocked(locks, ts, backend) {
        let (n, i) = choose|n: int, i: int|
            0 <= n < locks.len() && 0 <= i < locks[n].edges.len() && locks[n].ts == ts
                && locks[n].activity_snapshot_ts == Some(ts) && (
            #[trigger] locks[n].edges[i]).waiter_pid == backend.pid
                && locks[n].edges[i].waiter_backend_start == Some(backend.backend_start)
                && locks[n].edges[i].blocker_pid >= 0 && locks[n].edges[i].blocker_pid
                != backend.pid;
        let one = (ts, locks[n].edges[i]);
        lemma_linked(locks, one);
        let k = edges.index_of(one);
        assert(edge_shows(edges[k], at));
    }
}

proof fn lemma_blockers(edges: Seq<(i64, LockEdge)>, at: ProcessMoment)
    ensures
        blockers(edges, at).len() > 0 <==> exists|k: int|
            0 <= k < edges.len() && edge_shows(#[trigger] edges[k], at),
    decreases edges.len(),
{
    if edges.len() > 0 {
        let front = edges.drop_last();
        lemma_blockers(front, at);
        assert(edges[edges.len() - 1] == edges.last());
        if exists|k: int| 0 <= k < front.len() && edge_shows(#[trigger] front[k], at) {
            let k = choose|k: int| 0 <= k < front.len() && edge_shows(#[trigger] front[k], at);
            assert(edges[k] == front[k]);
        }
        if exists|k: int| 0 <= k < edges.len() && edge_shows(#[trigger] edges[k], at) {
            let k = choose|k: int| 0 <= k < edges.len() && edge_shows(#[trigger] edges[k], at);
            if k < front.len() {
                assert(edge_shows(front[k], at));
            }
        }
    }
}

proof fn lemma_linked(locks: Seq<LockView>, one: (i64, LockEdge))
    ensures
        linked_edges(locks).contains(one) <==> exists|n: int, i: int|
            0 <= n < locks.len() && 0 <= i < locks[n].edges.len() && locks[n].activity_snapshot_ts
                == Some(locks[n].ts) && one == (locks[n].ts, #[trigger] locks[n].edges[i]),
    decreases locks.len(),
{
    if locks.len() > 0 {
        let front = locks.drop_last();
        let last = locks.last();
        let n = locks.len() - 1;
        lemma_linked(front, one);
        let earlier = linked_edges(front);
        let added = if last.activity_snapshot_ts == Some(last.ts) {
            Seq::new(last.edges.len(), |i: int| (last.ts, last.edges[i]))
        } else {
            Seq::empty()
        };
        let all = earlier + added;
        assert(linked_edges(locks) =~= all);
        if earlier.contains(one) {
            let k = earlier.index_of(one);
            assert(all[k] == one);
            let (m, i) = choose|m: int, i: int|
                0 <= m < front.len() && 0 <= i < front[m].edges.len()
                    && front[m].activity_snapshot_ts == Some(front[m].ts) && one == (
                    front[m].ts,
                    #[trigger] front[m].edges[i],
                );
            assert(locks[m].edges[i] == one.1);
        }
        if all.contains(one) {
            let k = all.index_of(one);
            if k < earlier.len() {
                assert(earlier[k] == one);
            } else {
                let i = k - earlier.len();
                assert(added[i] == one);
                assert(locks[n].edges[i] == one.1);
            }
        }
        if exists|m: int, i: int|
            0 <= m < locks.len() && 0 <= i < locks[m].edges.len() && locks[m].activity_snapshot_ts
                == Some(locks[m].ts) && one == (locks[m].ts, #[trigger] locks[m].edges[i]) {
            let (m, i) = choose|m: int, i: int|
                0 <= m < locks.len() && 0 <= i < locks[m].edges.len()
                    && locks[m].activity_snapshot_ts == Some(locks[m].ts) && one == (
                    locks[m].ts,
                    #[trigger] locks[m].edges[i],
                );
            if m < front.len() {
                assert(front[m].edges[i] == one.1);
            } else {
                assert(all[earlier.len() + i] == one);
            }
        }
    } else {
        assert(!linked_edges(locks).contains(one));
    }
}

proof fn lemma_tally(window: Seq<ActivityView>, class: WaitClass, locks: Seq<LockView>)
    ensures
        usable_times(window).len() == telling_count(window),
        active_samples(window).len() == tally(window, |t: i64, b: BackendView| true),
        waiting_in(active_samples(window), class, linked_edges(locks)) == tally(
            window,
            waits_for(class, locks),
        ),
    decreases window.len(),
{
    reveal(Seq::filter);
    if window.len() > 0 {
        let front = window.drop_last();
        let last = window.last();
        let edges = linked_edges(locks);
        lemma_tally(front, class, locks);
        lemma_active_of(last.ts, last.backends, class, edges, locks, last);
        assert(usable(last) == is_telling(last));
        if usable(last) {
            lemma_waiting_concat(
                active_samples(front),
                active_of(last.ts, last.backends),
                class,
                edges,
            );
        }
    }
}

proof fn lemma_waiting_concat(
    a: Seq<(i64, BackendView)>,
    b: Seq<(i64, BackendView)>,
    class: WaitClass,
    edges: Seq<(i64, LockEdge)>,
)
    ensures
        waiting_in(a + b, class, edges) == waiting_in(a, class, edges) + waiting_in(
            b,
            class,
            edges,
        ),
    decreases b.len(),
{
    if b.len() == 0 {
        assert(a + b =~= a);
    } else {
        lemma_waiting_concat(a, b.drop_last(), class, edges);
        assert((a + b).drop_last() =~= a + b.drop_last());
    }
}

/// The text of a class of waits.
pub open spec fn class_text(class: WaitClass) -> Seq<char> {
    match class {
        WaitClass::LwLock => "LWLock"@,
        WaitClass::BufferPin => "BufferPin"@,
        WaitClass::Io => "IO"@,
        WaitClass::Lock => "Lock"@,
    }
}

/// Whether a draft is about a class of waits.
pub open spec fn is_about_class(draft: DraftView, class: WaitClass) -> bool {
    draft.scope.logical_section == "pg_stat_activity"@ && draft.scope.column == "wait_event_type"@
        && draft.scope.identity == seq![IdentityView::Text(class_text(class))]
}

/// A class of waits is reported exactly if, over at least three telling
/// snapshots, half of the active backends wait in it.
pub proof fn law_a_common_wait_is_reported(
    cluster: ClusterView,
    series: SeriesSetView,
    typed: TypedView,
    context: EvalContext,
    at: int,
    class: WaitClass,
)
    requires
        is_first_of(cluster.members, "pg_stat_activity"@, at),
        tally(
            typed.activity_window(context.incident_start_us, context.incident_end_us),
            |t: i64, b: BackendView| true,
        ) <= u32::MAX,
        typed.activity_window(context.incident_start_us, context.incident_end_us).len()
            <= u32::MAX,
    ensures
        ({
            let out = drafts(InternalWaitConcentrationLens.steps(cluster, series, typed, context));
            let window = typed.activity_window(
                context.incident_start_us,
                context.incident_end_us,
            );
            let locks = typed.lock_window(context.incident_start_us, context.incident_end_us);
            let active = tally(window, |t: i64, b: BackendView| true);
            let waiting = tally(window, waits_for(class, locks));
            &&& (exists|k: int|
                0 <= k < out.len() && is_about_class(#[trigger] out[k], class))
                <==> telling_count(window) >= 3 && active > 0 && 2 * waiting >= active
            &&& forall|k: int|
                0 <= k < out.len()
                    && is_about_class(#[trigger] out[k], class) ==> out[k].requested_role
                    == Role::Coincident && shows_ratio(
                    out[k],
                    0,
                    "waiting_backends"@,
                    Float64::of_int(waiting as int),
                    "active_backends"@,
                    Float64::of_int(active as int),
                )
        }),
{
    let member = cluster.members[at];
    let window = typed.activity_window(context.incident_start_us, context.incident_end_us);
    let locks = typed.lock_window(context.incident_start_us, context.incident_end_us);
    let found = wait_samples(typed, context);
    lemma_first_member(
        &InternalWaitConcentrationLens,
        "pg_stat_activity"@,
        cluster,
        typed,
        context,
        at,
    );
    let list = wait_drafts(found, context);
    let rows = crate::typed::gauge::capped(crate::active::shared::backend_count(window));
    let edges = crate::typed::gauge::capped(linked_edges(locks).len());
    lemma_drafts_emits(list);
    lemma_drafts_after_charge(rows, emits(list));
    lemma_drafts_after_charge(
        edges,
        seq![crate::evidence::sink::Step::Charge(rows)] + emits(list),
    );
    lemma_drafts_after_charge(
        rows,
        seq![crate::evidence::sink::Step::Charge(edges)] + (seq![
            crate::evidence::sink::Step::Charge(rows),
        ] + emits(list)),
    );
    let out = drafts(InternalWaitConcentrationLens.steps(cluster, series, typed, context));
    assert(out == list);
    lemma_tally(window, WaitClass::LwLock, locks);
    lemma_tally(window, WaitClass::BufferPin, locks);
    lemma_tally(window, WaitClass::Io, locks);
    lemma_tally(window, WaitClass::Lock, locks);
    lemma_class(WaitClass::LwLock, typed, context);
    lemma_class(WaitClass::BufferPin, typed, context);
    lemma_class(WaitClass::Io, typed, context);
    lemma_class(WaitClass::Lock, typed, context);
    let a = class_drafts(WaitClass::LwLock, found, context);
    let b = class_drafts(WaitClass::BufferPin, found, context);
    let c = class_drafts(WaitClass::Io, found, context);
    let d = class_drafts(WaitClass::Lock, found, context);
    lemma_classes_differ();
    let mine = class_drafts(class, found, context);
    let before: int = match class {
        WaitClass::LwLock => 0,
        WaitClass::BufferPin => a.len() as int,
        WaitClass::Io => (a.len() + b.len()) as int,
        WaitClass::Lock => (a.len() + b.len() + c.len()) as int,
    };
    if mine.len() > 0 {
        assert(out[before] == mine[0]);
    }
    assert forall|k: int| 0 <= k < out.len() && is_about_class(#[trigger] out[k], class)
        implies mine.len()
        == 1 && out[k] == mine[0] by {
        if k < a.len() {
            assert(out[k] == a[k]);
        } else if k < a.len() + b.len() {
            assert(out[k] == b[k - a.len()]);
        } else if k < a.len() + b.len() + c.len() {
            assert(out[k] == c[k - a.len() - b.len()]);
        } else {
            assert(out[k] == d[k - a.len() - b.len() - c.len()]);
        }
    }
}

proof fn lemma_classes_differ()
    ensures
        forall|draft: DraftView, x: WaitClass, y: WaitClass|
            #[trigger] is_about_class(draft, x) && #[trigger] is_about_class(draft, y) ==> x == y,
{
    reveal_strlit("LWLock");
    reveal_strlit("BufferPin");
    reveal_strlit("IO");
    reveal_strlit("Lock");
    assert forall|draft: DraftView, x: WaitClass, y: WaitClass|
        #[trigger] is_about_class(draft, x) && #[trigger] is_about_class(draft, y) implies x
        == y by {
        let one = seq![IdentityView::Text(class_text(x))];
        let two = seq![IdentityView::Text(class_text(y))];
        assert(one[0] == two[0]);
        assert(class_text(x).len() == class_text(y).len());
    }
}

proof fn lemma_class(class: WaitClass, typed: TypedView, context: EvalContext)
    requires
        tally(
            typed.activity_window(context.incident_start_us, context.incident_end_us),
            |t: i64, b: BackendView| true,
        ) <= u32::MAX,
        typed.activity_window(context.incident_start_us, context.incident_end_us).len()
            <= u32::MAX,
    ensures
        ({
            let mine = class_drafts(class, wait_samples(typed, context), context);
            let window = typed.activity_window(
                context.incident_start_us,
                context.incident_end_us,
            );
            let locks = typed.lock_window(context.incident_start_us, context.incident_end_us);
            let active = tally(window, |t: i64, b: BackendView| true);
            let waiting = tally(window, waits_for(class, locks));
            &&& mine.len() <= 1
            &&& mine.len() == 1 <==> telling_count(window) >= 3 && active > 0 && 2 * waiting
                >= active
            &&& mine.len() == 1 ==> is_about_class(mine[0], class) && mine[0].requested_role
                == Role::Coincident && shows_ratio(
                mine[0],
                0,
                "waiting_backends"@,
                Float64::of_int(waiting as int),
                "active_backends"@,
                Float64::of_int(active as int),
            )
        }),
{
    let window = typed.activity_window(context.incident_start_us, context.incident_end_us);
    let locks = typed.lock_window(context.incident_start_us, context.incident_end_us);
    lemma_tally(window, class, locks);
    let active = tally(window, |t: i64, b: BackendView| true);
    let waiting = tally(window, waits_for(class, locks));
    lemma_waiting_bound(wait_samples(typed, context).samples, class, linked_edges(locks));
    assert(waiting <= active);
    window.lemma_filter_len(|s: ActivityView| is_telling(s));
    lemma_small(waiting as int);
    lemma_small(active as int);
    lemma_small(0);
    if active > 0 {
        lemma_ratio_finite(waiting as int, active as int);
        crate::float64::law_small_integers_keep_their_order(0, active as int);
    }
    reveal_strlit("waiting_backends");
    reveal_strlit("active_backends");
    reveal_strlit("pg_stat_activity");
}

proof fn lemma_waiting_bound(
    samples: Seq<(i64, BackendView)>,
    class: WaitClass,
    edges: Seq<(i64, LockEdge)>,
)
    ensures
        waiting_in(samples, class, edges) <= samples.len(),
    decreases samples.len(),
{
    if samples.len() > 0 {
        lemma_waiting_bound(samples.drop_last(), class, edges);
    }
}

} // verus!
