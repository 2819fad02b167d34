//! What is reported of the edges between blocked and blocking backends.

use crate::active::locks::{edge_count, edges_steps, end_draft, graph_steps, LockWaitGraphLens};
use crate::cluster::ClusterView;
use crate::engine::EvalContext;
use crate::evidence::confidence::Role;
use crate::evidence::direct::LockParticipant;
use crate::evidence::finding::DraftView;
use crate::evidence::sink::Step;
use crate::laws::grading::is_edge_of;
use crate::laws::steps::{drafts, lemma_drafts_after_charge, lemma_drafts_concat};
use crate::laws::subject::{is_first_of, lemma_first_member};
use crate::lens::Lens;
use crate::model::IdentityView;
use crate::series::SeriesSetView;
use crate::typed::gauge::capped;
use crate::typed::inputs::TypedView;
use crate::typed::snapshot::{LockEdge, LockView};
use vstd::prelude::*;

verus! {

/// Whether a draft tells of one end of an edge at a time: the blocker leads, the
/// waiter follows.
pub open spec fn tells_end(draft: DraftView, ts: i64, edge: LockEdge, blocker: bool) -> bool {
    &&& draft.requested_role == if blocker {
        Role::Lead
    } else {
        Role::Downstream
    }
    &&& draft.scope.logical_section == "pg_locks"@
    &&& draft.scope.identity == if blocker {
        seq![
            IdentityView::I64(ts),
            IdentityView::I64(edge.blocker_pid),
            IdentityView::I64(edge.waiter_pid),
        ]
    } else {
        seq![
            IdentityView::I64(ts),
            IdentityView::I64(edge.waiter_pid),
            IdentityView::I64(edge.blocker_pid),
        ]
    }
    &&& draft.evidence.len() == 1
    &&& is_edge_of(
        draft.evidence[0],
        if blocker {
            LockParticipant::Blocker
        } else {
            LockParticipant::Waiter
        },
    )
}

/// Whether an edge was sampled within an incident.
pub open spec fn is_sampled(typed: TypedView, context: EvalContext, ts: i64, edge: LockEdge) -> bool {
    exists|n: int, i: int|
        0 <= n < typed.locks.len() && 0 <= i < typed.locks[n].edges.len() && typed.locks[n].ts
            == ts && context.incident_start_us <= ts < context.incident_end_us
            && #[trigger] typed.locks[n].edges[i] == edge
}

spec fn is_in(snapshots: Seq<LockView>, ts: i64, edge: LockEdge) -> bool {
    exists|n: int, i: int|
        0 <= n < snapshots.len() && 0 <= i < snapshots[n].edges.len() && snapshots[n].ts == ts
            && #[trigger] snapshots[n].edges[i] == edge
}

spec fn is_end_of(draft: DraftView, ts: i64, edge: LockEdge) -> bool {
    draft == end_draft(ts, edge, LockParticipant::Blocker) || draft == end_draft(
        ts,
        edge,
        LockParticipant::Waiter,
    )
}

proof fn lemma_edges(ts: i64, edges: Seq<LockEdge>, draft: DraftView)
    ensures
        drafts(edges_steps(ts, edges)).contains(draft) <==> exists|i: int|
            0 <= i < edges.len() && is_end_of(draft, ts, #[trigger] edges[i]),
    decreases edges.len(),
{
    if edges.len() > 0 {
        let rest = edges.drop_first();
        let blocker = end_draft(ts, edges[0], LockParticipant::Blocker);
        let waiter = end_draft(ts, edges[0], LockParticipant::Waiter);
        let first = seq![Step::Emit(blocker), Step::Emit(waiter)];
        lemma_edges(ts, rest, draft);
        lemma_drafts_concat(first, edges_steps(ts, rest));
        reveal_with_fuel(drafts, 3);
        assert(first.drop_last() =~= seq![Step::Emit(blocker)]);
        assert(first.drop_last().drop_last() =~= Seq::empty());
        assert(drafts(first) =~= seq![blocker, waiter]);
        let later = drafts(edges_steps(ts, rest));
        let all = seq![blocker, waiter] + later;
        if draft == blocker {
            assert(all[0] == draft);
        }
        if draft == waiter {
            assert(all[1] == draft);
        }
        if later.contains(draft) {
            let k = later.index_of(draft);
            assert(all[k + 2] == draft);
            let i = choose|i: int| 0 <= i < rest.len() && is_end_of(draft, ts, #[trigger] rest[i]);
            assert(edges[i + 1] == rest[i]);
        }
        if all.contains(draft) {
            let k = all.index_of(draft);
            if k >= 2 {
                assert(later[k - 2] == draft);
            } else {
                assert(is_end_of(draft, ts, edges[0]));
            }
        }
        if exists|i: int| 0 <= i < edges.len() && is_end_of(draft, ts, #[trigger] edges[i]) {
            let i = choose|i: int| 0 <= i < edges.len()
                && is_end_of(draft, ts, #[trigger] edges[i]);
            if i > 0 {
                assert(rest[i - 1] == edges[i]);
            }
        }
    } else {
        assert(!drafts(edges_steps(ts, edges)).contains(draft));
    }
}

proof fn lemma_graph(snapshots: Seq<LockView>, draft: DraftView)
    ensures
        drafts(graph_steps(snapshots)).contains(draft) <==> exists|ts: i64, edge: LockEdge| #[trigger]
            is_in(snapshots, ts, edge) && is_end_of(draft, ts, edge),
    decreases snapshots.len(),
{
    if snapshots.len() > 0 {
        let head = snapshots[0];
        let rest = snapshots.drop_first();
        lemma_edges(head.ts, head.edges, draft);
        lemma_graph(rest, draft);
        lemma_drafts_concat(edges_steps(head.ts, head.edges), graph_steps(rest));
        let a = drafts(edges_steps(head.ts, head.edges));
        let b = drafts(graph_steps(rest));
        let all = a + b;
        if a.contains(draft) {
            let k = a.index_of(draft);
            assert(all[k] == draft);
            let i = choose|i: int|
                0 <= i < head.edges.len() && is_end_of(draft, head.ts, #[trigger] head.edges[i]);
            assert(snapshots[0].edges[i] == head.edges[i]);
            assert(is_in(snapshots, head.ts, head.edges[i]));
        }
        if b.contains(draft) {
            let k = b.index_of(draft);
            assert(all[a.len() + k] == draft);
            let (ts, edge) = choose|ts: i64, edge: LockEdge| #[trigger]
                is_in(rest, ts, edge) && is_end_of(draft, ts, edge);
            let (n, i) = choose|n: int, i: int|
                0 <= n < rest.len() && 0 <= i < rest[n].edges.len() && rest[n].ts == ts
                    && #[trigger] rest[n].edges[i] == edge;
            assert(snapshots[n + 1].edges[i] == edge);
            assert(is_in(snapshots, ts, edge));
        }
        if all.contains(draft) {
            let k = all.index_of(draft);
            if k < a.len() {
                assert(a[k] == draft);
            } else {
                assert(b[k - a.len()] == draft);
            }
        }
        if exists|ts: i64, edge: LockEdge| #[trigger]
            is_in(snapshots, ts, edge) && is_end_of(draft, ts, edge) {
            let (ts, edge) = choose|ts: i64, edge: LockEdge| #[trigger]
                is_in(snapshots, ts, edge) && is_end_of(draft, ts, edge);
            let (n, i) = choose|n: int, i: int|
                0 <= n < snapshots.len() && 0 <= i < snapshots[n].edges.len() && snapshots[n].ts
                    == ts && #[trigger] snapshots[n].edges[i] == edge;
            if n > 0 {
                assert(rest[n - 1].edges[i] == edge);
                assert(is_in(rest, ts, edge));
            } else {
                assert(is_end_of(draft, head.ts, head.edges[i]));
            }
        }
    } else {
        assert(!drafts(graph_steps(snapshots)).contains(draft));
        assert forall|ts: i64, edge: LockEdge| !#[trigger] is_in(snapshots, ts, edge) by {}
    }
}

proof fn lemma_sampled(typed: TypedView, context: EvalContext, ts: i64, edge: LockEdge)
    ensures
        is_in(
            typed.lock_window(context.incident_start_us, context.incident_end_us),
            ts,
            edge,
        ) <==> is_sampled(typed, context, ts, edge),
{
    let inside = |s: LockView| context.incident_start_us <= s.ts < context.incident_end_us;
    let window = typed.locks.filter(inside);
    assert(typed.lock_window(context.incident_start_us, context.incident_end_us) == window);
    if is_in(window, ts, edge) {
        let (n, i) = choose|n: int, i: int|
            0 <= n < window.len() && 0 <= i < window[n].edges.len() && window[n].ts == ts
                && #[trigger] window[n].edges[i] == edge;
        typed.locks.lemma_filter_pred(inside, n);
        assert(window.contains(window[n]));
        typed.locks.lemma_filter_contains_rev(inside, window[n]);
        let m = typed.locks.index_of(window[n]);
        assert(typed.locks[m].edges[i] == edge);
    }
    if is_sampled(typed, context, ts, edge) {
        let (n, i) = choose|n: int, i: int|
            0 <= n < typed.locks.len() && 0 <= i < typed.locks[n].edges.len() && typed.locks[n].ts
                == ts && context.incident_start_us <= ts < context.incident_end_us
                && #[trigger] typed.locks[n].edges[i] == edge;
        typed.locks.lemma_filter_contains(inside, n);
        let m = window.index_of(typed.locks[n]);
        assert(window[m].edges[i] == edge);
    }
}

/// Both ends of every edge sampled within an incident are reported.
pub proof fn law_both_ends_of_an_edge_are_reported(
    cluster: ClusterView,
    series: SeriesSetView,
    typed: TypedView,
    context: EvalContext,
    at: int,
    ts: i64,
    edge: LockEdge,
    blocker: bool,
)
    requires
        is_first_of(cluster.members, "pg_locks"@, at),
        is_sampled(typed, context, ts, edge),
    ensures
        exists|k: int|
            0 <= k < drafts(
                LockWaitGraphLens.steps(cluster, series, typed, context),
            ).len() && tells_end(
                #[trigger] drafts(LockWaitGraphLens.steps(cluster, series, typed, context))[k],
                ts,
                edge,
                blocker,
            ),
{
    let snapshots = typed.lock_window(context.incident_start_us, context.incident_end_us);
    lemma_first_member(&LockWaitGraphLens, "pg_locks"@, cluster, typed, context, at);
    lemma_drafts_after_charge(capped(edge_count(snapshots)), graph_steps(snapshots));
    lemma_sampled(typed, context, ts, edge);
    let side = if blocker {
        LockParticipant::Blocker
    } else {
        LockParticipant::Waiter
    };
    let draft = end_draft(ts, edge, side);
    lemma_graph(snapshots, draft);
    assert(is_in(snapshots, ts, edge) && is_end_of(draft, ts, edge));
    let out = drafts(LockWaitGraphLens.steps(cluster, series, typed, context));
    assert(out.contains(draft));
    let k = out.index_of(draft);
    assert(tells_end(out[k], ts, edge, blocker));
}

/// Nothing else is reported of locks.
pub proof fn law_reported_ends_are_those_of_sampled_edges(
    cluster: ClusterView,
    series: SeriesSetView,
    typed: TypedView,
    context: EvalContext,
    at: int,
    k: int,
)
    requires
        is_first_of(cluster.members, "pg_locks"@, at),
        0 <= k < drafts(LockWaitGraphLens.steps(cluster, series, typed, context)).len(),
    ensures
        exists|ts: i64, edge: LockEdge, blocker: bool|
            is_sampled(typed, context, ts, edge) && #[trigger] tells_end(
                drafts(LockWaitGraphLens.steps(cluster, series, typed, context))[k],
                ts,
                edge,
                blocker,
            ),
{
    let snapshots = typed.lock_window(context.incident_start_us, context.incident_end_us);
    lemma_first_member(&LockWaitGraphLens, "pg_locks"@, cluster, typed, context, at);
    lemma_drafts_after_charge(capped(edge_count(snapshots)), graph_steps(snapshots));
    let out = drafts(LockWaitGraphLens.steps(cluster, series, typed, context));
    let draft = out[k];
    assert(out.contains(draft));
    lemma_graph(snapshots, draft);
    let (ts, edge) = choose|ts: i64, edge: LockEdge| #[trigger]
        is_in(snapshots, ts, edge) && is_end_of(draft, ts, edge);
    lemma_sampled(typed, context, ts, edge);
    assert(tells_end(draft, ts, edge, true) || tells_end(draft, ts, edge, false));
}

} // verus!
