//! The sampled lock wait-for graph.

use super::shared::{evaluate_first_member, first_member_steps, PG_LOCKS};
use crate::cluster::{Cluster, ClusterView};
use crate::dispatch::{LimitHit, SectionColumn};
use crate::engine::EvalContext;
use crate::evidence::confidence::{ConfidenceCap, Role};
use crate::evidence::direct::{DirectEvidence, LockParticipant};
use crate::evidence::finding::{
    DraftView, Evidence, EvidenceView, FindingDraft, FindingScope, ScopeView,
};
use crate::evidence::sink::{lemma_run_concat, lemma_stopped, run, FindingSink, Step};
use crate::inspect::{
    charge, emit_optional, emitted, lemma_first_part_refused, lemma_two_parts, MemberLens,
};
use crate::lens::{reported, Lens};
use crate::model::{EpisodeRefV1, EpisodeView, IdentityValue, IdentityView};
use crate::order::views;
use crate::series::{SeriesSet, SeriesSetView};
use crate::typed::gauge::capped;
use crate::typed::inputs::{TypedInputs, TypedView};
use crate::typed::snapshot::{LockEdge, LockSnapshot, LockView};
use vstd::prelude::*;

verus! {

/// `PG-LOCK-012`: a sampled lock wait-for graph. Each edge of a lock snapshot is
/// direct evidence of a process that prevented a waiter from acquiring the
/// requested lock; it may name a queue predecessor rather than the holder. The
/// blocker is reported as the lead and the waiter as its downstream for that
/// sampled edge.
pub struct LockWaitGraphLens;

/// The draft about one end of an edge, which its own process names first.
pub open spec fn end_draft(ts: i64, edge: LockEdge, participant: LockParticipant) -> DraftView {
    DraftView {
        requested_role: match participant {
            LockParticipant::Blocker => Role::Lead,
            LockParticipant::Waiter => Role::Downstream,
        },
        scope: ScopeView {
            logical_section: PG_LOCKS@,
            column: "blocked_by"@,
            identity: match participant {
                LockParticipant::Blocker => seq![
                    IdentityView::I64(ts),
                    IdentityView::I64(edge.blocker_pid),
                    IdentityView::I64(edge.waiter_pid),
                ],
                LockParticipant::Waiter => seq![
                    IdentityView::I64(ts),
                    IdentityView::I64(edge.waiter_pid),
                    IdentityView::I64(edge.blocker_pid),
                ],
            },
        },
        evidence: seq![
            EvidenceView::Direct(
                DirectEvidence::of_lock_edge(
                    ts,
                    edge.waiter_pid,
                    edge.blocker_pid,
                    participant,
                ),
            ),
        ],
        temporal_direction: false,
    }
}

/// Reports about the edges of one snapshot: the blocker, then the waiter.
pub open spec fn edges_steps(ts: i64, edges: Seq<LockEdge>) -> Seq<Step>
    decreases edges.len(),
{
    if edges.len() == 0 {
        Seq::empty()
    } else {
        seq![
            Step::Emit(end_draft(ts, edges[0], LockParticipant::Blocker)),
            Step::Emit(end_draft(ts, edges[0], LockParticipant::Waiter)),
        ] + edges_steps(ts, edges.drop_first())
    }
}

/// Reports about the edges of some snapshots.
pub open spec fn graph_steps(snapshots: Seq<LockView>) -> Seq<Step>
    decreases snapshots.len(),
{
    if snapshots.len() == 0 {
        Seq::empty()
    } else {
        edges_steps(snapshots[0].ts, snapshots[0].edges) + graph_steps(snapshots.drop_first())
    }
}

/// Edges of some snapshots together.
pub open spec fn edge_count(snapshots: Seq<LockView>) -> nat
    decreases snapshots.len(),
{
    if snapshots.len() == 0 {
        0
    } else {
        edge_count(snapshots.drop_last()) + snapshots.last().edges.len()
    }
}

/// The draft about one end of an edge.
fn draft_end(ts: i64, edge: &LockEdge, participant: LockParticipant) -> (r: FindingDraft)
    ensures
        r@ == end_draft(ts, *edge, participant),
{
    let mut identity: Vec<IdentityValue> = Vec::new();
    identity.push(IdentityValue::I64(ts));
    let role: Role = match participant {
        LockParticipant::Blocker => {
            identity.push(IdentityValue::I64(edge.blocker_pid));
            identity.push(IdentityValue::I64(edge.waiter_pid));
            Role::Lead
        },
        LockParticipant::Waiter => {
            identity.push(IdentityValue::I64(edge.waiter_pid));
            identity.push(IdentityValue::I64(edge.blocker_pid));
            Role::Downstream
        },
    };
    let mut evidence: Vec<Evidence> = Vec::new();
    evidence.push(
        Evidence::Direct(
            DirectEvidence::sampled_lock_edge(
                ts,
                edge.waiter_pid,
                edge.blocker_pid,
                participant,
            ),
        ),
    );
    proof {
        assert(views(identity@) =~= end_draft(ts, *edge, participant).scope.identity);
        assert(views(evidence@) =~= end_draft(ts, *edge, participant).evidence);
    }
    FindingDraft::new(role, FindingScope::from_parts(PG_LOCKS, "blocked_by", identity), evidence)
}

/// Emits both ends of one edge.
fn emit_edge(ts: i64, edge: &LockEdge, sink: &mut FindingSink<'_>) -> (r: Result<(), LimitHit>)
    ensures
        reported(
            old(sink)@,
            final(sink)@,
            seq![
                Step::Emit(end_draft(ts, *edge, LockParticipant::Blocker)),
                Step::Emit(end_draft(ts, *edge, LockParticipant::Waiter)),
            ],
            r,
        ),
        *final(final(sink).findings) == *final(old(sink).findings),
        *final(final(sink).budget) == *final(old(sink).budget),
        *final(final(sink).counts) == *final(old(sink).counts),
{
    let ghost before = sink@;
    let ghost first = emitted(Some(end_draft(ts, *edge, LockParticipant::Blocker)));
    let ghost second = emitted(Some(end_draft(ts, *edge, LockParticipant::Waiter)));
    proof {
        assert(first + second =~= seq![
            Step::Emit(end_draft(ts, *edge, LockParticipant::Blocker)),
            Step::Emit(end_draft(ts, *edge, LockParticipant::Waiter)),
        ]);
    }
    match emit_optional(sink, Some(draft_end(ts, edge, LockParticipant::Blocker))) {
        Ok(_) => {},
        Err(hit) => {
            proof {
                lemma_first_part_refused(before, sink@, first, second, Err(hit));
            }
            return Err(hit);
        },
    }
    let ghost middle = sink@;
    let r = emit_optional(sink, Some(draft_end(ts, edge, LockParticipant::Waiter)));
    proof {
        lemma_two_parts(before, middle, sink@, first, second, r);
    }
    r
}

/// Emits the edges of one snapshot.
fn emit_edges(ts: i64, edges: &Vec<LockEdge>, sink: &mut FindingSink<'_>) -> (r: Result<
    (),
    LimitHit,
>)
    ensures
        reported(old(sink)@, final(sink)@, edges_steps(ts, edges@), r),
        *final(final(sink).findings) == *final(old(sink).findings),
        *final(final(sink).budget) == *final(old(sink).budget),
        *final(final(sink).counts) == *final(old(sink).counts),
{
    let ghost start = sink@;
    let mut i: usize = 0;
    proof {
        assert(edges@.skip(0) =~= edges@);
    }
    while i < edges.len()
        invariant
            i <= edges.len(),
            start == old(sink)@,
            sink@.rules == start.rules,
            sink@.state.hit == start.state.hit,
            run(start.state, start.rules, edges_steps(ts, edges@)) == run(
                sink@.state,
                start.rules,
                edges_steps(ts, edges@.skip(i as int)),
            ),
            *final(sink.findings) == *final(old(sink).findings),
            *final(sink.budget) == *final(old(sink).budget),
            *final(sink.counts) == *final(old(sink).counts),
        decreases edges.len() - i,
    {
        let ghost before = sink@;
        let ghost here = seq![
            Step::Emit(end_draft(ts, edges@[i as int], LockParticipant::Blocker)),
            Step::Emit(end_draft(ts, edges@[i as int], LockParticipant::Waiter)),
        ];
        let ghost later = edges_steps(ts, edges@.skip(i + 1));
        proof {
            assert(edges@.skip(i as int).drop_first() =~= edges@.skip(i + 1));
            assert(edges_steps(ts, edges@.skip(i as int)) == here + later);
            lemma_run_concat(before.state, before.rules, here, later);
        }
        match emit_edge(ts, &edges[i], sink) {
            Ok(_) => {},
            Err(hit) => {
                proof {
                    lemma_stopped(sink@.state, start.rules, later);
                }
                return Err(hit);
            },
        }
        i = i + 1;
    }
    proof {
        assert(edges@.skip(i as int) =~= Seq::empty());
    }
    Ok(())
}

/// Emits the edges of some snapshots.
fn emit_graph(snapshots: &Vec<&LockSnapshot>, sink: &mut FindingSink<'_>) -> (r: Result<
    (),
    LimitHit,
>)
    ensures
        reported(old(sink)@, final(sink)@, graph_steps(views(snapshots@)), r),
        *final(final(sink).findings) == *final(old(sink).findings),
        *final(final(sink).budget) == *final(old(sink).budget),
        *final(final(sink).counts) == *final(old(sink).counts),
{
    let ghost start = sink@;
    let ghost all = views(snapshots@);
    let mut i: usize = 0;
    proof {
        assert(all.skip(0) =~= all);
    }
    while i < snapshots.len()
        invariant
            i <= snapshots.len(),
            all == views(snapshots@),
            start == old(sink)@,
            sink@.rules == start.rules,
            sink@.state.hit == start.state.hit,
            run(start.state, start.rules, graph_steps(all)) == run(
                sink@.state,
                start.rules,
                graph_steps(all.skip(i as int)),
            ),
            *final(sink.findings) == *final(old(sink).findings),
            *final(sink.budget) == *final(old(sink).budget),
            *final(sink.counts) == *final(old(sink).counts),
        decreases snapshots.len() - i,
    {
        let snapshot: &LockSnapshot = snapshots[i];
        let ghost before = sink@;
        let ghost here = edges_steps(snapshot.ts, snapshot.edges@);
        let ghost later = graph_steps(all.skip(i + 1));
        proof {
            assert(all.skip(i as int).drop_first() =~= all.skip(i + 1));
            assert(all.skip(i as int)[0] == snapshot@);
            lemma_run_concat(before.state, before.rules, here, later);
        }
        match emit_edges(snapshot.ts, &snapshot.edges, sink) {
            Ok(_) => {},
            Err(hit) => {
                proof {
                    lemma_stopped(sink@.state, start.rules, later);
                }
                return Err(hit);
            },
        }
        i = i + 1;
    }
    proof {
        assert(all.skip(i as int) =~= Seq::empty());
    }
    Ok(())
}

/// Counts the edges of some snapshots.
fn edges_of(snapshots: &Vec<&LockSnapshot>) -> (r: usize)
    ensures
        r == capped(edge_count(views(snapshots@))),
{
    let ghost all = views(snapshots@);
    let mut total: usize = 0;
    let mut i: usize = 0;
    proof {
        assert(all.take(0) =~= Seq::empty());
    }
    while i < snapshots.len()
        invariant
            i <= snapshots.len(),
            all == views(snapshots@),
            total == capped(edge_count(all.take(i as int))),
        decreases snapshots.len() - i,
    {
        let snapshot: &LockSnapshot = snapshots[i];
        proof {
            assert(all.take(i + 1).drop_last() =~= all.take(i as int));
            assert(all.take(i + 1).last() == snapshot@);
        }
        let here: usize = snapshot.edges.len();
        total = if total <= usize::MAX - here {
            total + here
        } else {
            usize::MAX
        };
        i = i + 1;
    }
    proof {
        assert(all.take(i as int) =~= all);
    }
    total
}

impl MemberLens for LockWaitGraphLens {
    open spec fn member_steps(
        &self,
        member: EpisodeView,
        typed: TypedView,
        context: EvalContext,
    ) -> Seq<Step> {
        let snapshots = typed.lock_window(context.incident_start_us, context.incident_end_us);
        seq![Step::Charge(capped(edge_count(snapshots)))] + graph_steps(snapshots)
    }

    fn evaluate_member(
        &self,
        member: &EpisodeRefV1,
        typed: &TypedInputs,
        context: &EvalContext,
        sink: &mut FindingSink<'_>,
    ) -> (r: Result<(), LimitHit>) {
        let ghost before = sink@;
        let snapshots: Vec<&LockSnapshot> = typed.lock_window(
            context.incident_start_us,
            context.incident_end_us,
        );
        let ghost window = views(snapshots@);
        let ghost points = seq![Step::Charge(capped(edge_count(window)))];
        match charge(sink, edges_of(&snapshots)) {
            Ok(_) => {},
            Err(hit) => {
                proof {
                    lemma_first_part_refused(
                        before,
                        sink@,
                        points,
                        graph_steps(window),
                        Err(hit),
                    );
                }
                return Err(hit);
            },
        }
        let ghost paid = sink@;
        let r = emit_graph(&snapshots, sink);
        proof {
            lemma_two_parts(before, paid, sink@, points, graph_steps(window), r);
        }
        r
    }
}

impl Lens for LockWaitGraphLens {
    open spec fn id_text(&self) -> Seq<char> {
        "PG-LOCK-012"@
    }

    open spec fn input_list(&self) -> Seq<SectionColumn> {
        seq![
            SectionColumn { section: PG_LOCKS, column: "blocked_by" },
        ]
    }

    open spec fn cap(&self) -> ConfidenceCap {
        ConfidenceCap::Medium
    }

    open spec fn steps(
        &self,
        cluster: ClusterView,
        series: SeriesSetView,
        typed: TypedView,
        context: EvalContext,
    ) -> Seq<Step> {
        first_member_steps(self, PG_LOCKS@, cluster, typed, context)
    }

    fn id(&self) -> (r: &'static str) {
        "PG-LOCK-012"
    }

    fn inputs(&self) -> (r: &'static [SectionColumn]) {
        &[
            SectionColumn { section: PG_LOCKS, column: "blocked_by" },
        ]
    }

    fn confidence_cap(&self) -> (r: ConfidenceCap) {
        ConfidenceCap::Medium
    }

    fn evaluate(
        &self,
        cluster: &Cluster,
        series: &SeriesSet,
        typed: &TypedInputs,
        context: &EvalContext,
        sink: &mut FindingSink<'_>,
    ) -> (r: Result<(), LimitHit>) {
        evaluate_first_member(self, PG_LOCKS, cluster, typed, context, sink)
    }
}

/// Every edge of the window is reported from both of its ends: the blocker as
/// the lead, the waiter as its downstream.
pub proof fn law_every_edge_is_reported(snapshots: Seq<LockView>, i: int, j: int)
    requires
        0 <= i < snapshots.len(),
        0 <= j < snapshots[i].edges.len(),
    ensures
        graph_steps(snapshots).contains(
            Step::Emit(end_draft(snapshots[i].ts, snapshots[i].edges[j], LockParticipant::Blocker)),
        ),
        graph_steps(snapshots).contains(
            Step::Emit(end_draft(snapshots[i].ts, snapshots[i].edges[j], LockParticipant::Waiter)),
        ),
    decreases snapshots.len(),
{
    let rest = graph_steps(snapshots.drop_first());
    let here = edges_steps(snapshots[0].ts, snapshots[0].edges);
    if i == 0 {
        let k = lemma_edge_reported(snapshots[0].ts, snapshots[0].edges, j);
        assert(graph_steps(snapshots)[k] == here[k]);
        assert(graph_steps(snapshots)[k + 1] == here[k + 1]);
    } else {
        law_every_edge_is_reported(snapshots.drop_first(), i - 1, j);
        let edge = snapshots[i].edges[j];
        let ts = snapshots[i].ts;
        assert(snapshots.drop_first()[i - 1] == snapshots[i]);
        let a = rest.index_of(Step::Emit(end_draft(ts, edge, LockParticipant::Blocker)));
        let b = rest.index_of(Step::Emit(end_draft(ts, edge, LockParticipant::Waiter)));
        assert(graph_steps(snapshots)[here.len() + a] == rest[a]);
        assert(graph_steps(snapshots)[here.len() + b] == rest[b]);
    }
}

proof fn lemma_edge_reported(ts: i64, edges: Seq<LockEdge>, j: int) -> (k: int)
    requires
        0 <= j < edges.len(),
    ensures
        0 <= k < edges_steps(ts, edges).len() - 1,
        edges_steps(ts, edges)[k] == Step::Emit(end_draft(ts, edges[j], LockParticipant::Blocker)),
        edges_steps(ts, edges)[k + 1] == Step::Emit(
            end_draft(ts, edges[j], LockParticipant::Waiter),
        ),
    decreases edges.len(),
{
    if j == 0 {
        0
    } else {
        let k = lemma_edge_reported(ts, edges.drop_first(), j - 1);
        assert(edges.drop_first()[j - 1] == edges[j]);
        k + 2
    }
}

/// Each reported end of an edge shows its direction by itself.
pub proof fn law_edge_reports_show_their_direction(
    ts: i64,
    edge: LockEdge,
    participant: LockParticipant,
)
    ensures
        end_draft(ts, edge, participant).proven(),
        end_draft(ts, edge, participant).admitted_role() == end_draft(
            ts,
            edge,
            participant,
        ).requested_role,
{
    let draft = end_draft(ts, edge, participant);
    assert(draft.evidence[0].shows(draft.requested_role));
}

} // verus!
