//! Evaluation of the members of an incident one after another.
//!
//! Most lenses pay for the members of a cluster, then look at each member in
//! turn: they pay for the points that the member needs and emit at most one
//! draft about it.

use crate::cluster::{Cluster, ClusterView};
use crate::dispatch::LimitHit;
use crate::engine::EvalContext;
use crate::evidence::finding::{DraftView, FindingDraft};
use crate::evidence::sink::{
    lemma_run_concat, lemma_run_first, lemma_stopped, run, step, FindingSink, SinkView, Step,
};
use crate::lens::reported;
use crate::model::{EpisodeRefV1, EpisodeView};
use crate::order::views;
use crate::typed::inputs::{TypedInputs, TypedView};
use vstd::prelude::*;

verus! {

/// The report of an optional draft.
pub open spec fn emitted(draft: Option<DraftView>) -> Seq<Step> {
    match draft {
        Some(found) => seq![Step::Emit(found)],
        None => Seq::empty(),
    }
}

pub open spec fn draft_view(draft: Option<FindingDraft>) -> Option<DraftView> {
    match draft {
        Some(found) => Some(found@),
        None => None,
    }
}

/// Emits a draft, if there is one.
pub fn emit_optional(sink: &mut FindingSink<'_>, draft: Option<FindingDraft>) -> (r: Result<
    (),
    LimitHit,
>)
    ensures
        reported(old(sink)@, final(sink)@, emitted(draft_view(draft)), r),
        *final(final(sink).findings) == *final(old(sink).findings),
        *final(final(sink).budget) == *final(old(sink).budget),
        *final(final(sink).counts) == *final(old(sink).counts),
{
    let ghost before = sink@;
    match draft {
        Some(found) => {
            proof {
                lemma_run_first(before.state, before.rules, Step::Emit(found@), Seq::empty());
                assert(seq![Step::Emit(found@)] + Seq::<Step>::empty() =~= seq![
                    Step::Emit(found@),
                ]);
            }
            sink.emit(found)
        },
        None => Ok(()),
    }
}

/// Reports in two parts, the first taken in full.
pub proof fn lemma_two_parts(
    before: SinkView,
    middle: SinkView,
    after: SinkView,
    first: Seq<Step>,
    second: Seq<Step>,
    r: Result<(), LimitHit>,
)
    requires
        reported(before, middle, first, Ok(())),
        reported(middle, after, second, r),
    ensures
        reported(before, after, first + second, r),
{
    lemma_run_concat(before.state, before.rules, first, second);
}

/// Reports in two parts, the first refused.
pub proof fn lemma_first_part_refused(
    before: SinkView,
    after: SinkView,
    first: Seq<Step>,
    second: Seq<Step>,
    r: Result<(), LimitHit>,
)
    requires
        reported(before, after, first, r),
        r is Err,
    ensures
        reported(before, after, first + second, r),
{
    lemma_run_concat(before.state, before.rules, first, second);
    lemma_stopped(after.state, before.rules, second);
}

/// A granted charge is a report taken in full.
pub proof fn lemma_charged(before: SinkView, after: SinkView, points: usize)
    requires
        after.state == step(before.state, before.rules, Step::Charge(points)),
        after.rules == before.rules,
    ensures
        after.state == run(before.state, before.rules, seq![Step::Charge(points)]),
{
    lemma_run_first(before.state, before.rules, Step::Charge(points), Seq::empty());
    assert(seq![Step::Charge(points)] + Seq::<Step>::empty() =~= seq![Step::Charge(points)]);
}

/// Pays for points as a report of its own.
pub fn charge(sink: &mut FindingSink<'_>, points: usize) -> (r: Result<(), LimitHit>)
    ensures
        reported(old(sink)@, final(sink)@, seq![Step::Charge(points)], r),
        *final(final(sink).findings) == *final(old(sink).findings),
        *final(final(sink).budget) == *final(old(sink).budget),
        *final(final(sink).counts) == *final(old(sink).counts),
{
    let ghost before = sink@;
    let r = sink.charge_points(points);
    proof {
        lemma_charged(before, sink@, points);
    }
    r
}

/// The reports of some drafts.
pub open spec fn emits(drafts: Seq<DraftView>) -> Seq<Step>
    decreases drafts.len(),
{
    if drafts.len() == 0 {
        Seq::empty()
    } else {
        emitted(Some(drafts[0])) + emits(drafts.drop_first())
    }
}

/// Emits some drafts in order.
pub fn emit_each(sink: &mut FindingSink<'_>, drafts: Vec<FindingDraft>) -> (r: Result<
    (),
    LimitHit,
>)
    ensures
        reported(old(sink)@, final(sink)@, emits(views(drafts@)), r),
        *final(final(sink).findings) == *final(old(sink).findings),
        *final(final(sink).budget) == *final(old(sink).budget),
        *final(final(sink).counts) == *final(old(sink).counts),
{
    let ghost start = sink@;
    let ghost all = views(drafts@);
    let mut up: Vec<FindingDraft> = drafts;
    let mut down: Vec<FindingDraft> = Vec::new();
    while up.len() > 0
        invariant
            up.len() + down.len() == all.len(),
            forall|i: int| 0 <= i < up.len() ==> #[trigger] up@[i]@ == all[i],
            forall|i: int| 0 <= i < down.len() ==> #[trigger] down@[i]@ == all[all.len() - 1 - i],
        decreases up.len(),
    {
        let last: FindingDraft = up.pop().unwrap();
        down.push(last);
    }
    let ghost mut rest = all;
    while down.len() > 0
        invariant
            all == views(drafts@),
            down.len() == rest.len(),
            forall|i: int| 0 <= i < down.len() ==> #[trigger] down@[i]@ == rest[rest.len() - 1 - i],
            start == old(sink)@,
            sink@.rules == start.rules,
            sink@.state.hit == start.state.hit,
            run(start.state, start.rules, emits(all)) == run(sink@.state, start.rules, emits(rest)),
            *final(sink.findings) == *final(old(sink).findings),
            *final(sink.budget) == *final(old(sink).budget),
            *final(sink.counts) == *final(old(sink).counts),
        decreases down.len(),
    {
        let ghost before = sink@;
        let ghost later = rest.drop_first();
        let next: FindingDraft = down.pop().unwrap();
        proof {
            assert(next@ == rest[0]);
            lemma_run_concat(before.state, before.rules, emitted(Some(next@)), emits(later));
        }
        match emit_optional(sink, Some(next)) {
            Ok(_) => {},
            Err(hit) => {
                proof {
                    lemma_stopped(sink@.state, start.rules, emits(later));
                }
                return Err(hit);
            },
        }
        proof {
            rest = later;
        }
    }
    Ok(())
}

/// A lens that looks at the members of a cluster one by one.
pub trait MemberLens {
    /// What the lens reports about one member.
    spec fn member_steps(
        &self,
        member: EpisodeView,
        typed: TypedView,
        context: EvalContext,
    ) -> Seq<Step>;

    fn evaluate_member(
        &self,
        member: &EpisodeRefV1,
        typed: &TypedInputs,
        context: &EvalContext,
        sink: &mut FindingSink<'_>,
    ) -> (r: Result<(), LimitHit>)
        ensures
            reported(
                old(sink)@,
                final(sink)@,
                self.member_steps(member@, typed@, *context),
                r,
            ),
            *final(final(sink).findings) == *final(old(sink).findings),
            *final(final(sink).budget) == *final(old(sink).budget),
            *final(final(sink).counts) == *final(old(sink).counts),
    ;
}

/// What a lens reports about some members, one after another.
pub open spec fn members_steps<L: MemberLens>(
    lens: &L,
    members: Seq<EpisodeView>,
    typed: TypedView,
    context: EvalContext,
) -> Seq<Step>
    decreases members.len(),
{
    if members.len() == 0 {
        Seq::empty()
    } else {
        lens.member_steps(members[0], typed, context) + members_steps(
            lens,
            members.drop_first(),
            typed,
            context,
        )
    }
}

/// What a lens reports about a cluster: the members are paid for first.
pub open spec fn cluster_steps<L: MemberLens>(
    lens: &L,
    cluster: ClusterView,
    typed: TypedView,
    context: EvalContext,
) -> Seq<Step> {
    seq![Step::Charge(cluster.members.len() as usize)] + members_steps(
        lens,
        cluster.members,
        typed,
        context,
    )
}

/// Evaluates the members of a cluster one by one.
pub fn evaluate_members<L: MemberLens>(
    lens: &L,
    cluster: &Cluster,
    typed: &TypedInputs,
    context: &EvalContext,
    sink: &mut FindingSink<'_>,
) -> (r: Result<(), LimitHit>)
    ensures
        reported(old(sink)@, final(sink)@, cluster_steps(lens, cluster@, typed@, *context), r),
        *final(final(sink).findings) == *final(old(sink).findings),
        *final(final(sink).budget) == *final(old(sink).budget),
        *final(final(sink).counts) == *final(old(sink).counts),
{
    let ghost start = sink@;
    let ghost all = cluster@.members;
    let ghost goal = cluster_steps(lens, cluster@, typed@, *context);
    let ghost rest = members_steps(lens, all, typed@, *context);
    match charge(sink, cluster.members.len()) {
        Ok(_) => {},
        Err(hit) => {
            proof {
                lemma_first_part_refused(
                    start,
                    sink@,
                    seq![Step::Charge(cluster.members.len())],
                    rest,
                    Err(hit),
                );
            }
            return Err(hit);
        },
    }
    let mut i: usize = 0;
    proof {
        assert(all.skip(0) =~= all);
        lemma_run_concat(
            start.state,
            start.rules,
            seq![Step::Charge(cluster.members.len())],
            rest,
        );
    }
    while i < cluster.members.len()
        invariant
            i <= cluster.members.len(),
            all == views(cluster.members@),
            start == old(sink)@,
            goal == cluster_steps(lens, cluster@, typed@, *context),
            sink@.rules == start.rules,
            sink@.state.hit == start.state.hit,
            run(start.state, start.rules, goal) == run(
                sink@.state,
                start.rules,
                members_steps(lens, all.skip(i as int), typed@, *context),
            ),
            *final(sink.findings) == *final(old(sink).findings),
            *final(sink.budget) == *final(old(sink).budget),
            *final(sink.counts) == *final(old(sink).counts),
        decreases cluster.members.len() - i,
    {
        let member: &EpisodeRefV1 = &cluster.members[i];
        let ghost before = sink@;
        let ghost here = lens.member_steps(member@, typed@, *context);
        let ghost later = members_steps(lens, all.skip(i + 1), typed@, *context);
        proof {
            assert(all.skip(i as int).drop_first() =~= all.skip(i + 1));
            assert(all.skip(i as int)[0] == member@);
            lemma_run_concat(before.state, before.rules, here, later);
        }
        match lens.evaluate_member(member, typed, context, sink) {
            Ok(_) => {},
            Err(hit) => {
                proof {
                    lemma_stopped(sink@.state, start.rules, later);
                }
                return Err(hit);
            },
        }
        i = i + 1;
    }
    proof {
        assert(all.skip(i as int) =~= Seq::empty());
    }
    Ok(())
}

/// A lens that pays for one look at a member and emits at most one draft.
pub trait InspectLens {
    /// Points that the member needs, or none where the lens passes it over.
    spec fn inspected(
        &self,
        member: EpisodeView,
        typed: TypedView,
        context: EvalContext,
    ) -> Option<usize>;

    /// The draft about an inspected member.
    spec fn drafted(&self, member: EpisodeView, typed: TypedView, context: EvalContext) -> Option<
        DraftView,
    >;

    fn inspect(&self, member: &EpisodeRefV1, typed: &TypedInputs, context: &EvalContext) -> (r:
        Option<usize>)
        ensures
            r == self.inspected(member@, typed@, *context),
    ;

    fn draft(&self, member: &EpisodeRefV1, typed: &TypedInputs, context: &EvalContext) -> (r:
        Option<FindingDraft>)
        requires
            self.inspected(member@, typed@, *context) is Some,
        ensures
            draft_view(r) == self.drafted(member@, typed@, *context),
    ;
}

/// Reports of one look at a member.
pub open spec fn look(points: Option<usize>, draft: Option<DraftView>) -> Seq<Step> {
    match points {
        Some(n) => seq![Step::Charge(n)] + emitted(draft),
        None => Seq::empty(),
    }
}

impl<L: InspectLens> MemberLens for L {
    open spec fn member_steps(
        &self,
        member: EpisodeView,
        typed: TypedView,
        context: EvalContext,
    ) -> Seq<Step> {
        look(self.inspected(member, typed, context), self.drafted(member, typed, context))
    }

    fn evaluate_member(
        &self,
        member: &EpisodeRefV1,
        typed: &TypedInputs,
        context: &EvalContext,
        sink: &mut FindingSink<'_>,
    ) -> (r: Result<(), LimitHit>) {
        let ghost before = sink@;
        let points: usize = match self.inspect(member, typed, context) {
            Some(points) => points,
            None => {
                return Ok(());
            },
        };
        let ghost tail = emitted(self.drafted(member@, typed@, *context));
        match charge(sink, points) {
            Ok(_) => {},
            Err(hit) => {
                proof {
                    lemma_first_part_refused(
                        before,
                        sink@,
                        seq![Step::Charge(points)],
                        tail,
                        Err(hit),
                    );
                }
                return Err(hit);
            },
        }
        let ghost middle = sink@;
        let r = emit_optional(sink, self.draft(member, typed, context));
        proof {
            lemma_two_parts(before, middle, sink@, seq![Step::Charge(points)], tail, r);
        }
        r
    }
}

} // verus!
