//! What a report is about and what its evidence shows.

use crate::active::shared::{first_member_steps, first_of_section};
use crate::cluster::ClusterView;
use crate::engine::EvalContext;
use crate::evidence::finding::{DraftView, EvidenceView};
use crate::evidence::gauge::MeasurementView;
use crate::float64::Float64;
use crate::inspect::{cluster_steps, members_steps, MemberLens};
use crate::laws::steps::{drafts, lemma_drafts_after_charge, lemma_drafts_concat};
use crate::model::EpisodeView;
use crate::typed::inputs::TypedView;
use vstd::prelude::*;

verus! {

/// Whether a draft is about an episode.
pub open spec fn is_about(draft: DraftView, member: EpisodeView) -> bool {
    draft.scope.logical_section == member.logical_section && draft.scope.column == member.column
        && draft.scope.identity == member.identity
}

/// Whether evidence of a draft shows the ratio of two named amounts.
pub open spec fn shows_ratio(
    draft: DraftView,
    i: int,
    numerator_name: Seq<char>,
    numerator: Float64,
    denominator_name: Seq<char>,
    denominator: Float64,
) -> bool {
    0 <= i < draft.evidence.len() && match draft.evidence[i] {
        EvidenceView::GaugeObservation(gauge) => match gauge.measurement {
            MeasurementView::Ratio {
                numerator_name: a,
                numerator: x,
                denominator_name: b,
                denominator: y,
                ..
            } => a == numerator_name && x == numerator && b == denominator_name && y
                == denominator,
            _ => false,
        },
        _ => false,
    }
}

/// Whether evidence of a draft shows a named amount.
pub open spec fn shows_value(draft: DraftView, i: int, name: Seq<char>, amount: Float64) -> bool {
    0 <= i < draft.evidence.len() && match draft.evidence[i] {
        EvidenceView::GaugeObservation(gauge) => match gauge.measurement {
            MeasurementView::Value { operand, value } => operand == name && value == amount,
            _ => false,
        },
        _ => false,
    }
}

/// Whether the first member of a section is at a place.
pub open spec fn is_first_of(members: Seq<EpisodeView>, section: Seq<char>, at: int) -> bool {
    &&& 0 <= at < members.len()
    &&& members[at].logical_section == section
    &&& forall|j: int| 0 <= j < at ==> (#[trigger] members[j]).logical_section != section
}

pub proof fn lemma_first_of(members: Seq<EpisodeView>, section: Seq<char>, at: int)
    requires
        is_first_of(members, section, at),
    ensures
        first_of_section(members, section) == Some(members[at]),
    decreases members.len(),
{
    if at > 0 {
        let rest = members.drop_first();
        assert(members[0].logical_section != section);
        assert forall|j: int| 0 <= j < at - 1 implies (#[trigger] rest[j]).logical_section
            != section by {
            assert(rest[j] == members[j + 1]);
        }
        assert(rest[at - 1] == members[at]);
        lemma_first_of(rest, section, at - 1);
    }
}

pub proof fn lemma_none_of(members: Seq<EpisodeView>, section: Seq<char>)
    requires
        forall|j: int|
            0 <= j < members.len() ==> (#[trigger] members[j]).logical_section != section,
    ensures
        first_of_section(members, section) is None,
    decreases members.len(),
{
    if members.len() > 0 {
        let rest = members.drop_first();
        assert forall|j: int| 0 <= j < rest.len() implies (#[trigger] rest[j]).logical_section
            != section by {
            assert(rest[j] == members[j + 1]);
        }
        assert(members[0].logical_section != section);
        lemma_none_of(rest, section);
    }
}

/// A lens of the first member drafts what it drafts of that member.
pub proof fn lemma_first_member<L: MemberLens>(
    lens: &L,
    section: Seq<char>,
    cluster: ClusterView,
    typed: TypedView,
    context: EvalContext,
    at: int,
)
    requires
        is_first_of(cluster.members, section, at),
    ensures
        drafts(first_member_steps(lens, section, cluster, typed, context)) == drafts(
            lens.member_steps(cluster.members[at], typed, context),
        ),
{
    lemma_first_of(cluster.members, section, at);
    lemma_drafts_after_charge(
        cluster.members.len() as usize,
        lens.member_steps(cluster.members[at], typed, context),
    );
}

pub proof fn lemma_no_member<L: MemberLens>(
    lens: &L,
    section: Seq<char>,
    cluster: ClusterView,
    typed: TypedView,
    context: EvalContext,
)
    requires
        forall|j: int|
            0 <= j < cluster.members.len() ==> (
            #[trigger] cluster.members[j]).logical_section != section,
    ensures
        drafts(first_member_steps(lens, section, cluster, typed, context)).len() == 0,
{
    lemma_none_of(cluster.members, section);
    lemma_drafts_after_charge(cluster.members.len() as usize, Seq::empty());
}

/// What a lens of all members drafts, member by member.
pub proof fn lemma_each_member<L: MemberLens>(
    lens: &L,
    cluster: ClusterView,
    typed: TypedView,
    context: EvalContext,
    draft: DraftView,
)
    ensures
        drafts(cluster_steps(lens, cluster, typed, context)).contains(draft) <==> exists|k: int|
            0 <= k < cluster.members.len() && drafts(
                lens.member_steps(#[trigger] cluster.members[k], typed, context),
            ).contains(draft),
{
    lemma_drafts_after_charge(
        cluster.members.len() as usize,
        members_steps(lens, cluster.members, typed, context),
    );
    lemma_members(lens, cluster.members, typed, context, draft);
}

proof fn lemma_members<L: MemberLens>(
    lens: &L,
    members: Seq<EpisodeView>,
    typed: TypedView,
    context: EvalContext,
    draft: DraftView,
)
    ensures
        drafts(members_steps(lens, members, typed, context)).contains(draft) <==> exists|k: int|
            0 <= k < members.len() && drafts(
                lens.member_steps(#[trigger] members[k], typed, context),
            ).contains(draft),
    decreases members.len(),
{
    if members.len() > 0 {
        let first = lens.member_steps(members[0], typed, context);
        let rest = members.drop_first();
        let later = members_steps(lens, rest, typed, context);
        lemma_drafts_concat(first, later);
        lemma_members(lens, rest, typed, context, draft);
        let all = drafts(first) + drafts(later);
        if drafts(first).contains(draft) {
            let k = drafts(first).index_of(draft);
            assert(all[k] == draft);
        }
        if drafts(later).contains(draft) {
            let k = drafts(later).index_of(draft);
            assert(all[drafts(first).len() + k] == draft);
            let m = choose|m: int|
                0 <= m < rest.len() && drafts(
                    lens.member_steps(#[trigger] rest[m], typed, context),
                ).contains(draft);
            assert(members[m + 1] == rest[m]);
        }
        if all.contains(draft) {
            let k = all.index_of(draft);
            if k < drafts(first).len() {
                assert(drafts(first)[k] == draft);
            } else {
                assert(drafts(later)[k - drafts(first).len()] == draft);
            }
        }
        if exists|k: int|
            0 <= k < members.len() && drafts(
                lens.member_steps(#[trigger] members[k], typed, context),
            ).contains(draft) {
            let k = choose|k: int|
                0 <= k < members.len() && drafts(
                    lens.member_steps(#[trigger] members[k], typed, context),
                ).contains(draft);
            if k > 0 {
                assert(rest[k - 1] == members[k]);
            }
        }
    }
}

} // verus!
