//! What a draft becomes as a finding.

use crate::evidence::confidence::{Confidence, ConfidenceCap, Role};
use crate::evidence::direct::{DirectEvidenceKind, LockParticipant};
use crate::evidence::finding::{DraftView, EvidenceView, FindingView};
use vstd::prelude::*;

verus! {

/// Whether evidence is a sampled edge between two backends, seen from one side.
pub open spec fn is_edge_of(evidence: EvidenceView, side: LockParticipant) -> bool {
    match evidence {
        EvidenceView::Direct(direct) => match direct.kind {
            DirectEvidenceKind::SampledLockEdge(edge) => edge.participant == side,
            _ => false,
        },
        _ => false,
    }
}

pub open spec fn has_edge_of(draft: DraftView, side: LockParticipant) -> bool {
    exists|i: int| 0 <= i < draft.evidence.len() && is_edge_of(#[trigger] draft.evidence[i], side)
}

pub open spec fn has_direct(draft: DraftView) -> bool {
    exists|i: int| 0 <= i < draft.evidence.len() && #[trigger] draft.evidence[i] is Direct
}

/// Whether a finding is a draft as it is graded: on the same subject and
/// evidence, low without evidence or under a low cap, high only with direct
/// evidence and under a high cap; directed only where an edge or the order of
/// the observations shows the direction.
pub open spec fn is_grade_of(finding: FindingView, draft: DraftView, cap: ConfidenceCap) -> bool {
    &&& finding.scope == draft.scope
    &&& finding.evidence == draft.evidence
    &&& finding.confidence == Confidence::LOW <==> cap == ConfidenceCap::Low
        || draft.evidence.len() == 0
    &&& finding.confidence == Confidence::HIGH <==> cap == ConfidenceCap::High && has_direct(draft)
    &&& finding.role == match draft.requested_role {
        Role::Amplifier => Role::Amplifier,
        Role::Coincident => Role::Coincident,
        Role::Lead => if draft.temporal_direction || has_edge_of(draft, LockParticipant::Blocker) {
            Role::Lead
        } else {
            Role::Coincident
        },
        Role::Downstream => if draft.temporal_direction || has_edge_of(
            draft,
            LockParticipant::Waiter,
        ) {
            Role::Downstream
        } else {
            Role::Coincident
        },
    }
}

/// A finding is its draft, graded.
pub proof fn law_drafts_are_graded(draft: DraftView, lens_id: Seq<char>, cap: ConfidenceCap)
    ensures
        is_grade_of(draft.graded(lens_id, cap), draft, cap),
        draft.graded(lens_id, cap).lens_id == lens_id,
{
    assert forall|i: int| 0 <= i < draft.evidence.len() implies #[trigger] draft.evidence[i].shows(
        Role::Lead,
    ) == is_edge_of(draft.evidence[i], LockParticipant::Blocker) by {}
    assert forall|i: int| 0 <= i < draft.evidence.len() implies #[trigger] draft.evidence[i].shows(
        Role::Downstream,
    ) == is_edge_of(draft.evidence[i], LockParticipant::Waiter) by {}
    if has_edge_of(draft, LockParticipant::Blocker) {
        let i = choose|i: int|
            0 <= i < draft.evidence.len() && is_edge_of(
                #[trigger] draft.evidence[i],
                LockParticipant::Blocker,
            );
        assert(draft.evidence[i].shows(Role::Lead));
    }
    if has_edge_of(draft, LockParticipant::Waiter) {
        let i = choose|i: int|
            0 <= i < draft.evidence.len() && is_edge_of(
                #[trigger] draft.evidence[i],
                LockParticipant::Waiter,
            );
        assert(draft.evidence[i].shows(Role::Downstream));
    }
    if draft.proven() {
        let i = choose|i: int|
            0 <= i < draft.evidence.len() && #[trigger] draft.evidence[i].shows(
                draft.requested_role,
            );
        assert(draft.evidence[i].shows(draft.requested_role));
    }
}

} // verus!
