//! Drafts and costs that the gauge lenses share.

use crate::dispatch::texts;
use crate::engine::EvalContext;
use crate::evidence::confidence::Role;
use crate::evidence::finding::{
    DraftView, Evidence, EvidenceView, FindingDraft, FindingScope, ScopeView,
};
use crate::evidence::gauge::{
    option_view, EntityView, GaugeEntity, GaugeEvidence, GaugeEvidenceView,
};
use crate::model::{clone_identity, EpisodeRefV1, EpisodeView, IdentityValue, IdentityView};
use crate::order::views;
use crate::typed::gauge::{
    capped, extreme_snapshot, paired_reading, slices_view, snapshot_option, total_points,
    GaugeObjective, GaugePoint, GaugeSnapshot, GaugeSnapshotView, PairedGauge,
    MAX_SNAPSHOT_COLUMNS,
};
use crate::typed::inputs::{TypedInputs, TypedView};
use vstd::prelude::*;

verus! {

/// The entity of a member in a section.
pub open spec fn entity_of(section: Seq<char>, identity: Seq<IdentityView>) -> EntityView {
    EntityView { section, identity }
}

/// The entity of an identity in a section.
pub fn entity(section: &'static str, identity: &Vec<IdentityValue>) -> (r: GaugeEntity)
    ensures
        r@ == entity_of(section@, views(identity@)),
{
    GaugeEntity::new(section, clone_identity(identity))
}

/// A draft about an episode with some observations.
pub open spec fn observations_draft(
    role: Role,
    member: EpisodeView,
    evidence: Seq<GaugeEvidenceView>,
) -> DraftView {
    DraftView {
        requested_role: role,
        scope: ScopeView::of_episode(member),
        evidence: Seq::new(
            evidence.len(),
            |i: int| EvidenceView::GaugeObservation(evidence[i]),
        ),
        temporal_direction: false,
    }
}

/// A coincident draft about an episode with one observation.
pub open spec fn observed(member: EpisodeView, evidence: Option<GaugeEvidenceView>) -> Option<
    DraftView,
> {
    match evidence {
        Some(found) => Some(observations_draft(Role::Coincident, member, seq![found])),
        None => None,
    }
}

/// Builds a draft about an episode with some observations.
pub fn draft_observations(role: Role, member: &EpisodeRefV1, evidence: Vec<GaugeEvidence>) -> (r:
    FindingDraft)
    ensures
        r@ == observations_draft(role, member@, views(evidence@)),
{
    let ghost all = views(evidence@);
    let ghost n = evidence.len();
    let mut evidence: Vec<GaugeEvidence> = evidence;
    let mut down: Vec<GaugeEvidence> = Vec::new();
    while evidence.len() > 0
        invariant
            evidence.len() + down.len() == all.len(),
            forall|i: int| 0 <= i < evidence.len() ==> #[trigger] evidence@[i]@ == all[i],
            forall|i: int| 0 <= i < down.len() ==> #[trigger] down@[i]@ == all[all.len() - 1 - i],
        decreases evidence.len(),
    {
        let last: GaugeEvidence = evidence.pop().unwrap();
        down.push(last);
    }
    let mut list: Vec<Evidence> = Vec::new();
    while down.len() > 0
        invariant
            list.len() + down.len() == all.len(),
            forall|i: int| 0 <= i < down.len() ==> #[trigger] down@[i]@ == all[all.len() - 1 - i],
            forall|i: int|
                0 <= i < list.len() ==> #[trigger] list@[i]@ == EvidenceView::GaugeObservation(
                    all[i],
                ),
        decreases down.len(),
    {
        let next: GaugeEvidence = down.pop().unwrap();
        list.push(Evidence::GaugeObservation(next));
    }
    proof {
        assert(views(list@) =~= observations_draft(role, member@, all).evidence);
    }
    FindingDraft::new(role, FindingScope::from_episode(member), list)
}

/// Builds a coincident draft with one observation, if there is one.
pub fn draft_observed(member: &EpisodeRefV1, evidence: Option<GaugeEvidence>) -> (r: Option<
    FindingDraft,
>)
    ensures
        crate::inspect::draft_view(r) == observed(member@, option_view(evidence)),
{
    match evidence {
        Some(found) => {
            let ghost v = found@;
            let mut list: Vec<GaugeEvidence> = Vec::new();
            list.push(found);
            proof {
                assert(views(list@) =~= seq![v]);
            }
            Some(draft_observations(Role::Coincident, member, list))
        },
        None => None,
    }
}

/// Points of two columns within the incident, where both have a window.
pub open spec fn pair_cost(
    typed: TypedView,
    section: Seq<char>,
    identity: Seq<IdentityView>,
    a: Seq<char>,
    b: Seq<char>,
    context: EvalContext,
) -> Option<usize> {
    match (
        typed.gauge_points(
            section,
            a,
            identity,
            context.incident_start_us,
            context.incident_end_us,
        ),
        typed.gauge_points(
            section,
            b,
            identity,
            context.incident_start_us,
            context.incident_end_us,
        ),
    ) {
        (Some(x), Some(y)) => Some(capped(x.len() + y.len())),
        _ => None,
    }
}

pub fn cost_of_pair(
    typed: &TypedInputs,
    section: &'static str,
    identity: &[IdentityValue],
    columns: (&'static str, &'static str),
    context: &EvalContext,
) -> (r: Option<usize>)
    ensures
        r == pair_cost(
            typed@,
            section@,
            views(identity@),
            columns.0@,
            columns.1@,
            *context,
        ),
{
    match typed.paired_gauge_window(
        section,
        identity,
        columns,
        context.incident_start_us,
        context.incident_end_us,
    ) {
        Some(window) => Some(window.inspected_points()),
        None => None,
    }
}

/// The worst pair of two columns within the incident.
pub open spec fn worst_pair(
    typed: TypedView,
    section: Seq<char>,
    identity: Seq<IdentityView>,
    a: Seq<char>,
    b: Seq<char>,
    context: EvalContext,
    objective: GaugeObjective,
) -> Option<PairedGauge> {
    match (
        typed.gauge_points(
            section,
            a,
            identity,
            context.incident_start_us,
            context.incident_end_us,
        ),
        typed.gauge_points(
            section,
            b,
            identity,
            context.incident_start_us,
            context.incident_end_us,
        ),
    ) {
        (Some(x), Some(y)) => paired_reading(
            x,
            y,
            context.incident_start_us,
            context.incident_end_us,
            objective,
        ),
        _ => None,
    }
}

pub fn read_pair(
    typed: &TypedInputs,
    section: &'static str,
    identity: &[IdentityValue],
    columns: (&'static str, &'static str),
    context: &EvalContext,
    objective: GaugeObjective,
) -> (r: Option<PairedGauge>)
    ensures
        r == worst_pair(
            typed@,
            section@,
            views(identity@),
            columns.0@,
            columns.1@,
            *context,
            objective,
        ),
{
    typed.paired_gauge(
        section,
        identity,
        columns,
        context.incident_start_us,
        context.incident_end_us,
        objective,
    )
}

/// The windows of several columns within the incident.
pub open spec fn snapshot_tracks(
    typed: TypedView,
    section: Seq<char>,
    identity: Seq<IdentityView>,
    columns: Seq<Seq<char>>,
    context: EvalContext,
) -> Option<Seq<Seq<GaugePoint>>> {
    if columns.len() == 0 || columns.len() > MAX_SNAPSHOT_COLUMNS {
        None
    } else {
        typed.gauge_columns(
            section,
            identity,
            columns,
            context.incident_start_us,
            context.incident_end_us,
        )
    }
}

/// Points of several columns within the incident, where all have a window.
pub open spec fn snapshot_cost(
    typed: TypedView,
    section: Seq<char>,
    identity: Seq<IdentityView>,
    columns: Seq<Seq<char>>,
    context: EvalContext,
) -> Option<usize> {
    match snapshot_tracks(typed, section, identity, columns, context) {
        Some(tracks) => Some(capped(total_points(tracks))),
        None => None,
    }
}

pub fn cost_of_snapshot(
    typed: &TypedInputs,
    section: &'static str,
    identity: &[IdentityValue],
    columns: &[&'static str],
    context: &EvalContext,
) -> (r: Option<usize>)
    ensures
        r == snapshot_cost(typed@, section@, views(identity@), texts(columns@), *context),
{
    match typed.gauge_snapshot_window(
        section,
        identity,
        columns,
        context.incident_start_us,
        context.incident_end_us,
    ) {
        Some(window) => Some(window.inspected_points()),
        None => None,
    }
}

/// The snapshot of several columns at which the first one is worst.
pub open spec fn worst_snapshot(
    typed: TypedView,
    section: Seq<char>,
    identity: Seq<IdentityView>,
    columns: Seq<Seq<char>>,
    context: EvalContext,
    maximize: bool,
) -> Option<GaugeSnapshotView> {
    match snapshot_tracks(typed, section, identity, columns, context) {
        Some(tracks) => extreme_snapshot(
            tracks,
            context.incident_start_us,
            context.incident_end_us,
            0,
            maximize,
        ),
        None => None,
    }
}

pub fn read_snapshot(
    typed: &TypedInputs,
    section: &'static str,
    identity: &[IdentityValue],
    columns: &[&'static str],
    context: &EvalContext,
    maximize: bool,
) -> (r: Option<GaugeSnapshot>)
    ensures
        snapshot_option(r) == worst_snapshot(
            typed@,
            section@,
            views(identity@),
            texts(columns@),
            *context,
            maximize,
        ),
        r matches Some(snapshot) ==> snapshot.values.len() == columns.len(),
{
    match typed.gauge_snapshot_window(
        section,
        identity,
        columns,
        context.incident_start_us,
        context.incident_end_us,
    ) {
        Some(window) => {
            proof {
                assert(slices_view(window.tracks@).len() == texts(columns@).len());
            }
            window.extreme(0, maximize)
        },
        None => None,
    }
}

} // verus!
