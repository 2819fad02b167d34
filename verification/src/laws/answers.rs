//! What a request is answered, and at what cost.

use crate::cluster::{clustered, ClusterView};
use crate::dispatch::BudgetView;
use crate::engine::{
    analysis, fresh_scan, law_findings_are_ordered, scan_all, scanned, ConfigView, FailureView,
    IncidentView, Scan,
};
use crate::evidence::confidence::{Confidence, Role};
use crate::evidence::finding::{DraftView, FindingView};
use crate::evidence::sink::{SinkRules, SinkState};
use crate::lens::Lens;
use crate::model::EpisodeView;
use crate::order::{lemma_ranked_sort, lex_le, lex_less, rank_order, Ranked};
use crate::series::SeriesSetView;
use crate::typed::inputs::TypedView;
use vstd::prelude::*;

verus! {

/// Whether an incident is keyed by its own node, interval and members.
pub open spec fn is_keyed(incident: IncidentView, config: ConfigView) -> bool {
    &&& incident.key.node_self_id == config.node_self_id
    &&& incident.key.start_us == incident.start_us
    &&& incident.key.end_us == incident.end_us
    &&& incident.key.members.to_multiset() == incident.members.to_multiset()
}

proof fn lemma_keyed(
    scan: Scan,
    clusters: Seq<ClusterView>,
    lenses: Seq<&dyn Lens>,
    series: SeriesSetView,
    typed: TypedView,
    config: ConfigView,
)
    requires
        scan_all(scan, clusters, lenses, series, typed, config) is Ok,
        forall|i: int|
            0 <= i < scan.incidents.len() ==> is_keyed(#[trigger] scan.incidents[i], config),
    ensures
        forall|i: int|
            0 <= i < scan_all(
                scan,
                clusters,
                lenses,
                series,
                typed,
                config,
            )->Ok_0.incidents.len() ==> is_keyed(
                #[trigger] scan_all(
                    scan,
                    clusters,
                    lenses,
                    series,
                    typed,
                    config,
                )->Ok_0.incidents[i],
                config,
            ),
    decreases clusters.len(),
{
    if clusters.len() > 0 && !scan.stopped {
        let next = scanned(scan, clusters[0], lenses, series, typed, config)->Ok_0;
        lemma_ranked_sort(clusters[0].members);
        assert forall|i: int| 0 <= i < next.incidents.len() implies is_keyed(
            #[trigger] next.incidents[i],
            config,
        ) by {
            if i < scan.incidents.len() {
                assert(next.incidents[i] == scan.incidents[i]);
            }
        }
        lemma_keyed(next, clusters.drop_first(), lenses, series, typed, config);
    }
}

/// Every incident is keyed by its own node, interval and members.
pub proof fn law_an_incident_is_keyed_by_what_it_is(
    episodes: Seq<EpisodeView>,
    series: SeriesSetView,
    typed: TypedView,
    lenses: Seq<&dyn Lens>,
    config: ConfigView,
    i: int,
)
    requires
        analysis(episodes, series, typed, lenses, config) is Ok,
        0 <= i < analysis(episodes, series, typed, lenses, config)->Ok_0.incidents.len(),
    ensures
        is_keyed(analysis(episodes, series, typed, lenses, config)->Ok_0.incidents[i], config),
{
    let found = clustered(episodes, config.epsilon_us, config.max_cluster_span_us).clusters;
    lemma_keyed(fresh_scan(config), found, lenses, series, typed, config);
}

/// A request without a node is refused, then one with too many episodes, then
/// one with too many clusters; the answer names the limit.
pub proof fn law_requests_beyond_their_limits_are_refused(
    episodes: Seq<EpisodeView>,
    series: SeriesSetView,
    typed: TypedView,
    lenses: Seq<&dyn Lens>,
    config: ConfigView,
)
    requires
        episodes.len() <= usize::MAX,
    ensures
        ({
            let out = analysis(episodes, series, typed, lenses, config);
            &&& config.node_self_id.len() == 0 <==> out is Err && out->Err_0
                is MissingNodeIdentity
            &&& (config.node_self_id.len() > 0 && episodes.len() > config.max_episodes)
                <==> out is Err && out->Err_0 is EpisodeLimit
            &&& out matches Err(FailureView::EpisodeLimit { observed, limit }) ==> observed
                == episodes.len() && limit == config.max_episodes
            &&& out matches Err(FailureView::ClusterLimit { limit, .. }) ==> limit
                == config.max_clusters
            &&& out is Ok ==> episodes.len() <= config.max_episodes && clustered(
                episodes,
                config.epsilon_us,
                config.max_cluster_span_us,
            ).clusters.len() <= config.max_clusters
        }),
{
    let found = clustered(episodes, config.epsilon_us, config.max_cluster_span_us).clusters;
    lemma_scan_failures(fresh_scan(config), found, lenses, series, typed, config);
}

proof fn lemma_scan_failures(
    scan: Scan,
    clusters: Seq<ClusterView>,
    lenses: Seq<&dyn Lens>,
    series: SeriesSetView,
    typed: TypedView,
    config: ConfigView,
)
    ensures
        scan_all(scan, clusters, lenses, series, typed, config) matches Err(failure) ==> failure
            is Key || failure is KeyBudget,
    decreases clusters.len(),
{
    if clusters.len() > 0 && !scan.stopped {
        if let Ok(next) = scanned(scan, clusters[0], lenses, series, typed, config) {
            lemma_scan_failures(next, clusters.drop_first(), lenses, series, typed, config);
        }
    }
}

/// How sure a finding is, as a number.
pub open spec fn sureness(finding: FindingView) -> int {
    match finding.confidence {
        Confidence::HIGH => 2,
        Confidence::MEDIUM => 1,
        Confidence::LOW => 0,
    }
}

/// The place of a role: what leads, what amplifies, what follows, what
/// coincides.
pub open spec fn role_place(finding: FindingView) -> int {
    match finding.role {
        Role::Lead => 0,
        Role::Amplifier => 1,
        Role::Downstream => 2,
        Role::Coincident => 3,
    }
}

/// The findings of an incident come the surest first; of equally sure ones those
/// that lead, then those that amplify, follow and coincide.
pub proof fn law_the_surest_findings_come_first(
    episodes: Seq<EpisodeView>,
    series: SeriesSetView,
    typed: TypedView,
    lenses: Seq<&dyn Lens>,
    config: ConfigView,
    i: int,
    j: int,
    k: int,
)
    requires
        analysis(episodes, series, typed, lenses, config) is Ok,
        0 <= i < analysis(episodes, series, typed, lenses, config)->Ok_0.incidents.len(),
        0 <= j < k < analysis(
            episodes,
            series,
            typed,
            lenses,
            config,
        )->Ok_0.incidents[i].findings.len(),
    ensures
        ({
            let findings = analysis(
                episodes,
                series,
                typed,
                lenses,
                config,
            )->Ok_0.incidents[i].findings;
            &&& sureness(findings[j]) >= sureness(findings[k])
            &&& sureness(findings[j]) == sureness(findings[k]) ==> role_place(findings[j])
                <= role_place(findings[k])
        }),
{
    let findings = analysis(
        episodes,
        series,
        typed,
        lenses,
        config,
    )->Ok_0.incidents[i].findings;
    law_findings_are_ordered(episodes, series, typed, lenses, config, i);
    let leq = rank_order::<FindingView>();
    assert(leq(findings[j], findings[k]));
    let a = findings[j].rank();
    let b = findings[k].rank();
    reveal_with_fuel(lex_less, 3);
    assert(lex_le(a, b));
    assert(a[0] == 2 - sureness(findings[j]) && a[1] == role_place(findings[j]));
    assert(b[0] == 2 - sureness(findings[k]) && b[1] == role_place(findings[k]));
    assert(a.drop_first()[0] == a[1] && b.drop_first()[0] == b[1]);
}

/// A charge is granted exactly if it fits in what is left and nothing was
/// refused before; a refusal spends nothing and is for good.
pub proof fn law_a_charge_is_granted_if_it_fits(budget: BudgetView, units: u64, later: u64)
    requires
        budget.spent <= budget.limit,
    ensures
        ({
            let after = budget.charged(units);
            &&& after.limit == budget.limit
            &&& !budget.exhausted && units <= budget.limit - budget.spent ==> after.spent
                == budget.spent + units && !after.exhausted
            &&& budget.exhausted || units > budget.limit - budget.spent ==> after.spent
                == budget.spent && after.exhausted && after.charged(later) == after
        }),
{
}

/// A draft that fits is kept, graded, as the last finding. It costs one unit of
/// work for each piece of its evidence, and counts as one finding and as many
/// rows.
pub proof fn law_a_draft_costs_its_evidence(state: SinkState, rules: SinkRules, draft: DraftView)
    requires
        state.hit is None,
        state.emitted(rules, draft).hit is None,
        state.counts.findings < u64::MAX,
        state.counts.evidence_rows + draft.evidence.len() < u64::MAX,
        rules.limits.output_bytes < u64::MAX,
        state.budget.spent <= state.budget.limit,
    ensures
        ({
            let next = state.emitted(rules, draft);
            &&& next.findings == state.findings.push(draft.graded(rules.lens_id, rules.cap))
            &&& next.budget.spent == state.budget.spent + draft.evidence.len()
            &&& next.budget.limit == state.budget.limit
            &&& !next.budget.exhausted
            &&& next.counts.findings == state.counts.findings + 1 <= rules.limits.findings
            &&& next.counts.evidence_rows == state.counts.evidence_rows + draft.evidence.len()
                <= rules.limits.evidence_rows
            &&& next.counts.output_bytes == state.counts.output_bytes + draft.output_bytes(
                rules.lens_id,
            ) <= rules.limits.output_bytes
        }),
{
}

} // verus!
