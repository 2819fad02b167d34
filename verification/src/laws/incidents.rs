//! What an incident reports: everything that its lenses draft on its whole
//! window, and nothing else.

use crate::cluster::{clustered, ClusterView};
use crate::dispatch::{present_reads, reads};
use crate::engine::{
    analysis, cluster_pass, context_of, dispatched, fresh_scan, law_incidents_follow_the_clusters,
    scan_all, scanned, sections, ConfigView, EvalContext, IncidentView, Pass, Scan,
};
use crate::evidence::finding::{DraftView, FindingView};
use crate::evidence::sink::{OutputLimits, SinkRules, Step};
use crate::laws::clustering::law_a_cluster_spans_its_members;
use crate::laws::grading::{is_grade_of, law_drafts_are_graded};
use crate::lens::Lens;
use crate::load::{
    lemma_dispatched_load, lemma_pass_load, lemma_shares_without, run_load, scan_unhindered, share,
    shares, Scene,
};
use crate::model::EpisodeView;
use crate::order::lemma_ranked_sort;
use crate::series::SeriesSetView;
use crate::typed::inputs::TypedView;
use vstd::multiset::Multiset;
use vstd::prelude::*;

verus! {

/// An incident as the lenses see it: its members and its interval.
pub open spec fn scene_of(
    incident: IncidentView,
    series: SeriesSetView,
    typed: TypedView,
    config: ConfigView,
) -> Scene {
    Scene {
        cluster: ClusterView {
            start_us: incident.start_us,
            end_us: incident.end_us,
            members: incident.members,
        },
        series,
        typed,
        context: EvalContext {
            incident_start_us: incident.start_us,
            incident_end_us: incident.end_us,
            clock_relation: config.clock_relation,
        },
    }
}

/// Whether a fully evaluated incident holds what its lenses draft on it.
spec fn told(
    incident: IncidentView,
    lenses: Seq<&dyn Lens>,
    series: SeriesSetView,
    typed: TypedView,
    config: ConfigView,
) -> bool {
    incident.evaluation_complete ==> incident.findings.to_multiset() == shares(
        lenses,
        scene_of(incident, series, typed, config),
        config.limits,
    ).findings
}

proof fn lemma_scan_tells_all(
    scan: Scan,
    clusters: Seq<ClusterView>,
    lenses: Seq<&dyn Lens>,
    series: SeriesSetView,
    typed: TypedView,
    config: ConfigView,
)
    requires
        lenses.len() <= usize::MAX,
        !scan.stopped ==> scan_unhindered(scan, config),
        scan_all(scan, clusters, lenses, series, typed, config) is Ok,
        forall|i: int|
            0 <= i < scan.incidents.len() ==> told(
                #[trigger] scan.incidents[i],
                lenses,
                series,
                typed,
                config,
            ),
    ensures
        forall|i: int|
            0 <= i < scan_all(
                scan,
                clusters,
                lenses,
                series,
                typed,
                config,
            )->Ok_0.incidents.len() ==> told(
                #[trigger] scan_all(
                    scan,
                    clusters,
                    lenses,
                    series,
                    typed,
                    config,
                )->Ok_0.incidents[i],
                lenses,
                series,
                typed,
                config,
            ),
    decreases clusters.len(),
{
    if clusters.len() > 0 && !scan.stopped {
        let first = clusters[0];
        let next = scanned(scan, first, lenses, series, typed, config)->Ok_0;
        let pass = cluster_pass(scan, first, lenses, series, typed, config);
        let incident = next.incidents.last();
        if pass.skip is None {
            let scene = scene_of(incident, series, typed, config);
            let fresh = Pass {
                findings: Seq::empty(),
                budget: scan.budget,
                counts: scan.counts,
                evaluations: scan.evaluations,
                skip: None,
            };
            assert(scene.cluster == first);
            assert(scene.context == context_of(first, config));
            let order = dispatched(lenses, sections(first.members), lenses.len());
            lemma_dispatched_load(lenses, scene, config.limits);
            lemma_pass_load(fresh, lenses, order, scene, config);
            lemma_ranked_sort(pass.findings);
            let load = shares(lenses, scene, config.limits);
            assert(fresh.findings.to_multiset() =~= Multiset::empty()) by {
                fresh.findings.to_multiset_ensures();
            }
            assert(Multiset::<FindingView>::empty().add(load.findings) =~= load.findings);
            assert(told(incident, lenses, series, typed, config));
        }
        assert forall|i: int| 0 <= i < next.incidents.len() implies told(
            #[trigger] next.incidents[i],
            lenses,
            series,
            typed,
            config,
        ) by {
            if i < scan.incidents.len() {
                assert(next.incidents[i] == scan.incidents[i]);
            }
        }
        lemma_scan_tells_all(next, clusters.drop_first(), lenses, series, typed, config);
    }
}

pub proof fn lemma_report_loaded(rules: SinkRules, steps: Seq<Step>, k: int, draft: DraftView)
    requires
        0 <= k < steps.len(),
        steps[k] == Step::Emit(draft),
    ensures
        run_load(rules, steps).findings.count(draft.graded(rules.lens_id, rules.cap)) > 0,
    decreases steps.len(),
{
    if k > 0 {
        assert(steps.drop_first()[k - 1] == steps[k]);
        lemma_report_loaded(rules, steps.drop_first(), k - 1, draft);
    }
}

pub proof fn lemma_loaded_reported(rules: SinkRules, steps: Seq<Step>, finding: FindingView) -> (found:
    (int, DraftView))
    requires
        run_load(rules, steps).findings.count(finding) > 0,
    ensures
        0 <= found.0 < steps.len(),
        steps[found.0] == Step::Emit(found.1),
        finding == found.1.graded(rules.lens_id, rules.cap),
    decreases steps.len(),
{
    let rest = steps.drop_first();
    if run_load(rules, rest).findings.count(finding) > 0 {
        let (k, draft) = lemma_loaded_reported(rules, rest, finding);
        assert(rest[k] == steps[k + 1]);
        (k + 1, draft)
    } else {
        match steps[0] {
            Step::Emit(draft) => (0, draft),
            Step::Charge(_) => (0, arbitrary()),
        }
    }
}

proof fn lemma_share_found(
    lenses: Seq<&dyn Lens>,
    scene: Scene,
    limits: OutputLimits,
    finding: FindingView,
) -> (k: int)
    requires
        shares(lenses, scene, limits).findings.count(finding) > 0,
    ensures
        0 <= k < lenses.len(),
        share(lenses, k, scene, limits).findings.count(finding) > 0,
    decreases lenses.len(),
{
    let last = lenses.len() - 1;
    if share(lenses, last, scene, limits).findings.count(finding) > 0 {
        last
    } else {
        let k = lemma_share_found(lenses.drop_last(), scene, limits, finding);
        assert(lenses.drop_last()[k] == lenses[k]);
        k
    }
}

proof fn lemma_told(
    episodes: Seq<EpisodeView>,
    series: SeriesSetView,
    typed: TypedView,
    lenses: Seq<&dyn Lens>,
    config: ConfigView,
    i: int,
)
    requires
        analysis(episodes, series, typed, lenses, config) is Ok,
        lenses.len() <= usize::MAX,
        0 <= i < analysis(episodes, series, typed, lenses, config)->Ok_0.incidents.len(),
    ensures
        told(
            analysis(episodes, series, typed, lenses, config)->Ok_0.incidents[i],
            lenses,
            series,
            typed,
            config,
        ),
{
    let found = clustered(episodes, config.epsilon_us, config.max_cluster_span_us).clusters;
    lemma_scan_tells_all(fresh_scan(config), found, lenses, series, typed, config);
}

/// The interval of an incident is that of its members together, from the
/// earliest start to the latest end.
pub proof fn law_an_incident_spans_its_members(
    episodes: Seq<EpisodeView>,
    series: SeriesSetView,
    typed: TypedView,
    lenses: Seq<&dyn Lens>,
    config: ConfigView,
    i: int,
)
    requires
        analysis(episodes, series, typed, lenses, config) is Ok,
        0 <= i < analysis(episodes, series, typed, lenses, config)->Ok_0.incidents.len(),
    ensures
        ({
            let incident = analysis(episodes, series, typed, lenses, config)->Ok_0.incidents[i];
            &&& forall|k: int|
                0 <= k < incident.members.len() ==> incident.start_us <= (
                #[trigger] incident.members[k]).start_us && incident.members[k].end_us
                    <= incident.end_us
            &&& exists|k: int|
                0 <= k < incident.members.len() && (#[trigger] incident.members[k]).start_us
                    == incident.start_us
            &&& exists|k: int|
                0 <= k < incident.members.len() && (#[trigger] incident.members[k]).end_us
                    == incident.end_us
        }),
{
    law_incidents_follow_the_clusters(episodes, series, typed, lenses, config);
    let incident = analysis(episodes, series, typed, lenses, config)->Ok_0.incidents[i];
    law_a_cluster_spans_its_members(
        episodes,
        config.epsilon_us,
        config.max_cluster_span_us,
        i,
    );
}

/// A fully evaluated incident reports everything that a lens drafts on it. The
/// lens is one that reads the section of a member, and it is evaluated on the
/// members and on the window of the whole incident, from its start to its end.
pub proof fn law_what_is_drafted_on_an_incident_is_reported(
    episodes: Seq<EpisodeView>,
    series: SeriesSetView,
    typed: TypedView,
    lenses: Seq<&dyn Lens>,
    config: ConfigView,
    i: int,
    lens: int,
    input: int,
    member: int,
    step: int,
    draft: DraftView,
)
    requires
        analysis(episodes, series, typed, lenses, config) is Ok,
        lenses.len() <= usize::MAX,
        0 <= i < analysis(episodes, series, typed, lenses, config)->Ok_0.incidents.len(),
        ({
            let incident = analysis(episodes, series, typed, lenses, config)->Ok_0.incidents[i];
            let steps = lenses[lens].steps(
                ClusterView {
                    start_us: incident.start_us,
                    end_us: incident.end_us,
                    members: incident.members,
                },
                series,
                typed,
                EvalContext {
                    incident_start_us: incident.start_us,
                    incident_end_us: incident.end_us,
                    clock_relation: config.clock_relation,
                },
            );
            &&& incident.evaluation_complete
            &&& 0 <= lens < lenses.len()
            &&& 0 <= input < lenses[lens].input_list().len()
            &&& 0 <= member < incident.members.len()
            &&& lenses[lens].input_list()[input].section@
                == incident.members[member].logical_section
            &&& 0 <= step < steps.len()
            &&& steps[step] == Step::Emit(draft)
        }),
    ensures
        exists|j: int| #[trigger]
            is_report_of(
                analysis(episodes, series, typed, lenses, config)->Ok_0.incidents[i],
                j,
                lenses,
                lens,
                draft,
            ),
{
    lemma_told(episodes, series, typed, lenses, config, i);
    let incident = analysis(episodes, series, typed, lenses, config)->Ok_0.incidents[i];
    let scene = scene_of(incident, series, typed, config);
    let present = sections(incident.members);
    assert(present[member] == incident.members[member].logical_section);
    assert(reads(lenses[lens].input_list(), present[member]));
    assert(present_reads(lenses[lens].input_list(), present));
    let rules = SinkRules {
        limits: config.limits,
        lens_id: lenses[lens].id_text(),
        cap: lenses[lens].cap(),
    };
    let steps = lenses[lens].steps(scene.cluster, series, typed, scene.context);
    lemma_report_loaded(rules, steps, step, draft);
    let finding = draft.graded(rules.lens_id, rules.cap);
    law_drafts_are_graded(draft, rules.lens_id, rules.cap);
    lemma_shares_without(lenses, lens, scene, config.limits);
    assert(incident.findings.to_multiset().count(finding) > 0);
    incident.findings.to_multiset_ensures();
    assert(incident.findings.contains(finding));
    let j = incident.findings.index_of(finding);
    assert(is_report_of(incident, j, lenses, lens, draft));
}

/// Whether a finding of an incident is what a lens drafted, graded under the id
/// and the cap of the lens.
pub open spec fn is_report_of(
    incident: IncidentView,
    j: int,
    lenses: Seq<&dyn Lens>,
    lens: int,
    draft: DraftView,
) -> bool {
    &&& 0 <= j < incident.findings.len()
    &&& incident.findings[j].lens_id == lenses[lens].id_text()
    &&& is_grade_of(incident.findings[j], draft, lenses[lens].cap())
}

/// Whether a finding of an incident was drafted by a lens that reads a section
/// of the incident, on the members and on the window of the whole incident.
pub open spec fn was_drafted(
    incident: IncidentView,
    j: int,
    series: SeriesSetView,
    typed: TypedView,
    lenses: Seq<&dyn Lens>,
    config: ConfigView,
    lens: int,
    step: int,
    draft: DraftView,
) -> bool {
    let steps = lenses[lens].steps(
        ClusterView {
            start_us: incident.start_us,
            end_us: incident.end_us,
            members: incident.members,
        },
        series,
        typed,
        EvalContext {
            incident_start_us: incident.start_us,
            incident_end_us: incident.end_us,
            clock_relation: config.clock_relation,
        },
    );
    &&& 0 <= lens < lenses.len()
    &&& exists|input: int, member: int|
        0 <= input < lenses[lens].input_list().len() && 0 <= member < incident.members.len()
            && #[trigger] lenses[lens].input_list()[input].section@ == (
        #[trigger] incident.members[member]).logical_section
    &&& 0 <= step < steps.len()
    &&& steps[step] == Step::Emit(draft)
    &&& is_report_of(incident, j, lenses, lens, draft)
}

/// A fully evaluated incident reports nothing else.
pub proof fn law_what_is_reported_was_drafted_on_the_incident(
    episodes: Seq<EpisodeView>,
    series: SeriesSetView,
    typed: TypedView,
    lenses: Seq<&dyn Lens>,
    config: ConfigView,
    i: int,
    j: int,
)
    requires
        analysis(episodes, series, typed, lenses, config) is Ok,
        lenses.len() <= usize::MAX,
        0 <= i < analysis(episodes, series, typed, lenses, config)->Ok_0.incidents.len(),
        analysis(episodes, series, typed, lenses, config)->Ok_0.incidents[i].evaluation_complete,
        0 <= j < analysis(
            episodes,
            series,
            typed,
            lenses,
            config,
        )->Ok_0.incidents[i].findings.len(),
    ensures
        exists|lens: int, step: int, draft: DraftView| #[trigger]
            was_drafted(
                analysis(episodes, series, typed, lenses, config)->Ok_0.incidents[i],
                j,
                series,
                typed,
                lenses,
                config,
                lens,
                step,
                draft,
            ),
{
    lemma_told(episodes, series, typed, lenses, config, i);
    let incident = analysis(episodes, series, typed, lenses, config)->Ok_0.incidents[i];
    let finding = incident.findings[j];
    let scene = scene_of(incident, series, typed, config);
    incident.findings.to_multiset_ensures();
    assert(incident.findings.contains(finding));
    assert(incident.findings.to_multiset().count(finding) > 0);
    let lens = lemma_share_found(lenses, scene, config.limits, finding);
    let rules = SinkRules {
        limits: config.limits,
        lens_id: lenses[lens].id_text(),
        cap: lenses[lens].cap(),
    };
    let steps = lenses[lens].steps(scene.cluster, series, typed, scene.context);
    let present = sections(incident.members);
    assert(present_reads(lenses[lens].input_list(), present));
    let member = choose|k: int|
        0 <= k < present.len() && reads(lenses[lens].input_list(), #[trigger] present[k]);
    assert(reads(lenses[lens].input_list(), present[member]));
    assert(exists|input: int|
        0 <= input < lenses[lens].input_list().len() && (
        #[trigger] lenses[lens].input_list()[input]).section@ == present[member]);
    let input = choose|input: int|
        0 <= input < lenses[lens].input_list().len() && (
        #[trigger] lenses[lens].input_list()[input]).section@ == present[member];
    assert(lenses[lens].input_list()[input].section@ == incident.members[member].logical_section);
    let (step, draft) = lemma_loaded_reported(rules, steps, finding);
    law_drafts_are_graded(draft, rules.lens_id, rules.cap);
    assert(was_drafted(incident, j, series, typed, lenses, config, lens, step, draft));
}

} // verus!
