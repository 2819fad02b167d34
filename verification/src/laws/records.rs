//! What an analysis of log records finds: what its lenses draft, and nothing
//! else.

use crate::events::{
    event_analysis, event_passes, fresh_event_pass, EventConfig, EventLens, EventsView,
};
use crate::evidence::finding::{DraftView, FindingView};
use crate::evidence::sink::{OutputLimits, SinkRules, Step};
use crate::laws::grading::{is_grade_of, law_drafts_are_graded};
use crate::laws::incidents::{lemma_loaded_reported, lemma_report_loaded};
use crate::load::{event_load, event_loads, lemma_event_pass_load, run_load};
use crate::order::lemma_ranked_sort;
use vstd::multiset::Multiset;
use vstd::prelude::*;

verus! {

/// Whether a finding is what a lens drafts of the records.
pub open spec fn is_found(
    finding: FindingView,
    events: EventsView,
    lenses: Seq<&dyn EventLens>,
    lens: int,
    step: int,
    draft: DraftView,
) -> bool {
    &&& 0 <= lens < lenses.len()
    &&& 0 <= step < lenses[lens].event_steps(events).len()
    &&& lenses[lens].event_steps(events)[step] == Step::Emit(draft)
    &&& finding.lens_id == lenses[lens].id_text()
    &&& is_grade_of(finding, draft, lenses[lens].cap())
}

proof fn lemma_outcome(events: EventsView, lenses: Seq<&dyn EventLens>, config: EventConfig)
    requires
        event_analysis(events, lenses, config) is Ok,
        event_analysis(events, lenses, config)->Ok_0.skipped.len() == 0,
    ensures
        event_analysis(events, lenses, config)->Ok_0.findings.to_multiset() == event_loads(
            lenses,
            0,
            events,
            config.limits(),
        ).findings,
{
    let fresh = fresh_event_pass(config);
    lemma_event_pass_load(fresh, lenses, 0, events, config);
    let pass = event_passes(fresh, lenses, 0, events, config);
    let load = event_loads(lenses, 0, events, config.limits());
    lemma_ranked_sort(pass.findings);
    fresh.findings.to_multiset_ensures();
    assert(fresh.findings.to_multiset() =~= Multiset::empty());
    assert(Multiset::<FindingView>::empty().add(load.findings) =~= load.findings);
}

proof fn lemma_load_counted(
    lenses: Seq<&dyn EventLens>,
    at: nat,
    events: EventsView,
    limits: OutputLimits,
    lens: int,
    finding: FindingView,
)
    requires
        at <= lens < lenses.len(),
        run_load(
            SinkRules { limits, lens_id: lenses[lens].id_text(), cap: lenses[lens].cap() },
            lenses[lens].event_steps(events),
        ).findings.count(finding) > 0,
    ensures
        event_loads(lenses, at, events, limits).findings.count(finding) > 0,
    decreases lenses.len() - at,
{
    if at < lens {
        lemma_load_counted(lenses, at + 1, events, limits, lens, finding);
    }
}

proof fn lemma_load_found(
    lenses: Seq<&dyn EventLens>,
    at: nat,
    events: EventsView,
    limits: OutputLimits,
    finding: FindingView,
) -> (lens: int)
    requires
        event_loads(lenses, at, events, limits).findings.count(finding) > 0,
    ensures
        at <= lens < lenses.len(),
        run_load(
            SinkRules { limits, lens_id: lenses[lens].id_text(), cap: lenses[lens].cap() },
            lenses[lens].event_steps(events),
        ).findings.count(finding) > 0,
    decreases lenses.len() - at,
{
    if event_load(lenses, at as int, events, limits).findings.count(finding) > 0 {
        at as int
    } else {
        lemma_load_found(lenses, at + 1, events, limits, finding)
    }
}

/// An analysis that skips nothing finds everything that a lens drafts of the
/// records.
pub proof fn law_what_records_tell_is_found(
    events: EventsView,
    lenses: Seq<&dyn EventLens>,
    config: EventConfig,
    lens: int,
    step: int,
    draft: DraftView,
)
    requires
        event_analysis(events, lenses, config) is Ok,
        event_analysis(events, lenses, config)->Ok_0.skipped.len() == 0,
        0 <= lens < lenses.len(),
        0 <= step < lenses[lens].event_steps(events).len(),
        lenses[lens].event_steps(events)[step] == Step::Emit(draft),
    ensures
        exists|j: int|
            0 <= j < event_analysis(events, lenses, config)->Ok_0.findings.len() && is_found(
                #[trigger] event_analysis(events, lenses, config)->Ok_0.findings[j],
                events,
                lenses,
                lens,
                step,
                draft,
            ),
{
    let rules = SinkRules {
        limits: config.limits(),
        lens_id: lenses[lens].id_text(),
        cap: lenses[lens].cap(),
    };
    let finding = draft.graded(rules.lens_id, rules.cap);
    let out = event_analysis(events, lenses, config)->Ok_0;
    lemma_outcome(events, lenses, config);
    lemma_report_loaded(rules, lenses[lens].event_steps(events), step, draft);
    lemma_load_counted(lenses, 0, events, config.limits(), lens, finding);
    law_drafts_are_graded(draft, rules.lens_id, rules.cap);
    out.findings.to_multiset_ensures();
    assert(out.findings.contains(finding));
    let j = out.findings.index_of(finding);
    assert(is_found(out.findings[j], events, lenses, lens, step, draft));
}

/// An analysis that skips nothing finds nothing else.
pub proof fn law_what_is_found_the_records_tell(
    events: EventsView,
    lenses: Seq<&dyn EventLens>,
    config: EventConfig,
    j: int,
)
    requires
        event_analysis(events, lenses, config) is Ok,
        event_analysis(events, lenses, config)->Ok_0.skipped.len() == 0,
        0 <= j < event_analysis(events, lenses, config)->Ok_0.findings.len(),
    ensures
        exists|lens: int, step: int, draft: DraftView| #[trigger]
            is_found(
                event_analysis(events, lenses, config)->Ok_0.findings[j],
                events,
                lenses,
                lens,
                step,
                draft,
            ),
{
    let out = event_analysis(events, lenses, config)->Ok_0;
    let finding = out.findings[j];
    lemma_outcome(events, lenses, config);
    out.findings.to_multiset_ensures();
    assert(out.findings.contains(finding));
    assert(out.findings.to_multiset().count(finding) > 0);
    let lens = lemma_load_found(lenses, 0, events, config.limits(), finding);
    let rules = SinkRules {
        limits: config.limits(),
        lens_id: lenses[lens].id_text(),
        cap: lenses[lens].cap(),
    };
    let (step, draft) = lemma_loaded_reported(
        rules,
        lenses[lens].event_steps(events),
        finding,
    );
    law_drafts_are_graded(draft, rules.lens_id, rules.cap);
    assert(is_found(finding, events, lenses, lens, step, draft));
}

} // verus!
