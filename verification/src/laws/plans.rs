//! Which plans are reported as new.

use crate::cluster::ClusterView;
use crate::engine::EvalContext;
use crate::evidence::confidence::Role;
use crate::evidence::finding::DraftView;
use crate::float64::Float64;
use crate::inspect::emitted;
use crate::laws::steps::{drafts, lemma_drafts_after_charge, lemma_drafts_emitted};
use crate::laws::subject::{is_about, shows_value};
use crate::lens::Lens;
use crate::model::EpisodeView;
use crate::query_plan::{
    appeared, bridge_of, churn_draft, costliest, first_plan_member, is_costliest, is_next,
    is_previous, not_costlier, plan_key, plan_sample, plan_time, plan_window, PlanChurnLens,
    PlanKey,
};
use crate::series::SeriesSetView;
use crate::typed::inputs::TypedView;
use crate::typed::snapshot::{PlanFork, PlanSample};
use vstd::prelude::*;

verus! {

/// Whether two samples are of plans of one statement. Only one of the stores
/// tells statements apart by their id.
pub open spec fn same_statement(a: PlanSample, b: PlanSample) -> bool {
    &&& a.fork == b.fork
    &&& a.dbid == b.dbid
    &&& a.userid == b.userid
    &&& a.fork == PlanFork::Ossc ==> a.queryid == b.queryid
}

/// Whether a statement has a plan at a time.
pub open spec fn has_plans_at(samples: Seq<PlanSample>, of: PlanSample, ts: i64) -> bool {
    exists|i: int|
        0 <= i < samples.len() && same_statement(#[trigger] samples[i], of) && samples[i].ts == ts
}

/// Whether a plan of a statement is sampled at a time.
pub open spec fn has_plan_at(samples: Seq<PlanSample>, of: PlanSample, ts: i64) -> bool {
    exists|i: int|
        0 <= i < samples.len() && same_statement(#[trigger] samples[i], of) && samples[i].ts == ts
            && samples[i].planid == of.planid
}

/// Whether a plan appeared between two snapshots of its statement, each at most
/// ten minutes from the one in which it did, and worked until the next.
pub open spec fn is_new_plan(
    samples: Seq<PlanSample>,
    now: PlanSample,
    next: PlanSample,
    before: i64,
) -> bool {
    &&& samples.contains(now)
    &&& samples.contains(next)
    &&& same_statement(now, next)
    &&& now.planid == next.planid
    &&& before < now.ts < next.ts
    &&& now.ts - before <= 600_000_000
    &&& next.ts - now.ts <= 600_000_000
    &&& has_plans_at(samples, now, before)
    &&& !has_plan_at(samples, now, before)
    &&& forall|t: i64|
        #[trigger] has_plans_at(samples, now, t) ==> t <= before || t == now.ts || next.ts <= t
    &&& (Float64 { bits: 0 }).below(next.calls.sum_with(now.calls.negated()))
    &&& (Float64 { bits: 0 }).below(next.total_time_ms.sum_with(now.total_time_ms.negated()))
}

proof fn lemma_sample(samples: Seq<PlanSample>, key: PlanKey)
    ensures
        match plan_sample(samples, key) {
            Some(found) => samples.contains(found) && plan_key(found) == key,
            None => forall|i: int| 0 <= i < samples.len()
                ==> plan_key(#[trigger] samples[i]) != key,
        },
    decreases samples.len(),
{
    if samples.len() > 0 {
        let front = samples.drop_last();
        assert(samples[samples.len() - 1] == samples.last());
        if plan_key(samples.last()) != key {
            lemma_sample(front, key);
            match plan_sample(front, key) {
                Some(found) => {
                    let i = front.index_of(found);
                    assert(samples[i] == found);
                },
                None => {
                    assert forall|i: int| 0 <= i < samples.len() implies plan_key(
                        #[trigger] samples[i],
                    ) != key by {
                        if i < front.len() {
                            assert(front[i] == samples[i]);
                        }
                    }
                },
            }
        }
    }
}

proof fn lemma_bridges(a: PlanSample, b: PlanSample)
    ensures
        same_statement(a, b) <==> bridge_of(a) == bridge_of(b),
{
}

proof fn lemma_times(samples: Seq<PlanSample>, of: PlanSample, ts: i64)
    ensures
        has_plans_at(samples, of, ts) <==> plan_time(samples, bridge_of(of), ts),
{
    let bridge = bridge_of(of);
    if has_plans_at(samples, of, ts) {
        let i = choose|i: int|
            0 <= i < samples.len() && same_statement(#[trigger] samples[i], of) && samples[i].ts
                == ts;
        lemma_bridges(samples[i], of);
        let planid = samples[i].planid;
        lemma_sample(samples, PlanKey { bridge, ts, planid });
        assert(plan_key(samples[i]) == PlanKey { bridge, ts, planid });
        assert(plan_sample(samples, PlanKey { bridge, ts, planid }) is Some);
    }
    if plan_time(samples, bridge, ts) {
        let planid = choose|planid: i64| #[trigger]
            plan_sample(samples, PlanKey { bridge, ts, planid }) is Some;
        lemma_sample(samples, PlanKey { bridge, ts, planid });
        let found = plan_sample(samples, PlanKey { bridge, ts, planid })->Some_0;
        lemma_bridges(found, of);
        let i = samples.index_of(found);
        assert(same_statement(samples[i], of));
    }
}

/// Whether a draft shows the work of a new plan.
pub open spec fn shows_new_plan(
    draft: DraftView,
    samples: Seq<PlanSample>,
    now: PlanSample,
    next: PlanSample,
    before: i64,
) -> bool {
    let calls = next.calls.sum_with(now.calls.negated());
    let time = next.total_time_ms.sum_with(now.total_time_ms.negated());
    &&& is_new_plan(samples, now, next, before)
    &&& shows_value(draft, 0, "calls"@, calls)
    &&& shows_value(draft, 1, "total_time_ms"@, time)
    &&& forall|key: PlanKey| #[trigger] appeared(samples, key) is Some ==> !time.below(
        appeared(samples, key)->Some_0.total_time_ms,
    )
}

/// What is reported as a new plan had not been sampled in the snapshot before,
/// and worked until the one after; no other new plan took longer.
pub proof fn law_a_reported_plan_is_new(
    cluster: ClusterView,
    series: SeriesSetView,
    typed: TypedView,
    context: EvalContext,
)
    ensures
        ({
            let out = drafts(PlanChurnLens.steps(cluster, series, typed, context));
            let samples = typed.plan_window(context.incident_start_us, context.incident_end_us);
            &&& out.len() <= 1
            &&& out.len() == 1 ==> {
                &&& out[0].requested_role == Role::Coincident
                &&& exists|m: int|
                    0 <= m < cluster.members.len() && is_about(
                        out[0],
                        #[trigger] cluster.members[m],
                    ) && (cluster.members[m].logical_section == "pg_store_plans_ossc"@
                        || cluster.members[m].logical_section == "pg_store_plans_vadv"@)
                &&& exists|now: PlanSample, next: PlanSample, before: i64| #[trigger]
                    shows_new_plan(out[0], samples, now, next, before)
            }
        }),
{
    let samples = typed.plan_window(context.incident_start_us, context.incident_end_us);
    let members = cluster.members;
    lemma_plan_member(members);
    let draft = match first_plan_member(members) {
        Some(member) => match costliest(samples) {
            Some(candidate) => churn_draft(member, candidate, context),
            None => None,
        },
        None => None,
    };
    lemma_drafts_emitted(draft);
    if first_plan_member(members) is Some {
        lemma_drafts_after_charge(samples.len() as usize, emitted(draft));
        lemma_drafts_after_charge(
            members.len() as usize,
            seq![crate::evidence::sink::Step::Charge(samples.len() as usize)] + emitted(draft),
        );
    } else {
        lemma_drafts_after_charge(members.len() as usize, Seq::empty());
    }
    let out = drafts(PlanChurnLens.steps(cluster, series, typed, context));
    assert(out == match draft {
        Some(found) => seq![found],
        None => Seq::empty(),
    });
    if let Some(found) = draft {
        let key = choose|key: PlanKey| is_costliest(samples, key);
        assert(is_costliest(samples, key));
        let candidate = appeared(samples, key)->Some_0;
        lemma_new_plan(samples, key);
        let before = choose|t: i64| is_previous(samples, key.bridge, key.ts, t);
        let after = choose|t: i64| is_next(samples, key.bridge, key.ts, t);
        let now = plan_sample(samples, key)->Some_0;
        let next = plan_sample(samples, PlanKey { ts: after, ..key })->Some_0;
        assert forall|other: PlanKey| #[trigger] appeared(samples, other) is Some
            implies !candidate.total_time_ms.below(
            appeared(samples, other)->Some_0.total_time_ms,
        ) by {
            assert(not_costlier(samples, other, key));
        }
        assert(shows_new_plan(found, samples, now, next, before));
    }
}

proof fn lemma_plan_member(members: Seq<EpisodeView>)
    ensures
        first_plan_member(members) matches Some(member) ==> exists|m: int|
            0 <= m < members.len() && #[trigger] members[m] == member && (member.logical_section
                == "pg_store_plans_ossc"@ || member.logical_section == "pg_store_plans_vadv"@),
    decreases members.len(),
{
    if members.len() > 0 {
        let rest = members.drop_first();
        lemma_plan_member(rest);
        if let Some(member) = first_plan_member(members) {
            if members[0] != member {
                let m = choose|m: int|
                    0 <= m < rest.len() && #[trigger] rest[m] == member && (member.logical_section
                        == "pg_store_plans_ossc"@ || member.logical_section
                        == "pg_store_plans_vadv"@);
                assert(members[m + 1] == member);
            }
        }
    }
}

proof fn lemma_new_plan(samples: Seq<PlanSample>, key: PlanKey)
    requires
        appeared(samples, key) is Some,
    ensures
        ({
            let before = choose|t: i64| is_previous(samples, key.bridge, key.ts, t);
            let after = choose|t: i64| is_next(samples, key.bridge, key.ts, t);
            let now = plan_sample(samples, key)->Some_0;
            let next = plan_sample(samples, PlanKey { ts: after, ..key })->Some_0;
            let found = appeared(samples, key)->Some_0;
            let calls = next.calls.sum_with(now.calls.negated());
            let time = next.total_time_ms.sum_with(now.total_time_ms.negated());
            &&& is_new_plan(samples, now, next, before)
            &&& found.calls == calls
            &&& found.total_time_ms == time
            &&& (Float64 { bits: 0 }).below(calls)
            &&& (Float64 { bits: 0 }).below(time)
        }),
{
    reveal(appeared);
    let before = choose|t: i64| is_previous(samples, key.bridge, key.ts, t);
    let after = choose|t: i64| is_next(samples, key.bridge, key.ts, t);
    let later = PlanKey { ts: after, ..key };
    let earlier = PlanKey { ts: before, ..key };
    let now = plan_sample(samples, key)->Some_0;
    let next = plan_sample(samples, later)->Some_0;
    lemma_sample(samples, key);
    lemma_sample(samples, later);
    lemma_sample(samples, earlier);
    lemma_bridges(now, next);
    lemma_times(samples, now, before);
    if has_plan_at(samples, now, before) {
        let i = choose|i: int|
            0 <= i < samples.len() && same_statement(#[trigger] samples[i], now) && samples[i].ts
                == before && samples[i].planid == now.planid;
        lemma_bridges(samples[i], now);
        assert(plan_key(samples[i]) == earlier);
    }
    assert forall|t: i64| #[trigger] has_plans_at(samples, now, t) implies t <= before || t
        == now.ts || next.ts <= t by {
        lemma_times(samples, now, t);
        assert(plan_time(samples, key.bridge, t));
    }
}

} // verus!
