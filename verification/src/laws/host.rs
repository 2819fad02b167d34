//! When a host is reported as busy.

use crate::cluster::ClusterView;
use crate::engine::EvalContext;
use crate::evidence::confidence::Role;
use crate::float64::{law_small_integers_add_exactly, law_small_integers_keep_their_order, Float64};
use crate::inspect::{emitted, MemberLens};
use crate::laws::ratio::{
    law_ratio_reaches_four_fifths, law_ratio_reaches_one_twentieth,
    law_small_integers_subtract_exactly, lemma_ratio_finite, lemma_small,
};
use crate::laws::steps::{
    drafts, lemma_drafts_after_charge, lemma_drafts_charge, lemma_drafts_concat,
    lemma_drafts_emitted,
};
use crate::laws::subject::{is_about, is_first_of, lemma_first_member, lemma_no_member, shows_ratio};
use crate::lens::Lens;
use crate::model::IdentityView;
use crate::os_lenses::{
    all_processors, busy_ticks, cpu_columns, cpu_evidence, evidence_draft, psi_evidence, psi_points,
    window_charge, window_max, with_evidence, HostCpuLens,
};
use crate::query_plan::total;
use crate::series::SeriesSetView;
use crate::typed::counter::AlignedView;
use crate::typed::gauge::capped;
use crate::typed::inputs::TypedView;
use vstd::prelude::*;

verus! {

/// The sum of integers.
pub open spec fn int_total(values: Seq<int>) -> int
    decreases values.len(),
{
    if values.len() == 0 {
        0
    } else {
        int_total(values.drop_last()) + values.last()
    }
}

/// Sums of small integers are exact.
pub proof fn lemma_total_exact(values: Seq<Float64>, ints: Seq<int>)
    requires
        values.len() == ints.len(),
        values.len() <= 64,
        forall|i: int| 0 <= i < ints.len() ==> 0 <= #[trigger] ints[i] <= 0x8_0000_0000,
        forall|i: int|
            0 <= i < ints.len() ==> #[trigger] values[i] == Float64::of_int(ints[i]),
    ensures
        total(values) == Float64::of_int(int_total(ints)),
        0 <= int_total(ints) <= ints.len() * 0x8_0000_0000,
    decreases values.len(),
{
    if values.len() == 0 {
        lemma_small(0);
    } else {
        let v = values.drop_last();
        let n = ints.drop_last();
        assert forall|i: int| 0 <= i < n.len() implies 0 <= #[trigger] n[i] <= 0x8_0000_0000 by {
            assert(n[i] == ints[i]);
        }
        assert forall|i: int| 0 <= i < n.len() implies #[trigger] v[i] == Float64::of_int(n[i]) by {
            assert(v[i] == values[i] && n[i] == ints[i]);
        }
        lemma_total_exact(v, n);
        assert(values.last() == values[values.len() - 1] && ints.last() == ints[ints.len() - 1]);
        law_small_integers_add_exactly(int_total(n), ints.last());
    }
}

/// Whether integers are the sums of counters.
pub open spec fn are_sums(sums: AlignedView, ticks: Seq<int>) -> bool {
    &&& sums.sums.len() == ticks.len()
    &&& forall|i: int| 0 <= i < ticks.len() ==> 0 <= #[trigger] ticks[i] <= 0x8_0000_0000
    &&& forall|i: int|
        0 <= i < ticks.len() ==> #[trigger] sums.sums[i] == Float64::of_int(ticks[i])
}

/// From the ticks of all processors over at least three shared intervals, a host
/// is reported exactly if at least four fifths of its time was busy, or at least
/// a twentieth was stolen. Busy is the time in user, nice, system, interrupt and
/// stolen ticks: neither idling nor waiting for devices is.
pub proof fn law_a_busy_host_is_reported(
    cluster: ClusterView,
    series: SeriesSetView,
    typed: TypedView,
    context: EvalContext,
    at: int,
    sums: AlignedView,
    user: int,
    nice: int,
    system: int,
    idle: int,
    iowait: int,
    irq: int,
    softirq: int,
    steal: int,
)
    requires
        is_first_of(cluster.members, "os_cpu"@, at),
        typed.aligned_sums(
            "os_cpu"@,
            seq![IdentityView::I64((-1) as i64)],
            seq![
                "user"@,
                "nice"@,
                "system"@,
                "idle"@,
                "iowait"@,
                "irq"@,
                "softirq"@,
                "steal"@,
            ],
            context.incident_start_us,
            context.incident_end_us,
        ) == Some(sums),
        are_sums(sums, seq![user, nice, system, idle, iowait, irq, softirq, steal]),
    ensures
        ({
            let out = drafts(HostCpuLens.steps(cluster, series, typed, context));
            let busy = user + nice + system + irq + softirq + steal;
            let all = busy + idle + iowait;
            &&& out.len() <= 1
            &&& out.len() == 1 <==> sums.intervals >= 3 && all > 0 && (5 * busy >= 4 * all || 20
                * steal >= all)
            &&& out.len() == 1 ==> {
                &&& out[0].requested_role == Role::Coincident
                &&& is_about(out[0], cluster.members[at])
                &&& shows_ratio(
                    out[0],
                    0,
                    "busy_ticks"@,
                    Float64::of_int(busy),
                    "total_ticks"@,
                    Float64::of_int(all),
                )
                &&& shows_ratio(
                    out[0],
                    1,
                    "steal_ticks"@,
                    Float64::of_int(steal),
                    "total_ticks"@,
                    Float64::of_int(all),
                )
                &&& shows_ratio(
                    out[0],
                    2,
                    "iowait_ticks"@,
                    Float64::of_int(iowait),
                    "total_ticks"@,
                    Float64::of_int(all),
                )
            }
        }),
{
    let ticks = seq![user, nice, system, idle, iowait, irq, softirq, steal];
    let busy = user + nice + system + irq + softirq + steal;
    let all = busy + idle + iowait;
    let member = cluster.members[at];
    lemma_first_member(&HostCpuLens, "os_cpu"@, cluster, typed, context, at);
    reveal(cpu_columns);
    reveal_with_fuel(int_total, 9);
    assert(int_total(ticks) == all);
    assert(forall|i: int| 0 <= i < 8 ==> 0 <= #[trigger] ticks[i] <= 0x8_0000_0000);
    assert(ticks[0] == user && ticks[1] == nice && ticks[2] == system && ticks[3] == idle
        && ticks[4] == iowait && ticks[5] == irq && ticks[6] == softirq && ticks[7] == steal);
    lemma_total_exact(sums.sums, ticks);
    law_small_integers_subtract_exactly(all, idle);
    law_small_integers_subtract_exactly(all - idle, iowait);
    assert(busy_ticks(sums.sums) == Float64::of_int(busy));
    lemma_small(all);
    lemma_small(busy);
    lemma_small(steal);
    lemma_small(iowait);
    law_small_integers_keep_their_order(0, all);
    assert forall|i: int| 0 <= i < sums.sums.len() implies !(#[trigger] sums.sums[i]).below(
        Float64 { bits: 0 },
    ) by {
        lemma_small(ticks[i]);
    }
    if all > 0 {
        law_ratio_reaches_four_fifths(busy, all);
        law_ratio_reaches_one_twentieth(steal, all);
        lemma_ratio_finite(iowait, all);
    }
    reveal_strlit("busy_ticks");
    reveal_strlit("steal_ticks");
    reveal_strlit("iowait_ticks");
    reveal_strlit("total_ticks");
    reveal_strlit("os_cpu");
    let points = psi_points(typed, context);
    let found = cpu_evidence(Some(sums));
    let charge = capped(typed.counter_points("os_cpu"@, all_processors(), cpu_columns()));
    match found {
        Some(evidence) => {
            let list = with_evidence(evidence, psi_evidence(window_max(points, context)));
            let draft = evidence_draft(member, list);
            assert(list[0] == evidence[0] && list[1] == evidence[1] && list[2] == evidence[2]);
            lemma_drafts_after_charge(charge, window_charge(points) + emitted(draft));
            lemma_drafts_concat(window_charge(points), emitted(draft));
            if let Some(read) = points {
                lemma_drafts_charge(read.len() as usize);
            }
            lemma_drafts_emitted(draft);
            assert(drafts(window_charge(points)) =~= Seq::empty());
            assert(drafts(HostCpuLens.member_steps(member, typed, context)) =~= seq![
                draft->Some_0,
            ]);
        },
        None => {
            lemma_drafts_after_charge(charge, Seq::empty());
        },
    }
}

/// Without an episode of the processors, nothing is said of them.
pub proof fn law_only_processor_episodes_report_a_busy_host(
    cluster: ClusterView,
    series: SeriesSetView,
    typed: TypedView,
    context: EvalContext,
)
    requires
        forall|j: int|
            0 <= j < cluster.members.len() ==> (
            #[trigger] cluster.members[j]).logical_section != "os_cpu"@,
    ensures
        drafts(HostCpuLens.steps(cluster, series, typed, context)).len() == 0,
{
    lemma_no_member(&HostCpuLens, "os_cpu"@, cluster, typed, context);
}

} // verus!
