//! When the work of a statement is reported.

use crate::cluster::ClusterView;
use crate::engine::EvalContext;
use crate::evidence::confidence::Role;
use crate::evidence::finding::DraftView;
use crate::float64::{law_small_integers_keep_their_order, Float64};
use crate::inspect::MemberLens;
use crate::laws::host::{are_sums, int_total, lemma_total_exact};
use crate::laws::ratio::{
    law_ratio_reaches_fifty, law_ratio_reaches_one_thousand, lemma_ratio_finite, lemma_small,
};
use crate::laws::steps::{drafts, lemma_drafts_after_charge, lemma_drafts_emitted};
use crate::laws::subject::{is_about, lemma_each_member, shows_ratio, shows_value};
use crate::lens::Lens;
use crate::model::{EpisodeView, IdentityView};
use crate::query_plan::{heavy, total, work_columns, work_draft, QueryWorkLens};
use crate::series::SeriesSetView;
use crate::typed::counter::AlignedView;
use crate::typed::gauge::capped;
use crate::typed::inputs::TypedView;
use vstd::prelude::*;

verus! {

/// The sums of a statement's counters over a window, its time under a name.
pub open spec fn statement_window(
    typed: TypedView,
    identity: Seq<IdentityView>,
    time: Seq<char>,
    context: EvalContext,
) -> Option<AlignedView> {
    typed.aligned_sums(
        "pg_stat_statements"@,
        identity,
        seq![
            "calls"@,
            time,
            "rows"@,
            "shared_blks_hit"@,
            "shared_blks_read"@,
            "shared_blks_dirtied"@,
            "shared_blks_written"@,
            "local_blks_hit"@,
            "local_blks_read"@,
            "local_blks_dirtied"@,
            "local_blks_written"@,
            "temp_blks_read"@,
            "temp_blks_written"@,
        ],
        context.incident_start_us,
        context.incident_end_us,
    )
}

/// Whether sums are those by which a statement is judged: those with the
/// execution time where they share three intervals, else those with the time
/// as older servers name it.
pub open spec fn judged_by(
    typed: TypedView,
    identity: Seq<IdentityView>,
    context: EvalContext,
    sums: AlignedView,
) -> bool {
    match statement_window(typed, identity, "total_exec_time"@, context) {
        Some(current) if current.intervals >= 3 => current == sums,
        _ => statement_window(typed, identity, "total_time"@, context) == Some(sums)
            && sums.intervals >= 3,
    }
}

/// A statement is reported, once, exactly if a call of it took at least fifty
/// milliseconds or touched at least a thousand blocks of any kind: either is
/// enough, whatever the other.
pub proof fn law_a_heavy_statement_is_reported(
    member: EpisodeView,
    typed: TypedView,
    context: EvalContext,
    sums: AlignedView,
    counts: Seq<int>,
)
    requires
        member.logical_section == "pg_stat_statements"@,
        judged_by(typed, member.identity, context, sums),
        counts.len() == 13,
        are_sums(sums, counts),
    ensures
        ({
            let out = drafts(QueryWorkLens.member_steps(member, typed, context));
            let calls = counts[0];
            let blocks = counts[3] + counts[4] + counts[5] + counts[6] + counts[7] + counts[8]
                + counts[9] + counts[10] + counts[11] + counts[12];
            &&& out.len() <= 1
            &&& out.len() == 1 <==> calls > 0 && (counts[1] >= 50 * calls || blocks >= 1000
                * calls)
            &&& out.len() == 1 ==> {
                &&& out[0].requested_role == Role::Amplifier
                &&& is_about(out[0], member)
                &&& out[0].evidence.len() == 4
                &&& shows_value(out[0], 0, "calls"@, Float64::of_int(calls))
                &&& shows_ratio(
                    out[0],
                    1,
                    "execution_time_ms"@,
                    Float64::of_int(counts[1]),
                    "calls"@,
                    Float64::of_int(calls),
                )
                &&& shows_ratio(
                    out[0],
                    2,
                    "rows"@,
                    Float64::of_int(counts[2]),
                    "calls"@,
                    Float64::of_int(calls),
                )
                &&& shows_ratio(
                    out[0],
                    3,
                    "blocks"@,
                    Float64::of_int(blocks),
                    "calls"@,
                    Float64::of_int(calls),
                )
            }
        }),
{
    reveal(work_columns);
    let calls = counts[0];
    let parts = counts.skip(3);
    let blocks = counts[3] + counts[4] + counts[5] + counts[6] + counts[7] + counts[8] + counts[9]
        + counts[10] + counts[11] + counts[12];
    assert forall|i: int| 0 <= i < parts.len() implies 0 <= #[trigger] parts[i]
        <= 0x8_0000_0000 by {
        assert(parts[i] == counts[i + 3]);
    }
    let rest = sums.sums.skip(3);
    assert forall|i: int| 0 <= i < parts.len() implies #[trigger] rest[i] == Float64::of_int(
        parts[i],
    ) by {
        assert(parts[i] == counts[i + 3] && rest[i] == sums.sums[i + 3]);
    }
    lemma_total_exact(rest, parts);
    assert(int_total(parts) == blocks) by {
        reveal_with_fuel(int_total, 11);
    }
    lemma_heavy(sums, counts, blocks);
    lemma_work(member, sums, counts, blocks);
    assert(counts[0] == calls && sums.sums[0] == Float64::of_int(calls));
    lemma_judged(member, typed, context, sums);
    lemma_drafts_emitted(work_draft(member, sums));
}

proof fn lemma_heavy(sums: AlignedView, counts: Seq<int>, blocks: int)
    requires
        counts.len() == 13,
        are_sums(sums, counts),
        0 <= blocks <= 10 * 0x8_0000_0000,
        total(sums.sums.skip(3)) == Float64::of_int(blocks),
    ensures
        heavy(sums) <==> counts[0] > 0 && (counts[1] >= 50 * counts[0] || blocks >= 1000
            * counts[0]),
{
    let calls = counts[0];
    assert(0 <= counts[0] && 0 <= counts[1] && 0 <= counts[2]);
    assert(sums.sums[0] == Float64::of_int(calls) && sums.sums[1] == Float64::of_int(counts[1])
        && sums.sums[2] == Float64::of_int(counts[2]));
    lemma_small(calls);
    lemma_small(counts[1]);
    lemma_small(counts[2]);
    lemma_small(blocks);
    if calls > 0 {
        law_ratio_reaches_fifty(counts[1], calls);
        law_ratio_reaches_one_thousand(blocks, calls);
    }
}

proof fn lemma_work(member: EpisodeView, sums: AlignedView, counts: Seq<int>, blocks: int)
    requires
        counts.len() == 13,
        are_sums(sums, counts),
        sums.intervals >= 3,
        0 <= blocks <= 10 * 0x8_0000_0000,
        total(sums.sums.skip(3)) == Float64::of_int(blocks),
        heavy(sums) ==> counts[0] > 0,
    ensures
        work_draft(member, sums) is Some <==> heavy(sums),
        work_draft(member, sums) matches Some(draft) ==> {
            &&& draft.requested_role == Role::Amplifier
            &&& is_about(draft, member)
            &&& draft.evidence.len() == 4
            &&& shows_value(draft, 0, "calls"@, Float64::of_int(counts[0]))
            &&& shows_ratio(
                draft,
                1,
                "execution_time_ms"@,
                Float64::of_int(counts[1]),
                "calls"@,
                Float64::of_int(counts[0]),
            )
            &&& shows_ratio(
                draft,
                2,
                "rows"@,
                Float64::of_int(counts[2]),
                "calls"@,
                Float64::of_int(counts[0]),
            )
            &&& shows_ratio(
                draft,
                3,
                "blocks"@,
                Float64::of_int(blocks),
                "calls"@,
                Float64::of_int(counts[0]),
            )
        },
{
    let calls = counts[0];
    assert(0 <= counts[0] && 0 <= counts[1] && 0 <= counts[2]);
    assert(sums.sums[0] == Float64::of_int(calls) && sums.sums[1] == Float64::of_int(counts[1])
        && sums.sums[2] == Float64::of_int(counts[2]));
    lemma_small(calls);
    lemma_small(counts[1]);
    lemma_small(counts[2]);
    lemma_small(blocks);
    if calls > 0 {
        lemma_ratio_finite(counts[1], calls);
        lemma_ratio_finite(counts[2], calls);
        lemma_ratio_finite(blocks, calls);
        law_small_integers_keep_their_order(0, calls);
    }
    reveal_strlit("calls");
    reveal_strlit("execution_time_ms");
    reveal_strlit("rows");
    reveal_strlit("blocks");
    reveal_strlit("pg_stat_statements");
}

proof fn lemma_judged(
    member: EpisodeView,
    typed: TypedView,
    context: EvalContext,
    sums: AlignedView,
)
    requires
        member.logical_section == "pg_stat_statements"@,
        judged_by(typed, member.identity, context, sums),
    ensures
        drafts(QueryWorkLens.member_steps(member, typed, context)) == drafts(
            crate::inspect::emitted(work_draft(member, sums)),
        ),
{
    reveal(work_columns);
    let last = crate::inspect::emitted(work_draft(member, sums));
    let first = capped(
        typed.counter_points(
            "pg_stat_statements"@,
            member.identity,
            work_columns("total_exec_time"@),
        ),
    );
    let second = capped(
        typed.counter_points(
            "pg_stat_statements"@,
            member.identity,
            work_columns("total_time"@),
        ),
    );
    lemma_drafts_after_charge(second, last);
    match statement_window(typed, member.identity, "total_exec_time"@, context) {
        Some(current) if current.intervals >= 3 => {
            lemma_drafts_after_charge(first, last);
        },
        _ => {
            lemma_drafts_after_charge(
                first,
                crate::query_plan::statement_charge(typed, member.identity, "total_time"@) + last,
            );
        },
    }
}

/// The statements of an incident are judged one by one.
pub proof fn law_statements_are_judged_one_by_one(
    cluster: ClusterView,
    series: SeriesSetView,
    typed: TypedView,
    context: EvalContext,
    draft: DraftView,
)
    ensures
        drafts(QueryWorkLens.steps(cluster, series, typed, context)).contains(draft)
            <==> exists|k: int|
            0 <= k < cluster.members.len() && cluster.members[k].logical_section
                == "pg_stat_statements"@ && drafts(
                QueryWorkLens.member_steps(#[trigger] cluster.members[k], typed, context),
            ).contains(draft),
{
    lemma_each_member(&QueryWorkLens, cluster, typed, context, draft);
    assert forall|k: int|
        0 <= k < cluster.members.len() && cluster.members[k].logical_section
            != "pg_stat_statements"@ implies !drafts(
        QueryWorkLens.member_steps(#[trigger] cluster.members[k], typed, context),
    ).contains(draft) by {
        assert(drafts(QueryWorkLens.member_steps(cluster.members[k], typed, context)).len() == 0);
    }
}

} // verus!
