//! When levels are reported.

use crate::active::gauges::{
    ConnectionSaturationLens, MemoryReclaimLens, StaleStatisticsLens, WritebackPressureLens,
};
use crate::active::observe::{snapshot_tracks, worst_snapshot};
use crate::engine::EvalContext;
use crate::evidence::confidence::Role;
use crate::float64::{
    abs, law_order_is_numeric, law_small_integers_add_exactly, law_small_integers_are_exact,
    law_small_integers_keep_their_order, Float64, UNIT,
};
use crate::gauge_contracts::{
    CgroupMemoryLens, FreezeHorizonLens, PhysicalReplicationLens, RunningVacuumLens,
    StorageCapacityLens,
};
use crate::inspect::{InspectLens, MemberLens};
use crate::laws::integers::{
    lemma_five, lemma_one, lemma_sixty_four_mebi, lemma_thirty_million, lemma_three_hundred_million,
};
use crate::laws::levels::{
    all_three_meet, is_extreme_time, law_a_pair_reads_its_worst_time,
    law_a_snapshot_reads_its_extreme_time, law_a_triple_reads_its_worst_time, lemma_columns,
    lemma_extreme_time_unique, lemma_inspected, meet, never_negative, pair_score, reads, shown_at,
    triple_score,
};
use crate::laws::ratio::{
    law_ratio_reaches_four_fifths, law_ratio_reaches_nine_tenths, law_ratio_reaches_one_fifth,
    law_ratio_reaches_one_tenth, law_ratio_reaches_one_twentieth, lemma_nearest_exists,
    lemma_ratio_finite, lemma_small,
};
use crate::laws::steps::drafts;
use crate::laws::subject::{is_about, shows_ratio, shows_value};
use crate::model::EpisodeView;
use crate::text::has_suffix;
use crate::typed::gauge::{paired_reading, triple_reading, GaugeObjective};
use crate::typed::inputs::TypedView;
use vstd::arithmetic::power2::pow2;
use vstd::prelude::*;
use vstd::utf8::{encode_utf8, is_ascii_chars_encode_utf8};

verus! {

/// A ratio has a score exactly where its denominator is positive.
proof fn lemma_score(a: int, b: int, objective: GaugeObjective)
    requires
        0 <= a <= 0x8_0000_0000,
        -0x8_0000_0000 <= b <= 0x8_0000_0000,
        objective == GaugeObjective::RatioMax || objective == GaugeObjective::RatioMin,
    ensures
        ({
            let score = objective.scored(Float64::of_int(a), Float64::of_int(b));
            &&& b > 0 <==> (Float64 { bits: 0 }).below(Float64::of_int(b))
            &&& b > 0 <==> score.finite()
            &&& b > 0 ==> score == Float64::of_int(a).quotient_by(Float64::of_int(b))
        }),
{
    lemma_small(0);
    law_small_integers_keep_their_order(0, b);
    if b > 0 {
        lemma_ratio_finite(a, b);
    }
}

/// A database is reported exactly if, at some time, at least four fifths of a
/// positive connection limit were in use.
pub proof fn law_a_full_database_is_reported(
    member: EpisodeView,
    typed: TypedView,
    context: EvalContext,
    a: Map<i64, int>,
    b: Map<i64, int>,
)
    requires
        reads(typed, "pg_stat_database"@, "numbackends"@, member.identity, context, a),
        reads(typed, "pg_stat_database"@, "datconnlimit"@, member.identity, context, b),
        never_negative(a),
    ensures
        ({
            let out = drafts(ConnectionSaturationLens.member_steps(member, typed, context));
            &&& out.len() <= 1
            &&& out.len() == 1 <==> member.logical_section == "pg_stat_database"@
                && member.column == "numbackends"@ && exists|t: i64| #[trigger]
                meet(a, b, t) && b[t] > 0 && 5 * a[t] >= 4 * b[t]
            &&& out.len() == 1 ==> out[0].requested_role == Role::Coincident && is_about(
                out[0],
                member,
            ) && exists|t: i64| #[trigger]
                meet(a, b, t) && b[t] > 0 && 5 * a[t] >= 4 * b[t] && shown_at(out[0], t)
                    && shows_ratio(
                    out[0],
                    0,
                    "numbackends"@,
                    Float64::of_int(a[t]),
                    "datconnlimit"@,
                    Float64::of_int(b[t]),
                )
        }),
{
    let lens = ConnectionSaturationLens;
    lemma_inspected(&lens, member, typed, context);
    let objective = GaugeObjective::RatioMax;
    let x = typed.gauge_points(
        "pg_stat_database"@,
        "numbackends"@,
        member.identity,
        context.incident_start_us,
        context.incident_end_us,
    )->Some_0;
    let y = typed.gauge_points(
        "pg_stat_database"@,
        "datconnlimit"@,
        member.identity,
        context.incident_start_us,
        context.incident_end_us,
    )->Some_0;
    law_a_pair_reads_its_worst_time(
        x,
        y,
        a,
        b,
        context.incident_start_us,
        context.incident_end_us,
        objective,
    );
    assert forall|t: i64| #[trigger] meet(a, b, t) implies ({
        let score = pair_score(a, b, objective, t);
        &&& score.finite() <==> b[t] > 0
        &&& b[t] > 0
            ==> (score.below(Float64 { bits: 0x3fe9_9999_9999_999a }) <==> 5 * a[t] < 4 * b[t])
    }) by {
        lemma_score(a[t], b[t], objective);
        if b[t] > 0 {
            law_ratio_reaches_four_fifths(a[t], b[t]);
        }
    }
    if let Some(pair) = paired_reading(
        x,
        y,
        context.incident_start_us,
        context.incident_end_us,
        objective,
    ) {
        let t = pair.observed_at_us;
        assert(meet(a, b, t));
        lemma_small(a[t]);
        lemma_small(b[t]);
        lemma_score(a[t], b[t], objective);
        lemma_ratio_finite(a[t], b[t]);
    }
    reveal_strlit("numbackends");
    reveal_strlit("datconnlimit");
    reveal_strlit("pg_stat_database");
}

/// Memory is reported exactly if, at some time, less than a twentieth of it was
/// available.
pub proof fn law_scarce_memory_is_reported(
    member: EpisodeView,
    typed: TypedView,
    context: EvalContext,
    a: Map<i64, int>,
    b: Map<i64, int>,
)
    requires
        reads(typed, "os_meminfo"@, "mem_available"@, member.identity, context, a),
        reads(typed, "os_meminfo"@, "mem_total"@, member.identity, context, b),
        never_negative(a),
    ensures
        ({
            let out = drafts(MemoryReclaimLens.member_steps(member, typed, context));
            &&& out.len() <= 1
            &&& out.len() == 1 <==> member.logical_section == "os_meminfo"@
                && member.column == "mem_available"@ && exists|t: i64| #[trigger]
                meet(a, b, t) && b[t] > 0 && 20 * a[t] < b[t]
            &&& out.len() == 1 ==> out[0].requested_role == Role::Coincident && is_about(
                out[0],
                member,
            ) && exists|t: i64| #[trigger]
                meet(a, b, t) && b[t] > 0 && 20 * a[t] < b[t] && shown_at(out[0], t) && shows_ratio(
                    out[0],
                    0,
                    "mem_available"@,
                    Float64::of_int(a[t]),
                    "mem_total"@,
                    Float64::of_int(b[t]),
                )
        }),
{
    let lens = MemoryReclaimLens;
    lemma_inspected(&lens, member, typed, context);
    let objective = GaugeObjective::RatioMin;
    let x = typed.gauge_points(
        "os_meminfo"@,
        "mem_available"@,
        member.identity,
        context.incident_start_us,
        context.incident_end_us,
    )->Some_0;
    let y = typed.gauge_points(
        "os_meminfo"@,
        "mem_total"@,
        member.identity,
        context.incident_start_us,
        context.incident_end_us,
    )->Some_0;
    law_a_pair_reads_its_worst_time(
        x,
        y,
        a,
        b,
        context.incident_start_us,
        context.incident_end_us,
        objective,
    );
    assert forall|t: i64| #[trigger] meet(a, b, t) implies ({
        let score = pair_score(a, b, objective, t);
        &&& score.finite() <==> b[t] > 0
        &&& b[t] > 0
            ==> (score.below(Float64 { bits: 0x3fa9_9999_9999_999a }) <==> 20 * a[t] < b[t])
    }) by {
        lemma_score(a[t], b[t], objective);
        if b[t] > 0 {
            law_ratio_reaches_one_twentieth(a[t], b[t]);
        }
    }
    if let Some(pair) = paired_reading(
        x,
        y,
        context.incident_start_us,
        context.incident_end_us,
        objective,
    ) {
        let t = pair.observed_at_us;
        assert(meet(a, b, t));
        lemma_small(a[t]);
        lemma_small(b[t]);
        lemma_score(a[t], b[t], objective);
        lemma_ratio_finite(a[t], b[t]);
    }
    reveal_strlit("mem_available");
    reveal_strlit("mem_total");
    reveal_strlit("os_meminfo");
}

/// The age of transaction ids is reported exactly if, at some time, it had reached
/// nine tenths of a positive limit.
pub proof fn law_a_close_transaction_limit_is_reported(
    member: EpisodeView,
    typed: TypedView,
    context: EvalContext,
    a: Map<i64, int>,
    b: Map<i64, int>,
)
    requires
        reads(typed, "pg_freeze_horizon"@, "xid_age"@, member.identity, context, a),
        reads(typed, "pg_freeze_horizon"@, "xid_limit"@, member.identity, context, b),
        never_negative(a),
        member.column == "xid_age"@,
    ensures
        ({
            let out = drafts(FreezeHorizonLens.member_steps(member, typed, context));
            &&& out.len() <= 1
            &&& out.len() == 1 <==> member.logical_section == "pg_freeze_horizon"@
                && member.column == "xid_age"@ && exists|t: i64| #[trigger]
                meet(a, b, t) && b[t] > 0 && 10 * a[t] >= 9 * b[t]
            &&& out.len() == 1 ==> out[0].requested_role == Role::Coincident && is_about(
                out[0],
                member,
            ) && exists|t: i64| #[trigger]
                meet(a, b, t) && b[t] > 0 && 10 * a[t] >= 9 * b[t] && shown_at(out[0], t)
                    && shows_ratio(
                    out[0],
                    0,
                    "xid_age"@,
                    Float64::of_int(a[t]),
                    "xid_limit"@,
                    Float64::of_int(b[t]),
                )
        }),
{
    let lens = FreezeHorizonLens;
    lemma_inspected(&lens, member, typed, context);
    let objective = GaugeObjective::RatioMax;
    let x = typed.gauge_points(
        "pg_freeze_horizon"@,
        "xid_age"@,
        member.identity,
        context.incident_start_us,
        context.incident_end_us,
    )->Some_0;
    let y = typed.gauge_points(
        "pg_freeze_horizon"@,
        "xid_limit"@,
        member.identity,
        context.incident_start_us,
        context.incident_end_us,
    )->Some_0;
    law_a_pair_reads_its_worst_time(
        x,
        y,
        a,
        b,
        context.incident_start_us,
        context.incident_end_us,
        objective,
    );
    assert forall|t: i64| #[trigger] meet(a, b, t) implies ({
        let score = pair_score(a, b, objective, t);
        &&& score.finite() <==> b[t] > 0
        &&& b[t] > 0
            ==> (score.below(Float64 { bits: 0x3fec_cccc_cccc_cccd }) <==> 10 * a[t] < 9 * b[t])
    }) by {
        lemma_score(a[t], b[t], objective);
        if b[t] > 0 {
            law_ratio_reaches_nine_tenths(a[t], b[t]);
        }
    }
    if let Some(pair) = paired_reading(
        x,
        y,
        context.incident_start_us,
        context.incident_end_us,
        objective,
    ) {
        let t = pair.observed_at_us;
        assert(meet(a, b, t));
        lemma_small(a[t]);
        lemma_small(b[t]);
        lemma_score(a[t], b[t], objective);
        lemma_ratio_finite(a[t], b[t]);
    }
    reveal_strlit("xid_age");
    reveal_strlit("xid_limit");
    reveal_strlit("pg_freeze_horizon");
}

/// The age of multixact ids is reported exactly if, at some time, it had reached
/// nine tenths of a positive limit.
pub proof fn law_a_close_multixact_limit_is_reported(
    member: EpisodeView,
    typed: TypedView,
    context: EvalContext,
    a: Map<i64, int>,
    b: Map<i64, int>,
)
    requires
        reads(typed, "pg_freeze_horizon"@, "mxid_age"@, member.identity, context, a),
        reads(typed, "pg_freeze_horizon"@, "mxid_limit"@, member.identity, context, b),
        never_negative(a),
        member.column == "mxid_age"@,
    ensures
        ({
            let out = drafts(FreezeHorizonLens.member_steps(member, typed, context));
            &&& out.len() <= 1
            &&& out.len() == 1 <==> member.logical_section == "pg_freeze_horizon"@
                && member.column == "mxid_age"@ && exists|t: i64| #[trigger]
                meet(a, b, t) && b[t] > 0 && 10 * a[t] >= 9 * b[t]
            &&& out.len() == 1 ==> out[0].requested_role == Role::Coincident && is_about(
                out[0],
                member,
            ) && exists|t: i64| #[trigger]
                meet(a, b, t) && b[t] > 0 && 10 * a[t] >= 9 * b[t] && shown_at(out[0], t)
                    && shows_ratio(
                    out[0],
                    0,
                    "mxid_age"@,
                    Float64::of_int(a[t]),
                    "mxid_limit"@,
                    Float64::of_int(b[t]),
                )
        }),
{
    let lens = FreezeHorizonLens;
    lemma_inspected(&lens, member, typed, context);
    let objective = GaugeObjective::RatioMax;
    let x = typed.gauge_points(
        "pg_freeze_horizon"@,
        "mxid_age"@,
        member.identity,
        context.incident_start_us,
        context.incident_end_us,
    )->Some_0;
    let y = typed.gauge_points(
        "pg_freeze_horizon"@,
        "mxid_limit"@,
        member.identity,
        context.incident_start_us,
        context.incident_end_us,
    )->Some_0;
    law_a_pair_reads_its_worst_time(
        x,
        y,
        a,
        b,
        context.incident_start_us,
        context.incident_end_us,
        objective,
    );
    assert forall|t: i64| #[trigger] meet(a, b, t) implies ({
        let score = pair_score(a, b, objective, t);
        &&& score.finite() <==> b[t] > 0
        &&& b[t] > 0
            ==> (score.below(Float64 { bits: 0x3fec_cccc_cccc_cccd }) <==> 10 * a[t] < 9 * b[t])
    }) by {
        lemma_score(a[t], b[t], objective);
        if b[t] > 0 {
            law_ratio_reaches_nine_tenths(a[t], b[t]);
        }
    }
    if let Some(pair) = paired_reading(
        x,
        y,
        context.incident_start_us,
        context.incident_end_us,
        objective,
    ) {
        let t = pair.observed_at_us;
        assert(meet(a, b, t));
        lemma_small(a[t]);
        lemma_small(b[t]);
        lemma_score(a[t], b[t], objective);
        lemma_ratio_finite(a[t], b[t]);
    }
    reveal_strlit("mxid_age");
    reveal_strlit("mxid_limit");
    reveal_strlit("pg_freeze_horizon");
    reveal_strlit("xid_age");
}

/// The row estimate of a table as a divisor: its size, and at least one.
pub open spec fn estimate(rows: int) -> int {
    if rows >= 1 {
        rows
    } else if rows <= -1 {
        -rows
    } else {
        1
    }
}

proof fn lemma_estimate(rows: int)
    requires
        -0x8_0000_0000 <= rows <= 0x8_0000_0000,
    ensures
        Float64::of_int(rows).absolute().larger(Float64 { bits: 0x3ff0_0000_0000_0000 })
            == Float64::of_int(estimate(rows)),
        0 < estimate(rows) <= 0x8_0000_0000,
{
    law_small_integers_are_exact(rows);
    lemma_small(abs(rows) as int);
    lemma_one();
    lemma_small(1);
    lemma_nearest_exists((abs(rows) * pow2(UNIT as nat)) as nat, 1);
    assert(Float64::of_int(rows).absolute() == Float64::of_int(abs(rows) as int));
    law_small_integers_keep_their_order(abs(rows) as int, 1);
}

/// A table is reported exactly if, at some time, at least a fifth of its
/// estimated rows were modified since it was analyzed.
pub proof fn law_stale_statistics_are_reported(
    member: EpisodeView,
    typed: TypedView,
    context: EvalContext,
    a: Map<i64, int>,
    b: Map<i64, int>,
)
    requires
        reads(typed, "pg_stat_user_tables"@, "n_mod_since_analyze"@, member.identity, context, a),
        reads(typed, "pg_stat_user_tables"@, "reltuples"@, member.identity, context, b),
        never_negative(a),
    ensures
        ({
            let out = drafts(StaleStatisticsLens.member_steps(member, typed, context));
            &&& out.len() <= 1
            &&& out.len() == 1 <==> member.logical_section == "pg_stat_user_tables"@
                && member.column == "n_mod_since_analyze"@ && exists|t: i64| #[trigger]
                meet(a, b, t) && 5 * a[t] >= estimate(b[t])
            &&& out.len() == 1 ==> out[0].requested_role == Role::Coincident && is_about(
                out[0],
                member,
            ) && exists|t: i64| #[trigger]
                meet(a, b, t) && 5 * a[t] >= estimate(b[t]) && shown_at(out[0], t) && shows_ratio(
                    out[0],
                    0,
                    "n_mod_since_analyze"@,
                    Float64::of_int(a[t]),
                    "abs_reltuples_floor_1"@,
                    Float64::of_int(estimate(b[t])),
                )
        }),
{
    let lens = StaleStatisticsLens;
    lemma_inspected(&lens, member, typed, context);
    let objective = GaugeObjective::RatioAbsOneMax;
    let x = typed.gauge_points(
        "pg_stat_user_tables"@,
        "n_mod_since_analyze"@,
        member.identity,
        context.incident_start_us,
        context.incident_end_us,
    )->Some_0;
    let y = typed.gauge_points(
        "pg_stat_user_tables"@,
        "reltuples"@,
        member.identity,
        context.incident_start_us,
        context.incident_end_us,
    )->Some_0;
    law_a_pair_reads_its_worst_time(
        x,
        y,
        a,
        b,
        context.incident_start_us,
        context.incident_end_us,
        objective,
    );
    assert forall|t: i64| #[trigger] meet(a, b, t) implies ({
        let score = pair_score(a, b, objective, t);
        &&& score.finite()
        &&& score.below(Float64 { bits: 0x3fc9_9999_9999_999a }) <==> 5 * a[t] < estimate(b[t])
    }) by {
        lemma_estimate(b[t]);
        law_ratio_reaches_one_fifth(a[t], estimate(b[t]));
    }
    if let Some(pair) = paired_reading(
        x,
        y,
        context.incident_start_us,
        context.incident_end_us,
        objective,
    ) {
        let t = pair.observed_at_us;
        assert(meet(a, b, t));
        lemma_small(a[t]);
        lemma_small(0);
        lemma_estimate(b[t]);
        lemma_small(estimate(b[t]));
        law_small_integers_keep_their_order(0, estimate(b[t]));
        lemma_ratio_finite(a[t], estimate(b[t]));
    }
    reveal_strlit("n_mod_since_analyze");
    reveal_strlit("abs_reltuples_floor_1");
    reveal_strlit("pg_stat_user_tables");
}

/// Memory is reported exactly if, at some time, at least a tenth of it was dirty
/// or being written back.
pub proof fn law_writeback_pressure_is_reported(
    member: EpisodeView,
    typed: TypedView,
    context: EvalContext,
    dirty: Map<i64, int>,
    writeback: Map<i64, int>,
    all: Map<i64, int>,
)
    requires
        reads(typed, "os_meminfo"@, "dirty"@, member.identity, context, dirty),
        reads(typed, "os_meminfo"@, "writeback"@, member.identity, context, writeback),
        reads(typed, "os_meminfo"@, "mem_total"@, member.identity, context, all),
        never_negative(dirty),
        never_negative(writeback),
    ensures
        ({
            let out = drafts(WritebackPressureLens.member_steps(member, typed, context));
            &&& out.len() <= 1
            &&& out.len() == 1 <==> member.logical_section == "os_meminfo"@ && member.column
                == "dirty"@ && exists|t: i64| #[trigger]
                all_three_meet(dirty, writeback, all, t) && all[t] > 0
                    && 10 * (dirty[t] + writeback[t]) >= all[t]
            &&& out.len() == 1 ==> out[0].requested_role == Role::Coincident && is_about(
                out[0],
                member,
            ) && exists|t: i64| #[trigger]
                all_three_meet(dirty, writeback, all, t) && all[t] > 0
                    && 10 * (dirty[t] + writeback[t]) >= all[t]
                    && shown_at(out[0], t) && shows_ratio(
                    out[0],
                    0,
                    "dirty_plus_writeback"@,
                    Float64::of_int(dirty[t] + writeback[t]),
                    "mem_total"@,
                    Float64::of_int(all[t]),
                )
        }),
{
    let lens = WritebackPressureLens;
    lemma_inspected(&lens, member, typed, context);
    let (from_us, to_us) = (context.incident_start_us, context.incident_end_us);
    let x = typed.gauge_points("os_meminfo"@, "dirty"@, member.identity, from_us, to_us)->Some_0;
    let y = typed.gauge_points(
        "os_meminfo"@,
        "writeback"@,
        member.identity,
        from_us,
        to_us,
    )->Some_0;
    let z = typed.gauge_points(
        "os_meminfo"@,
        "mem_total"@,
        member.identity,
        from_us,
        to_us,
    )->Some_0;
    law_a_triple_reads_its_worst_time(x, y, z, dirty, writeback, all, from_us, to_us);
    assert forall|t: i64| #[trigger] all_three_meet(dirty, writeback, all, t) implies ({
        let score = triple_score(dirty, writeback, all, t);
        &&& score.finite() <==> all[t] > 0
        &&& all[t] > 0 ==> (score.below(Float64 { bits: 0x3fb9_9999_9999_999a }) <==> 10 * (
        dirty[t] + writeback[t]) < all[t])
        &&& Float64::of_int(dirty[t]).sum_with(Float64::of_int(writeback[t])) == Float64::of_int(
            dirty[t] + writeback[t],
        )
    }) by {
        law_small_integers_add_exactly(dirty[t], writeback[t]);
        if all[t] > 0 {
            law_ratio_reaches_one_tenth(dirty[t] + writeback[t], all[t]);
        }
    }
    if let Some(found) = triple_reading(x, y, z, from_us, to_us) {
        let t = found.observed_at_us;
        assert(all_three_meet(dirty, writeback, all, t));
        lemma_small(dirty[t] + writeback[t]);
        lemma_small(all[t]);
        lemma_small(0);
        law_small_integers_keep_their_order(0, all[t]);
        lemma_ratio_finite(dirty[t] + writeback[t], all[t]);
    }
    reveal_strlit("dirty_plus_writeback");
    reveal_strlit("mem_total");
    reveal_strlit("os_meminfo");
}

/// A vacuum is reported exactly if, when it was seen running longest, it had
/// been running for five minutes by a valid clock.
pub proof fn law_a_long_vacuum_is_reported(
    member: EpisodeView,
    typed: TypedView,
    context: EvalContext,
    elapsed: Map<i64, int>,
    present: Map<i64, int>,
    valid: Map<i64, int>,
)
    requires
        reads(typed, "pg_vacuum_observation"@, "elapsed_us"@, member.identity, context, elapsed),
        reads(typed, "pg_vacuum_observation"@, "activity_present"@, member.identity, context, present),
        reads(typed, "pg_vacuum_observation"@, "clock_valid"@, member.identity, context, valid),
        never_negative(elapsed),
    ensures
        ({
            let out = drafts(RunningVacuumLens.member_steps(member, typed, context));
            let levels = seq![elapsed, present, valid];
            &&& out.len() <= 1
            &&& out.len() == 1 <==> member.logical_section == "pg_vacuum_observation"@
                && member.column == "elapsed_us"@ && exists|t: i64| #[trigger]
                is_extreme_time(levels, true, t) && elapsed[t] >= 300_000_000 && present[t] == 1
                    && valid[t] == 1
            &&& out.len() == 1 ==> out[0].requested_role == Role::Coincident && is_about(
                out[0],
                member,
            ) && exists|t: i64| #[trigger]
                is_extreme_time(levels, true, t) && elapsed[t] >= 300_000_000 && present[t] == 1
                    && valid[t] == 1 && shown_at(out[0], t) && shows_value(
                    out[0],
                    0,
                    "elapsed_us"@,
                    Float64::of_int(elapsed[t]),
                )
        }),
{
    let lens = RunningVacuumLens;
    lemma_inspected(&lens, member, typed, context);
    let columns = seq!["elapsed_us"@, "activity_present"@, "clock_valid"@];
    let levels = seq![elapsed, present, valid];
    assert forall|k: int| 0 <= k < columns.len() implies reads(
        typed,
        "pg_vacuum_observation"@,
        #[trigger] columns[k],
        member.identity,
        context,
        levels[k],
    ) by {}
    lemma_columns(typed, "pg_vacuum_observation"@, member.identity, columns, context, levels);
    let tracks = snapshot_tracks(
        typed,
        "pg_vacuum_observation"@,
        member.identity,
        columns,
        context,
    )->Some_0;
    law_a_snapshot_reads_its_extreme_time(
        tracks,
        levels,
        context.incident_start_us,
        context.incident_end_us,
        true,
    );
    if let Some(reading) = worst_snapshot(
        typed,
        "pg_vacuum_observation"@,
        member.identity,
        columns,
        context,
        true,
    ) {
        let t = reading.observed_at_us;
        assert(forall|k: int|
            0 <= k < levels.len() ==> #[trigger] reading.values[k] == Float64::of_int(levels[k][t])
                && levels[k].dom().contains(t));
        assert forall|u: i64| #[trigger] is_extreme_time(levels, true, u) implies u == t by {
            lemma_extreme_time_unique(levels, true, t, u);
        }
        lemma_small(0);
        lemma_one();
        lemma_small(1);
        assert(reading.values[0] == Float64::of_int(elapsed[t]));
        assert(reading.values[1] == Float64::of_int(present[t]));
        assert(reading.values[2] == Float64::of_int(valid[t]));
        lemma_three_hundred_million();
        law_small_integers_keep_their_order(elapsed[t], 300_000_000);
        law_small_integers_keep_their_order(present[t], 1);
        law_small_integers_keep_their_order(valid[t], 1);
        lemma_small(elapsed[t]);
    }
    reveal_strlit("elapsed_us");
    reveal_strlit("pg_vacuum_observation");
}

/// A mount is reported exactly if, when it had least space, it was mapped and
/// less than a tenth of it was available.
pub proof fn law_a_full_mount_is_reported(
    member: EpisodeView,
    typed: TypedView,
    context: EvalContext,
    available: Map<i64, int>,
    all: Map<i64, int>,
    mapped: Map<i64, int>,
)
    requires
        reads(typed, "pg_storage_mount"@, "available_bytes"@, member.identity, context, available),
        reads(typed, "pg_storage_mount"@, "total_bytes"@, member.identity, context, all),
        reads(typed, "pg_storage_mount"@, "mapping_state"@, member.identity, context, mapped),
        never_negative(available),
        never_negative(all),
    ensures
        ({
            let out = drafts(StorageCapacityLens.member_steps(member, typed, context));
            let levels = seq![available, all, mapped];
            &&& out.len() <= 1
            &&& out.len() == 1 <==> member.logical_section == "pg_storage_mount"@
                && member.column == "available_bytes"@ && exists|t: i64| #[trigger]
                is_extreme_time(levels, false, t) && mapped[t] == 1 && all[t] > 0
                    && 10 * available[t] < all[t]
            &&& out.len() == 1 ==> out[0].requested_role == Role::Coincident && is_about(
                out[0],
                member,
            ) && exists|t: i64| #[trigger]
                is_extreme_time(levels, false, t) && mapped[t] == 1 && all[t] > 0
                    && 10 * available[t] < all[t] && shown_at(out[0], t) && shows_ratio(
                    out[0],
                    0,
                    "available_bytes"@,
                    Float64::of_int(available[t]),
                    "total_bytes"@,
                    Float64::of_int(all[t]),
                )
        }),
{
    let lens = StorageCapacityLens;
    lemma_inspected(&lens, member, typed, context);
    let columns = seq!["available_bytes"@, "total_bytes"@, "mapping_state"@];
    let levels = seq![available, all, mapped];
    assert forall|k: int| 0 <= k < columns.len() implies reads(
        typed,
        "pg_storage_mount"@,
        #[trigger] columns[k],
        member.identity,
        context,
        levels[k],
    ) by {}
    lemma_columns(typed, "pg_storage_mount"@, member.identity, columns, context, levels);
    let tracks = snapshot_tracks(
        typed,
        "pg_storage_mount"@,
        member.identity,
        columns,
        context,
    )->Some_0;
    law_a_snapshot_reads_its_extreme_time(
        tracks,
        levels,
        context.incident_start_us,
        context.incident_end_us,
        false,
    );
    if let Some(reading) = worst_snapshot(
        typed,
        "pg_storage_mount"@,
        member.identity,
        columns,
        context,
        false,
    ) {
        let t = reading.observed_at_us;
        assert(forall|k: int|
            0 <= k < levels.len() ==> #[trigger] reading.values[k] == Float64::of_int(levels[k][t])
                && levels[k].dom().contains(t));
        assert forall|u: i64| #[trigger] is_extreme_time(levels, false, u) implies u == t by {
            lemma_extreme_time_unique(levels, false, t, u);
        }
        lemma_small(0);
        lemma_one();
        lemma_small(1);
        assert(reading.values[0] == Float64::of_int(available[t]));
        assert(reading.values[1] == Float64::of_int(all[t]));
        assert(reading.values[2] == Float64::of_int(mapped[t]));
        law_small_integers_keep_their_order(mapped[t], 1);
        lemma_small(available[t]);
        lemma_small(all[t]);
        law_small_integers_keep_their_order(0, all[t]);
        if all[t] > 0 {
            law_ratio_reaches_one_tenth(available[t], all[t]);
        }
    }
    reveal_strlit("available_bytes");
    reveal_strlit("total_bytes");
    reveal_strlit("pg_storage_mount");
}

/// A control group is reported exactly if, when it used most memory, it was
/// mapped, had a limit, and used at least nine tenths of it.
pub proof fn law_a_full_control_group_is_reported(
    member: EpisodeView,
    typed: TypedView,
    context: EvalContext,
    used: Map<i64, int>,
    limit: Map<i64, int>,
    mapped: Map<i64, int>,
    unlimited: Map<i64, int>,
)
    requires
        reads(typed, "pg_process_cgroup_memory"@, "current_bytes"@, member.identity, context, used),
        reads(typed, "pg_process_cgroup_memory"@, "max_bytes"@, member.identity, context, limit),
        reads(typed, "pg_process_cgroup_memory"@, "mapping_state"@, member.identity, context, mapped),
        reads(typed, "pg_process_cgroup_memory"@, "max_unlimited"@, member.identity, context, unlimited),
        never_negative(used),
        never_negative(limit),
    ensures
        ({
            let out = drafts(CgroupMemoryLens.member_steps(member, typed, context));
            let levels = seq![used, limit, mapped, unlimited];
            &&& out.len() <= 1
            &&& out.len() == 1 <==> member.logical_section == "pg_process_cgroup_memory"@
                && member.column == "current_bytes"@ && exists|t: i64| #[trigger]
                is_extreme_time(levels, true, t) && mapped[t] == 1 && unlimited[t] == 0
                    && limit[t] > 0 && 10 * used[t]
                >= 9 * limit[t]
            &&& out.len() == 1 ==> out[0].requested_role == Role::Coincident && is_about(
                out[0],
                member,
            ) && exists|t: i64| #[trigger]
                is_extreme_time(levels, true, t) && mapped[t] == 1 && unlimited[t] == 0
                    && limit[t] > 0 && 10 * used[t]
                >= 9 * limit[t] && shown_at(out[0], t) && shows_ratio(
                    out[0],
                    0,
                    "current_bytes"@,
                    Float64::of_int(used[t]),
                    "max_bytes"@,
                    Float64::of_int(limit[t]),
                )
        }),
{
    let lens = CgroupMemoryLens;
    lemma_inspected(&lens, member, typed, context);
    let columns = seq!["current_bytes"@, "max_bytes"@, "mapping_state"@, "max_unlimited"@];
    let levels = seq![used, limit, mapped, unlimited];
    assert forall|k: int| 0 <= k < columns.len() implies reads(
        typed,
        "pg_process_cgroup_memory"@,
        #[trigger] columns[k],
        member.identity,
        context,
        levels[k],
    ) by {}
    lemma_columns(typed, "pg_process_cgroup_memory"@, member.identity, columns, context, levels);
    let tracks = snapshot_tracks(
        typed,
        "pg_process_cgroup_memory"@,
        member.identity,
        columns,
        context,
    )->Some_0;
    law_a_snapshot_reads_its_extreme_time(
        tracks,
        levels,
        context.incident_start_us,
        context.incident_end_us,
        true,
    );
    if let Some(reading) = worst_snapshot(
        typed,
        "pg_process_cgroup_memory"@,
        member.identity,
        columns,
        context,
        true,
    ) {
        let t = reading.observed_at_us;
        assert(forall|k: int|
            0 <= k < levels.len() ==> #[trigger] reading.values[k] == Float64::of_int(levels[k][t])
                && levels[k].dom().contains(t));
        assert forall|u: i64| #[trigger] is_extreme_time(levels, true, u) implies u == t by {
            lemma_extreme_time_unique(levels, true, t, u);
        }
        lemma_small(0);
        lemma_one();
        lemma_small(1);
        assert(reading.values[0] == Float64::of_int(used[t]));
        assert(reading.values[1] == Float64::of_int(limit[t]));
        assert(reading.values[2] == Float64::of_int(mapped[t]));
        assert(reading.values[3] == Float64::of_int(unlimited[t]));
        law_small_integers_keep_their_order(mapped[t], 1);
        law_small_integers_keep_their_order(unlimited[t], 0);
        lemma_small(used[t]);
        lemma_small(limit[t]);
        law_small_integers_keep_their_order(0, limit[t]);
        if limit[t] > 0 {
            law_ratio_reaches_nine_tenths(used[t], limit[t]);
        }
    }
    reveal_strlit("current_bytes");
    reveal_strlit("max_bytes");
    reveal_strlit("pg_process_cgroup_memory");
}

/// A distance in bytes to a standby is reported exactly if, when it was largest,
/// it was at least sixty-four mebibytes and the standby was in scope and alive.
pub proof fn law_a_replication_distance_is_reported(
    member: EpisodeView,
    typed: TypedView,
    context: EvalContext,
    amount: Map<i64, int>,
    scope: Map<i64, int>,
    state: Map<i64, int>,
)
    requires
        reads(typed, "pg_replication_physical"@, member.column, member.identity, context, amount),
        reads(typed, "pg_replication_physical"@, "scope_code"@, member.identity, context, scope),
        reads(typed, "pg_replication_physical"@, "state_code"@, member.identity, context, state),
        never_negative(amount),
        never_negative(state),
        has_suffix(member.column, "_bytes"@),
    ensures
        ({
            let out = drafts(PhysicalReplicationLens.member_steps(member, typed, context));
            let levels = seq![amount, scope, state];
            &&& out.len() <= 1
            &&& out.len() == 1 <==> member.logical_section == "pg_replication_physical"@
                && exists|t: i64| #[trigger]
                is_extreme_time(levels, true, t) && amount[t] >= 67_108_864 && scope[t] == 1
                    && 1 <= state[t] <= 5
            &&& out.len() == 1 ==> out[0].requested_role == Role::Coincident && is_about(
                out[0],
                member,
            ) && exists|t: i64| #[trigger]
                is_extreme_time(levels, true, t) && amount[t] >= 67_108_864 && scope[t] == 1
                    && 1 <= state[t] <= 5 && shown_at(out[0], t) && shows_value(
                    out[0],
                    0,
                    member.column,
                    Float64::of_int(amount[t]),
                )
        }),
{
    let lens = PhysicalReplicationLens;
    lemma_inspected(&lens, member, typed, context);
    let columns = seq![member.column, "scope_code"@, "state_code"@];
    let levels = seq![amount, scope, state];
    assert forall|k: int| 0 <= k < columns.len() implies reads(
        typed,
        "pg_replication_physical"@,
        #[trigger] columns[k],
        member.identity,
        context,
        levels[k],
    ) by {}
    lemma_columns(typed, "pg_replication_physical"@, member.identity, columns, context, levels);
    let tracks = snapshot_tracks(
        typed,
        "pg_replication_physical"@,
        member.identity,
        columns,
        context,
    )->Some_0;
    law_a_snapshot_reads_its_extreme_time(
        tracks,
        levels,
        context.incident_start_us,
        context.incident_end_us,
        true,
    );
    if let Some(reading) = worst_snapshot(
        typed,
        "pg_replication_physical"@,
        member.identity,
        columns,
        context,
        true,
    ) {
        let t = reading.observed_at_us;
        assert(forall|k: int|
            0 <= k < levels.len() ==> #[trigger] reading.values[k] == Float64::of_int(levels[k][t])
                && levels[k].dom().contains(t));
        assert forall|u: i64| #[trigger] is_extreme_time(levels, true, u) implies u == t by {
            lemma_extreme_time_unique(levels, true, t, u);
        }
        lemma_small(0);
        lemma_one();
        lemma_small(1);
        assert(reading.values[0] == Float64::of_int(amount[t]));
        assert(reading.values[1] == Float64::of_int(scope[t]));
        assert(reading.values[2] == Float64::of_int(state[t]));
        lemma_sixty_four_mebi();
        law_small_integers_keep_their_order(amount[t], 67_108_864);
        law_small_integers_keep_their_order(scope[t], 1);
        law_small_integers_keep_their_order(state[t], 1);
        lemma_five();
        lemma_small(state[t]);
        lemma_small(5);
        law_small_integers_keep_their_order(5, state[t]);
        law_order_is_numeric(Float64::of_int(1), Float64::of_int(state[t]));
        law_order_is_numeric(Float64::of_int(state[t]), Float64::of_int(5));
        lemma_small(amount[t]);
    }
    reveal_strlit("_bytes");
    reveal_strlit("_lag_us");
    reveal_strlit("pg_replication_physical");
}

/// A delay of a standby is reported exactly if, when it was largest, it was at
/// least thirty seconds and the standby was in scope and alive.
pub proof fn law_a_replication_delay_is_reported(
    member: EpisodeView,
    typed: TypedView,
    context: EvalContext,
    amount: Map<i64, int>,
    scope: Map<i64, int>,
    state: Map<i64, int>,
)
    requires
        reads(typed, "pg_replication_physical"@, member.column, member.identity, context, amount),
        reads(typed, "pg_replication_physical"@, "scope_code"@, member.identity, context, scope),
        reads(typed, "pg_replication_physical"@, "state_code"@, member.identity, context, state),
        never_negative(amount),
        never_negative(state),
        has_suffix(member.column, "_lag_us"@),
    ensures
        ({
            let out = drafts(PhysicalReplicationLens.member_steps(member, typed, context));
            let levels = seq![amount, scope, state];
            &&& out.len() <= 1
            &&& out.len() == 1 <==> member.logical_section == "pg_replication_physical"@
                && exists|t: i64| #[trigger]
                is_extreme_time(levels, true, t) && amount[t] >= 30_000_000 && scope[t] == 1
                    && 1 <= state[t] <= 5
            &&& out.len() == 1 ==> out[0].requested_role == Role::Coincident && is_about(
                out[0],
                member,
            ) && exists|t: i64| #[trigger]
                is_extreme_time(levels, true, t) && amount[t] >= 30_000_000 && scope[t] == 1
                    && 1 <= state[t] <= 5 && shown_at(out[0], t) && shows_value(
                    out[0],
                    0,
                    member.column,
                    Float64::of_int(amount[t]),
                )
        }),
{
    let lens = PhysicalReplicationLens;
    lemma_inspected(&lens, member, typed, context);
    let columns = seq![member.column, "scope_code"@, "state_code"@];
    let levels = seq![amount, scope, state];
    assert forall|k: int| 0 <= k < columns.len() implies reads(
        typed,
        "pg_replication_physical"@,
        #[trigger] columns[k],
        member.identity,
        context,
        levels[k],
    ) by {}
    lemma_columns(typed, "pg_replication_physical"@, member.identity, columns, context, levels);
    let tracks = snapshot_tracks(
        typed,
        "pg_replication_physical"@,
        member.identity,
        columns,
        context,
    )->Some_0;
    law_a_snapshot_reads_its_extreme_time(
        tracks,
        levels,
        context.incident_start_us,
        context.incident_end_us,
        true,
    );
    if let Some(reading) = worst_snapshot(
        typed,
        "pg_replication_physical"@,
        member.identity,
        columns,
        context,
        true,
    ) {
        let t = reading.observed_at_us;
        assert(forall|k: int|
            0 <= k < levels.len() ==> #[trigger] reading.values[k] == Float64::of_int(levels[k][t])
                && levels[k].dom().contains(t));
        assert forall|u: i64| #[trigger] is_extreme_time(levels, true, u) implies u == t by {
            lemma_extreme_time_unique(levels, true, t, u);
        }
        lemma_small(0);
        lemma_one();
        lemma_small(1);
        assert(reading.values[0] == Float64::of_int(amount[t]));
        assert(reading.values[1] == Float64::of_int(scope[t]));
        assert(reading.values[2] == Float64::of_int(state[t]));
        lemma_thirty_million();
        law_small_integers_keep_their_order(amount[t], 30_000_000);
        law_small_integers_keep_their_order(scope[t], 1);
        law_small_integers_keep_their_order(state[t], 1);
        lemma_five();
        lemma_small(state[t]);
        lemma_small(5);
        law_small_integers_keep_their_order(5, state[t]);
        law_order_is_numeric(Float64::of_int(1), Float64::of_int(state[t]));
        law_order_is_numeric(Float64::of_int(state[t]), Float64::of_int(5));
        lemma_small(amount[t]);
    }
    reveal_strlit("_bytes");
    reveal_strlit("_lag_us");
    if has_suffix(member.column, "_bytes"@) {
        let bytes = encode_utf8(member.column);
        let n = bytes.len();
        is_ascii_chars_encode_utf8("_bytes"@);
        is_ascii_chars_encode_utf8("_lag_us"@);
        assert("_bytes"@[4] == 'e' && "_lag_us"@[5] == 'u');
        assert(bytes.skip(n - 6)[4] == bytes[n - 2]);
        assert(bytes.skip(n - 7)[5] == bytes[n - 2]);
    }
    reveal_strlit("pg_replication_physical");
}


} // verus!
