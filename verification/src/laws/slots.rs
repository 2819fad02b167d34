//! When a replication slot is reported.

use crate::engine::EvalContext;
use crate::evidence::confidence::Role;
use crate::float64::{
    law_order_is_numeric, law_small_integers_add_exactly, law_small_integers_keep_their_order,
    Float64,
};
use crate::gauge_contracts::{slot_amount, slot_charges, slot_draft, slot_tracks, SlotRetentionLens};
use crate::inspect::{emitted, MemberLens};
use crate::laws::integers::{lemma_one, lemma_two};
use crate::laws::levels::{
    all_meet, is_extreme_time, is_series, law_a_snapshot_reads_an_extreme_of_a_column,
    law_a_snapshot_reads_its_extreme_time, law_rows_hold_the_shared_levels, lemma_columns,
    lemma_extreme_time_unique, never_negative, reads,
};
use crate::laws::ratio::{law_ratio_reaches_four_fifths, lemma_small};
use crate::laws::steps::{drafts, lemma_drafts_concat, lemma_drafts_emitted};
use crate::laws::subject::{is_about, shows_ratio};
use crate::model::EpisodeView;
use crate::typed::gauge::{extreme_snapshot, shared_points, trend_reading};
use crate::typed::inputs::TypedView;
use vstd::prelude::*;

verus! {

/// Whether a slot retained what it should at all times of its readings.
pub open spec fn always_retains(status: Map<i64, int>) -> bool {
    forall|t: i64| status.dom().contains(t) ==> 1 <= #[trigger] status[t] <= 2
}

/// Whether series have levels at the same times.
pub open spec fn same_times(a: Map<i64, int>, b: Map<i64, int>) -> bool {
    forall|t: i64| a.dom().contains(t) <==> #[trigger] b.dom().contains(t)
}

proof fn lemma_amount(
    typed: TypedView,
    member: EpisodeView,
    context: EvalContext,
    headroom: Seq<char>,
    retained: Map<i64, int>,
    room: Map<i64, int>,
    status: Map<i64, int>,
    t: i64,
)
    requires
        reads(
            typed,
            "pg_replication_slot_retention"@,
            "retained_bytes"@,
            member.identity,
            context,
            retained,
        ),
        reads(typed, "pg_replication_slot_retention"@, headroom, member.identity, context, room),
        reads(
            typed,
            "pg_replication_slot_retention"@,
            "wal_status_code"@,
            member.identity,
            context,
            status,
        ),
        same_times(retained, room),
        same_times(retained, status),
        always_retains(status),
        is_extreme_time(seq![retained, room, status], true, t),
        room[t] > 0,
    ensures
        ({
            let points = typed.gauge_points(
                "pg_replication_slot_retention"@,
                "retained_bytes"@,
                member.identity,
                context.incident_start_us,
                context.incident_end_us,
            )->Some_0;
            let found = slot_amount(
                slot_tracks(typed, member.identity, headroom, context),
                points.len(),
                context,
            );
            &&& found is Some
            &&& found->Some_0.observed_at_us == t
            &&& found->Some_0.values.len() == 3
            &&& found->Some_0.values[0] == Float64::of_int(retained[t])
            &&& found->Some_0.values[1] == Float64::of_int(room[t])
            &&& found->Some_0.samples > 0
        }),
{
    let columns = seq!["retained_bytes"@, headroom, "wal_status_code"@];
    let levels = seq![retained, room, status];
    let (from_us, to_us) = (context.incident_start_us, context.incident_end_us);
    assert forall|k: int| 0 <= k < columns.len() implies reads(
        typed,
        "pg_replication_slot_retention"@,
        #[trigger] columns[k],
        member.identity,
        context,
        levels[k],
    ) by {}
    lemma_columns(
        typed,
        "pg_replication_slot_retention"@,
        member.identity,
        columns,
        context,
        levels,
    );
    let tracks = slot_tracks(typed, member.identity, headroom, context)->Some_0;
    let points = typed.gauge_points(
        "pg_replication_slot_retention"@,
        "retained_bytes"@,
        member.identity,
        from_us,
        to_us,
    )->Some_0;
    assert(columns[0] == "retained_bytes"@);
    assert(tracks[0] == points);
    law_a_snapshot_reads_its_extreme_time(tracks, levels, from_us, to_us, true);
    law_a_snapshot_reads_an_extreme_of_a_column(tracks, levels, from_us, to_us, 2, true);
    law_a_snapshot_reads_an_extreme_of_a_column(tracks, levels, from_us, to_us, 2, false);
    law_rows_hold_the_shared_levels(tracks, levels);
    assert(all_meet(levels, t));
    let reading = extreme_snapshot(tracks, from_us, to_us, 0, true)->Some_0;
    lemma_extreme_time_unique(levels, true, t, reading.observed_at_us);
    assert(reading.values[0] == Float64::of_int(levels[0][t]));
    assert(reading.values[1] == Float64::of_int(levels[1][t]));
    let low = extreme_snapshot(tracks, from_us, to_us, 2, false)->Some_0;
    let high = extreme_snapshot(tracks, from_us, to_us, 2, true)->Some_0;
    let a = low.observed_at_us;
    let b = high.observed_at_us;
    assert(all_meet(levels, a) && all_meet(levels, b));
    assert(levels[2].dom().contains(a) && levels[2].dom().contains(b));
    assert(low.values[2] == Float64::of_int(levels[2][a]));
    assert(high.values[2] == Float64::of_int(levels[2][b]));
    lemma_one();
    lemma_two();
    lemma_small(0);
    lemma_small(1);
    lemma_small(2);
    lemma_small(status[a]);
    lemma_small(status[b]);
    law_small_integers_keep_their_order(status[a], 1);
    law_small_integers_keep_their_order(2, status[b]);
    law_order_is_numeric(Float64::of_int(1), Float64::of_int(status[a]));
    law_order_is_numeric(Float64::of_int(status[b]), Float64::of_int(2));
    law_small_integers_keep_their_order(0, room[t]);
    lemma_all_rows(tracks, levels);
}

/// Series of the same times share every reading.
proof fn lemma_all_rows(
    tracks: Seq<Seq<crate::typed::gauge::GaugePoint>>,
    levels: Seq<Map<i64, int>>,
)
    requires
        tracks.len() == 3,
        levels.len() == 3,
        forall|k: int| 0 <= k < tracks.len() ==> is_series(#[trigger] tracks[k], levels[k]),
        same_times(levels[0], levels[1]),
        same_times(levels[0], levels[2]),
    ensures
        shared_points(tracks).len() == tracks[0].len(),
{
    law_rows_hold_the_shared_levels(tracks, levels);
    let found = shared_points(tracks);
    let n = tracks[0].len();
    assert(is_series(tracks[0], levels[0]));
    let times = Seq::new(n, |i: int| tracks[0][i].ts);
    let shared = Seq::new(found.len(), |r: int| found[r][0].ts);
    assert forall|i: int, j: int| 0 <= i < times.len() && 0 <= j < times.len() && i != j
        implies times[i]
        != times[j] by {
        if i < j {
            assert(tracks[0][i].ts < tracks[0][j].ts);
        } else {
            assert(tracks[0][j].ts < tracks[0][i].ts);
        }
    }
    assert forall|i: int, j: int| 0 <= i < shared.len() && 0 <= j < shared.len() && i
        != j implies shared[i] != shared[j] by {
        if i < j {
            assert(found[i][0].ts < found[j][0].ts);
        } else {
            assert(found[j][0].ts < found[i][0].ts);
        }
    }
    assert(times.to_set() =~= shared.to_set()) by {
        assert forall|t: i64| #[trigger] times.to_set().contains(t) <==> shared.to_set().contains(
            t,
        ) by {
            if times.contains(t) {
                let i = times.index_of(t);
                assert(levels[0].dom().contains(tracks[0][i].ts));
                assert(levels[1].dom().contains(t) && levels[2].dom().contains(t));
                assert(all_meet(levels, t));
                let r = choose|r: int| 0 <= r < found.len() && (#[trigger] found[r])[0].ts == t;
                assert(shared[r] == t);
            }
            if shared.contains(t) {
                let r = shared.index_of(t);
                assert(crate::laws::levels::row_at(levels, found[r]));
                assert(levels[0].dom().contains(t));
                assert(crate::laws::levels::held_at(tracks[0], t));
                let i = choose|i: int| 0 <= i < n && (#[trigger] tracks[0][i]).ts == t;
                assert(times[i] == t);
            }
        }
    }
    times.unique_seq_to_set();
    shared.unique_seq_to_set();
}

/// A slot whose headroom is known is reported exactly if, when it retained most,
/// that was at least four fifths of what it could: of what it retained and what
/// was still safe together.
pub proof fn law_a_slot_close_to_its_headroom_is_reported(
    member: EpisodeView,
    typed: TypedView,
    context: EvalContext,
    retained: Map<i64, int>,
    safe: Map<i64, int>,
    status: Map<i64, int>,
    t: i64,
)
    requires
        member.logical_section == "pg_replication_slot_retention"@,
        member.column == "retained_bytes"@,
        reads(
            typed,
            "pg_replication_slot_retention"@,
            "retained_bytes"@,
            member.identity,
            context,
            retained,
        ),
        reads(
            typed,
            "pg_replication_slot_retention"@,
            "safe_wal_size"@,
            member.identity,
            context,
            safe,
        ),
        reads(
            typed,
            "pg_replication_slot_retention"@,
            "wal_status_code"@,
            member.identity,
            context,
            status,
        ),
        never_negative(retained),
        same_times(retained, safe),
        same_times(retained, status),
        always_retains(status),
        is_extreme_time(seq![retained, safe, status], true, t),
        safe[t] > 0,
    ensures
        ({
            let out = drafts(SlotRetentionLens.member_steps(member, typed, context));
            &&& out.len() <= 1
            &&& out.len() == 1 <==> 5 * retained[t] >= 4 * (retained[t] + safe[t])
            &&& out.len() == 1 ==> out[0].requested_role == Role::Coincident && is_about(
                out[0],
                member,
            ) && shows_ratio(
                out[0],
                0,
                "retained_bytes"@,
                Float64::of_int(retained[t]),
                "retained_bytes_plus_safe_wal_size"@,
                Float64::of_int(retained[t] + safe[t]),
            )
        }),
{
    lemma_amount(typed, member, context, "safe_wal_size"@, retained, safe, status, t);
    let points = typed.gauge_points(
        "pg_replication_slot_retention"@,
        "retained_bytes"@,
        member.identity,
        context.incident_start_us,
        context.incident_end_us,
    )->Some_0;
    let tracks = slot_tracks(typed, member.identity, "safe_wal_size"@, context);
    let reading = slot_amount(tracks, points.len(), context)->Some_0;
    let trend = trend_reading(points, context.incident_start_us, context.incident_end_us);
    let draft = slot_draft(member, reading, true, trend);
    let levels = seq![retained, safe, status];
    assert(all_meet(levels, t));
    assert(levels[0].dom().contains(t) && levels[1].dom().contains(t));
    let whole = retained[t] + safe[t];
    law_small_integers_add_exactly(retained[t], safe[t]);
    lemma_small(0);
    lemma_small(retained[t]);
    lemma_small(whole);
    law_small_integers_keep_their_order(0, whole);
    law_ratio_reaches_four_fifths(retained[t], whole);
    reveal_strlit("retained_bytes");
    reveal_strlit("retained_bytes_plus_safe_wal_size");
    reveal_strlit("pg_replication_slot_retention");
    lemma_drafts_emitted(draft);
    lemma_drafts_concat(slot_charges(tracks), emitted(draft));
    lemma_charges(tracks);
    assert(drafts(SlotRetentionLens.member_steps(member, typed, context)) =~= drafts(
        emitted(draft),
    ));
}

proof fn lemma_charges(tracks: Option<Seq<Seq<crate::typed::gauge::GaugePoint>>>)
    ensures
        drafts(slot_charges(tracks)).len() == 0,
{
    crate::laws::devices::lemma_charges_draft_nothing(slot_charges(tracks));
}

/// Where the headroom of a slot is not known, its limit takes the place: the
/// slot is reported exactly if, when it retained most, that was at least four
/// fifths of the limit.
pub proof fn law_a_slot_close_to_its_limit_is_reported(
    member: EpisodeView,
    typed: TypedView,
    context: EvalContext,
    retained: Map<i64, int>,
    limit: Map<i64, int>,
    status: Map<i64, int>,
    t: i64,
)
    requires
        member.logical_section == "pg_replication_slot_retention"@,
        member.column == "retained_bytes"@,
        typed.gauge_points(
            "pg_replication_slot_retention"@,
            "safe_wal_size"@,
            member.identity,
            context.incident_start_us,
            context.incident_end_us,
        ) is None,
        reads(
            typed,
            "pg_replication_slot_retention"@,
            "retained_bytes"@,
            member.identity,
            context,
            retained,
        ),
        reads(
            typed,
            "pg_replication_slot_retention"@,
            "max_slot_wal_keep_size_bytes"@,
            member.identity,
            context,
            limit,
        ),
        reads(
            typed,
            "pg_replication_slot_retention"@,
            "wal_status_code"@,
            member.identity,
            context,
            status,
        ),
        never_negative(retained),
        same_times(retained, limit),
        same_times(retained, status),
        always_retains(status),
        is_extreme_time(seq![retained, limit, status], true, t),
        limit[t] > 0,
    ensures
        ({
            let out = drafts(SlotRetentionLens.member_steps(member, typed, context));
            &&& out.len() <= 1
            &&& out.len() == 1 <==> 5 * retained[t] >= 4 * limit[t]
            &&& out.len() == 1 ==> out[0].requested_role == Role::Coincident && is_about(
                out[0],
                member,
            ) && shows_ratio(
                out[0],
                0,
                "retained_bytes"@,
                Float64::of_int(retained[t]),
                "max_slot_wal_keep_size_bytes"@,
                Float64::of_int(limit[t]),
            )
        }),
{
    lemma_amount(
        typed,
        member,
        context,
        "max_slot_wal_keep_size_bytes"@,
        retained,
        limit,
        status,
        t,
    );
    let points = typed.gauge_points(
        "pg_replication_slot_retention"@,
        "retained_bytes"@,
        member.identity,
        context.incident_start_us,
        context.incident_end_us,
    )->Some_0;
    let safe = slot_tracks(typed, member.identity, "safe_wal_size"@, context);
    let columns = seq!["retained_bytes"@, "safe_wal_size"@, "wal_status_code"@];
    assert(columns[1] == "safe_wal_size"@);
    assert(safe is None);
    let tracks = slot_tracks(
        typed,
        member.identity,
        "max_slot_wal_keep_size_bytes"@,
        context,
    );
    let reading = slot_amount(tracks, points.len(), context)->Some_0;
    let trend = trend_reading(points, context.incident_start_us, context.incident_end_us);
    let draft = slot_draft(member, reading, false, trend);
    let levels = seq![retained, limit, status];
    assert(all_meet(levels, t));
    assert(levels[0].dom().contains(t) && levels[1].dom().contains(t));
    lemma_small(0);
    lemma_small(retained[t]);
    lemma_small(limit[t]);
    law_small_integers_keep_their_order(0, limit[t]);
    law_ratio_reaches_four_fifths(retained[t], limit[t]);
    reveal_strlit("retained_bytes");
    reveal_strlit("max_slot_wal_keep_size_bytes");
    reveal_strlit("pg_replication_slot_retention");
    lemma_drafts_emitted(draft);
    lemma_drafts_concat(slot_charges(tracks), emitted(draft));
    lemma_drafts_concat(slot_charges(safe), slot_charges(tracks) + emitted(draft));
    lemma_charges(tracks);
    lemma_charges(safe);
    assert(drafts(SlotRetentionLens.member_steps(member, typed, context)) =~= drafts(
        emitted(draft),
    ));
}

} // verus!
