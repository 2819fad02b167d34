//! When a pair of counters is reported.

use crate::active::counters::{
    BackendIoLatencyLens, CgroupCpuThrottlingLens, HotUpdateFailureLens, NetworkErrorsLens,
    RequestedCheckpointsLens, SharedBufferMissesLens, TempSpillLens, WalAmplificationLens,
    WalArchivingFailureLens,
};
use crate::active::shared::{operands_admit, operands_of, sums_evidence, PairLens, ReadingView};
use crate::engine::EvalContext;
use crate::evidence::confidence::Role;
use crate::evidence::counter::CounterOperandPurpose;
use crate::evidence::finding::{DraftView, EvidenceView};
use crate::evidence::value::normal;
use crate::float64::{
    law_small_integers_add_exactly, law_small_integers_keep_their_order, lemma_rounded, magnitude,
    nearest, Float64, UNIT,
};
use crate::inspect::{emitted, InspectLens, MemberLens};
use crate::laws::integers::lemma_one;
use crate::laws::ratio::{
    law_ratio_reaches_one, law_ratio_reaches_one_fifth, law_ratio_reaches_one_half,
    law_ratio_reaches_one_hundred_thousand, law_ratio_reaches_one_hundredth,
    law_small_integers_subtract_exactly, lemma_small,
};
use crate::laws::steps::{drafts, lemma_drafts_after_charge, lemma_drafts_emitted};
use crate::laws::subject::is_about;
use crate::model::EpisodeView;
use crate::typed::counter::PairedSums;
use crate::typed::inputs::TypedView;
use vstd::arithmetic::power2::{lemma_pow2_pos, pow2};
use vstd::prelude::*;

verus! {

/// Whether sums of two counters are integers, over intervals within a window of
/// which each is accounted for.
pub open spec fn are_counts(sums: PairedSums, a: int, b: int, context: EvalContext) -> bool {
    &&& 0 <= a <= 0x8_0000_0000
    &&& 0 <= b <= 0x8_0000_0000
    &&& sums.sum_a == Float64::of_int(a)
    &&& sums.sum_b == Float64::of_int(b)
    &&& sums.first_start_us is Some
    &&& sums.first_end_us is Some
    &&& sums.last_end_us is Some
    &&& sums.first_start_us->Some_0 <= sums.first_end_us->Some_0 <= sums.last_end_us->Some_0
    &&& context.incident_start_us <= sums.first_end_us->Some_0
    &&& sums.last_end_us->Some_0 <= context.incident_end_us
    &&& 0 < sums.intervals
    &&& sums.intervals + sums.unmatched_endpoint_intervals + sums.unusable_delta_intervals
        + sums.unaligned_duration_intervals + sums.numeric_limit_intervals
        == sums.candidate_intervals
    &&& 0 < sums.elapsed_us <= 0x10_0000_0000_0000
}

/// Whether enough intervals are usable, and seven tenths of those seen.
pub open spec fn enough(sums: PairedSums, least: int) -> bool {
    sums.intervals >= least && 10 * sums.intervals >= 7 * sums.candidate_intervals
}

/// Whether the only evidence of a draft is a value over two named counts and
/// their intervals.
pub open spec fn shows_counts(
    draft: DraftView,
    value: Float64,
    name_a: Seq<char>,
    a: int,
    name_b: Seq<char>,
    b: int,
    sums: PairedSums,
    context: EvalContext,
) -> bool {
    draft.evidence.len() == 1 && match draft.evidence[0] {
        EvidenceView::CounterAggregate(shown) => {
            &&& shown.value == normal(value)
            &&& shown.operands.len() >= 2
            &&& shown.operands[0].name == name_a
            &&& shown.operands[0].value == Float64::of_int(a)
            &&& shown.operands.last().name == name_b
            &&& shown.operands.last().value == Float64::of_int(b)
            &&& shown.window.selection_from_us == context.incident_start_us
            &&& shown.window.selection_to_us == context.incident_end_us
            &&& Some(shown.window.first_interval_start_us) == sums.first_start_us
            &&& Some(shown.window.first_interval_end_us) == sums.first_end_us
            &&& Some(shown.window.last_interval_end_us) == sums.last_end_us
            &&& shown.window.usable_intervals == sums.intervals
            &&& shown.window.candidate_intervals == sums.candidate_intervals
            &&& shown.window.elapsed_us == sums.elapsed_us
        },
        _ => false,
    }
}

proof fn lemma_reading(
    sums: PairedSums,
    a: int,
    b: int,
    context: EvalContext,
    member: EpisodeView,
    section: Seq<char>,
    reading: ReadingView,
)
    requires
        are_counts(sums, a, b, context),
        section.len() > 0,
        reading.formula.len() > 0,
        reading.value.finite(),
        reading.threshold.finite(),
        2 <= reading.operands.len() <= 3,
        reading.operands[0].purpose == CounterOperandPurpose::Formula,
        reading.operands[0].value == Float64::of_int(a),
        reading.operands.last().value == Float64::of_int(b),
        reading.operands.len() == 3 ==> exists|c: int|
            0 <= c <= 0x20_0000_0000_0000
                && reading.operands[1].value == #[trigger] Float64::of_int(
                c,
            ),
        forall|i: int| 0 <= i < reading.operands.len()
            ==> (#[trigger] reading.operands[i]).name.len()
            > 0,
        forall|i: int, j: int|
            0 <= i < j < reading.operands.len() ==> (#[trigger] reading.operands[i]).name != (
            #[trigger] reading.operands[j]).name,
    ensures
        ({
            let shown = sums_evidence(
                sums,
                context,
                crate::evidence::gauge::EntityView { section, identity: member.identity },
                reading,
            );
            &&& shown is Some
            &&& shows_counts(
                DraftView {
                    requested_role: Role::Amplifier,
                    scope: crate::evidence::finding::ScopeView::of_episode(member),
                    evidence: seq![EvidenceView::CounterAggregate(shown->Some_0)],
                    temporal_direction: false,
                },
                reading.value,
                reading.operands[0].name,
                a,
                reading.operands.last().name,
                b,
                sums,
                context,
            )
        }),
{
    let raw = reading.operands;
    lemma_small(0);
    assert forall|i: int| 0 <= i < raw.len() implies ({
        let o = #[trigger] raw[i];
        crate::evidence::counter::operand(o.name, o.value, o.unit, o.purpose) is Some
            && normal(o.value) == o.value
    }) by {
        if i == 1 && raw.len() == 3 {
            let c = choose|c: int|
                0 <= c <= 0x20_0000_0000_0000 && raw[1].value == #[trigger] Float64::of_int(c);
            lemma_operand(c);
        } else if i == 0 {
            lemma_operand(a);
        } else {
            lemma_operand(b);
        }
    }
    assert(operands_admit(raw));
    let built = operands_of(raw);
    assert forall|i: int| 0 <= i < raw.len() implies #[trigger] built[i] == raw[i] by {
        let o = raw[i];
    }
    assert(built =~= raw);
    assert(built[0].purpose == CounterOperandPurpose::Formula);
}

proof fn lemma_operand(c: int)
    requires
        0 <= c <= 0x20_0000_0000_0000,
    ensures
        (Float64 { bits: 0 }).at_most(Float64::of_int(c)),
        Float64::of_int(c).finite(),
        normal(Float64::of_int(c)) == Float64::of_int(c),
{
    lemma_small(c);
    lemma_small(0);
    law_small_integers_keep_their_order(0, c);
}

/// A whole number of seconds is exact.
pub proof fn lemma_whole_seconds(micros: u64, seconds: int)
    requires
        micros == 1_000_000 * seconds,
        0 < seconds <= 0x100_0000_0000,
    ensures
        Float64::seconds(micros) == Float64::of_int(seconds),
{
    assert(micros as int / 1_000_000 == seconds && micros as int % 1_000_000 == 0);
    lemma_small(0);
    lemma_small(1_000_000_000);
    let z = Float64::of_int(0).quotient_by(Float64::of_int(1_000_000_000));
    lemma_zero_share();
    law_small_integers_add_exactly(seconds, 0);
}

proof fn lemma_zero_share()
    ensures
        Float64::of_int(0).quotient_by(Float64::of_int(1_000_000_000)) == Float64::of_int(0),
{
    lemma_small(0);
    lemma_small(1_000_000_000);
    let d = magnitude(Float64::of_int(1_000_000_000).ordinal());
    lemma_pow2_pos(UNIT as nat);
    assert(d > 0) by (nonlinear_arith)
        requires
            d == 1_000_000_000 * pow2(UNIT as nat),
            pow2(UNIT as nat) > 0,
    ;
    assert(magnitude(0) == 0 && magnitude(1) == 1);
    assert(nearest(0, 0, d));
    lemma_rounded(0, 0, d);
}

/// What a lens over a pair of counters drafts of a member.
proof fn lemma_pair<P: PairLens>(
    lens: &P,
    member: EpisodeView,
    typed: TypedView,
    context: EvalContext,
)
    ensures
        ({
            let out = drafts(lens.member_steps(member, typed, context));
            let pair = lens.pair();
            &&& member.logical_section != pair.section || member.column != pair.anchor
                ==> out.len() == 0
            &&& member.logical_section == pair.section && member.column == pair.anchor
                ==> out == match lens.drafted(member, typed, context) {
                Some(draft) => seq![draft],
                None => Seq::empty(),
            }
        }),
{
    if let Some(points) = lens.inspected(member, typed, context) {
        let draft = lens.drafted(member, typed, context);
        lemma_drafts_after_charge(points, emitted(draft));
        lemma_drafts_emitted(draft);
    }
}

/// A database is reported exactly if at least a fifth of the blocks it touched
/// were read from outside the shared buffers.
pub proof fn law_a_cold_cache_is_reported(
    member: EpisodeView,
    typed: TypedView,
    context: EvalContext,
    sums: PairedSums,
    a: int,
    b: int,
)
    requires
        typed.pair_sums(
            "pg_stat_database"@,
            member.identity,
            "blks_read"@,
            "blks_hit"@,
            context.incident_start_us,
            context.incident_end_us,
        ) == Some(sums),
        are_counts(sums, a, b, context),
    ensures
        ({
            let out = drafts(SharedBufferMissesLens.member_steps(member, typed, context));
            &&& out.len() <= 1
            &&& out.len() == 1 <==> member.logical_section == "pg_stat_database"@ && member.column
                == "blks_read"@ && enough(sums, 3) && a + b > 0 && 5 * a >= a + b
            &&& out.len() == 1 ==> out[0].requested_role == Role::Amplifier && is_about(
                out[0],
                member,
            ) && shows_counts(
                out[0],
                Float64::of_int(a).quotient_by(Float64::of_int(a + b)),
                "blks_read"@,
                a,
                "blks_hit"@,
                b,
                sums,
                context,
            )
        }),
{
    let lens = SharedBufferMissesLens;
    lemma_pair(&lens, member, typed, context);
    lemma_small(a);
    lemma_small(b);
    law_small_integers_add_exactly(a, b);
    lemma_small(a + b);
    if a + b > 0 {
        law_ratio_reaches_one_fifth(a, a + b);
    }
    reveal_strlit("blks_read");
    reveal_strlit("blks_hit");
    reveal_strlit("pg_stat_database");
    reveal_strlit("blks_read / (blks_read + blks_hit)");
    if let Some(reading) = lens.reading(sums) {
        lemma_reading(sums, a, b, context, member, "pg_stat_database"@, reading);
    }
}

/// The log is reported exactly if at least half as many full-page images as
/// records were written.
pub proof fn law_full_page_images_are_reported(
    member: EpisodeView,
    typed: TypedView,
    context: EvalContext,
    sums: PairedSums,
    a: int,
    b: int,
)
    requires
        typed.pair_sums(
            "pg_stat_wal"@,
            member.identity,
            "wal_fpi"@,
            "wal_records"@,
            context.incident_start_us,
            context.incident_end_us,
        ) == Some(sums),
        are_counts(sums, a, b, context),
    ensures
        ({
            let out = drafts(WalAmplificationLens.member_steps(member, typed, context));
            &&& out.len() <= 1
            &&& out.len() == 1 <==> member.logical_section == "pg_stat_wal"@ && member.column
                == "wal_fpi"@ && enough(sums, 3) && b > 0 && 2 * a >= b
            &&& out.len() == 1 ==> out[0].requested_role == Role::Amplifier && is_about(
                out[0],
                member,
            ) && shows_counts(
                out[0],
                Float64::of_int(a).quotient_by(Float64::of_int(b)),
                "wal_fpi"@,
                a,
                "wal_records"@,
                b,
                sums,
                context,
            )
        }),
{
    let lens = WalAmplificationLens;
    lemma_pair(&lens, member, typed, context);
    lemma_small(a);
    lemma_small(b);
    if b > 0 {
        law_ratio_reaches_one_half(a, b);
    }
    reveal_strlit("wal_fpi");
    reveal_strlit("wal_records");
    reveal_strlit("pg_stat_wal");
    reveal_strlit("wal_fpi / wal_records");
    if let Some(reading) = lens.reading(sums) {
        lemma_reading(sums, a, b, context, member, "pg_stat_wal"@, reading);
    }
}

/// A database is reported exactly if it wrote bytes and files of temporary
/// data.
pub proof fn law_a_spill_is_reported(
    member: EpisodeView,
    typed: TypedView,
    context: EvalContext,
    sums: PairedSums,
    a: int,
    b: int,
)
    requires
        typed.pair_sums(
            "pg_stat_database"@,
            member.identity,
            "temp_bytes"@,
            "temp_files"@,
            context.incident_start_us,
            context.incident_end_us,
        ) == Some(sums),
        are_counts(sums, a, b, context),
    ensures
        ({
            let out = drafts(TempSpillLens.member_steps(member, typed, context));
            &&& out.len() <= 1
            &&& out.len() == 1 <==> member.logical_section == "pg_stat_database"@ && member.column
                == "temp_bytes"@ && enough(sums, 3) && a > 0 && b > 0
            &&& out.len() == 1 ==> out[0].requested_role == Role::Amplifier && is_about(
                out[0],
                member,
            ) && shows_counts(
                out[0],
                Float64::of_int(a),
                "temp_bytes"@,
                a,
                "temp_files"@,
                b,
                sums,
                context,
            )
        }),
{
    let lens = TempSpillLens;
    lemma_pair(&lens, member, typed, context);
    lemma_small(a);
    lemma_small(b);
    reveal_strlit("temp_bytes");
    reveal_strlit("temp_files");
    reveal_strlit("pg_stat_database");
    assert("temp_bytes"@[5] != "temp_files"@[5]);
    if let Some(reading) = lens.reading(sums) {
        lemma_reading(sums, a, b, context, member, "pg_stat_database"@, reading);
    }
}

/// The checkpointer is reported exactly if at least half of its checkpoints
/// were requested.
pub proof fn law_forced_checkpoints_are_reported(
    member: EpisodeView,
    typed: TypedView,
    context: EvalContext,
    sums: PairedSums,
    a: int,
    b: int,
)
    requires
        typed.pair_sums(
            "pg_stat_bgwriter + pg_stat_checkpointer"@,
            member.identity,
            "checkpoints_req"@,
            "checkpoints_timed"@,
            context.incident_start_us,
            context.incident_end_us,
        ) == Some(sums),
        are_counts(sums, a, b, context),
    ensures
        ({
            let out = drafts(RequestedCheckpointsLens.member_steps(member, typed, context));
            &&& out.len() <= 1
            &&& out.len() == 1 <==> member.logical_section
                == "pg_stat_bgwriter + pg_stat_checkpointer"@ && member.column
                == "checkpoints_req"@ && enough(sums, 3) && a + b > 0 && 2 * a >= a + b
            &&& out.len() == 1 ==> out[0].requested_role == Role::Amplifier && is_about(
                out[0],
                member,
            ) && shows_counts(
                out[0],
                Float64::of_int(a).quotient_by(Float64::of_int(a + b)),
                "checkpoints_req"@,
                a,
                "checkpoints_timed"@,
                b,
                sums,
                context,
            )
        }),
{
    let lens = RequestedCheckpointsLens;
    lemma_pair(&lens, member, typed, context);
    lemma_small(a);
    lemma_small(b);
    law_small_integers_add_exactly(a, b);
    lemma_small(a + b);
    if a + b > 0 {
        law_ratio_reaches_one_half(a, a + b);
    }
    reveal_strlit("checkpoints_req");
    reveal_strlit("checkpoints_timed");
    reveal_strlit("pg_stat_bgwriter + pg_stat_checkpointer");
    reveal_strlit("checkpoints_req / (checkpoints_req + checkpoints_timed)");
    if let Some(reading) = lens.reading(sums) {
        lemma_reading(sums, a, b, context, member, "pg_stat_bgwriter + pg_stat_checkpointer"@, reading);
    }
}

/// Reads are reported exactly if they took at least a millisecond each.
pub proof fn law_slow_reads_are_reported(
    member: EpisodeView,
    typed: TypedView,
    context: EvalContext,
    sums: PairedSums,
    a: int,
    b: int,
)
    requires
        typed.pair_sums(
            "pg_stat_io"@,
            member.identity,
            "read_time"@,
            "reads"@,
            context.incident_start_us,
            context.incident_end_us,
        ) == Some(sums),
        are_counts(sums, a, b, context),
    ensures
        ({
            let out = drafts(BackendIoLatencyLens.member_steps(member, typed, context));
            &&& out.len() <= 1
            &&& out.len() == 1 <==> member.logical_section == "pg_stat_io"@ && member.column
                == "read_time"@ && enough(sums, 3) && b > 0 && a >= b
            &&& out.len() == 1 ==> out[0].requested_role == Role::Amplifier && is_about(
                out[0],
                member,
            ) && shows_counts(
                out[0],
                Float64::of_int(a).quotient_by(Float64::of_int(b)),
                "read_time"@,
                a,
                "reads"@,
                b,
                sums,
                context,
            )
        }),
{
    let lens = BackendIoLatencyLens;
    lemma_pair(&lens, member, typed, context);
    lemma_small(a);
    lemma_small(b);
    if b > 0 {
        law_ratio_reaches_one(a, b);
    }
    reveal_strlit("read_time");
    reveal_strlit("reads");
    reveal_strlit("pg_stat_io");
    reveal_strlit("read_time / reads");
    if let Some(reading) = lens.reading(sums) {
        lemma_reading(sums, a, b, context, member, "pg_stat_io"@, reading);
    }
}

/// A table is reported exactly if at least half of its updates missed the HOT
/// path.
pub proof fn law_updates_of_indexes_are_reported(
    member: EpisodeView,
    typed: TypedView,
    context: EvalContext,
    sums: PairedSums,
    a: int,
    b: int,
)
    requires
        typed.pair_sums(
            "pg_stat_user_tables"@,
            member.identity,
            "n_tup_hot_upd"@,
            "n_tup_upd"@,
            context.incident_start_us,
            context.incident_end_us,
        ) == Some(sums),
        are_counts(sums, a, b, context),
        a <= b,
    ensures
        ({
            let out = drafts(HotUpdateFailureLens.member_steps(member, typed, context));
            &&& out.len() <= 1
            &&& out.len() == 1 <==> member.logical_section == "pg_stat_user_tables"@
                && member.column
                == "n_tup_upd"@ && enough(sums, 3) && b > 0 && 2 * (b - a) >= b
            &&& out.len() == 1 ==> out[0].requested_role == Role::Amplifier && is_about(
                out[0],
                member,
            ) && shows_counts(
                out[0],
                Float64::of_int(b - a).quotient_by(Float64::of_int(b)),
                "n_tup_hot_upd"@,
                a,
                "n_tup_upd"@,
                b,
                sums,
                context,
            )
        }),
{
    let lens = HotUpdateFailureLens;
    lemma_pair(&lens, member, typed, context);
    lemma_small(a);
    lemma_small(b);
    law_small_integers_subtract_exactly(b, a);
    if b > 0 {
        law_ratio_reaches_one_half(b - a, b);
    }
    reveal_strlit("n_tup_hot_upd");
    reveal_strlit("n_tup_upd");
    reveal_strlit("pg_stat_user_tables");
    reveal_strlit("(n_tup_upd - n_tup_hot_upd) / n_tup_upd");
    if let Some(reading) = lens.reading(sums) {
        lemma_reading(sums, a, b, context, member, "pg_stat_user_tables"@, reading);
    }
}

/// The archiver is reported exactly if it failed at least once.
pub proof fn law_a_failure_to_archive_is_reported(
    member: EpisodeView,
    typed: TypedView,
    context: EvalContext,
    sums: PairedSums,
    a: int,
    b: int,
)
    requires
        typed.pair_sums(
            "pg_stat_archiver"@,
            member.identity,
            "failed_count"@,
            "archived_count"@,
            context.incident_start_us,
            context.incident_end_us,
        ) == Some(sums),
        are_counts(sums, a, b, context),
    ensures
        ({
            let out = drafts(WalArchivingFailureLens.member_steps(member, typed, context));
            &&& out.len() <= 1
            &&& out.len() == 1 <==> member.logical_section == "pg_stat_archiver"@ && member.column
                == "failed_count"@ && enough(sums, 1) && a >= 1
            &&& out.len() == 1 ==> out[0].requested_role == Role::Coincident && is_about(
                out[0],
                member,
            ) && shows_counts(
                out[0],
                Float64::of_int(a),
                "failed_count"@,
                a,
                "archived_count"@,
                b,
                sums,
                context,
            )
        }),
{
    let lens = WalArchivingFailureLens;
    lemma_pair(&lens, member, typed, context);
    lemma_small(a);
    lemma_small(b);
    lemma_one();
    law_small_integers_keep_their_order(a, 1);
    reveal_strlit("failed_count");
    reveal_strlit("archived_count");
    reveal_strlit("pg_stat_archiver");
    if let Some(reading) = lens.reading(sums) {
        lemma_reading(sums, a, b, context, member, "pg_stat_archiver"@, reading);
    }
}

/// An interface is reported exactly if at least one received packet in a
/// hundred had an error.
pub proof fn law_broken_packets_are_reported(
    member: EpisodeView,
    typed: TypedView,
    context: EvalContext,
    sums: PairedSums,
    a: int,
    b: int,
)
    requires
        typed.pair_sums(
            "os_netdev"@,
            member.identity,
            "rx_errs"@,
            "rx_packets"@,
            context.incident_start_us,
            context.incident_end_us,
        ) == Some(sums),
        are_counts(sums, a, b, context),
    ensures
        ({
            let out = drafts(NetworkErrorsLens.member_steps(member, typed, context));
            &&& out.len() <= 1
            &&& out.len() == 1 <==> member.logical_section == "os_netdev"@ && member.column
                == "rx_errs"@ && enough(sums, 3) && b > 0 && 100 * a >= b
            &&& out.len() == 1 ==> out[0].requested_role == Role::Coincident && is_about(
                out[0],
                member,
            ) && shows_counts(
                out[0],
                Float64::of_int(a).quotient_by(Float64::of_int(b)),
                "rx_errs"@,
                a,
                "rx_packets"@,
                b,
                sums,
                context,
            )
        }),
{
    let lens = NetworkErrorsLens;
    lemma_pair(&lens, member, typed, context);
    lemma_small(a);
    lemma_small(b);
    if b > 0 {
        law_ratio_reaches_one_hundredth(a, b);
    }
    reveal_strlit("rx_errs");
    reveal_strlit("rx_packets");
    reveal_strlit("os_netdev");
    reveal_strlit("rx_errs / rx_packets");
    if let Some(reading) = lens.reading(sums) {
        lemma_reading(sums, a, b, context, member, "os_netdev"@, reading);
    }
}

/// Over whole seconds, a control group is reported exactly if it was throttled
/// for at least a hundred milliseconds in each second on average.
pub proof fn law_a_throttled_group_is_reported(
    member: EpisodeView,
    typed: TypedView,
    context: EvalContext,
    sums: PairedSums,
    a: int,
    b: int,
    seconds: int,
)
    requires
        typed.pair_sums(
            "os_cgroup_cpu"@,
            member.identity,
            "throttled_usec"@,
            "usage_usec"@,
            context.incident_start_us,
            context.incident_end_us,
        ) == Some(sums),
        are_counts(sums, a, b, context),
        0 < seconds <= 0x100_0000_0000,
        sums.elapsed_us == 1_000_000 * seconds,
    ensures
        ({
            let out = drafts(CgroupCpuThrottlingLens.member_steps(member, typed, context));
            &&& out.len() <= 1
            &&& out.len() == 1 <==> member.logical_section == "os_cgroup_cpu"@ && member.column
                == "throttled_usec"@ && enough(sums, 3) && a >= 100_000 * seconds
            &&& out.len() == 1 ==> out[0].requested_role == Role::Coincident && is_about(
                out[0],
                member,
            ) && shows_counts(
                out[0],
                Float64::of_int(a).quotient_by(Float64::of_int(seconds)),
                "throttled_usec"@,
                a,
                "usage_usec"@,
                b,
                sums,
                context,
            )
        }),
{
    let lens = CgroupCpuThrottlingLens;
    lemma_pair(&lens, member, typed, context);
    lemma_small(a);
    lemma_small(b);
    lemma_whole_seconds(sums.elapsed_us, seconds);
    law_ratio_reaches_one_hundred_thousand(a, seconds);
    reveal_strlit("throttled_usec");
    reveal_strlit("usage_usec");
    reveal_strlit("os_cgroup_cpu");
    reveal_strlit("throttled_usec * 1000000 / summed_interval_duration_us");
    reveal_strlit("summed_interval_duration_us");
    if let Some(reading) = lens.reading(sums) {
        assert(reading.operands[1].value == Float64::of_int(sums.elapsed_us as int));
        lemma_reading(sums, a, b, context, member, "os_cgroup_cpu"@, reading);
    }
}

} // verus!
