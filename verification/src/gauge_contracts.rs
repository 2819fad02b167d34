//! Incident lenses backed by dedicated bounded gauge contracts.

use crate::active::observe::{
    cost_of_pair, cost_of_snapshot, draft_observations, draft_observed, entity, entity_of,
    observations_draft, observed, pair_cost, read_pair, read_snapshot, snapshot_cost,
    snapshot_tracks, worst_pair, worst_snapshot,
};
use crate::cluster::{Cluster, ClusterView};
use crate::dispatch::{texts, LimitHit, SectionColumn};
use crate::engine::EvalContext;
use crate::evidence::confidence::{ConfidenceCap, Role};
use crate::evidence::finding::{DraftView, FindingDraft};
use crate::evidence::gauge::{
    option_view, ratio_evidence, trend_evidence, value_evidence, GaugeEvidence, GaugeEvidenceView,
    GaugeRatio, GaugeTrendInput, GaugeValueInput,
};
use crate::evidence::sink::{FindingSink, Step};
use crate::evidence::value::{GaugeUnit, ThresholdKind};
use crate::float64::{Float64, ONE};
use crate::inspect::{
    charge, cluster_steps, draft_view, emit_optional, emitted, evaluate_members,
    lemma_first_part_refused, lemma_two_parts, InspectLens, MemberLens,
};
use crate::lens::{reported, Lens};
use crate::model::{EpisodeRefV1, EpisodeView, IdentityView};
use crate::order::views;
use crate::series::{SeriesSet, SeriesSetView};
use crate::text::{ends_with, has_suffix, text_eq};
use crate::typed::gauge::{
    capped, column_range, extreme_snapshot, slices_view, snapshot_option, total_points,
    trend_reading, GaugeObjective, GaugePoint, GaugeSnapshot, GaugeSnapshotView, GaugeTrend,
    PairedGauge,
};
use crate::typed::inputs::{TypedInputs, TypedView};
use vstd::prelude::*;

verus! {

pub const FREEZE: &'static str = "pg_freeze_horizon";

pub const VACUUM: &'static str = "pg_vacuum_observation";

pub const REPLICATION: &'static str = "pg_replication_physical";

pub const SLOT: &'static str = "pg_replication_slot_retention";

pub const STORAGE: &'static str = "pg_storage_mount";

pub const CGROUP: &'static str = "pg_process_cgroup_memory";

/// 0.9 of a wraparound limit used up.
pub const LIMIT_FRACTION: u64 = 0x3fec_cccc_cccc_cccd;

/// `PG-FREEZE-006`: transaction or multixact age near its limit.
pub struct FreezeHorizonLens;

/// The age column of a member and the limit column beside it.
pub open spec fn freeze_pair(member: EpisodeView) -> Option<(Seq<char>, Seq<char>)> {
    if member.logical_section != FREEZE@ {
        None
    } else if member.column == "xid_age"@ {
        Some(("xid_age"@, "xid_limit"@))
    } else if member.column == "mxid_age"@ {
        Some(("mxid_age"@, "mxid_limit"@))
    } else {
        None
    }
}

fn freeze_columns(member: &EpisodeRefV1) -> (r: Option<(&'static str, &'static str)>)
    ensures
        match r {
            Some(columns) => freeze_pair(member@) == Some((columns.0@, columns.1@)),
            None => freeze_pair(member@) is None,
        },
{
    if !text_eq(member.logical_section, FREEZE) {
        None
    } else if text_eq(member.column, "xid_age") {
        Some(("xid_age", "xid_limit"))
    } else if text_eq(member.column, "mxid_age") {
        Some(("mxid_age", "mxid_limit"))
    } else {
        None
    }
}

impl InspectLens for FreezeHorizonLens {
    open spec fn inspected(
        &self,
        member: EpisodeView,
        typed: TypedView,
        context: EvalContext,
    ) -> Option<usize> {
        match freeze_pair(member) {
            Some((age, limit)) => pair_cost(
                typed,
                FREEZE@,
                member.identity,
                age,
                limit,
                context,
            ),
            None => None,
        }
    }

    open spec fn drafted(
        &self,
        member: EpisodeView,
        typed: TypedView,
        context: EvalContext,
    ) -> Option<DraftView> {
        let zero = Float64 { bits: 0 };
        let floor = Float64 { bits: LIMIT_FRACTION };
        match freeze_pair(member) {
            Some((age, limit)) => match worst_pair(
                typed,
                FREEZE@,
                member.identity,
                age,
                limit,
                context,
                GaugeObjective::RatioMax,
            ) {
                Some(pair) => if pair.a.below(zero) || pair.b.at_most(zero) || pair.a.quotient_by(
                    pair.b,
                ).below(floor) {
                    None
                } else {
                    observed(
                        member,
                        ratio_evidence(
                            age,
                            pair.a,
                            GaugeUnit::Count,
                            limit,
                            pair.b,
                            GaugeUnit::Count,
                            GaugeUnit::Ratio,
                            floor,
                            ThresholdKind::AtLeast,
                            pair.observed_at_us,
                            pair.samples,
                            pair.source_window,
                            entity_of(FREEZE@, member.identity),
                        ),
                    )
                },
                None => None,
            },
            None => None,
        }
    }

    fn inspect(&self, member: &EpisodeRefV1, typed: &TypedInputs, context: &EvalContext) -> (r:
        Option<usize>) {
        match freeze_columns(member) {
            Some(columns) => cost_of_pair(
                typed,
                FREEZE,
                member.identity.as_slice(),
                columns,
                context,
            ),
            None => None,
        }
    }

    fn draft(&self, member: &EpisodeRefV1, typed: &TypedInputs, context: &EvalContext) -> (r: Option<
        FindingDraft,
    >) {
        let zero = Float64 { bits: 0 };
        let floor = Float64 { bits: LIMIT_FRACTION };
        let columns: (&'static str, &'static str) = match freeze_columns(member) {
            Some(columns) => columns,
            None => {
                return None;
            },
        };
        let pair: PairedGauge = match read_pair(
            typed,
            FREEZE,
            member.identity.as_slice(),
            columns,
            context,
            GaugeObjective::RatioMax,
        ) {
            Some(pair) => pair,
            None => {
                return None;
            },
        };
        if pair.a.less(zero) || pair.b.less_or_equal(zero) || pair.a.divided_by(pair.b).less(
            floor,
        ) {
            return None;
        }
        draft_observed(
            member,
            GaugeEvidence::ratio(
                GaugeRatio::new(columns.0, pair.a, columns.1, pair.b, GaugeUnit::Count),
                floor,
                ThresholdKind::AtLeast,
                pair.observed_at_us,
                pair.samples,
                pair.source_window,
                entity(FREEZE, &member.identity),
            ),
        )
    }
}

impl Lens for FreezeHorizonLens {
    open spec fn id_text(&self) -> Seq<char> {
        "PG-FREEZE-006"@
    }

    open spec fn input_list(&self) -> Seq<SectionColumn> {
        seq![
            SectionColumn { section: FREEZE, column: "xid_age" },
            SectionColumn { section: FREEZE, column: "xid_limit" },
            SectionColumn { section: FREEZE, column: "mxid_age" },
            SectionColumn { section: FREEZE, column: "mxid_limit" },
        ]
    }

    open spec fn cap(&self) -> ConfidenceCap {
        ConfidenceCap::Low
    }

    open spec fn steps(
        &self,
        cluster: ClusterView,
        series: SeriesSetView,
        typed: TypedView,
        context: EvalContext,
    ) -> Seq<Step> {
        cluster_steps(self, cluster, typed, context)
    }

    fn id(&self) -> (r: &'static str) {
        "PG-FREEZE-006"
    }

    fn inputs(&self) -> (r: &'static [SectionColumn]) {
        &[
            SectionColumn { section: FREEZE, column: "xid_age" },
            SectionColumn { section: FREEZE, column: "xid_limit" },
            SectionColumn { section: FREEZE, column: "mxid_age" },
            SectionColumn { section: FREEZE, column: "mxid_limit" },
        ]
    }

    fn confidence_cap(&self) -> (r: ConfidenceCap) {
        ConfidenceCap::Low
    }

    fn evaluate(
        &self,
        cluster: &Cluster,
        series: &SeriesSet,
        typed: &TypedInputs,
        context: &EvalContext,
        sink: &mut FindingSink<'_>,
    ) -> (r: Result<(), LimitHit>) {
        evaluate_members(self, cluster, typed, context, sink)
    }
}

/// 300000000.0: five minutes.
pub const ELAPSED_FLOOR_US: u64 = 0x41b1_e1a3_0000_0000;

/// `PG-VACUUM-005`: a vacuum observed running for a long time.
pub struct RunningVacuumLens;

impl InspectLens for RunningVacuumLens {
    open spec fn inspected(
        &self,
        member: EpisodeView,
        typed: TypedView,
        context: EvalContext,
    ) -> Option<usize> {
        if member.logical_section == VACUUM@ && member.column == "elapsed_us"@ {
            snapshot_cost(
                typed,
                VACUUM@,
                member.identity,
                seq!["elapsed_us"@, "activity_present"@, "clock_valid"@],
                context,
            )
        } else {
            None
        }
    }

    open spec fn drafted(
        &self,
        member: EpisodeView,
        typed: TypedView,
        context: EvalContext,
    ) -> Option<DraftView> {
        let zero = Float64 { bits: 0 };
        let one = Float64 { bits: ONE };
        let floor = Float64 { bits: ELAPSED_FLOOR_US };
        match worst_snapshot(
            typed,
            VACUUM@,
            member.identity,
            seq!["elapsed_us"@, "activity_present"@, "clock_valid"@],
            context,
            true,
        ) {
            Some(reading) => {
                let v = reading.values;
                if !v[1].same(one) || !v[2].same(one) || v[0].below(floor) {
                    None
                } else {
                    observed(
                        member,
                        value_evidence(
                            "elapsed_us"@,
                            v[0],
                            GaugeUnit::Microseconds,
                            floor,
                            ThresholdKind::AtLeast,
                            reading.observed_at_us,
                            reading.samples,
                            reading.source_window,
                            entity_of(VACUUM@, member.identity),
                        ),
                    )
                }
            },
            None => None,
        }
    }

    fn inspect(&self, member: &EpisodeRefV1, typed: &TypedInputs, context: &EvalContext) -> (r:
        Option<usize>) {
        if text_eq(member.logical_section, VACUUM) && text_eq(member.column, "elapsed_us") {
            let columns: [&'static str; 3] = ["elapsed_us", "activity_present", "clock_valid"];
            proof {
                assert(texts(columns@) =~= seq!["elapsed_us"@, "activity_present"@, "clock_valid"@]);
            }
            cost_of_snapshot(typed, VACUUM, member.identity.as_slice(), &columns, context)
        } else {
            None
        }
    }

    fn draft(&self, member: &EpisodeRefV1, typed: &TypedInputs, context: &EvalContext) -> (r: Option<
        FindingDraft,
    >) {
        let zero = Float64 { bits: 0 };
        let one = Float64 { bits: ONE };
        let floor = Float64 { bits: ELAPSED_FLOOR_US };
        let columns: [&'static str; 3] = ["elapsed_us", "activity_present", "clock_valid"];
        proof {
            assert(texts(columns@) =~= seq!["elapsed_us"@, "activity_present"@, "clock_valid"@]);
        }
        let reading: GaugeSnapshot = match read_snapshot(
            typed,
            VACUUM,
            member.identity.as_slice(),
            &columns,
            context,
            true,
        ) {
            Some(reading) => reading,
            None => {
                return None;
            },
        };
        if !reading.values[1].equals(one) || !reading.values[2].equals(one) || reading.values[0].less(floor) {
            return None;
        }
        draft_observed(
            member,
            GaugeEvidence::value(
                GaugeValueInput {
                    operand: "elapsed_us",
                    value: reading.values[0],
                    unit: GaugeUnit::Microseconds,
                    threshold: floor,
                    threshold_kind: ThresholdKind::AtLeast,
                    observed_at_us: reading.observed_at_us,
                    samples: reading.samples,
                    source_window: reading.source_window,
                    entity: entity(VACUUM, &member.identity),
                },
            ),
        )
    }
}

impl Lens for RunningVacuumLens {
    open spec fn id_text(&self) -> Seq<char> {
        "PG-VACUUM-005"@
    }

    open spec fn input_list(&self) -> Seq<SectionColumn> {
        seq![
            SectionColumn { section: VACUUM, column: "elapsed_us" },
            SectionColumn { section: VACUUM, column: "activity_present" },
            SectionColumn { section: VACUUM, column: "clock_valid" },
        ]
    }

    open spec fn cap(&self) -> ConfidenceCap {
        ConfidenceCap::Low
    }

    open spec fn steps(
        &self,
        cluster: ClusterView,
        series: SeriesSetView,
        typed: TypedView,
        context: EvalContext,
    ) -> Seq<Step> {
        cluster_steps(self, cluster, typed, context)
    }

    fn id(&self) -> (r: &'static str) {
        "PG-VACUUM-005"
    }

    fn inputs(&self) -> (r: &'static [SectionColumn]) {
        &[
            SectionColumn { section: VACUUM, column: "elapsed_us" },
            SectionColumn { section: VACUUM, column: "activity_present" },
            SectionColumn { section: VACUUM, column: "clock_valid" },
        ]
    }

    fn confidence_cap(&self) -> (r: ConfidenceCap) {
        ConfidenceCap::Low
    }

    fn evaluate(
        &self,
        cluster: &Cluster,
        series: &SeriesSet,
        typed: &TypedInputs,
        context: &EvalContext,
        sink: &mut FindingSink<'_>,
    ) -> (r: Result<(), LimitHit>) {
        evaluate_members(self, cluster, typed, context, sink)
    }
}

/// 67108864.0: sixty-four mebibytes.
pub const BYTE_FLOOR: u64 = 0x4190_0000_0000_0000;

/// 30000000.0: thirty seconds.
pub const TIME_FLOOR_US: u64 = 0x417c_9c38_0000_0000;

/// 5.0: the last state code of a live sender.
pub const LAST_STREAMING_STATE: u64 = 0x4014_0000_0000_0000;

/// `PG-REPL-015`: an observed distance or delay between a primary and a physical
/// standby.
pub struct PhysicalReplicationLens;

/// Unit and threshold of a replication column.
pub open spec fn replication_scale(member: EpisodeView) -> Option<(GaugeUnit, Float64)> {
    if member.logical_section != REPLICATION@ {
        None
    } else if has_suffix(member.column, "_bytes"@) {
        Some((GaugeUnit::Bytes, Float64 { bits: BYTE_FLOOR }))
    } else if has_suffix(member.column, "_lag_us"@) {
        Some((GaugeUnit::Microseconds, Float64 { bits: TIME_FLOOR_US }))
    } else {
        None
    }
}

fn scale_of(member: &EpisodeRefV1) -> (r: Option<(GaugeUnit, Float64)>)
    ensures
        r == replication_scale(member@),
{
    if !text_eq(member.logical_section, REPLICATION) {
        None
    } else if ends_with(member.column, "_bytes") {
        Some((GaugeUnit::Bytes, Float64 { bits: BYTE_FLOOR }))
    } else if ends_with(member.column, "_lag_us") {
        Some((GaugeUnit::Microseconds, Float64 { bits: TIME_FLOOR_US }))
    } else {
        None
    }
}

impl InspectLens for PhysicalReplicationLens {
    open spec fn inspected(
        &self,
        member: EpisodeView,
        typed: TypedView,
        context: EvalContext,
    ) -> Option<usize> {
        match replication_scale(member) {
            Some(_) => snapshot_cost(
                typed,
                REPLICATION@,
                member.identity,
                seq![member.column, "scope_code"@, "state_code"@],
                context,
            ),
            None => None,
        }
    }

    open spec fn drafted(
        &self,
        member: EpisodeView,
        typed: TypedView,
        context: EvalContext,
    ) -> Option<DraftView> {
        let one = Float64 { bits: ONE };
        match replication_scale(member) {
            Some((unit, threshold)) => match worst_snapshot(
                typed,
                REPLICATION@,
                member.identity,
                seq![member.column, "scope_code"@, "state_code"@],
                context,
                true,
            ) {
                Some(reading) => {
                    let v = reading.values;
                    if v[0].below(threshold) || !v[1].same(one) || !(one.at_most(v[2])
                        && v[2].at_most(Float64 { bits: LAST_STREAMING_STATE })) {
                        None
                    } else {
                        observed(
                            member,
                            value_evidence(
                                member.column,
                                v[0],
                                unit,
                                threshold,
                                ThresholdKind::AtLeast,
                                reading.observed_at_us,
                                reading.samples,
                                reading.source_window,
                                entity_of(REPLICATION@, member.identity),
                            ),
                        )
                    }
                },
                None => None,
            },
            None => None,
        }
    }

    fn inspect(&self, member: &EpisodeRefV1, typed: &TypedInputs, context: &EvalContext) -> (r:
        Option<usize>) {
        match scale_of(member) {
            Some(_) => {
                let columns: [&'static str; 3] = [member.column, "scope_code", "state_code"];
                proof {
                    assert(texts(columns@) =~= seq![
                        member.column@,
                        "scope_code"@,
                        "state_code"@,
                    ]);
                }
                cost_of_snapshot(
                    typed,
                    REPLICATION,
                    member.identity.as_slice(),
                    &columns,
                    context,
                )
            },
            None => None,
        }
    }

    fn draft(&self, member: &EpisodeRefV1, typed: &TypedInputs, context: &EvalContext) -> (r: Option<
        FindingDraft,
    >) {
        let one = Float64 { bits: ONE };
        let last = Float64 { bits: LAST_STREAMING_STATE };
        let (unit, threshold): (GaugeUnit, Float64) = match scale_of(member) {
            Some(scale) => scale,
            None => {
                return None;
            },
        };
        let columns: [&'static str; 3] = [member.column, "scope_code", "state_code"];
        proof {
            assert(texts(columns@) =~= seq![member.column@, "scope_code"@, "state_code"@]);
        }
        let reading: GaugeSnapshot = match read_snapshot(
            typed,
            REPLICATION,
            member.identity.as_slice(),
            &columns,
            context,
            true,
        ) {
            Some(reading) => reading,
            None => {
                return None;
            },
        };
        if reading.values[0].less(threshold) || !reading.values[1].equals(one)
            || !(one.less_or_equal(reading.values[2]) && reading.values[2].less_or_equal(last)) {
            return None;
        }
        draft_observed(
            member,
            GaugeEvidence::value(
                GaugeValueInput {
                    operand: member.column,
                    value: reading.values[0],
                    unit,
                    threshold,
                    threshold_kind: ThresholdKind::AtLeast,
                    observed_at_us: reading.observed_at_us,
                    samples: reading.samples,
                    source_window: reading.source_window,
                    entity: entity(REPLICATION, &member.identity),
                },
            ),
        )
    }
}

impl Lens for PhysicalReplicationLens {
    open spec fn id_text(&self) -> Seq<char> {
        "PG-REPL-015"@
    }

    open spec fn input_list(&self) -> Seq<SectionColumn> {
        seq![
            SectionColumn { section: REPLICATION, column: "current_to_sent_bytes" },
            SectionColumn { section: REPLICATION, column: "sent_to_write_bytes" },
            SectionColumn { section: REPLICATION, column: "write_to_flush_bytes" },
            SectionColumn { section: REPLICATION, column: "flush_to_replay_bytes" },
            SectionColumn { section: REPLICATION, column: "write_lag_us" },
            SectionColumn { section: REPLICATION, column: "flush_lag_us" },
            SectionColumn { section: REPLICATION, column: "replay_lag_us" },
            SectionColumn { section: REPLICATION, column: "scope_code" },
            SectionColumn { section: REPLICATION, column: "state_code" },
        ]
    }

    open spec fn cap(&self) -> ConfidenceCap {
        ConfidenceCap::Low
    }

    open spec fn steps(
        &self,
        cluster: ClusterView,
        series: SeriesSetView,
        typed: TypedView,
        context: EvalContext,
    ) -> Seq<Step> {
        cluster_steps(self, cluster, typed, context)
    }

    fn id(&self) -> (r: &'static str) {
        "PG-REPL-015"
    }

    fn inputs(&self) -> (r: &'static [SectionColumn]) {
        &[
            SectionColumn { section: REPLICATION, column: "current_to_sent_bytes" },
            SectionColumn { section: REPLICATION, column: "sent_to_write_bytes" },
            SectionColumn { section: REPLICATION, column: "write_to_flush_bytes" },
            SectionColumn { section: REPLICATION, column: "flush_to_replay_bytes" },
            SectionColumn { section: REPLICATION, column: "write_lag_us" },
            SectionColumn { section: REPLICATION, column: "flush_lag_us" },
            SectionColumn { section: REPLICATION, column: "replay_lag_us" },
            SectionColumn { section: REPLICATION, column: "scope_code" },
            SectionColumn { section: REPLICATION, column: "state_code" },
        ]
    }

    fn confidence_cap(&self) -> (r: ConfidenceCap) {
        ConfidenceCap::Low
    }

    fn evaluate(
        &self,
        cluster: &Cluster,
        series: &SeriesSet,
        typed: &TypedInputs,
        context: &EvalContext,
        sink: &mut FindingSink<'_>,
    ) -> (r: Result<(), LimitHit>) {
        evaluate_members(self, cluster, typed, context, sink)
    }
}

/// 0.8 of the headroom of a slot used up.
pub const HEADROOM_FLOOR: u64 = 0x3fe9_9999_9999_999a;

/// 2.0: the last status code of a slot that still retains WAL.
pub const LAST_HEALTHY_STATUS: u64 = 0x4000_0000_0000_0000;

/// `PG-SLOT-016`: WAL retained by a replication slot near its limit.
pub struct SlotRetentionLens;

/// A number of points three times over, up to the largest machine integer.
pub open spec fn tripled(points: usize) -> usize {
    if points <= usize::MAX / 3 {
        (points * 3) as usize
    } else {
        usize::MAX
    }
}

fn triple(points: usize) -> (r: usize)
    ensures
        r == tripled(points),
{
    if points <= usize::MAX / 3 {
        points * 3
    } else {
        usize::MAX
    }
}

/// The windows of the retained bytes, a headroom column and the status.
pub open spec fn slot_tracks(
    typed: TypedView,
    identity: Seq<IdentityView>,
    headroom: Seq<char>,
    context: EvalContext,
) -> Option<Seq<Seq<GaugePoint>>> {
    snapshot_tracks(
        typed,
        SLOT@,
        identity,
        seq!["retained_bytes"@, headroom, "wal_status_code"@],
        context,
    )
}

/// What reading a headroom column is paid with.
pub open spec fn slot_charges(tracks: Option<Seq<Seq<GaugePoint>>>) -> Seq<Step> {
    match tracks {
        Some(found) => seq![Step::Charge(tripled(capped(total_points(found))))],
        None => Seq::empty(),
    }
}

/// The snapshot with the most retained bytes, where every retained sample has
/// a healthy status and the headroom is positive.
pub open spec fn slot_amount(
    tracks: Option<Seq<Seq<GaugePoint>>>,
    retained_points: nat,
    context: EvalContext,
) -> Option<GaugeSnapshotView> {
    let (from_us, to_us) = (context.incident_start_us, context.incident_end_us);
    match tracks {
        Some(found) => match (
            column_range(found, from_us, to_us, 2),
            extreme_snapshot(found, from_us, to_us, 0, true),
        ) {
            (Some(status), Some(reading)) => if (Float64 { bits: ONE }).at_most(status.0)
                && status.1.at_most(Float64 { bits: LAST_HEALTHY_STATUS }) && status.2
                == retained_points && (Float64 { bits: 0 }).below(reading.values[1]) {
                Some(reading)
            } else {
                None
            },
            _ => None,
        },
        None => None,
    }
}

/// The draft about a slot.
pub open spec fn slot_draft(
    member: EpisodeView,
    reading: GaugeSnapshotView,
    safe_headroom: bool,
    trend: Option<GaugeTrend>,
) -> Option<DraftView> {
    let zero = Float64 { bits: 0 };
    let floor = Float64 { bits: HEADROOM_FLOOR };
    let denominator = if safe_headroom {
        reading.values[0].sum_with(reading.values[1])
    } else {
        reading.values[1]
    };
    if denominator.at_most(zero) || reading.values[0].quotient_by(denominator).below(floor) {
        None
    } else {
        match ratio_evidence(
            "retained_bytes"@,
            reading.values[0],
            GaugeUnit::Bytes,
            if safe_headroom {
                "retained_bytes_plus_safe_wal_size"@
            } else {
                "max_slot_wal_keep_size_bytes"@
            },
            denominator,
            GaugeUnit::Bytes,
            GaugeUnit::Ratio,
            floor,
            ThresholdKind::AtLeast,
            reading.observed_at_us,
            reading.samples,
            reading.source_window,
            entity_of(SLOT@, member.identity),
        ) {
            Some(amount) => Some(
                observations_draft(
                    Role::Coincident,
                    member,
                    match slot_growth(member, trend) {
                        Some(growth) => seq![amount, growth],
                        None => seq![amount],
                    },
                ),
            ),
            None => None,
        }
    }
}

/// The evidence that a slot's retained bytes grew.
pub open spec fn slot_growth(member: EpisodeView, trend: Option<GaugeTrend>) -> Option<
    GaugeEvidenceView,
> {
    match trend {
        Some(found) => if found.first.below(found.last) {
            trend_evidence(
                "retained_bytes"@,
                found.first,
                found.last,
                GaugeUnit::Bytes,
                Float64 { bits: 0 },
                ThresholdKind::AtLeast,
                found.first_at_us,
                found.last_at_us,
                found.samples,
                found.source_window,
                entity_of(SLOT@, member.identity),
            )
        } else {
            None
        },
        None => None,
    }
}

/// Reports about one slot: the safe headroom is read first, and the configured
/// limit only where that yields no amount.
pub open spec fn slot_steps(member: EpisodeView, typed: TypedView, context: EvalContext) -> Seq<
    Step,
> {
    let (from_us, to_us) = (context.incident_start_us, context.incident_end_us);
    let retained = typed.gauge_points(
        SLOT@,
        "retained_bytes"@,
        member.identity,
        from_us,
        to_us,
    );
    if member.logical_section != SLOT@ || member.column != "retained_bytes"@ || retained is None {
        Seq::empty()
    } else {
        let points = retained->Some_0;
        let trend = trend_reading(points, from_us, to_us);
        let safe = slot_tracks(typed, member.identity, "safe_wal_size"@, context);
        let limit = slot_tracks(
            typed,
            member.identity,
            "max_slot_wal_keep_size_bytes"@,
            context,
        );
        match slot_amount(safe, points.len(), context) {
            Some(reading) => slot_charges(safe) + emitted(
                slot_draft(member, reading, true, trend),
            ),
            None => slot_charges(safe) + (slot_charges(limit) + emitted(
                match slot_amount(limit, points.len(), context) {
                    Some(reading) => slot_draft(member, reading, false, trend),
                    None => None,
                },
            )),
        }
    }
}

impl SlotRetentionLens {
    /// Pays for a headroom column and reads the retained amount beside it.
    fn read_amount(
        typed: &TypedInputs,
        member: &EpisodeRefV1,
        headroom: &'static str,
        retained_points: usize,
        context: &EvalContext,
        sink: &mut FindingSink<'_>,
    ) -> (r: Result<Option<GaugeSnapshot>, LimitHit>)
        ensures
            ({
                let tracks = slot_tracks(typed@, member@.identity, headroom@, *context);
                &&& reported(
                    old(sink)@,
                    final(sink)@,
                    slot_charges(tracks),
                    match r {
                        Ok(_) => Ok(()),
                        Err(hit) => Err(hit),
                    },
                )
                &&& r matches Ok(amount) ==> snapshot_option(amount) == slot_amount(
                    tracks,
                    retained_points as nat,
                    *context,
                )
                &&& r matches Ok(Some(amount)) ==> amount.values.len() == 3
            }),
            *final(final(sink).findings) == *final(old(sink).findings),
            *final(final(sink).budget) == *final(old(sink).budget),
            *final(final(sink).counts) == *final(old(sink).counts),
    {
        let columns: [&'static str; 3] = ["retained_bytes", headroom, "wal_status_code"];
        proof {
            assert(texts(columns@) =~= seq!["retained_bytes"@, headroom@, "wal_status_code"@]);
        }
        let window = match typed.gauge_snapshot_window(
            SLOT,
            member.identity.as_slice(),
            &columns,
            context.incident_start_us,
            context.incident_end_us,
        ) {
            Some(window) => window,
            None => {
                return Ok(None);
            },
        };
        proof {
            assert(slices_view(window.tracks@).len() == texts(columns@).len());
        }
        match charge(sink, triple(window.inspected_points())) {
            Ok(_) => {},
            Err(hit) => {
                return Err(hit);
            },
        }
        let status: (Float64, Float64, usize) = match window.value_range(2) {
            Some(status) => status,
            None => {
                return Ok(None);
            },
        };
        let reading: GaugeSnapshot = match window.extreme(0, true) {
            Some(reading) => reading,
            None => {
                return Ok(None);
            },
        };
        let zero = Float64 { bits: 0 };
        let one = Float64 { bits: ONE };
        let last = Float64 { bits: LAST_HEALTHY_STATUS };
        if one.less_or_equal(status.0) && status.1.less_or_equal(last) && status.2
            == retained_points && zero.less(reading.values[1]) {
            Ok(Some(reading))
        } else {
            Ok(None)
        }
    }

    fn draft_amount(
        member: &EpisodeRefV1,
        reading: &GaugeSnapshot,
        safe_headroom: bool,
        trend: Option<GaugeTrend>,
    ) -> (r: Option<FindingDraft>)
        requires
            reading.values.len() == 3,
        ensures
            draft_view(r) == slot_draft(member@, reading@, safe_headroom, trend),
    {
        let zero = Float64 { bits: 0 };
        let floor = Float64 { bits: HEADROOM_FLOOR };
        let denominator: Float64 = if safe_headroom {
            reading.values[0].plus(reading.values[1])
        } else {
            reading.values[1]
        };
        let denominator_name: &'static str = if safe_headroom {
            "retained_bytes_plus_safe_wal_size"
        } else {
            "max_slot_wal_keep_size_bytes"
        };
        if denominator.less_or_equal(zero) || reading.values[0].divided_by(denominator).less(
            floor,
        ) {
            return None;
        }
        let amount: GaugeEvidence = match GaugeEvidence::ratio(
            GaugeRatio::new(
                "retained_bytes",
                reading.values[0],
                denominator_name,
                denominator,
                GaugeUnit::Bytes,
            ),
            floor,
            ThresholdKind::AtLeast,
            reading.observed_at_us,
            reading.samples,
            reading.source_window,
            entity(SLOT, &member.identity),
        ) {
            Some(amount) => amount,
            None => {
                return None;
            },
        };
        let growth: Option<GaugeEvidence> = match trend {
            Some(found) => if found.first.less(found.last) {
                GaugeEvidence::trend(
                    GaugeTrendInput {
                        operand: "retained_bytes",
                        first: found.first,
                        last: found.last,
                        operand_unit: GaugeUnit::Bytes,
                        threshold_per_second: zero,
                        threshold_kind: ThresholdKind::AtLeast,
                        first_at_us: found.first_at_us,
                        last_at_us: found.last_at_us,
                        samples: found.samples,
                        source_window: found.source_window,
                        entity: entity(SLOT, &member.identity),
                    },
                )
            } else {
                None
            },
            None => None,
        };
        proof {
            assert(option_view(growth) == slot_growth(member@, trend));
        }
        let ghost va = amount@;
        let mut evidence: Vec<GaugeEvidence> = Vec::new();
        evidence.push(amount);
        match growth {
            Some(found) => {
                let ghost vg = found@;
                evidence.push(found);
                proof {
                    assert(views(evidence@) =~= seq![va, vg]);
                }
            },
            None => {
                proof {
                    assert(views(evidence@) =~= seq![va]);
                }
            },
        }
        Some(draft_observations(Role::Coincident, member, evidence))
    }
}

impl MemberLens for SlotRetentionLens {
    open spec fn member_steps(
        &self,
        member: EpisodeView,
        typed: TypedView,
        context: EvalContext,
    ) -> Seq<Step> {
        slot_steps(member, typed, context)
    }

    fn evaluate_member(
        &self,
        member: &EpisodeRefV1,
        typed: &TypedInputs,
        context: &EvalContext,
        sink: &mut FindingSink<'_>,
    ) -> (r: Result<(), LimitHit>) {
        let ghost before = sink@;
        if !text_eq(member.logical_section, SLOT) || !text_eq(
            member.column,
            "retained_bytes",
        ) {
            return Ok(());
        }
        let retained = match typed.gauge_window(
            SLOT,
            "retained_bytes",
            member.identity.as_slice(),
            context.incident_start_us,
            context.incident_end_us,
        ) {
            Some(window) => window,
            None => {
                return Ok(());
            },
        };
        let retained_points: usize = retained.inspected_points();
        let trend: Option<GaugeTrend> = retained.trend();
        let ghost safe = slot_tracks(typed@, member@.identity, "safe_wal_size"@, *context);
        let ghost limit = slot_tracks(
            typed@,
            member@.identity,
            "max_slot_wal_keep_size_bytes"@,
            *context,
        );
        let ghost second = slot_charges(limit) + emitted(
            match slot_amount(limit, retained_points as nat, *context) {
                Some(reading) => slot_draft(member@, reading, false, trend),
                None => None,
            },
        );
        let ghost first_rest = match slot_amount(safe, retained_points as nat, *context) {
            Some(reading) => emitted(slot_draft(member@, reading, true, trend)),
            None => second,
        };
        proof {
            assert(slot_steps(member@, typed@, *context) == slot_charges(safe) + first_rest);
        }
        let amount: Option<GaugeSnapshot> = match SlotRetentionLens::read_amount(
            typed,
            member,
            "safe_wal_size",
            retained_points,
            context,
            sink,
        ) {
            Ok(amount) => amount,
            Err(hit) => {
                proof {
                    lemma_first_part_refused(
                        before,
                        sink@,
                        slot_charges(safe),
                        first_rest,
                        Err(hit),
                    );
                }
                return Err(hit);
            },
        };
        let ghost paid = sink@;
        if let Some(reading) = amount {
            let draft = SlotRetentionLens::draft_amount(member, &reading, true, trend);
            let r = emit_optional(sink, draft);
            proof {
                lemma_two_parts(before, paid, sink@, slot_charges(safe), first_rest, r);
            }
            return r;
        }
        let ghost tail = emitted(
            match slot_amount(limit, retained_points as nat, *context) {
                Some(reading) => slot_draft(member@, reading, false, trend),
                None => None,
            },
        );
        let other: Option<GaugeSnapshot> = match SlotRetentionLens::read_amount(
            typed,
            member,
            "max_slot_wal_keep_size_bytes",
            retained_points,
            context,
            sink,
        ) {
            Ok(amount) => amount,
            Err(hit) => {
                proof {
                    lemma_first_part_refused(paid, sink@, slot_charges(limit), tail, Err(hit));
                    lemma_two_parts(
                        before,
                        paid,
                        sink@,
                        slot_charges(safe),
                        second,
                        Err(hit),
                    );
                }
                return Err(hit);
            },
        };
        let ghost paid_twice = sink@;
        let draft: Option<FindingDraft> = match other {
            Some(reading) => SlotRetentionLens::draft_amount(member, &reading, false, trend),
            None => None,
        };
        let r = emit_optional(sink, draft);
        proof {
            lemma_two_parts(paid, paid_twice, sink@, slot_charges(limit), tail, r);
            lemma_two_parts(before, paid, sink@, slot_charges(safe), second, r);
        }
        r
    }
}

impl Lens for SlotRetentionLens {
    open spec fn id_text(&self) -> Seq<char> {
        "PG-SLOT-016"@
    }

    open spec fn input_list(&self) -> Seq<SectionColumn> {
        seq![
            SectionColumn { section: SLOT, column: "retained_bytes" },
            SectionColumn { section: SLOT, column: "safe_wal_size" },
            SectionColumn { section: SLOT, column: "max_slot_wal_keep_size_bytes" },
            SectionColumn { section: SLOT, column: "wal_status_code" },
        ]
    }

    open spec fn cap(&self) -> ConfidenceCap {
        ConfidenceCap::Low
    }

    open spec fn steps(
        &self,
        cluster: ClusterView,
        series: SeriesSetView,
        typed: TypedView,
        context: EvalContext,
    ) -> Seq<Step> {
        cluster_steps(self, cluster, typed, context)
    }

    fn id(&self) -> (r: &'static str) {
        "PG-SLOT-016"
    }

    fn inputs(&self) -> (r: &'static [SectionColumn]) {
        &[
            SectionColumn { section: SLOT, column: "retained_bytes" },
            SectionColumn { section: SLOT, column: "safe_wal_size" },
            SectionColumn { section: SLOT, column: "max_slot_wal_keep_size_bytes" },
            SectionColumn { section: SLOT, column: "wal_status_code" },
        ]
    }

    fn confidence_cap(&self) -> (r: ConfidenceCap) {
        ConfidenceCap::Low
    }

    fn evaluate(
        &self,
        cluster: &Cluster,
        series: &SeriesSet,
        typed: &TypedInputs,
        context: &EvalContext,
        sink: &mut FindingSink<'_>,
    ) -> (r: Result<(), LimitHit>) {
        evaluate_members(self, cluster, typed, context, sink)
    }
}

/// 0.1 of a file system still available.
pub const AVAILABLE_FLOOR: u64 = 0x3fb9_9999_9999_999a;

/// `OS-FS-027`: little space left on the storage of the database.
pub struct StorageCapacityLens;

impl InspectLens for StorageCapacityLens {
    open spec fn inspected(
        &self,
        member: EpisodeView,
        typed: TypedView,
        context: EvalContext,
    ) -> Option<usize> {
        if member.logical_section == STORAGE@ && member.column == "available_bytes"@ {
            snapshot_cost(
                typed,
                STORAGE@,
                member.identity,
                seq!["available_bytes"@, "total_bytes"@, "mapping_state"@],
                context,
            )
        } else {
            None
        }
    }

    open spec fn drafted(
        &self,
        member: EpisodeView,
        typed: TypedView,
        context: EvalContext,
    ) -> Option<DraftView> {
        let zero = Float64 { bits: 0 };
        let one = Float64 { bits: ONE };
        let floor = Float64 { bits: AVAILABLE_FLOOR };
        match worst_snapshot(
            typed,
            STORAGE@,
            member.identity,
            seq!["available_bytes"@, "total_bytes"@, "mapping_state"@],
            context,
            false,
        ) {
            Some(reading) => {
                let v = reading.values;
                if !v[2].same(one) || v[1].at_most(zero) || floor.at_most(v[0].quotient_by(v[1])) {
                    None
                } else {
                    observed(
                        member,
                        ratio_evidence(
                            "available_bytes"@,
                            v[0],
                            GaugeUnit::Bytes,
                            "total_bytes"@,
                            v[1],
                            GaugeUnit::Bytes,
                            GaugeUnit::Ratio,
                            floor,
                            ThresholdKind::Below,
                            reading.observed_at_us,
                            reading.samples,
                            reading.source_window,
                            entity_of(STORAGE@, member.identity),
                        ),
                    )
                }
            },
            None => None,
        }
    }

    fn inspect(&self, member: &EpisodeRefV1, typed: &TypedInputs, context: &EvalContext) -> (r:
        Option<usize>) {
        if text_eq(member.logical_section, STORAGE) && text_eq(member.column, "available_bytes") {
            let columns: [&'static str; 3] = ["available_bytes", "total_bytes", "mapping_state"];
            proof {
                assert(texts(columns@) =~= seq!["available_bytes"@, "total_bytes"@, "mapping_state"@]);
            }
            cost_of_snapshot(typed, STORAGE, member.identity.as_slice(), &columns, context)
        } else {
            None
        }
    }

    fn draft(&self, member: &EpisodeRefV1, typed: &TypedInputs, context: &EvalContext) -> (r: Option<
        FindingDraft,
    >) {
        let zero = Float64 { bits: 0 };
        let one = Float64 { bits: ONE };
        let floor = Float64 { bits: AVAILABLE_FLOOR };
        let columns: [&'static str; 3] = ["available_bytes", "total_bytes", "mapping_state"];
        proof {
            assert(texts(columns@) =~= seq!["available_bytes"@, "total_bytes"@, "mapping_state"@]);
        }
        let reading: GaugeSnapshot = match read_snapshot(
            typed,
            STORAGE,
            member.identity.as_slice(),
            &columns,
            context,
            false,
        ) {
            Some(reading) => reading,
            None => {
                return None;
            },
        };
        if !reading.values[2].equals(one) || reading.values[1].less_or_equal(zero) || floor.less_or_equal(
            reading.values[0].divided_by(reading.values[1]),
        ) {
            return None;
        }
        draft_observed(
            member,
            GaugeEvidence::ratio(
                GaugeRatio::new(
                    "available_bytes",
                    reading.values[0],
                    "total_bytes",
                    reading.values[1],
                    GaugeUnit::Bytes,
                ),
                floor,
                ThresholdKind::Below,
                reading.observed_at_us,
                reading.samples,
                reading.source_window,
                entity(STORAGE, &member.identity),
            ),
        )
    }
}

impl Lens for StorageCapacityLens {
    open spec fn id_text(&self) -> Seq<char> {
        "OS-FS-027"@
    }

    open spec fn input_list(&self) -> Seq<SectionColumn> {
        seq![
            SectionColumn { section: STORAGE, column: "available_bytes" },
            SectionColumn { section: STORAGE, column: "total_bytes" },
            SectionColumn { section: STORAGE, column: "mapping_state" },
        ]
    }

    open spec fn cap(&self) -> ConfidenceCap {
        ConfidenceCap::Low
    }

    open spec fn steps(
        &self,
        cluster: ClusterView,
        series: SeriesSetView,
        typed: TypedView,
        context: EvalContext,
    ) -> Seq<Step> {
        cluster_steps(self, cluster, typed, context)
    }

    fn id(&self) -> (r: &'static str) {
        "OS-FS-027"
    }

    fn inputs(&self) -> (r: &'static [SectionColumn]) {
        &[
            SectionColumn { section: STORAGE, column: "available_bytes" },
            SectionColumn { section: STORAGE, column: "total_bytes" },
            SectionColumn { section: STORAGE, column: "mapping_state" },
        ]
    }

    fn confidence_cap(&self) -> (r: ConfidenceCap) {
        ConfidenceCap::Low
    }

    fn evaluate(
        &self,
        cluster: &Cluster,
        series: &SeriesSet,
        typed: &TypedInputs,
        context: &EvalContext,
        sink: &mut FindingSink<'_>,
    ) -> (r: Result<(), LimitHit>) {
        evaluate_members(self, cluster, typed, context, sink)
    }
}

/// 0.9 of a memory limit in use.
pub const UTILIZATION_FLOOR: u64 = 0x3fec_cccc_cccc_cccd;

/// `OS-CGMEM-023`: a cgroup near its memory limit.
pub struct CgroupMemoryLens;

impl InspectLens for CgroupMemoryLens {
    open spec fn inspected(
        &self,
        member: EpisodeView,
        typed: TypedView,
        context: EvalContext,
    ) -> Option<usize> {
        if member.logical_section == CGROUP@ && member.column == "current_bytes"@ {
            snapshot_cost(
                typed,
                CGROUP@,
                member.identity,
                seq!["current_bytes"@, "max_bytes"@, "mapping_state"@, "max_unlimited"@],
                context,
            )
        } else {
            None
        }
    }

    open spec fn drafted(
        &self,
        member: EpisodeView,
        typed: TypedView,
        context: EvalContext,
    ) -> Option<DraftView> {
        let zero = Float64 { bits: 0 };
        let one = Float64 { bits: ONE };
        let floor = Float64 { bits: UTILIZATION_FLOOR };
        match worst_snapshot(
            typed,
            CGROUP@,
            member.identity,
            seq!["current_bytes"@, "max_bytes"@, "mapping_state"@, "max_unlimited"@],
            context,
            true,
        ) {
            Some(reading) => {
                let v = reading.values;
                if !v[2].same(one) || !v[3].same(zero) || v[1].at_most(zero) || v[0].quotient_by(
                    v[1],
                ).below(floor) {
                    None
                } else {
                    observed(
                        member,
                        ratio_evidence(
                            "current_bytes"@,
                            v[0],
                            GaugeUnit::Bytes,
                            "max_bytes"@,
                            v[1],
                            GaugeUnit::Bytes,
                            GaugeUnit::Ratio,
                            floor,
                            ThresholdKind::AtLeast,
                            reading.observed_at_us,
                            reading.samples,
                            reading.source_window,
                            entity_of(CGROUP@, member.identity),
                        ),
                    )
                }
            },
            None => None,
        }
    }

    fn inspect(&self, member: &EpisodeRefV1, typed: &TypedInputs, context: &EvalContext) -> (r:
        Option<usize>) {
        if text_eq(member.logical_section, CGROUP) && text_eq(member.column, "current_bytes") {
            let columns: [&'static str; 4] = [
                "current_bytes",
                "max_bytes",
                "mapping_state",
                "max_unlimited",
            ];
            proof {
                assert(texts(columns@) =~= seq!["current_bytes"@, "max_bytes"@, "mapping_state"@, "max_unlimited"@]);
            }
            cost_of_snapshot(typed, CGROUP, member.identity.as_slice(), &columns, context)
        } else {
            None
        }
    }

    fn draft(&self, member: &EpisodeRefV1, typed: &TypedInputs, context: &EvalContext) -> (r: Option<
        FindingDraft,
    >) {
        let zero = Float64 { bits: 0 };
        let one = Float64 { bits: ONE };
        let floor = Float64 { bits: UTILIZATION_FLOOR };
        let columns: [&'static str; 4] = [
            "current_bytes",
            "max_bytes",
            "mapping_state",
            "max_unlimited",
        ];
        proof {
            assert(texts(columns@) =~= seq!["current_bytes"@, "max_bytes"@, "mapping_state"@, "max_unlimited"@]);
        }
        let reading: GaugeSnapshot = match read_snapshot(
            typed,
            CGROUP,
            member.identity.as_slice(),
            &columns,
            context,
            true,
        ) {
            Some(reading) => reading,
            None => {
                return None;
            },
        };
        if !reading.values[2].equals(one) || !reading.values[3].equals(zero)
            || reading.values[1].less_or_equal(zero) || reading.values[0].divided_by(
            reading.values[1],
        ).less(floor) {
            return None;
        }
        draft_observed(
            member,
            GaugeEvidence::ratio(
                GaugeRatio::new(
                    "current_bytes",
                    reading.values[0],
                    "max_bytes",
                    reading.values[1],
                    GaugeUnit::Bytes,
                ),
                floor,
                ThresholdKind::AtLeast,
                reading.observed_at_us,
                reading.samples,
                reading.source_window,
                entity(CGROUP, &member.identity),
            ),
        )
    }
}

impl Lens for CgroupMemoryLens {
    open spec fn id_text(&self) -> Seq<char> {
        "OS-CGMEM-023"@
    }

    open spec fn input_list(&self) -> Seq<SectionColumn> {
        seq![
            SectionColumn { section: CGROUP, column: "current_bytes" },
            SectionColumn { section: CGROUP, column: "max_bytes" },
            SectionColumn { section: CGROUP, column: "mapping_state" },
            SectionColumn { section: CGROUP, column: "max_unlimited" },
        ]
    }

    open spec fn cap(&self) -> ConfidenceCap {
        ConfidenceCap::Low
    }

    open spec fn steps(
        &self,
        cluster: ClusterView,
        series: SeriesSetView,
        typed: TypedView,
        context: EvalContext,
    ) -> Seq<Step> {
        cluster_steps(self, cluster, typed, context)
    }

    fn id(&self) -> (r: &'static str) {
        "OS-CGMEM-023"
    }

    fn inputs(&self) -> (r: &'static [SectionColumn]) {
        &[
            SectionColumn { section: CGROUP, column: "current_bytes" },
            SectionColumn { section: CGROUP, column: "max_bytes" },
            SectionColumn { section: CGROUP, column: "mapping_state" },
            SectionColumn { section: CGROUP, column: "max_unlimited" },
        ]
    }

    fn confidence_cap(&self) -> (r: ConfidenceCap) {
        ConfidenceCap::Low
    }

    fn evaluate(
        &self,
        cluster: &Cluster,
        series: &SeriesSet,
        typed: &TypedInputs,
        context: &EvalContext,
        sink: &mut FindingSink<'_>,
    ) -> (r: Result<(), LimitHit>) {
        evaluate_members(self, cluster, typed, context, sink)
    }
}

} // verus!
