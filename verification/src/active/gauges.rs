//! Lenses over gauge levels of one series.

use super::observe::{
    cost_of_pair, draft_observed, entity, entity_of, observed, pair_cost, read_pair, worst_pair,
};
use super::shared::{OS_MEMINFO, PG_STAT_DATABASE, PG_STAT_USER_TABLES};
use crate::cluster::{Cluster, ClusterView};
use crate::dispatch::{LimitHit, SectionColumn};
use crate::engine::EvalContext;
use crate::evidence::confidence::ConfidenceCap;
use crate::evidence::finding::{DraftView, FindingDraft};
use crate::evidence::gauge::{ratio_evidence, GaugeEvidence, GaugeRatio};
use crate::evidence::sink::{FindingSink, Step};
use crate::evidence::value::{GaugeUnit, ThresholdKind};
use crate::float64::{Float64, ONE};
use crate::inspect::{cluster_steps, evaluate_members, InspectLens};
use crate::lens::Lens;
use crate::model::{EpisodeRefV1, EpisodeView};
use crate::series::{SeriesSet, SeriesSetView};
use crate::text::text_eq;
use crate::typed::gauge::{capped, GaugeObjective, PairedGauge, TripleGauge, triple_reading};
use crate::typed::inputs::{TypedInputs, TypedView};
use vstd::prelude::*;

verus! {

/// Fewest samples behind a finding.
pub const MIN_SAMPLES: usize = 1;

/// 0.2 of the estimated rows modified since the last analyze.
pub const MODIFIED_FRACTION_FLOOR: u64 = 0x3fc9_9999_9999_999a;

/// `PG-ANALYZE-004`: observed modifications relative to the planner row estimate.
/// This does not assert that a plan changed.
pub struct StaleStatisticsLens;

impl InspectLens for StaleStatisticsLens {
    open spec fn inspected(
        &self,
        member: EpisodeView,
        typed: TypedView,
        context: EvalContext,
    ) -> Option<usize> {
        if member.logical_section == PG_STAT_USER_TABLES@ && member.column == "n_mod_since_analyze"@ {
            pair_cost(typed, PG_STAT_USER_TABLES@, member.identity, "n_mod_since_analyze"@, "reltuples"@, context)
        } else {
            None
        }
    }

    open spec fn drafted(
        &self,
        member: EpisodeView,
        typed: TypedView,
        context: EvalContext,
    ) -> Option<DraftView> {
        let zero = Float64 { bits: 0 };
        let floor = Float64 { bits: MODIFIED_FRACTION_FLOOR };
        match worst_pair(
            typed,
            PG_STAT_USER_TABLES@,
            member.identity,
            "n_mod_since_analyze"@,
            "reltuples"@,
            context,
            GaugeObjective::RatioAbsOneMax,
        ) {
            Some(pair) => {
                let denominator = pair.b.absolute().larger(Float64 { bits: ONE });
                let value = pair.a.quotient_by(denominator);
                if pair.samples < MIN_SAMPLES || pair.a.below(zero) || value.below(floor) {
                    None
                } else {
                    observed(
                        member,
                        ratio_evidence(
                            "n_mod_since_analyze"@,
                            pair.a,
                            GaugeUnit::Count,
                            "abs_reltuples_floor_1"@,
                            denominator,
                            GaugeUnit::Count,
                            GaugeUnit::Ratio,
                            floor,
                            ThresholdKind::AtLeast,
                            pair.observed_at_us,
                            pair.samples,
                            pair.source_window,
                            entity_of(PG_STAT_USER_TABLES@, member.identity),
                        ),
                    )
                }
            },
            None => None,
        }
    }

    fn inspect(&self, member: &EpisodeRefV1, typed: &TypedInputs, context: &EvalContext) -> (r:
        Option<usize>) {
        if text_eq(member.logical_section, PG_STAT_USER_TABLES) && text_eq(member.column, "n_mod_since_analyze") {
            cost_of_pair(
                typed,
                PG_STAT_USER_TABLES,
                member.identity.as_slice(),
                ("n_mod_since_analyze", "reltuples"),
                context,
            )
        } else {
            None
        }
    }

    fn draft(&self, member: &EpisodeRefV1, typed: &TypedInputs, context: &EvalContext) -> (r: Option<
        FindingDraft,
    >) {
        let zero = Float64 { bits: 0 };
        let floor = Float64 { bits: MODIFIED_FRACTION_FLOOR };
        let pair: PairedGauge = match read_pair(
            typed,
            PG_STAT_USER_TABLES,
            member.identity.as_slice(),
            ("n_mod_since_analyze", "reltuples"),
            context,
            GaugeObjective::RatioAbsOneMax,
        ) {
            Some(pair) => pair,
            None => {
                return None;
            },
        };
        let denominator: Float64 = pair.b.abs().max(Float64 { bits: ONE });
        let value: Float64 = pair.a.divided_by(denominator);
        if pair.samples < MIN_SAMPLES || pair.a.less(zero) || value.less(floor) {
            return None;
        }
        draft_observed(
            member,
            GaugeEvidence::ratio(
                GaugeRatio::new(
                    "n_mod_since_analyze",
                    pair.a,
                    "abs_reltuples_floor_1",
                    denominator,
                    GaugeUnit::Count,
                ),
                floor,
                ThresholdKind::AtLeast,
                pair.observed_at_us,
                pair.samples,
                pair.source_window,
                entity(PG_STAT_USER_TABLES, &member.identity),
            ),
        )
    }
}

impl Lens for StaleStatisticsLens {
    open spec fn id_text(&self) -> Seq<char> {
        "PG-ANALYZE-004"@
    }

    open spec fn input_list(&self) -> Seq<SectionColumn> {
        seq![
            SectionColumn { section: PG_STAT_USER_TABLES, column: "n_mod_since_analyze" },
            SectionColumn { section: PG_STAT_USER_TABLES, column: "reltuples" },
        ]
    }

    open spec fn cap(&self) -> ConfidenceCap {
        ConfidenceCap::Low
    }

    open spec fn steps(
        &self,
        cluster: ClusterView,
        series: SeriesSetView,
        typed: TypedView,
        context: EvalContext,
    ) -> Seq<Step> {
        cluster_steps(self, cluster, typed, context)
    }

    fn id(&self) -> (r: &'static str) {
        "PG-ANALYZE-004"
    }

    fn inputs(&self) -> (r: &'static [SectionColumn]) {
        &[
            SectionColumn { section: PG_STAT_USER_TABLES, column: "n_mod_since_analyze" },
            SectionColumn { section: PG_STAT_USER_TABLES, column: "reltuples" },
        ]
    }

    fn confidence_cap(&self) -> (r: ConfidenceCap) {
        ConfidenceCap::Low
    }

    fn evaluate(
        &self,
        cluster: &Cluster,
        series: &SeriesSet,
        typed: &TypedInputs,
        context: &EvalContext,
        sink: &mut FindingSink<'_>,
    ) -> (r: Result<(), LimitHit>) {
        evaluate_members(self, cluster, typed, context, sink)
    }
}

/// 0.8 of a database's connection limit in use.
pub const SATURATION_FLOOR: u64 = 0x3fe9_9999_9999_999a;

/// `PG-CONN-014`: observed occupancy of one database's `datconnlimit`.
pub struct ConnectionSaturationLens;

impl InspectLens for ConnectionSaturationLens {
    open spec fn inspected(
        &self,
        member: EpisodeView,
        typed: TypedView,
        context: EvalContext,
    ) -> Option<usize> {
        if member.logical_section == PG_STAT_DATABASE@ && member.column == "numbackends"@ {
            pair_cost(typed, PG_STAT_DATABASE@, member.identity, "numbackends"@, "datconnlimit"@, context)
        } else {
            None
        }
    }

    open spec fn drafted(
        &self,
        member: EpisodeView,
        typed: TypedView,
        context: EvalContext,
    ) -> Option<DraftView> {
        let zero = Float64 { bits: 0 };
        let floor = Float64 { bits: SATURATION_FLOOR };
        match worst_pair(
            typed,
            PG_STAT_DATABASE@,
            member.identity,
            "numbackends"@,
            "datconnlimit"@,
            context,
            GaugeObjective::RatioMax,
        ) {
            Some(pair) => {
                let denominator = pair.b;
                let value = pair.a.quotient_by(denominator);
                if pair.samples < MIN_SAMPLES || pair.a.below(zero) || denominator.at_most(zero) || value.below(
                    floor,
                ) {
                    None
                } else {
                    observed(
                        member,
                        ratio_evidence(
                            "numbackends"@,
                            pair.a,
                            GaugeUnit::Count,
                            "datconnlimit"@,
                            denominator,
                            GaugeUnit::Count,
                            GaugeUnit::Ratio,
                            floor,
                            ThresholdKind::AtLeast,
                            pair.observed_at_us,
                            pair.samples,
                            pair.source_window,
                            entity_of(PG_STAT_DATABASE@, member.identity),
                        ),
                    )
                }
            },
            None => None,
        }
    }

    fn inspect(&self, member: &EpisodeRefV1, typed: &TypedInputs, context: &EvalContext) -> (r:
        Option<usize>) {
        if text_eq(member.logical_section, PG_STAT_DATABASE) && text_eq(member.column, "numbackends") {
            cost_of_pair(
                typed,
                PG_STAT_DATABASE,
                member.identity.as_slice(),
                ("numbackends", "datconnlimit"),
                context,
            )
        } else {
            None
        }
    }

    fn draft(&self, member: &EpisodeRefV1, typed: &TypedInputs, context: &EvalContext) -> (r: Option<
        FindingDraft,
    >) {
        let zero = Float64 { bits: 0 };
        let floor = Float64 { bits: SATURATION_FLOOR };
        let pair: PairedGauge = match read_pair(
            typed,
            PG_STAT_DATABASE,
            member.identity.as_slice(),
            ("numbackends", "datconnlimit"),
            context,
            GaugeObjective::RatioMax,
        ) {
            Some(pair) => pair,
            None => {
                return None;
            },
        };
        let denominator: Float64 = pair.b;
        let value: Float64 = pair.a.divided_by(denominator);
        if pair.samples < MIN_SAMPLES || pair.a.less(zero) || denominator.less_or_equal(zero) || value.less(
            floor,
        ) {
            return None;
        }
        draft_observed(
            member,
            GaugeEvidence::ratio(
                GaugeRatio::new(
                    "numbackends",
                    pair.a,
                    "datconnlimit",
                    denominator,
                    GaugeUnit::Count,
                ),
                floor,
                ThresholdKind::AtLeast,
                pair.observed_at_us,
                pair.samples,
                pair.source_window,
                entity(PG_STAT_DATABASE, &member.identity),
            ),
        )
    }
}

impl Lens for ConnectionSaturationLens {
    open spec fn id_text(&self) -> Seq<char> {
        "PG-CONN-014"@
    }

    open spec fn input_list(&self) -> Seq<SectionColumn> {
        seq![
            SectionColumn { section: PG_STAT_DATABASE, column: "numbackends" },
            SectionColumn { section: PG_STAT_DATABASE, column: "datconnlimit" },
        ]
    }

    open spec fn cap(&self) -> ConfidenceCap {
        ConfidenceCap::Medium
    }

    open spec fn steps(
        &self,
        cluster: ClusterView,
        series: SeriesSetView,
        typed: TypedView,
        context: EvalContext,
    ) -> Seq<Step> {
        cluster_steps(self, cluster, typed, context)
    }

    fn id(&self) -> (r: &'static str) {
        "PG-CONN-014"
    }

    fn inputs(&self) -> (r: &'static [SectionColumn]) {
        &[
            SectionColumn { section: PG_STAT_DATABASE, column: "numbackends" },
            SectionColumn { section: PG_STAT_DATABASE, column: "datconnlimit" },
        ]
    }

    fn confidence_cap(&self) -> (r: ConfidenceCap) {
        ConfidenceCap::Medium
    }

    fn evaluate(
        &self,
        cluster: &Cluster,
        series: &SeriesSet,
        typed: &TypedInputs,
        context: &EvalContext,
        sink: &mut FindingSink<'_>,
    ) -> (r: Result<(), LimitHit>) {
        evaluate_members(self, cluster, typed, context, sink)
    }
}

/// 0.05 of memory still available.
pub const AVAILABLE_FRACTION_FLOOR: u64 = 0x3fa9_9999_9999_999a;

/// `OS-MEM-022`: an observed low `MemAvailable / MemTotal` sample.
pub struct MemoryReclaimLens;

impl InspectLens for MemoryReclaimLens {
    open spec fn inspected(
        &self,
        member: EpisodeView,
        typed: TypedView,
        context: EvalContext,
    ) -> Option<usize> {
        if member.logical_section == OS_MEMINFO@ && member.column == "mem_available"@ {
            pair_cost(typed, OS_MEMINFO@, member.identity, "mem_available"@, "mem_total"@, context)
        } else {
            None
        }
    }

    open spec fn drafted(
        &self,
        member: EpisodeView,
        typed: TypedView,
        context: EvalContext,
    ) -> Option<DraftView> {
        let zero = Float64 { bits: 0 };
        let floor = Float64 { bits: AVAILABLE_FRACTION_FLOOR };
        match worst_pair(
            typed,
            OS_MEMINFO@,
            member.identity,
            "mem_available"@,
            "mem_total"@,
            context,
            GaugeObjective::RatioMin,
        ) {
            Some(pair) => {
                let denominator = pair.b;
                let value = pair.a.quotient_by(denominator);
                if pair.samples < MIN_SAMPLES || denominator.at_most(zero) || floor.at_most(value) {
                    None
                } else {
                    observed(
                        member,
                        ratio_evidence(
                            "mem_available"@,
                            pair.a,
                            GaugeUnit::Kibibytes,
                            "mem_total"@,
                            denominator,
                            GaugeUnit::Kibibytes,
                            GaugeUnit::Ratio,
                            floor,
                            ThresholdKind::Below,
                            pair.observed_at_us,
                            pair.samples,
                            pair.source_window,
                            entity_of(OS_MEMINFO@, member.identity),
                        ),
                    )
                }
            },
            None => None,
        }
    }

    fn inspect(&self, member: &EpisodeRefV1, typed: &TypedInputs, context: &EvalContext) -> (r:
        Option<usize>) {
        if text_eq(member.logical_section, OS_MEMINFO) && text_eq(member.column, "mem_available") {
            cost_of_pair(
                typed,
                OS_MEMINFO,
                member.identity.as_slice(),
                ("mem_available", "mem_total"),
                context,
            )
        } else {
            None
        }
    }

    fn draft(&self, member: &EpisodeRefV1, typed: &TypedInputs, context: &EvalContext) -> (r: Option<
        FindingDraft,
    >) {
        let zero = Float64 { bits: 0 };
        let floor = Float64 { bits: AVAILABLE_FRACTION_FLOOR };
        let pair: PairedGauge = match read_pair(
            typed,
            OS_MEMINFO,
            member.identity.as_slice(),
            ("mem_available", "mem_total"),
            context,
            GaugeObjective::RatioMin,
        ) {
            Some(pair) => pair,
            None => {
                return None;
            },
        };
        let denominator: Float64 = pair.b;
        let value: Float64 = pair.a.divided_by(denominator);
        if pair.samples < MIN_SAMPLES || denominator.less_or_equal(zero) || floor.less_or_equal(value) {
            return None;
        }
        draft_observed(
            member,
            GaugeEvidence::ratio(
                GaugeRatio::new(
                    "mem_available",
                    pair.a,
                    "mem_total",
                    denominator,
                    GaugeUnit::Kibibytes,
                ),
                floor,
                ThresholdKind::Below,
                pair.observed_at_us,
                pair.samples,
                pair.source_window,
                entity(OS_MEMINFO, &member.identity),
            ),
        )
    }
}

impl Lens for MemoryReclaimLens {
    open spec fn id_text(&self) -> Seq<char> {
        "OS-MEM-022"@
    }

    open spec fn input_list(&self) -> Seq<SectionColumn> {
        seq![
            SectionColumn { section: OS_MEMINFO, column: "mem_available" },
            SectionColumn { section: OS_MEMINFO, column: "mem_total" },
        ]
    }

    open spec fn cap(&self) -> ConfidenceCap {
        ConfidenceCap::Low
    }

    open spec fn steps(
        &self,
        cluster: ClusterView,
        series: SeriesSetView,
        typed: TypedView,
        context: EvalContext,
    ) -> Seq<Step> {
        cluster_steps(self, cluster, typed, context)
    }

    fn id(&self) -> (r: &'static str) {
        "OS-MEM-022"
    }

    fn inputs(&self) -> (r: &'static [SectionColumn]) {
        &[
            SectionColumn { section: OS_MEMINFO, column: "mem_available" },
            SectionColumn { section: OS_MEMINFO, column: "mem_total" },
        ]
    }

    fn confidence_cap(&self) -> (r: ConfidenceCap) {
        ConfidenceCap::Low
    }

    fn evaluate(
        &self,
        cluster: &Cluster,
        series: &SeriesSet,
        typed: &TypedInputs,
        context: &EvalContext,
        sink: &mut FindingSink<'_>,
    ) -> (r: Result<(), LimitHit>) {
        evaluate_members(self, cluster, typed, context, sink)
    }
}

/// 0.1 of memory waiting to be written back.
pub const DIRTY_FRACTION_FLOOR: u64 = 0x3fb9_9999_9999_999a;

/// `OS-WB-025`: an observed `(Dirty + Writeback) / MemTotal` crossing.
pub struct WritebackPressureLens;

impl InspectLens for WritebackPressureLens {
    open spec fn inspected(
        &self,
        member: EpisodeView,
        typed: TypedView,
        context: EvalContext,
    ) -> Option<usize> {
        if member.logical_section == OS_MEMINFO@ && member.column == "dirty"@ {
            match (
                typed.gauge_points(
                    OS_MEMINFO@,
                    "dirty"@,
                    member.identity,
                    context.incident_start_us,
                    context.incident_end_us,
                ),
                typed.gauge_points(
                    OS_MEMINFO@,
                    "writeback"@,
                    member.identity,
                    context.incident_start_us,
                    context.incident_end_us,
                ),
                typed.gauge_points(
                    OS_MEMINFO@,
                    "mem_total"@,
                    member.identity,
                    context.incident_start_us,
                    context.incident_end_us,
                ),
            ) {
                (Some(a), Some(b), Some(c)) => Some(capped(a.len() + b.len() + c.len())),
                _ => None,
            }
        } else {
            None
        }
    }

    open spec fn drafted(
        &self,
        member: EpisodeView,
        typed: TypedView,
        context: EvalContext,
    ) -> Option<DraftView> {
        let zero = Float64 { bits: 0 };
        let floor = Float64 { bits: DIRTY_FRACTION_FLOOR };
        let reading = match (
            typed.gauge_points(
                OS_MEMINFO@,
                "dirty"@,
                member.identity,
                context.incident_start_us,
                context.incident_end_us,
            ),
            typed.gauge_points(
                OS_MEMINFO@,
                "writeback"@,
                member.identity,
                context.incident_start_us,
                context.incident_end_us,
            ),
            typed.gauge_points(
                OS_MEMINFO@,
                "mem_total"@,
                member.identity,
                context.incident_start_us,
                context.incident_end_us,
            ),
        ) {
            (Some(a), Some(b), Some(c)) => triple_reading(
                a,
                b,
                c,
                context.incident_start_us,
                context.incident_end_us,
            ),
            _ => None,
        };
        match reading {
            Some(found) => {
                let numerator = found.a.sum_with(found.b);
                if found.samples < MIN_SAMPLES || found.denominator.at_most(zero)
                    || numerator.quotient_by(found.denominator).below(floor) {
                    None
                } else {
                    observed(
                        member,
                        ratio_evidence(
                            "dirty_plus_writeback"@,
                            numerator,
                            GaugeUnit::Kibibytes,
                            "mem_total"@,
                            found.denominator,
                            GaugeUnit::Kibibytes,
                            GaugeUnit::Ratio,
                            floor,
                            ThresholdKind::AtLeast,
                            found.observed_at_us,
                            found.samples,
                            found.source_window,
                            entity_of(OS_MEMINFO@, member.identity),
                        ),
                    )
                }
            },
            None => None,
        }
    }

    fn inspect(&self, member: &EpisodeRefV1, typed: &TypedInputs, context: &EvalContext) -> (r:
        Option<usize>) {
        if text_eq(member.logical_section, OS_MEMINFO) && text_eq(member.column, "dirty") {
            match typed.triple_gauge_window(
                OS_MEMINFO,
                member.identity.as_slice(),
                ("dirty", "writeback", "mem_total"),
                context.incident_start_us,
                context.incident_end_us,
            ) {
                Some(window) => Some(window.inspected_points()),
                None => None,
            }
        } else {
            None
        }
    }

    fn draft(&self, member: &EpisodeRefV1, typed: &TypedInputs, context: &EvalContext) -> (r: Option<
        FindingDraft,
    >) {
        let zero = Float64 { bits: 0 };
        let floor = Float64 { bits: DIRTY_FRACTION_FLOOR };
        let window = match typed.triple_gauge_window(
            OS_MEMINFO,
            member.identity.as_slice(),
            ("dirty", "writeback", "mem_total"),
            context.incident_start_us,
            context.incident_end_us,
        ) {
            Some(window) => window,
            None => {
                return None;
            },
        };
        let found: TripleGauge = match window.sum_ratio_max() {
            Some(found) => found,
            None => {
                return None;
            },
        };
        let numerator: Float64 = found.a.plus(found.b);
        if found.samples < MIN_SAMPLES || found.denominator.less_or_equal(zero)
            || numerator.divided_by(found.denominator).less(floor) {
            return None;
        }
        draft_observed(
            member,
            GaugeEvidence::ratio(
                GaugeRatio::new(
                    "dirty_plus_writeback",
                    numerator,
                    "mem_total",
                    found.denominator,
                    GaugeUnit::Kibibytes,
                ),
                floor,
                ThresholdKind::AtLeast,
                found.observed_at_us,
                found.samples,
                found.source_window,
                entity(OS_MEMINFO, &member.identity),
            ),
        )
    }
}

impl Lens for WritebackPressureLens {
    open spec fn id_text(&self) -> Seq<char> {
        "OS-WB-025"@
    }

    open spec fn input_list(&self) -> Seq<SectionColumn> {
        seq![
            SectionColumn { section: OS_MEMINFO, column: "dirty" },
            SectionColumn { section: OS_MEMINFO, column: "writeback" },
            SectionColumn { section: OS_MEMINFO, column: "mem_total" },
        ]
    }

    open spec fn cap(&self) -> ConfidenceCap {
        ConfidenceCap::Low
    }

    open spec fn steps(
        &self,
        cluster: ClusterView,
        series: SeriesSetView,
        typed: TypedView,
        context: EvalContext,
    ) -> Seq<Step> {
        cluster_steps(self, cluster, typed, context)
    }

    fn id(&self) -> (r: &'static str) {
        "OS-WB-025"
    }

    fn inputs(&self) -> (r: &'static [SectionColumn]) {
        &[
            SectionColumn { section: OS_MEMINFO, column: "dirty" },
            SectionColumn { section: OS_MEMINFO, column: "writeback" },
            SectionColumn { section: OS_MEMINFO, column: "mem_total" },
        ]
    }

    fn confidence_cap(&self) -> (r: ConfidenceCap) {
        ConfidenceCap::Low
    }

    fn evaluate(
        &self,
        cluster: &Cluster,
        series: &SeriesSet,
        typed: &TypedInputs,
        context: &EvalContext,
        sink: &mut FindingSink<'_>,
    ) -> (r: Result<(), LimitHit>) {
        evaluate_members(self, cluster, typed, context, sink)
    }
}

} // verus!
