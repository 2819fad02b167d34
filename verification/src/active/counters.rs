//! Lenses over pairs of counter columns.

use super::shared::{
    exact_number, exact_u64_as_f64, operand_spec, three_operands, two_operands, CounterEvidenceSpec,
    CounterOperandSpec, PairContract, PairContractView, PairLens, ReadingView, CHECKPOINTER,
    OS_CGROUP_CPU, OS_NETDEV, PG_STAT_ARCHIVER, PG_STAT_DATABASE, PG_STAT_IO, PG_STAT_USER_TABLES,
    PG_STAT_WAL,
};
use crate::cluster::{Cluster, ClusterView};
use crate::dispatch::{LimitHit, SectionColumn};
use crate::engine::EvalContext;
use crate::evidence::confidence::{ConfidenceCap, Role};
use crate::evidence::counter::{CounterMeasurementKind, CounterOperandPurpose, OperandView};
use crate::evidence::sink::{FindingSink, Step};
use crate::evidence::value::{GaugeUnit, ThresholdKind};
use crate::float64::Float64;
use crate::inspect::{cluster_steps, evaluate_members};
use crate::lens::Lens;
use crate::series::{SeriesSet, SeriesSetView};
use crate::typed::counter::PairedSums;
use crate::typed::inputs::{TypedInputs, TypedView};
use vstd::prelude::*;

verus! {

/// 0.2: only an unusually cold cache is worth an incident finding.
pub const MISS_THRESHOLD: u64 = 0x3fc9_9999_9999_999a;

/// `PG-CACHE-010` (`shared_buffer_misses`): shared-buffer miss pressure. Reports an
/// elevated `sum(d(blks_read)) / sum(d(blks_read) + d(blks_hit))` over the incident
/// as an amplifier. Without direct evidence its confidence stays capped at medium.
pub struct SharedBufferMissesLens;

impl PairLens for SharedBufferMissesLens {
    open spec fn pair(&self) -> PairContractView {
        PairContractView {
            section: PG_STAT_DATABASE@,
            anchor: "blks_read"@,
            column_a: "blks_read"@,
            column_b: "blks_hit"@,
            min_intervals: 3,
            role: Role::Amplifier,
        }
    }

    open spec fn reading(&self, sums: PairedSums) -> Option<ReadingView> {
        let zero = Float64 { bits: 0 };
        let threshold = Float64 { bits: MISS_THRESHOLD };
        let total = sums.sum_a.sum_with(sums.sum_b);
        let value = sums.sum_a.quotient_by(total);
        if total.at_most(zero) || value.below(threshold) {
            None
        } else {
            Some(
                ReadingView {
                    kind: CounterMeasurementKind::Ratio,
                    formula: "blks_read / (blks_read + blks_hit)"@,
                    value,
                    unit: GaugeUnit::Ratio,
                    threshold,
                    threshold_kind: ThresholdKind::AtLeast,
                    operands: seq![
                        OperandView {
                            name: "blks_read"@,
                            value: sums.sum_a,
                            unit: GaugeUnit::Count,
                            purpose: CounterOperandPurpose::Formula,
                        },
                        OperandView {
                            name: "blks_hit"@,
                            value: sums.sum_b,
                            unit: GaugeUnit::Count,
                            purpose: CounterOperandPurpose::Formula,
                        },
                    ],
                },
            )
        }
    }

    fn contract(&self) -> (r: PairContract) {
        PairContract {
            section: PG_STAT_DATABASE,
            anchor: "blks_read",
            column_a: "blks_read",
            column_b: "blks_hit",
            min_intervals: 3,
            role: Role::Amplifier,
        }
    }

    fn read(&self, sums: PairedSums) -> (r: Option<CounterEvidenceSpec>) {
        let zero = Float64 { bits: 0 };
        let threshold = Float64 { bits: MISS_THRESHOLD };
        let total: Float64 = sums.sum_a.plus(sums.sum_b);
        let value: Float64 = sums.sum_a.divided_by(total);
        if total.less_or_equal(zero) || value.less(threshold) {
            return None;
        }
        let operands: Vec<CounterOperandSpec> = two_operands(
            operand_spec(
                "blks_read",
                sums.sum_a,
                GaugeUnit::Count,
                CounterOperandPurpose::Formula,
            ),
            operand_spec(
                "blks_hit",
                sums.sum_b,
                GaugeUnit::Count,
                CounterOperandPurpose::Formula,
            ),
        );
        let spec = CounterEvidenceSpec {
            kind: CounterMeasurementKind::Ratio,
            formula: "blks_read / (blks_read + blks_hit)",
            value,
            unit: GaugeUnit::Ratio,
            threshold,
            threshold_kind: ThresholdKind::AtLeast,
            operands,
        };
        Some(spec)
    }
}

impl Lens for SharedBufferMissesLens {
    open spec fn id_text(&self) -> Seq<char> {
        "PG-CACHE-010"@
    }

    open spec fn input_list(&self) -> Seq<SectionColumn> {
        seq![
            SectionColumn { section: PG_STAT_DATABASE, column: "blks_read" },
            SectionColumn { section: PG_STAT_DATABASE, column: "blks_hit" },
        ]
    }

    open spec fn cap(&self) -> ConfidenceCap {
        ConfidenceCap::Medium
    }

    open spec fn steps(
        &self,
        cluster: ClusterView,
        series: SeriesSetView,
        typed: TypedView,
        context: EvalContext,
    ) -> Seq<Step> {
        cluster_steps(self, cluster, typed, context)
    }

    fn id(&self) -> (r: &'static str) {
        "PG-CACHE-010"
    }

    fn inputs(&self) -> (r: &'static [SectionColumn]) {
        &[
            SectionColumn { section: PG_STAT_DATABASE, column: "blks_read" },
            SectionColumn { section: PG_STAT_DATABASE, column: "blks_hit" },
        ]
    }

    fn confidence_cap(&self) -> (r: ConfidenceCap) {
        ConfidenceCap::Medium
    }

    fn evaluate(
        &self,
        cluster: &Cluster,
        series: &SeriesSet,
        typed: &TypedInputs,
        context: &EvalContext,
        sink: &mut FindingSink<'_>,
    ) -> (r: Result<(), LimitHit>) {
        evaluate_members(self, cluster, typed, context, sink)
    }
}

/// 0.5: half the WAL records carrying a full-page image is heavy amplification.
pub const FPI_THRESHOLD: u64 = 0x3fe0_0000_0000_0000;

/// `PG-WAL-009` (`wal_amplification`): WAL write amplification. Reports an elevated
/// `sum(d(wal_fpi)) / sum(d(wal_records))` (full-page images per WAL record) as an
/// amplifier.
pub struct WalAmplificationLens;

impl PairLens for WalAmplificationLens {
    open spec fn pair(&self) -> PairContractView {
        PairContractView {
            section: PG_STAT_WAL@,
            anchor: "wal_fpi"@,
            column_a: "wal_fpi"@,
            column_b: "wal_records"@,
            min_intervals: 3,
            role: Role::Amplifier,
        }
    }

    open spec fn reading(&self, sums: PairedSums) -> Option<ReadingView> {
        let zero = Float64 { bits: 0 };
        let threshold = Float64 { bits: FPI_THRESHOLD };
        let value = sums.sum_a.quotient_by(sums.sum_b);
        if sums.sum_b.at_most(zero) || value.below(threshold) {
            None
        } else {
            Some(
                ReadingView {
                    kind: CounterMeasurementKind::Ratio,
                    formula: "wal_fpi / wal_records"@,
                    value,
                    unit: GaugeUnit::Ratio,
                    threshold,
                    threshold_kind: ThresholdKind::AtLeast,
                    operands: seq![
                        OperandView {
                            name: "wal_fpi"@,
                            value: sums.sum_a,
                            unit: GaugeUnit::Count,
                            purpose: CounterOperandPurpose::Formula,
                        },
                        OperandView {
                            name: "wal_records"@,
                            value: sums.sum_b,
                            unit: GaugeUnit::Count,
                            purpose: CounterOperandPurpose::Formula,
                        },
                    ],
                },
            )
        }
    }

    fn contract(&self) -> (r: PairContract) {
        PairContract {
            section: PG_STAT_WAL,
            anchor: "wal_fpi",
            column_a: "wal_fpi",
            column_b: "wal_records",
            min_intervals: 3,
            role: Role::Amplifier,
        }
    }

    fn read(&self, sums: PairedSums) -> (r: Option<CounterEvidenceSpec>) {
        let zero = Float64 { bits: 0 };
        let threshold = Float64 { bits: FPI_THRESHOLD };
        let value: Float64 = sums.sum_a.divided_by(sums.sum_b);
        if sums.sum_b.less_or_equal(zero) || value.less(threshold) {
            return None;
        }
        let operands: Vec<CounterOperandSpec> = two_operands(
            operand_spec(
                "wal_fpi",
                sums.sum_a,
                GaugeUnit::Count,
                CounterOperandPurpose::Formula,
            ),
            operand_spec(
                "wal_records",
                sums.sum_b,
                GaugeUnit::Count,
                CounterOperandPurpose::Formula,
            ),
        );
        let spec = CounterEvidenceSpec {
            kind: CounterMeasurementKind::Ratio,
            formula: "wal_fpi / wal_records",
            value,
            unit: GaugeUnit::Ratio,
            threshold,
            threshold_kind: ThresholdKind::AtLeast,
            operands,
        };
        Some(spec)
    }
}

impl Lens for WalAmplificationLens {
    open spec fn id_text(&self) -> Seq<char> {
        "PG-WAL-009"@
    }

    open spec fn input_list(&self) -> Seq<SectionColumn> {
        seq![
            SectionColumn { section: PG_STAT_WAL, column: "wal_fpi" },
            SectionColumn { section: PG_STAT_WAL, column: "wal_records" },
        ]
    }

    open spec fn cap(&self) -> ConfidenceCap {
        ConfidenceCap::Medium
    }

    open spec fn steps(
        &self,
        cluster: ClusterView,
        series: SeriesSetView,
        typed: TypedView,
        context: EvalContext,
    ) -> Seq<Step> {
        cluster_steps(self, cluster, typed, context)
    }

    fn id(&self) -> (r: &'static str) {
        "PG-WAL-009"
    }

    fn inputs(&self) -> (r: &'static [SectionColumn]) {
        &[
            SectionColumn { section: PG_STAT_WAL, column: "wal_fpi" },
            SectionColumn { section: PG_STAT_WAL, column: "wal_records" },
        ]
    }

    fn confidence_cap(&self) -> (r: ConfidenceCap) {
        ConfidenceCap::Medium
    }

    fn evaluate(
        &self,
        cluster: &Cluster,
        series: &SeriesSet,
        typed: &TypedInputs,
        context: &EvalContext,
        sink: &mut FindingSink<'_>,
    ) -> (r: Result<(), LimitHit>) {
        evaluate_members(self, cluster, typed, context, sink)
    }
}

/// `PG-TEMP-003` (`temp_spill`): spill into temporary files. Reports an amplifier
/// when both `temp_bytes` and `temp_files` advanced over the incident, and publishes
/// the spilled volume.
pub struct TempSpillLens;

impl PairLens for TempSpillLens {
    open spec fn pair(&self) -> PairContractView {
        PairContractView {
            section: PG_STAT_DATABASE@,
            anchor: "temp_bytes"@,
            column_a: "temp_bytes"@,
            column_b: "temp_files"@,
            min_intervals: 3,
            role: Role::Amplifier,
        }
    }

    open spec fn reading(&self, sums: PairedSums) -> Option<ReadingView> {
        let zero = Float64 { bits: 0 };
        let threshold = Float64 { bits: 0 };
        let value = sums.sum_a;
        if sums.sum_a.at_most(zero) || sums.sum_b.at_most(zero) {
            None
        } else {
            Some(
                ReadingView {
                    kind: CounterMeasurementKind::Sum,
                    formula: "temp_bytes"@,
                    value,
                    unit: GaugeUnit::Bytes,
                    threshold,
                    threshold_kind: ThresholdKind::Above,
                    operands: seq![
                        OperandView {
                            name: "temp_bytes"@,
                            value: sums.sum_a,
                            unit: GaugeUnit::Bytes,
                            purpose: CounterOperandPurpose::Formula,
                        },
                        OperandView {
                            name: "temp_files"@,
                            value: sums.sum_b,
                            unit: GaugeUnit::Count,
                            purpose: CounterOperandPurpose::Qualification,
                        },
                    ],
                },
            )
        }
    }

    fn contract(&self) -> (r: PairContract) {
        PairContract {
            section: PG_STAT_DATABASE,
            anchor: "temp_bytes",
            column_a: "temp_bytes",
            column_b: "temp_files",
            min_intervals: 3,
            role: Role::Amplifier,
        }
    }

    fn read(&self, sums: PairedSums) -> (r: Option<CounterEvidenceSpec>) {
        let zero = Float64 { bits: 0 };
        let threshold = Float64 { bits: 0 };
        let value: Float64 = sums.sum_a;
        if sums.sum_a.less_or_equal(zero) || sums.sum_b.less_or_equal(zero) {
            return None;
        }
        let operands: Vec<CounterOperandSpec> = two_operands(
            operand_spec(
                "temp_bytes",
                sums.sum_a,
                GaugeUnit::Bytes,
                CounterOperandPurpose::Formula,
            ),
            operand_spec(
                "temp_files",
                sums.sum_b,
                GaugeUnit::Count,
                CounterOperandPurpose::Qualification,
            ),
        );
        let spec = CounterEvidenceSpec {
            kind: CounterMeasurementKind::Sum,
            formula: "temp_bytes",
            value,
            unit: GaugeUnit::Bytes,
            threshold,
            threshold_kind: ThresholdKind::Above,
            operands,
        };
        Some(spec)
    }
}

impl Lens for TempSpillLens {
    open spec fn id_text(&self) -> Seq<char> {
        "PG-TEMP-003"@
    }

    open spec fn input_list(&self) -> Seq<SectionColumn> {
        seq![
            SectionColumn { section: PG_STAT_DATABASE, column: "temp_bytes" },
            SectionColumn { section: PG_STAT_DATABASE, column: "temp_files" },
        ]
    }

    open spec fn cap(&self) -> ConfidenceCap {
        ConfidenceCap::Medium
    }

    open spec fn steps(
        &self,
        cluster: ClusterView,
        series: SeriesSetView,
        typed: TypedView,
        context: EvalContext,
    ) -> Seq<Step> {
        cluster_steps(self, cluster, typed, context)
    }

    fn id(&self) -> (r: &'static str) {
        "PG-TEMP-003"
    }

    fn inputs(&self) -> (r: &'static [SectionColumn]) {
        &[
            SectionColumn { section: PG_STAT_DATABASE, column: "temp_bytes" },
            SectionColumn { section: PG_STAT_DATABASE, column: "temp_files" },
        ]
    }

    fn confidence_cap(&self) -> (r: ConfidenceCap) {
        ConfidenceCap::Medium
    }

    fn evaluate(
        &self,
        cluster: &Cluster,
        series: &SeriesSet,
        typed: &TypedInputs,
        context: &EvalContext,
        sink: &mut FindingSink<'_>,
    ) -> (r: Result<(), LimitHit>) {
        evaluate_members(self, cluster, typed, context, sink)
    }
}

/// 0.5: more requested than timed checkpoints inverts the healthy ratio.
pub const REQUESTED_THRESHOLD: u64 = 0x3fe0_0000_0000_0000;

/// `PG-CHKPT-008` (`requested_checkpoints`): checkpoints forced by demand rather than
/// by the timer. Reports an elevated
/// `sum(d(checkpoints_req)) / sum(d(checkpoints_req + checkpoints_timed))` as an
/// amplifier.
pub struct RequestedCheckpointsLens;

impl PairLens for RequestedCheckpointsLens {
    open spec fn pair(&self) -> PairContractView {
        PairContractView {
            section: CHECKPOINTER@,
            anchor: "checkpoints_req"@,
            column_a: "checkpoints_req"@,
            column_b: "checkpoints_timed"@,
            min_intervals: 3,
            role: Role::Amplifier,
        }
    }

    open spec fn reading(&self, sums: PairedSums) -> Option<ReadingView> {
        let zero = Float64 { bits: 0 };
        let threshold = Float64 { bits: REQUESTED_THRESHOLD };
        let total = sums.sum_a.sum_with(sums.sum_b);
        let value = sums.sum_a.quotient_by(total);
        if total.at_most(zero) || value.below(threshold) {
            None
        } else {
            Some(
                ReadingView {
                    kind: CounterMeasurementKind::Ratio,
                    formula: "checkpoints_req / (checkpoints_req + checkpoints_timed)"@,
                    value,
                    unit: GaugeUnit::Ratio,
                    threshold,
                    threshold_kind: ThresholdKind::AtLeast,
                    operands: seq![
                        OperandView {
                            name: "checkpoints_req"@,
                            value: sums.sum_a,
                            unit: GaugeUnit::Count,
                            purpose: CounterOperandPurpose::Formula,
                        },
                        OperandView {
                            name: "checkpoints_timed"@,
                            value: sums.sum_b,
                            unit: GaugeUnit::Count,
                            purpose: CounterOperandPurpose::Formula,
                        },
                    ],
                },
            )
        }
    }

    fn contract(&self) -> (r: PairContract) {
        PairContract {
            section: CHECKPOINTER,
            anchor: "checkpoints_req",
            column_a: "checkpoints_req",
            column_b: "checkpoints_timed",
            min_intervals: 3,
            role: Role::Amplifier,
        }
    }

    fn read(&self, sums: PairedSums) -> (r: Option<CounterEvidenceSpec>) {
        let zero = Float64 { bits: 0 };
        let threshold = Float64 { bits: REQUESTED_THRESHOLD };
        let total: Float64 = sums.sum_a.plus(sums.sum_b);
        let value: Float64 = sums.sum_a.divided_by(total);
        if total.less_or_equal(zero) || value.less(threshold) {
            return None;
        }
        let operands: Vec<CounterOperandSpec> = two_operands(
            operand_spec(
                "checkpoints_req",
                sums.sum_a,
                GaugeUnit::Count,
                CounterOperandPurpose::Formula,
            ),
            operand_spec(
                "checkpoints_timed",
                sums.sum_b,
                GaugeUnit::Count,
                CounterOperandPurpose::Formula,
            ),
        );
        let spec = CounterEvidenceSpec {
            kind: CounterMeasurementKind::Ratio,
            formula: "checkpoints_req / (checkpoints_req + checkpoints_timed)",
            value,
            unit: GaugeUnit::Ratio,
            threshold,
            threshold_kind: ThresholdKind::AtLeast,
            operands,
        };
        Some(spec)
    }
}

impl Lens for RequestedCheckpointsLens {
    open spec fn id_text(&self) -> Seq<char> {
        "PG-CHKPT-008"@
    }

    open spec fn input_list(&self) -> Seq<SectionColumn> {
        seq![
            SectionColumn { section: CHECKPOINTER, column: "checkpoints_req" },
            SectionColumn { section: CHECKPOINTER, column: "checkpoints_timed" },
        ]
    }

    open spec fn cap(&self) -> ConfidenceCap {
        ConfidenceCap::Medium
    }

    open spec fn steps(
        &self,
        cluster: ClusterView,
        series: SeriesSetView,
        typed: TypedView,
        context: EvalContext,
    ) -> Seq<Step> {
        cluster_steps(self, cluster, typed, context)
    }

    fn id(&self) -> (r: &'static str) {
        "PG-CHKPT-008"
    }

    fn inputs(&self) -> (r: &'static [SectionColumn]) {
        &[
            SectionColumn { section: CHECKPOINTER, column: "checkpoints_req" },
            SectionColumn { section: CHECKPOINTER, column: "checkpoints_timed" },
        ]
    }

    fn confidence_cap(&self) -> (r: ConfidenceCap) {
        ConfidenceCap::Medium
    }

    fn evaluate(
        &self,
        cluster: &Cluster,
        series: &SeriesSet,
        typed: &TypedInputs,
        context: &EvalContext,
        sink: &mut FindingSink<'_>,
    ) -> (r: Result<(), LimitHit>) {
        evaluate_members(self, cluster, typed, context, sink)
    }
}

/// 1.0: one millisecond per read is slow for the buffered-read path.
pub const LATENCY_MS_THRESHOLD: u64 = 0x3ff0_0000_0000_0000;

/// `PG-IO-011` (`backend_io_latency`): slow reads inside the server. Reports an
/// elevated `sum(d(read_time)) / sum(d(reads))` (milliseconds per read) as an
/// amplifier.
pub struct BackendIoLatencyLens;

impl PairLens for BackendIoLatencyLens {
    open spec fn pair(&self) -> PairContractView {
        PairContractView {
            section: PG_STAT_IO@,
            anchor: "read_time"@,
            column_a: "read_time"@,
            column_b: "reads"@,
            min_intervals: 3,
            role: Role::Amplifier,
        }
    }

    open spec fn reading(&self, sums: PairedSums) -> Option<ReadingView> {
        let zero = Float64 { bits: 0 };
        let threshold = Float64 { bits: LATENCY_MS_THRESHOLD };
        let value = sums.sum_a.quotient_by(sums.sum_b);
        if sums.sum_b.at_most(zero) || value.below(threshold) {
            None
        } else {
            Some(
                ReadingView {
                    kind: CounterMeasurementKind::Ratio,
                    formula: "read_time / reads"@,
                    value,
                    unit: GaugeUnit::MillisecondsPerRead,
                    threshold,
                    threshold_kind: ThresholdKind::AtLeast,
                    operands: seq![
                        OperandView {
                            name: "read_time"@,
                            value: sums.sum_a,
                            unit: GaugeUnit::Milliseconds,
                            purpose: CounterOperandPurpose::Formula,
                        },
                        OperandView {
                            name: "reads"@,
                            value: sums.sum_b,
                            unit: GaugeUnit::Count,
                            purpose: CounterOperandPurpose::Formula,
                        },
                    ],
                },
            )
        }
    }

    fn contract(&self) -> (r: PairContract) {
        PairContract {
            section: PG_STAT_IO,
            anchor: "read_time",
            column_a: "read_time",
            column_b: "reads",
            min_intervals: 3,
            role: Role::Amplifier,
        }
    }

    fn read(&self, sums: PairedSums) -> (r: Option<CounterEvidenceSpec>) {
        let zero = Float64 { bits: 0 };
        let threshold = Float64 { bits: LATENCY_MS_THRESHOLD };
        let value: Float64 = sums.sum_a.divided_by(sums.sum_b);
        if sums.sum_b.less_or_equal(zero) || value.less(threshold) {
            return None;
        }
        let operands: Vec<CounterOperandSpec> = two_operands(
            operand_spec(
                "read_time",
                sums.sum_a,
                GaugeUnit::Milliseconds,
                CounterOperandPurpose::Formula,
            ),
            operand_spec(
                "reads",
                sums.sum_b,
                GaugeUnit::Count,
                CounterOperandPurpose::Formula,
            ),
        );
        let spec = CounterEvidenceSpec {
            kind: CounterMeasurementKind::Ratio,
            formula: "read_time / reads",
            value,
            unit: GaugeUnit::MillisecondsPerRead,
            threshold,
            threshold_kind: ThresholdKind::AtLeast,
            operands,
        };
        Some(spec)
    }
}

impl Lens for BackendIoLatencyLens {
    open spec fn id_text(&self) -> Seq<char> {
        "PG-IO-011"@
    }

    open spec fn input_list(&self) -> Seq<SectionColumn> {
        seq![
            SectionColumn { section: PG_STAT_IO, column: "read_time" },
            SectionColumn { section: PG_STAT_IO, column: "reads" },
        ]
    }

    open spec fn cap(&self) -> ConfidenceCap {
        ConfidenceCap::Medium
    }

    open spec fn steps(
        &self,
        cluster: ClusterView,
        series: SeriesSetView,
        typed: TypedView,
        context: EvalContext,
    ) -> Seq<Step> {
        cluster_steps(self, cluster, typed, context)
    }

    fn id(&self) -> (r: &'static str) {
        "PG-IO-011"
    }

    fn inputs(&self) -> (r: &'static [SectionColumn]) {
        &[
            SectionColumn { section: PG_STAT_IO, column: "read_time" },
            SectionColumn { section: PG_STAT_IO, column: "reads" },
        ]
    }

    fn confidence_cap(&self) -> (r: ConfidenceCap) {
        ConfidenceCap::Medium
    }

    fn evaluate(
        &self,
        cluster: &Cluster,
        series: &SeriesSet,
        typed: &TypedInputs,
        context: &EvalContext,
        sink: &mut FindingSink<'_>,
    ) -> (r: Result<(), LimitHit>) {
        evaluate_members(self, cluster, typed, context, sink)
    }
}

/// 0.5: a majority of updates missing HOT is an index-write amplifier.
pub const NON_HOT_THRESHOLD: u64 = 0x3fe0_0000_0000_0000;

/// `PG-HOT-007` (`hot_update_failure`): updates that miss the HOT path. Reports an
/// elevated non-HOT fraction `sum(d(n_tup_upd - n_tup_hot_upd)) / sum(d(n_tup_upd))`
/// as an amplifier of index and WAL work.
pub struct HotUpdateFailureLens;

impl PairLens for HotUpdateFailureLens {
    open spec fn pair(&self) -> PairContractView {
        PairContractView {
            section: PG_STAT_USER_TABLES@,
            anchor: "n_tup_upd"@,
            column_a: "n_tup_hot_upd"@,
            column_b: "n_tup_upd"@,
            min_intervals: 3,
            role: Role::Amplifier,
        }
    }

    open spec fn reading(&self, sums: PairedSums) -> Option<ReadingView> {
        let zero = Float64 { bits: 0 };
        let threshold = Float64 { bits: NON_HOT_THRESHOLD };
        let value = sums.sum_b.sum_with(sums.sum_a.negated()).quotient_by(sums.sum_b);
        if sums.sum_b.at_most(zero) || value.below(threshold) {
            None
        } else {
            Some(
                ReadingView {
                    kind: CounterMeasurementKind::Ratio,
                    formula: "(n_tup_upd - n_tup_hot_upd) / n_tup_upd"@,
                    value,
                    unit: GaugeUnit::Ratio,
                    threshold,
                    threshold_kind: ThresholdKind::AtLeast,
                    operands: seq![
                        OperandView {
                            name: "n_tup_hot_upd"@,
                            value: sums.sum_a,
                            unit: GaugeUnit::Count,
                            purpose: CounterOperandPurpose::Formula,
                        },
                        OperandView {
                            name: "n_tup_upd"@,
                            value: sums.sum_b,
                            unit: GaugeUnit::Count,
                            purpose: CounterOperandPurpose::Formula,
                        },
                    ],
                },
            )
        }
    }

    fn contract(&self) -> (r: PairContract) {
        PairContract {
            section: PG_STAT_USER_TABLES,
            anchor: "n_tup_upd",
            column_a: "n_tup_hot_upd",
            column_b: "n_tup_upd",
            min_intervals: 3,
            role: Role::Amplifier,
        }
    }

    fn read(&self, sums: PairedSums) -> (r: Option<CounterEvidenceSpec>) {
        let zero = Float64 { bits: 0 };
        let threshold = Float64 { bits: NON_HOT_THRESHOLD };
        let value: Float64 = sums.sum_b.minus(sums.sum_a).divided_by(sums.sum_b);
        if sums.sum_b.less_or_equal(zero) || value.less(threshold) {
            return None;
        }
        let operands: Vec<CounterOperandSpec> = two_operands(
            operand_spec(
                "n_tup_hot_upd",
                sums.sum_a,
                GaugeUnit::Count,
                CounterOperandPurpose::Formula,
            ),
            operand_spec(
                "n_tup_upd",
                sums.sum_b,
                GaugeUnit::Count,
                CounterOperandPurpose::Formula,
            ),
        );
        let spec = CounterEvidenceSpec {
            kind: CounterMeasurementKind::Ratio,
            formula: "(n_tup_upd - n_tup_hot_upd) / n_tup_upd",
            value,
            unit: GaugeUnit::Ratio,
            threshold,
            threshold_kind: ThresholdKind::AtLeast,
            operands,
        };
        Some(spec)
    }
}

impl Lens for HotUpdateFailureLens {
    open spec fn id_text(&self) -> Seq<char> {
        "PG-HOT-007"@
    }

    open spec fn input_list(&self) -> Seq<SectionColumn> {
        seq![
            SectionColumn { section: PG_STAT_USER_TABLES, column: "n_tup_hot_upd" },
            SectionColumn { section: PG_STAT_USER_TABLES, column: "n_tup_upd" },
        ]
    }

    open spec fn cap(&self) -> ConfidenceCap {
        ConfidenceCap::Medium
    }

    open spec fn steps(
        &self,
        cluster: ClusterView,
        series: SeriesSetView,
        typed: TypedView,
        context: EvalContext,
    ) -> Seq<Step> {
        cluster_steps(self, cluster, typed, context)
    }

    fn id(&self) -> (r: &'static str) {
        "PG-HOT-007"
    }

    fn inputs(&self) -> (r: &'static [SectionColumn]) {
        &[
            SectionColumn { section: PG_STAT_USER_TABLES, column: "n_tup_hot_upd" },
            SectionColumn { section: PG_STAT_USER_TABLES, column: "n_tup_upd" },
        ]
    }

    fn confidence_cap(&self) -> (r: ConfidenceCap) {
        ConfidenceCap::Medium
    }

    fn evaluate(
        &self,
        cluster: &Cluster,
        series: &SeriesSet,
        typed: &TypedInputs,
        context: &EvalContext,
        sink: &mut FindingSink<'_>,
    ) -> (r: Result<(), LimitHit>) {
        evaluate_members(self, cluster, typed, context, sink)
    }
}

/// 1.0: one recorded failure between two real snapshots is already actionable.
pub const MIN_FAILURES: u64 = 0x3ff0_0000_0000_0000;

/// `PG-ARCH-017` (`wal_archiving_failure`): the archiver rejecting WAL segments.
/// Reports a coincident finding when `failed_count` advanced during the incident, and
/// publishes its total.
pub struct WalArchivingFailureLens;

impl PairLens for WalArchivingFailureLens {
    open spec fn pair(&self) -> PairContractView {
        PairContractView {
            section: PG_STAT_ARCHIVER@,
            anchor: "failed_count"@,
            column_a: "failed_count"@,
            column_b: "archived_count"@,
            min_intervals: 1,
            role: Role::Coincident,
        }
    }

    open spec fn reading(&self, sums: PairedSums) -> Option<ReadingView> {
        let threshold = Float64 { bits: MIN_FAILURES };
        let value = sums.sum_a;
        if value.below(threshold) {
            None
        } else {
            Some(
                ReadingView {
                    kind: CounterMeasurementKind::Sum,
                    formula: "failed_count"@,
                    value,
                    unit: GaugeUnit::Count,
                    threshold,
                    threshold_kind: ThresholdKind::AtLeast,
                    operands: seq![
                        OperandView {
                            name: "failed_count"@,
                            value: sums.sum_a,
                            unit: GaugeUnit::Count,
                            purpose: CounterOperandPurpose::Formula,
                        },
                        OperandView {
                            name: "archived_count"@,
                            value: sums.sum_b,
                            unit: GaugeUnit::Count,
                            purpose: CounterOperandPurpose::AlignedContext,
                        },
                    ],
                },
            )
        }
    }

    fn contract(&self) -> (r: PairContract) {
        PairContract {
            section: PG_STAT_ARCHIVER,
            anchor: "failed_count",
            column_a: "failed_count",
            column_b: "archived_count",
            min_intervals: 1,
            role: Role::Coincident,
        }
    }

    fn read(&self, sums: PairedSums) -> (r: Option<CounterEvidenceSpec>) {
        let threshold = Float64 { bits: MIN_FAILURES };
        let value: Float64 = sums.sum_a;
        if value.less(threshold) {
            return None;
        }
        let operands: Vec<CounterOperandSpec> = two_operands(
            operand_spec(
                "failed_count",
                sums.sum_a,
                GaugeUnit::Count,
                CounterOperandPurpose::Formula,
            ),
            operand_spec(
                "archived_count",
                sums.sum_b,
                GaugeUnit::Count,
                CounterOperandPurpose::AlignedContext,
            ),
        );
        let spec = CounterEvidenceSpec {
            kind: CounterMeasurementKind::Sum,
            formula: "failed_count",
            value,
            unit: GaugeUnit::Count,
            threshold,
            threshold_kind: ThresholdKind::AtLeast,
            operands,
        };
        Some(spec)
    }
}

impl Lens for WalArchivingFailureLens {
    open spec fn id_text(&self) -> Seq<char> {
        "PG-ARCH-017"@
    }

    open spec fn input_list(&self) -> Seq<SectionColumn> {
        seq![
            SectionColumn { section: PG_STAT_ARCHIVER, column: "failed_count" },
            SectionColumn { section: PG_STAT_ARCHIVER, column: "archived_count" },
        ]
    }

    open spec fn cap(&self) -> ConfidenceCap {
        ConfidenceCap::Medium
    }

    open spec fn steps(
        &self,
        cluster: ClusterView,
        series: SeriesSetView,
        typed: TypedView,
        context: EvalContext,
    ) -> Seq<Step> {
        cluster_steps(self, cluster, typed, context)
    }

    fn id(&self) -> (r: &'static str) {
        "PG-ARCH-017"
    }

    fn inputs(&self) -> (r: &'static [SectionColumn]) {
        &[
            SectionColumn { section: PG_STAT_ARCHIVER, column: "failed_count" },
            SectionColumn { section: PG_STAT_ARCHIVER, column: "archived_count" },
        ]
    }

    fn confidence_cap(&self) -> (r: ConfidenceCap) {
        ConfidenceCap::Medium
    }

    fn evaluate(
        &self,
        cluster: &Cluster,
        series: &SeriesSet,
        typed: &TypedInputs,
        context: &EvalContext,
        sink: &mut FindingSink<'_>,
    ) -> (r: Result<(), LimitHit>) {
        evaluate_members(self, cluster, typed, context, sink)
    }
}

/// 0.01: one erroring packet in a hundred is far above a healthy interface.
pub const ERROR_THRESHOLD: u64 = 0x3f84_7ae1_47ae_147b;

/// `OS-NET-028` (`network_errors`): a network interface logging receive errors.
/// Reports a coincident finding when `sum(d(rx_errs)) / sum(d(rx_packets))` is
/// elevated. Its findings stay capped at low.
pub struct NetworkErrorsLens;

impl PairLens for NetworkErrorsLens {
    open spec fn pair(&self) -> PairContractView {
        PairContractView {
            section: OS_NETDEV@,
            anchor: "rx_errs"@,
            column_a: "rx_errs"@,
            column_b: "rx_packets"@,
            min_intervals: 3,
            role: Role::Coincident,
        }
    }

    open spec fn reading(&self, sums: PairedSums) -> Option<ReadingView> {
        let zero = Float64 { bits: 0 };
        let threshold = Float64 { bits: ERROR_THRESHOLD };
        let value = sums.sum_a.quotient_by(sums.sum_b);
        if sums.sum_b.at_most(zero) || value.below(threshold) {
            None
        } else {
            Some(
                ReadingView {
                    kind: CounterMeasurementKind::Ratio,
                    formula: "rx_errs / rx_packets"@,
                    value,
                    unit: GaugeUnit::Ratio,
                    threshold,
                    threshold_kind: ThresholdKind::AtLeast,
                    operands: seq![
                        OperandView {
                            name: "rx_errs"@,
                            value: sums.sum_a,
                            unit: GaugeUnit::Count,
                            purpose: CounterOperandPurpose::Formula,
                        },
                        OperandView {
                            name: "rx_packets"@,
                            value: sums.sum_b,
                            unit: GaugeUnit::Count,
                            purpose: CounterOperandPurpose::Formula,
                        },
                    ],
                },
            )
        }
    }

    fn contract(&self) -> (r: PairContract) {
        PairContract {
            section: OS_NETDEV,
            anchor: "rx_errs",
            column_a: "rx_errs",
            column_b: "rx_packets",
            min_intervals: 3,
            role: Role::Coincident,
        }
    }

    fn read(&self, sums: PairedSums) -> (r: Option<CounterEvidenceSpec>) {
        let zero = Float64 { bits: 0 };
        let threshold = Float64 { bits: ERROR_THRESHOLD };
        let value: Float64 = sums.sum_a.divided_by(sums.sum_b);
        if sums.sum_b.less_or_equal(zero) || value.less(threshold) {
            return None;
        }
        let operands: Vec<CounterOperandSpec> = two_operands(
            operand_spec(
                "rx_errs",
                sums.sum_a,
                GaugeUnit::Count,
                CounterOperandPurpose::Formula,
            ),
            operand_spec(
                "rx_packets",
                sums.sum_b,
                GaugeUnit::Count,
                CounterOperandPurpose::Formula,
            ),
        );
        let spec = CounterEvidenceSpec {
            kind: CounterMeasurementKind::Ratio,
            formula: "rx_errs / rx_packets",
            value,
            unit: GaugeUnit::Ratio,
            threshold,
            threshold_kind: ThresholdKind::AtLeast,
            operands,
        };
        Some(spec)
    }
}

impl Lens for NetworkErrorsLens {
    open spec fn id_text(&self) -> Seq<char> {
        "OS-NET-028"@
    }

    open spec fn input_list(&self) -> Seq<SectionColumn> {
        seq![
            SectionColumn { section: OS_NETDEV, column: "rx_errs" },
            SectionColumn { section: OS_NETDEV, column: "rx_packets" },
        ]
    }

    open spec fn cap(&self) -> ConfidenceCap {
        ConfidenceCap::Low
    }

    open spec fn steps(
        &self,
        cluster: ClusterView,
        series: SeriesSetView,
        typed: TypedView,
        context: EvalContext,
    ) -> Seq<Step> {
        cluster_steps(self, cluster, typed, context)
    }

    fn id(&self) -> (r: &'static str) {
        "OS-NET-028"
    }

    fn inputs(&self) -> (r: &'static [SectionColumn]) {
        &[
            SectionColumn { section: OS_NETDEV, column: "rx_errs" },
            SectionColumn { section: OS_NETDEV, column: "rx_packets" },
        ]
    }

    fn confidence_cap(&self) -> (r: ConfidenceCap) {
        ConfidenceCap::Low
    }

    fn evaluate(
        &self,
        cluster: &Cluster,
        series: &SeriesSet,
        typed: &TypedInputs,
        context: &EvalContext,
        sink: &mut FindingSink<'_>,
    ) -> (r: Result<(), LimitHit>) {
        evaluate_members(self, cluster, typed, context, sink)
    }
}

/// 100000.0: one hundred milliseconds throttled per covered second is material.
pub const THROTTLE_RATE_THRESHOLD_US_PER_S: u64 = 0x40f8_6a00_0000_0000;

/// `OS-CGRP-021` (`cgroup_cpu_throttling`): a cgroup denied the CPU it asked for.
/// Reports elevated throttled microseconds per covered second. `usage_usec` is
/// retained as aligned context, not used as a wall-time denominator.
pub struct CgroupCpuThrottlingLens;

impl PairLens for CgroupCpuThrottlingLens {
    open spec fn pair(&self) -> PairContractView {
        PairContractView {
            section: OS_CGROUP_CPU@,
            anchor: "throttled_usec"@,
            column_a: "throttled_usec"@,
            column_b: "usage_usec"@,
            min_intervals: 3,
            role: Role::Coincident,
        }
    }

    open spec fn reading(&self, sums: PairedSums) -> Option<ReadingView> {
        let threshold = Float64 { bits: THROTTLE_RATE_THRESHOLD_US_PER_S };
        let value = sums.sum_a.quotient_by(Float64::seconds(sums.elapsed_us));
        let elapsed = exact_number(sums.elapsed_us as int);
        if value.below(threshold) || elapsed is None {
            None
        } else {
            Some(
                ReadingView {
                    kind: CounterMeasurementKind::Rate,
                    formula: "throttled_usec * 1000000 / summed_interval_duration_us"@,
                    value,
                    unit: GaugeUnit::MicrosecondsPerSecond,
                    threshold,
                    threshold_kind: ThresholdKind::AtLeast,
                    operands: seq![
                        OperandView {
                            name: "throttled_usec"@,
                            value: sums.sum_a,
                            unit: GaugeUnit::Microseconds,
                            purpose: CounterOperandPurpose::Formula,
                        },
                        OperandView {
                            name: "summed_interval_duration_us"@,
                            value: elapsed->Some_0,
                            unit: GaugeUnit::Microseconds,
                            purpose: CounterOperandPurpose::Formula,
                        },
                        OperandView {
                            name: "usage_usec"@,
                            value: sums.sum_b,
                            unit: GaugeUnit::Microseconds,
                            purpose: CounterOperandPurpose::AlignedContext,
                        },
                    ],
                },
            )
        }
    }

    fn contract(&self) -> (r: PairContract) {
        PairContract {
            section: OS_CGROUP_CPU,
            anchor: "throttled_usec",
            column_a: "throttled_usec",
            column_b: "usage_usec",
            min_intervals: 3,
            role: Role::Coincident,
        }
    }

    fn read(&self, sums: PairedSums) -> (r: Option<CounterEvidenceSpec>) {
        let threshold = Float64 { bits: THROTTLE_RATE_THRESHOLD_US_PER_S };
        let seconds: Float64 = Float64::seconds_from_micros(sums.elapsed_us);
        let value: Float64 = sums.sum_a.divided_by(seconds);
        if value.less(threshold) {
            return None;
        }
        let elapsed_us: Float64 = match exact_u64_as_f64(sums.elapsed_us) {
            Some(elapsed_us) => elapsed_us,
            None => {
                return None;
            },
        };
        let operands: Vec<CounterOperandSpec> = three_operands(
            operand_spec(
                "throttled_usec",
                sums.sum_a,
                GaugeUnit::Microseconds,
                CounterOperandPurpose::Formula,
            ),
            operand_spec(
                "summed_interval_duration_us",
                elapsed_us,
                GaugeUnit::Microseconds,
                CounterOperandPurpose::Formula,
            ),
            operand_spec(
                "usage_usec",
                sums.sum_b,
                GaugeUnit::Microseconds,
                CounterOperandPurpose::AlignedContext,
            ),
        );
        let spec = CounterEvidenceSpec {
            kind: CounterMeasurementKind::Rate,
            formula: "throttled_usec * 1000000 / summed_interval_duration_us",
            value,
            unit: GaugeUnit::MicrosecondsPerSecond,
            threshold,
            threshold_kind: ThresholdKind::AtLeast,
            operands,
        };
        Some(spec)
    }
}

impl Lens for CgroupCpuThrottlingLens {
    open spec fn id_text(&self) -> Seq<char> {
        "OS-CGRP-021"@
    }

    open spec fn input_list(&self) -> Seq<SectionColumn> {
        seq![
            SectionColumn { section: OS_CGROUP_CPU, column: "throttled_usec" },
            SectionColumn { section: OS_CGROUP_CPU, column: "usage_usec" },
        ]
    }

    open spec fn cap(&self) -> ConfidenceCap {
        ConfidenceCap::Medium
    }

    open spec fn steps(
        &self,
        cluster: ClusterView,
        series: SeriesSetView,
        typed: TypedView,
        context: EvalContext,
    ) -> Seq<Step> {
        cluster_steps(self, cluster, typed, context)
    }

    fn id(&self) -> (r: &'static str) {
        "OS-CGRP-021"
    }

    fn inputs(&self) -> (r: &'static [SectionColumn]) {
        &[
            SectionColumn { section: OS_CGROUP_CPU, column: "throttled_usec" },
            SectionColumn { section: OS_CGROUP_CPU, column: "usage_usec" },
        ]
    }

    fn confidence_cap(&self) -> (r: ConfidenceCap) {
        ConfidenceCap::Medium
    }

    fn evaluate(
        &self,
        cluster: &Cluster,
        series: &SeriesSet,
        typed: &TypedInputs,
        context: &EvalContext,
        sink: &mut FindingSink<'_>,
    ) -> (r: Result<(), LimitHit>) {
        evaluate_members(self, cluster, typed, context, sink)
    }
}

} // verus!
