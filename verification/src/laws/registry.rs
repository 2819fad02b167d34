//! How the lenses are applied, what they are called and how sure they may be.

use crate::active::activity::{
    InternalWaitConcentrationLens, SyncReplicationWaitLens, XminHorizonHoldLens,
};
use crate::active::counters::{
    BackendIoLatencyLens, CgroupCpuThrottlingLens, HotUpdateFailureLens, NetworkErrorsLens,
    RequestedCheckpointsLens, SharedBufferMissesLens, TempSpillLens, WalAmplificationLens,
    WalArchivingFailureLens,
};
use crate::active::gauges::{
    ConnectionSaturationLens, MemoryReclaimLens, StaleStatisticsLens, WritebackPressureLens,
};
use crate::active::locks::LockWaitGraphLens;
use crate::cluster::ClusterView;
use crate::engine::EvalContext;
use crate::evidence::confidence::ConfidenceCap;
use crate::evidence::finding::DraftView;
use crate::gauge_contracts::{
    CgroupMemoryLens, FreezeHorizonLens, PhysicalReplicationLens, RunningVacuumLens,
    SlotRetentionLens, StorageCapacityLens,
};
use crate::inspect::MemberLens;
use crate::laws::steps::drafts;
use crate::laws::subject::{is_first_of, lemma_each_member, lemma_first_member, lemma_no_member};
use crate::lens::Lens;
use crate::os_lenses::{BlockDeviceLens, HostCpuLens, ProcessIoWhoLens};
use crate::query_plan::{PlanChurnLens, QueryWorkLens};
use crate::series::SeriesSetView;
use crate::typed::inputs::TypedView;
use vstd::prelude::*;

verus! {

/// An incident as a lens sees it.
pub struct Sight {
    pub cluster: ClusterView,
    pub series: SeriesSetView,
    pub typed: TypedView,
    pub context: EvalContext,
}

/// Whether a lens drafts of an incident what it drafts of its members, each for
/// itself.
pub open spec fn judges_each<L: Lens + MemberLens>(lens: &L, sight: Sight, draft: DraftView) -> bool {
    drafts(lens.steps(sight.cluster, sight.series, sight.typed, sight.context)).contains(draft)
        <==> exists|k: int|
        0 <= k < sight.cluster.members.len() && drafts(
            lens.member_steps(#[trigger] sight.cluster.members[k], sight.typed, sight.context),
        ).contains(draft)
}

/// Whether a lens drafts of an incident what it drafts of the first member of a
/// section, and nothing where there is none.
pub open spec fn judges_first<L: Lens + MemberLens>(
    lens: &L,
    section: Seq<char>,
    sight: Sight,
    at: int,
) -> bool {
    let out = drafts(lens.steps(sight.cluster, sight.series, sight.typed, sight.context));
    &&& is_first_of(sight.cluster.members, section, at) ==> out == drafts(
        lens.member_steps(sight.cluster.members[at], sight.typed, sight.context),
    )
    &&& (forall|j: int|
        0 <= j < sight.cluster.members.len() ==> (
        #[trigger] sight.cluster.members[j]).logical_section != section) ==> out.len() == 0
}

/// Every member of an incident is judged for itself.
pub proof fn law_every_member_is_judged(sight: Sight, draft: DraftView)
    ensures
        judges_each(&SharedBufferMissesLens, sight, draft),
        judges_each(&WalAmplificationLens, sight, draft),
        judges_each(&TempSpillLens, sight, draft),
        judges_each(&RequestedCheckpointsLens, sight, draft),
        judges_each(&BackendIoLatencyLens, sight, draft),
        judges_each(&HotUpdateFailureLens, sight, draft),
        judges_each(&WalArchivingFailureLens, sight, draft),
        judges_each(&NetworkErrorsLens, sight, draft),
        judges_each(&CgroupCpuThrottlingLens, sight, draft),
        judges_each(&StaleStatisticsLens, sight, draft),
        judges_each(&ConnectionSaturationLens, sight, draft),
        judges_each(&MemoryReclaimLens, sight, draft),
        judges_each(&WritebackPressureLens, sight, draft),
        judges_each(&FreezeHorizonLens, sight, draft),
        judges_each(&RunningVacuumLens, sight, draft),
        judges_each(&PhysicalReplicationLens, sight, draft),
        judges_each(&SlotRetentionLens, sight, draft),
        judges_each(&StorageCapacityLens, sight, draft),
        judges_each(&CgroupMemoryLens, sight, draft),
        judges_each(&QueryWorkLens, sight, draft),
{
    lemma_each_member(&SharedBufferMissesLens, sight.cluster, sight.typed, sight.context, draft);
    lemma_each_member(&WalAmplificationLens, sight.cluster, sight.typed, sight.context, draft);
    lemma_each_member(&TempSpillLens, sight.cluster, sight.typed, sight.context, draft);
    lemma_each_member(&RequestedCheckpointsLens, sight.cluster, sight.typed, sight.context, draft);
    lemma_each_member(&BackendIoLatencyLens, sight.cluster, sight.typed, sight.context, draft);
    lemma_each_member(&HotUpdateFailureLens, sight.cluster, sight.typed, sight.context, draft);
    lemma_each_member(&WalArchivingFailureLens, sight.cluster, sight.typed, sight.context, draft);
    lemma_each_member(&NetworkErrorsLens, sight.cluster, sight.typed, sight.context, draft);
    lemma_each_member(&CgroupCpuThrottlingLens, sight.cluster, sight.typed, sight.context, draft);
    lemma_each_member(&StaleStatisticsLens, sight.cluster, sight.typed, sight.context, draft);
    lemma_each_member(&ConnectionSaturationLens, sight.cluster, sight.typed, sight.context, draft);
    lemma_each_member(&MemoryReclaimLens, sight.cluster, sight.typed, sight.context, draft);
    lemma_each_member(&WritebackPressureLens, sight.cluster, sight.typed, sight.context, draft);
    lemma_each_member(&FreezeHorizonLens, sight.cluster, sight.typed, sight.context, draft);
    lemma_each_member(&RunningVacuumLens, sight.cluster, sight.typed, sight.context, draft);
    lemma_each_member(&PhysicalReplicationLens, sight.cluster, sight.typed, sight.context, draft);
    lemma_each_member(&SlotRetentionLens, sight.cluster, sight.typed, sight.context, draft);
    lemma_each_member(&StorageCapacityLens, sight.cluster, sight.typed, sight.context, draft);
    lemma_each_member(&CgroupMemoryLens, sight.cluster, sight.typed, sight.context, draft);
    lemma_each_member(&QueryWorkLens, sight.cluster, sight.typed, sight.context, draft);
}

/// A lens over the whole server speaks once for an incident.
pub proof fn law_the_first_member_speaks_for_the_server(sight: Sight, at: int)
    ensures
        judges_first(&LockWaitGraphLens, "pg_locks"@, sight, at),
        judges_first(&HostCpuLens, "os_cpu"@, sight, at),
        judges_first(&BlockDeviceLens, "os_diskstats"@, sight, at),
        judges_first(&ProcessIoWhoLens, "os_process"@, sight, at),
        judges_first(&XminHorizonHoldLens, "pg_stat_activity"@, sight, at),
        judges_first(&SyncReplicationWaitLens, "pg_stat_activity"@, sight, at),
        judges_first(&InternalWaitConcentrationLens, "pg_stat_activity"@, sight, at),
{
    lemma_speaks(&LockWaitGraphLens, "pg_locks"@, sight, at);
    lemma_speaks(&HostCpuLens, "os_cpu"@, sight, at);
    lemma_speaks(&BlockDeviceLens, "os_diskstats"@, sight, at);
    lemma_speaks(&ProcessIoWhoLens, "os_process"@, sight, at);
    lemma_speaks(&XminHorizonHoldLens, "pg_stat_activity"@, sight, at);
    lemma_speaks(&SyncReplicationWaitLens, "pg_stat_activity"@, sight, at);
    lemma_speaks(&InternalWaitConcentrationLens, "pg_stat_activity"@, sight, at);
}

proof fn lemma_speaks<L: MemberLens>(lens: &L, section: Seq<char>, sight: Sight, at: int)
    ensures
        ({
            let out = drafts(
                crate::active::shared::first_member_steps(
                    lens,
                    section,
                    sight.cluster,
                    sight.typed,
                    sight.context,
                ),
            );
            &&& is_first_of(sight.cluster.members, section, at) ==> out == drafts(
                lens.member_steps(sight.cluster.members[at], sight.typed, sight.context),
            )
            &&& (forall|j: int|
                0 <= j < sight.cluster.members.len() ==> (
                #[trigger] sight.cluster.members[j]).logical_section != section) ==> out.len()
                == 0
        }),
{
    if is_first_of(sight.cluster.members, section, at) {
        lemma_first_member(lens, section, sight.cluster, sight.typed, sight.context, at);
    }
    if forall|j: int|
        0 <= j < sight.cluster.members.len() ==> (
        #[trigger] sight.cluster.members[j]).logical_section != section {
        lemma_no_member(lens, section, sight.cluster, sight.typed, sight.context);
    }
}

/// Whether a lens has an id and a cap.
pub open spec fn is_called<L: Lens>(lens: &L, id: Seq<char>, cap: ConfidenceCap) -> bool {
    lens.id_text() == id && lens.cap() == cap
}

/// The ids of the lenses, and how sure each may be.
pub proof fn law_lenses_keep_their_ids_and_caps()
    ensures
        is_called(&SharedBufferMissesLens, "PG-CACHE-010"@, ConfidenceCap::Medium),
        is_called(&WalAmplificationLens, "PG-WAL-009"@, ConfidenceCap::Medium),
        is_called(&TempSpillLens, "PG-TEMP-003"@, ConfidenceCap::Medium),
        is_called(&RequestedCheckpointsLens, "PG-CHKPT-008"@, ConfidenceCap::Medium),
        is_called(&BackendIoLatencyLens, "PG-IO-011"@, ConfidenceCap::Medium),
        is_called(&HotUpdateFailureLens, "PG-HOT-007"@, ConfidenceCap::Medium),
        is_called(&WalArchivingFailureLens, "PG-ARCH-017"@, ConfidenceCap::Medium),
        is_called(&NetworkErrorsLens, "OS-NET-028"@, ConfidenceCap::Low),
        is_called(&CgroupCpuThrottlingLens, "OS-CGRP-021"@, ConfidenceCap::Medium),
        is_called(&StaleStatisticsLens, "PG-ANALYZE-004"@, ConfidenceCap::Low),
        is_called(&ConnectionSaturationLens, "PG-CONN-014"@, ConfidenceCap::Medium),
        is_called(&MemoryReclaimLens, "OS-MEM-022"@, ConfidenceCap::Low),
        is_called(&WritebackPressureLens, "OS-WB-025"@, ConfidenceCap::Low),
        is_called(&FreezeHorizonLens, "PG-FREEZE-006"@, ConfidenceCap::Low),
        is_called(&RunningVacuumLens, "PG-VACUUM-005"@, ConfidenceCap::Low),
        is_called(&PhysicalReplicationLens, "PG-REPL-015"@, ConfidenceCap::Low),
        is_called(&SlotRetentionLens, "PG-SLOT-016"@, ConfidenceCap::Low),
        is_called(&StorageCapacityLens, "OS-FS-027"@, ConfidenceCap::Low),
        is_called(&CgroupMemoryLens, "OS-CGMEM-023"@, ConfidenceCap::Low),
        is_called(&QueryWorkLens, "PG-QRY-001"@, ConfidenceCap::Medium),
        is_called(&PlanChurnLens, "PG-PLAN-002"@, ConfidenceCap::Medium),
        is_called(&LockWaitGraphLens, "PG-LOCK-012"@, ConfidenceCap::Medium),
        is_called(&HostCpuLens, "OS-CPU-020"@, ConfidenceCap::Low),
        is_called(&BlockDeviceLens, "OS-BLOCK-024"@, ConfidenceCap::Low),
        is_called(&ProcessIoWhoLens, "OS-IOWHO-026"@, ConfidenceCap::Low),
        is_called(&XminHorizonHoldLens, "PG-HORIZON-013"@, ConfidenceCap::Medium),
        is_called(&SyncReplicationWaitLens, "PG-SYNC-018"@, ConfidenceCap::Medium),
        is_called(&InternalWaitConcentrationLens, "PG-WAIT-019"@, ConfidenceCap::Low),
{
}

} // verus!
