//! Active diagnostic lenses over typed counter and gauge evidence.

pub mod activity;
pub mod counters;
pub mod gauges;
pub mod locks;
pub mod observe;
pub mod shared;

use self::activity::{InternalWaitConcentrationLens, SyncReplicationWaitLens, XminHorizonHoldLens};
use self::counters::{
    BackendIoLatencyLens, CgroupCpuThrottlingLens, HotUpdateFailureLens, NetworkErrorsLens,
    RequestedCheckpointsLens, SharedBufferMissesLens, TempSpillLens, WalAmplificationLens,
    WalArchivingFailureLens,
};
use self::gauges::{
    ConnectionSaturationLens, MemoryReclaimLens, StaleStatisticsLens, WritebackPressureLens,
};
use self::locks::LockWaitGraphLens;
use crate::cluster::ClusterView;
use crate::engine::EvalContext;
use crate::gauge_contracts::{
    CgroupMemoryLens, FreezeHorizonLens, PhysicalReplicationLens, RunningVacuumLens,
    SlotRetentionLens, StorageCapacityLens,
};
use crate::lens::Lens;
use crate::os_lenses::{BlockDeviceLens, HostCpuLens, ProcessIoWhoLens};
use crate::query_plan::{PlanChurnLens, QueryWorkLens};
use crate::series::SeriesSetView;
use crate::typed::inputs::TypedView;
use vstd::prelude::*;

verus! {

/// A lens of the catalog.
pub struct CatalogLens {
    pub lens: Box<dyn Lens>,
}

impl CatalogLens {
    fn entry(self) -> (r: Self)
        ensures
            r == self,
    {
        self
    }
}

/// Whether a catalog entry reports exactly as a lens does.
#[verifier::opaque]
pub open spec fn reports_as<L: Lens>(entry: CatalogLens, lens: L) -> bool {
    &&& entry.lens.id_text() == lens.id_text()
    &&& entry.lens.input_list() == lens.input_list()
    &&& entry.lens.cap() == lens.cap()
    &&& forall|cluster: ClusterView, series: SeriesSetView, typed: TypedView, context: EvalContext|
        #[trigger] entry.lens.steps(cluster, series, typed, context) == lens.steps(
            cluster,
            series,
            typed,
            context,
        )
}

/// The ids of the lenses, in catalog order.
#[verifier::opaque]
pub open spec fn core_ids() -> Seq<Seq<char>> {
    seq![
        "PG-CACHE-010"@,
        "PG-WAL-009"@,
        "PG-TEMP-003"@,
        "PG-CHKPT-008"@,
        "PG-IO-011"@,
        "PG-HOT-007"@,
        "PG-ARCH-017"@,
        "OS-NET-028"@,
        "OS-CGRP-021"@,
        "PG-ANALYZE-004"@,
        "PG-CONN-014"@,
        "OS-MEM-022"@,
        "OS-WB-025"@,
        "PG-VACUUM-005"@,
        "PG-FREEZE-006"@,
        "PG-REPL-015"@,
        "PG-SLOT-016"@,
        "OS-CGMEM-023"@,
        "OS-FS-027"@,
        "PG-QRY-001"@,
        "PG-PLAN-002"@,
        "OS-CPU-020"@,
        "OS-BLOCK-024"@,
        "OS-IOWHO-026"@,
        "PG-HORIZON-013"@,
        "PG-SYNC-018"@,
        "PG-WAIT-019"@,
        "PG-LOCK-012"@,
    ]
}

/// The lenses whose typed inputs are wired, applied to every request.
pub fn active_catalog() -> (r: Vec<CatalogLens>)
    ensures
        r@.len() == core_ids().len(),
        forall|i: int| 0 <= i < r@.len() ==> (#[trigger] r@[i]).lens.id_text() == core_ids()[i],
        reports_as(r@[0], SharedBufferMissesLens),
        reports_as(r@[1], WalAmplificationLens),
        reports_as(r@[2], TempSpillLens),
        reports_as(r@[3], RequestedCheckpointsLens),
        reports_as(r@[4], BackendIoLatencyLens),
        reports_as(r@[5], HotUpdateFailureLens),
        reports_as(r@[6], WalArchivingFailureLens),
        reports_as(r@[7], NetworkErrorsLens),
        reports_as(r@[8], CgroupCpuThrottlingLens),
        reports_as(r@[9], StaleStatisticsLens),
        reports_as(r@[10], ConnectionSaturationLens),
        reports_as(r@[11], MemoryReclaimLens),
        reports_as(r@[12], WritebackPressureLens),
        reports_as(r@[13], RunningVacuumLens),
        reports_as(r@[14], FreezeHorizonLens),
        reports_as(r@[15], PhysicalReplicationLens),
        reports_as(r@[16], SlotRetentionLens),
        reports_as(r@[17], CgroupMemoryLens),
        reports_as(r@[18], StorageCapacityLens),
        reports_as(r@[19], QueryWorkLens),
        reports_as(r@[20], PlanChurnLens),
        reports_as(r@[21], HostCpuLens),
        reports_as(r@[22], BlockDeviceLens),
        reports_as(r@[23], ProcessIoWhoLens),
        reports_as(r@[24], XminHorizonHoldLens),
        reports_as(r@[25], SyncReplicationWaitLens),
        reports_as(r@[26], InternalWaitConcentrationLens),
        reports_as(r@[27], LockWaitGraphLens),
{
    proof {
        reveal(core_ids);
    }
    let mut catalog: Vec<CatalogLens> = Vec::new();
    let lens0: CatalogLens = CatalogLens { lens: Box::new(SharedBufferMissesLens) }.entry();
    assert(reports_as(lens0, SharedBufferMissesLens)) by {
        reveal(reports_as);
    }
    assert(lens0.lens.id_text() == core_ids()[0]) by {
        reveal(reports_as);
    }
    catalog.push(lens0);
    let lens1: CatalogLens = CatalogLens { lens: Box::new(WalAmplificationLens) }.entry();
    assert(reports_as(lens1, WalAmplificationLens)) by {
        reveal(reports_as);
    }
    assert(lens1.lens.id_text() == core_ids()[1]) by {
        reveal(reports_as);
    }
    catalog.push(lens1);
    let lens2: CatalogLens = CatalogLens { lens: Box::new(TempSpillLens) }.entry();
    assert(reports_as(lens2, TempSpillLens)) by {
        reveal(reports_as);
    }
    assert(lens2.lens.id_text() == core_ids()[2]) by {
        reveal(reports_as);
    }
    catalog.push(lens2);
    let lens3: CatalogLens = CatalogLens { lens: Box::new(RequestedCheckpointsLens) }.entry();
    assert(reports_as(lens3, RequestedCheckpointsLens)) by {
        reveal(reports_as);
    }
    assert(lens3.lens.id_text() == core_ids()[3]) by {
        reveal(reports_as);
    }
    catalog.push(lens3);
    let lens4: CatalogLens = CatalogLens { lens: Box::new(BackendIoLatencyLens) }.entry();
    assert(reports_as(lens4, BackendIoLatencyLens)) by {
        reveal(reports_as);
    }
    assert(lens4.lens.id_text() == core_ids()[4]) by {
        reveal(reports_as);
    }
    catalog.push(lens4);
    let lens5: CatalogLens = CatalogLens { lens: Box::new(HotUpdateFailureLens) }.entry();
    assert(reports_as(lens5, HotUpdateFailureLens)) by {
        reveal(reports_as);
    }
    assert(lens5.lens.id_text() == core_ids()[5]) by {
        reveal(reports_as);
    }
    catalog.push(lens5);
    let lens6: CatalogLens = CatalogLens { lens: Box::new(WalArchivingFailureLens) }.entry();
    assert(reports_as(lens6, WalArchivingFailureLens)) by {
        reveal(reports_as);
    }
    assert(lens6.lens.id_text() == core_ids()[6]) by {
        reveal(reports_as);
    }
    catalog.push(lens6);
    let lens7: CatalogLens = CatalogLens { lens: Box::new(NetworkErrorsLens) }.entry();
    assert(reports_as(lens7, NetworkErrorsLens)) by {
        reveal(reports_as);
    }
    assert(lens7.lens.id_text() == core_ids()[7]) by {
        reveal(reports_as);
    }
    catalog.push(lens7);
    let lens8: CatalogLens = CatalogLens { lens: Box::new(CgroupCpuThrottlingLens) }.entry();
    assert(reports_as(lens8, CgroupCpuThrottlingLens)) by {
        reveal(reports_as);
    }
    assert(lens8.lens.id_text() == core_ids()[8]) by {
        reveal(reports_as);
    }
    catalog.push(lens8);
    let lens9: CatalogLens = CatalogLens { lens: Box::new(StaleStatisticsLens) }.entry();
    assert(reports_as(lens9, StaleStatisticsLens)) by {
        reveal(reports_as);
    }
    assert(lens9.lens.id_text() == core_ids()[9]) by {
        reveal(reports_as);
    }
    catalog.push(lens9);
    let lens10: CatalogLens = CatalogLens { lens: Box::new(ConnectionSaturationLens) }.entry();
    assert(reports_as(lens10, ConnectionSaturationLens)) by {
        reveal(reports_as);
    }
    assert(lens10.lens.id_text() == core_ids()[10]) by {
        reveal(reports_as);
    }
    catalog.push(lens10);
    let lens11: CatalogLens = CatalogLens { lens: Box::new(MemoryReclaimLens) }.entry();
    assert(reports_as(lens11, MemoryReclaimLens)) by {
        reveal(reports_as);
    }
    assert(lens11.lens.id_text() == core_ids()[11]) by {
        reveal(reports_as);
    }
    catalog.push(lens11);
    let lens12: CatalogLens = CatalogLens { lens: Box::new(WritebackPressureLens) }.entry();
    assert(reports_as(lens12, WritebackPressureLens)) by {
        reveal(reports_as);
    }
    assert(lens12.lens.id_text() == core_ids()[12]) by {
        reveal(reports_as);
    }
    catalog.push(lens12);
    let lens13: CatalogLens = CatalogLens { lens: Box::new(RunningVacuumLens) }.entry();
    assert(reports_as(lens13, RunningVacuumLens)) by {
        reveal(reports_as);
    }
    assert(lens13.lens.id_text() == core_ids()[13]) by {
        reveal(reports_as);
    }
    catalog.push(lens13);
    let lens14: CatalogLens = CatalogLens { lens: Box::new(FreezeHorizonLens) }.entry();
    assert(reports_as(lens14, FreezeHorizonLens)) by {
        reveal(reports_as);
    }
    assert(lens14.lens.id_text() == core_ids()[14]) by {
        reveal(reports_as);
    }
    catalog.push(lens14);
    let lens15: CatalogLens = CatalogLens { lens: Box::new(PhysicalReplicationLens) }.entry();
    assert(reports_as(lens15, PhysicalReplicationLens)) by {
        reveal(reports_as);
    }
    assert(lens15.lens.id_text() == core_ids()[15]) by {
        reveal(reports_as);
    }
    catalog.push(lens15);
    let lens16: CatalogLens = CatalogLens { lens: Box::new(SlotRetentionLens) }.entry();
    assert(reports_as(lens16, SlotRetentionLens)) by {
        reveal(reports_as);
    }
    assert(lens16.lens.id_text() == core_ids()[16]) by {
        reveal(reports_as);
    }
    catalog.push(lens16);
    let lens17: CatalogLens = CatalogLens { lens: Box::new(CgroupMemoryLens) }.entry();
    assert(reports_as(lens17, CgroupMemoryLens)) by {
        reveal(reports_as);
    }
    assert(lens17.lens.id_text() == core_ids()[17]) by {
        reveal(reports_as);
    }
    catalog.push(lens17);
    let lens18: CatalogLens = CatalogLens { lens: Box::new(StorageCapacityLens) }.entry();
    assert(reports_as(lens18, StorageCapacityLens)) by {
        reveal(reports_as);
    }
    assert(lens18.lens.id_text() == core_ids()[18]) by {
        reveal(reports_as);
    }
    catalog.push(lens18);
    let lens19: CatalogLens = CatalogLens { lens: Box::new(QueryWorkLens) }.entry();
    assert(reports_as(lens19, QueryWorkLens)) by {
        reveal(reports_as);
    }
    assert(lens19.lens.id_text() == core_ids()[19]) by {
        reveal(reports_as);
    }
    catalog.push(lens19);
    let lens20: CatalogLens = CatalogLens { lens: Box::new(PlanChurnLens) }.entry();
    assert(reports_as(lens20, PlanChurnLens)) by {
        reveal(reports_as);
    }
    assert(lens20.lens.id_text() == core_ids()[20]) by {
        reveal(reports_as);
    }
    catalog.push(lens20);
    let lens21: CatalogLens = CatalogLens { lens: Box::new(HostCpuLens) }.entry();
    assert(reports_as(lens21, HostCpuLens)) by {
        reveal(reports_as);
    }
    assert(lens21.lens.id_text() == core_ids()[21]) by {
        reveal(reports_as);
    }
    catalog.push(lens21);
    let lens22: CatalogLens = CatalogLens { lens: Box::new(BlockDeviceLens) }.entry();
    assert(reports_as(lens22, BlockDeviceLens)) by {
        reveal(reports_as);
    }
    assert(lens22.lens.id_text() == core_ids()[22]) by {
        reveal(reports_as);
    }
    catalog.push(lens22);
    let lens23: CatalogLens = CatalogLens { lens: Box::new(ProcessIoWhoLens) }.entry();
    assert(reports_as(lens23, ProcessIoWhoLens)) by {
        reveal(reports_as);
    }
    assert(lens23.lens.id_text() == core_ids()[23]) by {
        reveal(reports_as);
    }
    catalog.push(lens23);
    let lens24: CatalogLens = CatalogLens { lens: Box::new(XminHorizonHoldLens) }.entry();
    assert(reports_as(lens24, XminHorizonHoldLens)) by {
        reveal(reports_as);
    }
    assert(lens24.lens.id_text() == core_ids()[24]) by {
        reveal(reports_as);
    }
    catalog.push(lens24);
    let lens25: CatalogLens = CatalogLens { lens: Box::new(SyncReplicationWaitLens) }.entry();
    assert(reports_as(lens25, SyncReplicationWaitLens)) by {
        reveal(reports_as);
    }
    assert(lens25.lens.id_text() == core_ids()[25]) by {
        reveal(reports_as);
    }
    catalog.push(lens25);
    let lens26: CatalogLens = CatalogLens { lens: Box::new(InternalWaitConcentrationLens) }.entry();
    assert(reports_as(lens26, InternalWaitConcentrationLens)) by {
        reveal(reports_as);
    }
    assert(lens26.lens.id_text() == core_ids()[26]) by {
        reveal(reports_as);
    }
    catalog.push(lens26);
    let lens27: CatalogLens = CatalogLens { lens: Box::new(LockWaitGraphLens) }.entry();
    assert(reports_as(lens27, LockWaitGraphLens)) by {
        reveal(reports_as);
    }
    assert(lens27.lens.id_text() == core_ids()[27]) by {
        reveal(reports_as);
    }
    catalog.push(lens27);
    catalog
}

/// The texts of some ids.
pub open spec fn id_texts(ids: Seq<&'static str>) -> Seq<Seq<char>> {
    Seq::new(ids.len(), |i: int| ids[i]@)
}

/// The ids of the active lenses, in catalog order.
pub fn active_catalog_ids() -> (r: Vec<&'static str>)
    ensures
        id_texts(r@) == core_ids(),
{
    let catalog: Vec<CatalogLens> = active_catalog();
    let mut ids: Vec<&'static str> = Vec::new();
    let mut i: usize = 0;
    while i < catalog.len()
        invariant
            i <= catalog.len(),
            catalog@.len() == core_ids().len(),
            forall|j: int|
                0 <= j < catalog@.len() ==> (#[trigger] catalog@[j]).lens.id_text()
                    == core_ids()[j],
            ids.len() == i,
            forall|j: int| 0 <= j < i ==> (#[trigger] ids@[j])@ == core_ids()[j],
        decreases catalog.len() - i,
    {
        let id: &'static str = catalog[i].lens.id();
        ids.push(id);
        i = i + 1;
    }
    proof {
        assert(id_texts(ids@) =~= core_ids());
    }
    ids
}

/// The number at the end of an id.
spec fn id_number(id: Seq<char>) -> int {
    (id[id.len() - 3] as int - 48) * 100 + (id[id.len() - 2] as int - 48) * 10 + (
    id[id.len() - 1] as int - 48)
}

/// Where the id with a number stands in the catalog.
spec fn id_place(number: int) -> int {
    if number == 10 {
        0
    } else if number == 9 {
        1
    } else if number == 3 {
        2
    } else if number == 8 {
        3
    } else if number == 11 {
        4
    } else if number == 7 {
        5
    } else if number == 17 {
        6
    } else if number == 28 {
        7
    } else if number == 21 {
        8
    } else if number == 4 {
        9
    } else if number == 14 {
        10
    } else if number == 22 {
        11
    } else if number == 25 {
        12
    } else if number == 5 {
        13
    } else if number == 6 {
        14
    } else if number == 15 {
        15
    } else if number == 16 {
        16
    } else if number == 23 {
        17
    } else if number == 27 {
        18
    } else if number == 1 {
        19
    } else if number == 2 {
        20
    } else if number == 20 {
        21
    } else if number == 24 {
        22
    } else if number == 26 {
        23
    } else if number == 13 {
        24
    } else if number == 18 {
        25
    } else if number == 19 {
        26
    } else {
        27
    }
}

/// No two lenses of the catalog share an id.
pub proof fn law_core_ids_are_unique(i: int, j: int)
    requires
        0 <= i < core_ids().len(),
        0 <= j < core_ids().len(),
        core_ids()[i] == core_ids()[j],
    ensures
        i == j,
{
    reveal(core_ids);
    lemma_id_places(i);
    lemma_id_places(j);
}

proof fn lemma_id_places(i: int)
    requires
        0 <= i < core_ids().len(),
    ensures
        id_place(id_number(core_ids()[i])) == i,
{
    reveal(core_ids);
    reveal_strlit("PG-CACHE-010");
    reveal_strlit("PG-WAL-009");
    reveal_strlit("PG-TEMP-003");
    reveal_strlit("PG-CHKPT-008");
    reveal_strlit("PG-IO-011");
    reveal_strlit("PG-HOT-007");
    reveal_strlit("PG-ARCH-017");
    reveal_strlit("OS-NET-028");
    reveal_strlit("OS-CGRP-021");
    reveal_strlit("PG-ANALYZE-004");
    reveal_strlit("PG-CONN-014");
    reveal_strlit("OS-MEM-022");
    reveal_strlit("OS-WB-025");
    reveal_strlit("PG-VACUUM-005");
    reveal_strlit("PG-FREEZE-006");
    reveal_strlit("PG-REPL-015");
    reveal_strlit("PG-SLOT-016");
    reveal_strlit("OS-CGMEM-023");
    reveal_strlit("OS-FS-027");
    reveal_strlit("PG-QRY-001");
    reveal_strlit("PG-PLAN-002");
    reveal_strlit("OS-CPU-020");
    reveal_strlit("OS-BLOCK-024");
    reveal_strlit("OS-IOWHO-026");
    reveal_strlit("PG-HORIZON-013");
    reveal_strlit("PG-SYNC-018");
    reveal_strlit("PG-WAIT-019");
    reveal_strlit("PG-LOCK-012");
}

} // verus!
