//! Metadata of the diagnostic catalog.

use crate::entity_join::EntityJoinContract;
use crate::evidence::confidence::ConfidenceCap;
use crate::order::views;
use crate::text::text_eq;
use vstd::prelude::*;
use vstd::utf8::encode_utf8;

verus! {

pub const MAX_DORMANT_LENSES: usize = 28;

pub const MAX_MISSING_PER_LENS: usize = 6;

pub const MAX_CATALOG_TOKEN_BYTES: usize = 40;

pub const MAX_CATALOG_TEXT_BYTES: usize = 200;

/// An input that a lens of the design calls for.
#[derive(Debug, Clone, Copy, PartialEq, Eq, Structural)]
pub enum MissingCapability {
    CounterDeltas,
    GaugeSamples,
    PairedIntervals,
    SourcePeriod,
    InputCoverage,
    EntityJoin,
    TrackPlanningGate,
    StorePlansBridge,
    BlockedByEdges,
    LockSnapshotCoverage,
    ActivityRows,
    PidCgroupMapping,
    IncidentLogEventInput,
}

impl MissingCapability {
    pub open spec fn text(self) -> Seq<char> {
        match self {
            MissingCapability::CounterDeltas => "typed_counter_deltas"@,
            MissingCapability::GaugeSamples => "typed_gauge_samples"@,
            MissingCapability::PairedIntervals => "paired_interval_inputs"@,
            MissingCapability::SourcePeriod => "source_period_provenance"@,
            MissingCapability::InputCoverage => "request_input_coverage"@,
            MissingCapability::EntityJoin => "cross_section_entity_join"@,
            MissingCapability::TrackPlanningGate => "track_planning_gate"@,
            MissingCapability::StorePlansBridge => "store_plans_bridge"@,
            MissingCapability::BlockedByEdges => "sampled_blocked_by_edges"@,
            MissingCapability::LockSnapshotCoverage => "lock_snapshot_coverage"@,
            MissingCapability::ActivityRows => "sampled_activity_rows"@,
            MissingCapability::PidCgroupMapping => "pid_cgroup_mapping"@,
            MissingCapability::IncidentLogEventInput => "incident_log_event_input"@,
        }
    }

    pub fn as_str(self) -> (r: &'static str)
        ensures
            r@ == self.text(),
    {
        match self {
            MissingCapability::CounterDeltas => "typed_counter_deltas",
            MissingCapability::GaugeSamples => "typed_gauge_samples",
            MissingCapability::PairedIntervals => "paired_interval_inputs",
            MissingCapability::SourcePeriod => "source_period_provenance",
            MissingCapability::InputCoverage => "request_input_coverage",
            MissingCapability::EntityJoin => "cross_section_entity_join",
            MissingCapability::TrackPlanningGate => "track_planning_gate",
            MissingCapability::StorePlansBridge => "store_plans_bridge",
            MissingCapability::BlockedByEdges => "sampled_blocked_by_edges",
            MissingCapability::LockSnapshotCoverage => "lock_snapshot_coverage",
            MissingCapability::ActivityRows => "sampled_activity_rows",
            MissingCapability::PidCgroupMapping => "pid_cgroup_mapping",
            MissingCapability::IncidentLogEventInput => "incident_log_event_input",
        }
    }
}

/// Diagnostic domain a lens belongs to.
#[derive(Debug, Clone, Copy, PartialEq, Eq, Structural)]
pub enum Domain {
    Pg,
    Os,
}

impl Domain {
    pub open spec fn text(self) -> Seq<char> {
        match self {
            Domain::Pg => "pg"@,
            Domain::Os => "os"@,
        }
    }

    pub fn as_str(self) -> (r: &'static str)
        ensures
            r@ == self.text(),
    {
        match self {
            Domain::Pg => "pg",
            Domain::Os => "os",
        }
    }
}

/// A design-catalog entry with a human name and the capabilities it calls for.
#[derive(Debug, Clone, Copy)]
pub struct DormantLens {
    pub lens_id: &'static str,
    pub slug: &'static str,
    pub domain: Domain,
    pub title: &'static str,
    pub detects: &'static str,
    pub confidence: ConfidenceCap,
    pub missing: &'static [MissingCapability],
}

/// The mathematical value of a catalog entry.
#[verifier::ext_equal]
pub struct DormantView {
    pub lens_id: Seq<char>,
    pub slug: Seq<char>,
    pub domain: Domain,
    pub title: Seq<char>,
    pub detects: Seq<char>,
    pub confidence: ConfidenceCap,
    pub missing: Seq<MissingCapability>,
}

impl View for DormantLens {
    type V = DormantView;

    open spec fn view(&self) -> DormantView {
        DormantView {
            lens_id: self.lens_id@,
            slug: self.slug@,
            domain: self.domain,
            title: self.title@,
            detects: self.detects@,
            confidence: self.confidence,
            missing: self.missing@,
        }
    }
}

/// What a lens must have before it can claim a relation between entities.
#[verifier::opaque]
pub open spec fn join_contract(lens_id: Seq<char>) -> Option<EntityJoinContract> {
    if lens_id == "PG-TEMP-003"@ {
        Some(EntityJoinContract::QueryDatabaseTemp)
    } else if lens_id == "PG-ANALYZE-004"@ {
        Some(EntityJoinContract::RelationQueryPlan)
    } else if lens_id == "PG-VACUUM-005"@ {
        Some(EntityJoinContract::RelationVacuum)
    } else if lens_id == "PG-FREEZE-006"@ {
        Some(EntityJoinContract::RelationVacuumHorizon)
    } else if lens_id == "PG-HOT-007"@ {
        Some(EntityJoinContract::RelationIndexWal)
    } else if lens_id == "PG-WAL-009"@ {
        Some(EntityJoinContract::QueryWalCheckpoint)
    } else if lens_id == "PG-CACHE-010"@ {
        Some(EntityJoinContract::RelationQueryCache)
    } else if lens_id == "PG-IO-011"@ {
        Some(EntityJoinContract::PgIoBlockDevice)
    } else if lens_id == "PG-HORIZON-013"@ {
        Some(EntityJoinContract::BackendRelationHorizon)
    } else if lens_id == "PG-CONN-014"@ {
        Some(EntityJoinContract::DatabaseBackend)
    } else if lens_id == "PG-REPL-015"@ {
        Some(EntityJoinContract::ReplicationWal)
    } else if lens_id == "PG-SLOT-016"@ {
        Some(EntityJoinContract::SlotFilesystem)
    } else if lens_id == "PG-ARCH-017"@ {
        Some(EntityJoinContract::ArchiveFilesystem)
    } else if lens_id == "PG-SYNC-018"@ {
        Some(EntityJoinContract::BackendReplication)
    } else if lens_id == "PG-WAIT-019"@ {
        Some(EntityJoinContract::ActivityLockWaiter)
    } else if lens_id == "OS-CPU-020"@ {
        Some(EntityJoinContract::HostPgCpu)
    } else if lens_id == "OS-CGRP-021"@ {
        Some(EntityJoinContract::BackendCgroupCpu)
    } else if lens_id == "OS-MEM-022"@ {
        Some(EntityJoinContract::HostPgMemory)
    } else if lens_id == "OS-CGMEM-023"@ {
        Some(EntityJoinContract::BackendCgroupMemory)
    } else if lens_id == "OS-BLOCK-024"@ {
        Some(EntityJoinContract::PgStorageBlockDevice)
    } else if lens_id == "OS-WB-025"@ {
        Some(EntityJoinContract::WriterBlockDevice)
    } else if lens_id == "OS-IOWHO-026"@ {
        Some(EntityJoinContract::ProcessCgroupDevice)
    } else if lens_id == "OS-FS-027"@ {
        Some(EntityJoinContract::PgStorageFilesystem)
    } else if lens_id == "OS-NET-028"@ {
        Some(EntityJoinContract::PgEndpointNetwork)
    } else {
        None
    }
}

impl DormantLens {
    pub fn lens_id(&self) -> (r: &'static str)
        ensures
            r@ == self@.lens_id,
    {
        self.lens_id
    }

    pub fn slug(&self) -> (r: &'static str)
        ensures
            r@ == self@.slug,
    {
        self.slug
    }

    pub fn domain(&self) -> (r: Domain)
        ensures
            r == self@.domain,
    {
        self.domain
    }

    pub fn title(&self) -> (r: &'static str)
        ensures
            r@ == self@.title,
    {
        self.title
    }

    pub fn detects(&self) -> (r: &'static str)
        ensures
            r@ == self@.detects,
    {
        self.detects
    }

    pub fn confidence(&self) -> (r: ConfidenceCap)
        ensures
            r == self@.confidence,
    {
        self.confidence
    }

    pub fn missing(&self) -> (r: &'static [MissingCapability])
        ensures
            r@ == self@.missing,
    {
        self.missing
    }

    /// What the lens must have before it can claim a relation between entities.
    pub fn entity_join_contract(&self) -> (r: Option<EntityJoinContract>)
        ensures
            r == join_contract(self@.lens_id),
    {
        reveal(join_contract);
        if text_eq(self.lens_id, "PG-TEMP-003") {
            Some(EntityJoinContract::QueryDatabaseTemp)
        } else if text_eq(self.lens_id, "PG-ANALYZE-004") {
            Some(EntityJoinContract::RelationQueryPlan)
        } else if text_eq(self.lens_id, "PG-VACUUM-005") {
            Some(EntityJoinContract::RelationVacuum)
        } else if text_eq(self.lens_id, "PG-FREEZE-006") {
            Some(EntityJoinContract::RelationVacuumHorizon)
        } else if text_eq(self.lens_id, "PG-HOT-007") {
            Some(EntityJoinContract::RelationIndexWal)
        } else if text_eq(self.lens_id, "PG-WAL-009") {
            Some(EntityJoinContract::QueryWalCheckpoint)
        } else if text_eq(self.lens_id, "PG-CACHE-010") {
            Some(EntityJoinContract::RelationQueryCache)
        } else if text_eq(self.lens_id, "PG-IO-011") {
            Some(EntityJoinContract::PgIoBlockDevice)
        } else if text_eq(self.lens_id, "PG-HORIZON-013") {
            Some(EntityJoinContract::BackendRelationHorizon)
        } else if text_eq(self.lens_id, "PG-CONN-014") {
            Some(EntityJoinContract::DatabaseBackend)
        } else if text_eq(self.lens_id, "PG-REPL-015") {
            Some(EntityJoinContract::ReplicationWal)
        } else if text_eq(self.lens_id, "PG-SLOT-016") {
            Some(EntityJoinContract::SlotFilesystem)
        } else if text_eq(self.lens_id, "PG-ARCH-017") {
            Some(EntityJoinContract::ArchiveFilesystem)
        } else if text_eq(self.lens_id, "PG-SYNC-018") {
            Some(EntityJoinContract::BackendReplication)
        } else if text_eq(self.lens_id, "PG-WAIT-019") {
            Some(EntityJoinContract::ActivityLockWaiter)
        } else if text_eq(self.lens_id, "OS-CPU-020") {
            Some(EntityJoinContract::HostPgCpu)
        } else if text_eq(self.lens_id, "OS-CGRP-021") {
            Some(EntityJoinContract::BackendCgroupCpu)
        } else if text_eq(self.lens_id, "OS-MEM-022") {
            Some(EntityJoinContract::HostPgMemory)
        } else if text_eq(self.lens_id, "OS-CGMEM-023") {
            Some(EntityJoinContract::BackendCgroupMemory)
        } else if text_eq(self.lens_id, "OS-BLOCK-024") {
            Some(EntityJoinContract::PgStorageBlockDevice)
        } else if text_eq(self.lens_id, "OS-WB-025") {
            Some(EntityJoinContract::WriterBlockDevice)
        } else if text_eq(self.lens_id, "OS-IOWHO-026") {
            Some(EntityJoinContract::ProcessCgroupDevice)
        } else if text_eq(self.lens_id, "OS-FS-027") {
            Some(EntityJoinContract::PgStorageFilesystem)
        } else if text_eq(self.lens_id, "OS-NET-028") {
            Some(EntityJoinContract::PgEndpointNetwork)
        } else {
            None
        }
    }
}

/// The design entries, in order.
#[verifier::opaque]
pub open spec fn design_entries() -> Seq<DormantView> {
    seq![
        DormantView {
            lens_id: "PG-QRY-001"@,
            slug: "query_workload_shift"@,
            domain: Domain::Pg,
            title: "Сдвиг профиля запроса"@,
            detects: "У нормализованного запроса изменились частота, работа на вызов или время исполнения."@,
            confidence: ConfidenceCap::Medium,
            missing: seq![
                MissingCapability::CounterDeltas,
                MissingCapability::PairedIntervals,
                MissingCapability::SourcePeriod,
                MissingCapability::InputCoverage,
            ],
        },
        DormantView {
            lens_id: "PG-PLAN-002"@,
            slug: "plan_change"@,
            domain: Domain::Pg,
            title: "Смена плана запроса"@,
            detects: "Деградация запроса совпала с появлением или сменой `planid`."@,
            confidence: ConfidenceCap::Medium,
            missing: seq![
                MissingCapability::CounterDeltas,
                MissingCapability::GaugeSamples,
                MissingCapability::StorePlansBridge,
                MissingCapability::TrackPlanningGate,
                MissingCapability::SourcePeriod,
                MissingCapability::InputCoverage,
            ],
        },
        DormantView {
            lens_id: "PG-TEMP-003"@,
            slug: "temp_spill"@,
            domain: Domain::Pg,
            title: "Спил во временные файлы"@,
            detects: "Рост работы через временные блоки и файлы."@,
            confidence: ConfidenceCap::Medium,
            missing: seq![
                MissingCapability::CounterDeltas,
                MissingCapability::PairedIntervals,
                MissingCapability::IncidentLogEventInput,
                MissingCapability::EntityJoin,
                MissingCapability::SourcePeriod,
                MissingCapability::InputCoverage,
            ],
        },
        DormantView {
            lens_id: "PG-ANALYZE-004"@,
            slug: "stale_statistics"@,
            domain: Domain::Pg,
            title: "Устаревшая статистика планировщика"@,
            detects: "`n_mod_since_analyze` высок, свежего analyze нет, план/работа поехали."@,
            confidence: ConfidenceCap::Medium,
            missing: seq![
                MissingCapability::GaugeSamples,
                MissingCapability::CounterDeltas,
                MissingCapability::EntityJoin,
                MissingCapability::SourcePeriod,
                MissingCapability::InputCoverage,
            ],
        },
        DormantView {
            lens_id: "PG-VACUUM-005"@,
            slug: "vacuum_backlog"@,
            domain: Domain::Pg,
            title: "Отставание vacuum"@,
            detects: "Растёт долг мёртвых кортежей, cleanup не успевает."@,
            confidence: ConfidenceCap::Medium,
            missing: seq![
                MissingCapability::GaugeSamples,
                MissingCapability::CounterDeltas,
                MissingCapability::IncidentLogEventInput,
                MissingCapability::EntityJoin,
                MissingCapability::SourcePeriod,
                MissingCapability::InputCoverage,
            ],
        },
        DormantView {
            lens_id: "PG-FREEZE-006"@,
            slug: "xid_wraparound_risk"@,
            domain: Domain::Pg,
            title: "Приближение wraparound XID/MXID"@,
            detects: "Headroom по возрасту XID/MXID тает, близко к форсированному aggressive vacuum."@,
            confidence: ConfidenceCap::Medium,
            missing: seq![
                MissingCapability::GaugeSamples,
                MissingCapability::IncidentLogEventInput,
                MissingCapability::EntityJoin,
                MissingCapability::SourcePeriod,
                MissingCapability::InputCoverage,
            ],
        },
        DormantView {
            lens_id: "PG-HOT-007"@,
            slug: "hot_update_failure"@,
            domain: Domain::Pg,
            title: "Срыв HOT-обновлений"@,
            detects: "Доля non-HOT updates растёт вместе с работой по индексам и WAL."@,
            confidence: ConfidenceCap::Medium,
            missing: seq![
                MissingCapability::CounterDeltas,
                MissingCapability::PairedIntervals,
                MissingCapability::EntityJoin,
                MissingCapability::SourcePeriod,
                MissingCapability::InputCoverage,
            ],
        },
        DormantView {
            lens_id: "PG-CHKPT-008"@,
            slug: "requested_checkpoints"@,
            domain: Domain::Pg,
            title: "Внеплановые контрольные точки"@,
            detects: "Растёт доля requested checkpoints и их write/sync-работа."@,
            confidence: ConfidenceCap::Medium,
            missing: seq![
                MissingCapability::CounterDeltas,
                MissingCapability::PairedIntervals,
                MissingCapability::IncidentLogEventInput,
                MissingCapability::SourcePeriod,
                MissingCapability::InputCoverage,
            ],
        },
        DormantView {
            lens_id: "PG-WAL-009"@,
            slug: "wal_amplification"@,
            domain: Domain::Pg,
            title: "Раздувание WAL и FPI"@,
            detects: "Растут WAL bytes на запись, доля FPI, `wal_buffers_full`."@,
            confidence: ConfidenceCap::Medium,
            missing: seq![
                MissingCapability::CounterDeltas,
                MissingCapability::PairedIntervals,
                MissingCapability::EntityJoin,
                MissingCapability::SourcePeriod,
                MissingCapability::InputCoverage,
            ],
        },
        DormantView {
            lens_id: "PG-CACHE-010"@,
            slug: "shared_buffer_misses"@,
            domain: Domain::Pg,
            title: "Промахи shared buffers"@,
            detects: "Растёт доля промахов shared buffers по базе/отношению/контексту."@,
            confidence: ConfidenceCap::Medium,
            missing: seq![
                MissingCapability::CounterDeltas,
                MissingCapability::PairedIntervals,
                MissingCapability::EntityJoin,
                MissingCapability::SourcePeriod,
                MissingCapability::InputCoverage,
            ],
        },
        DormantView {
            lens_id: "PG-IO-011"@,
            slug: "backend_io_latency"@,
            domain: Domain::Pg,
            title: "Задержка I/O внутри PostgreSQL"@,
            detects: "Растёт время на операцию или блок (`pg_stat_io`, PG16+)."@,
            confidence: ConfidenceCap::Medium,
            missing: seq![
                MissingCapability::CounterDeltas,
                MissingCapability::PairedIntervals,
                MissingCapability::EntityJoin,
                MissingCapability::SourcePeriod,
                MissingCapability::InputCoverage,
            ],
        },
        DormantView {
            lens_id: "PG-LOCK-012"@,
            slug: "lock_wait_graph"@,
            domain: Domain::Pg,
            title: "Граф ожидания блокировок"@,
            detects: "Кто блокировал ожидающего в момент снимка (`blocked_by` из `pg_locks`)."@,
            confidence: ConfidenceCap::High,
            missing: seq![
                MissingCapability::BlockedByEdges,
                MissingCapability::LockSnapshotCoverage,
            ],
        },
        DormantView {
            lens_id: "PG-HORIZON-013"@,
            slug: "xmin_horizon_hold"@,
            domain: Domain::Pg,
            title: "Удержание горизонта xmin"@,
            detects: "Долгая или idle-in-transaction транзакция держит vacuum-горизонт."@,
            confidence: ConfidenceCap::Medium,
            missing: seq![
                MissingCapability::GaugeSamples,
                MissingCapability::CounterDeltas,
                MissingCapability::ActivityRows,
                MissingCapability::EntityJoin,
                MissingCapability::SourcePeriod,
                MissingCapability::InputCoverage,
            ],
        },
        DormantView {
            lens_id: "PG-CONN-014"@,
            slug: "connection_saturation"@,
            domain: Domain::Pg,
            title: "Насыщение по соединениям"@,
            detects: "Backends подходят к `max_connections`, churn растёт при падении throughput."@,
            confidence: ConfidenceCap::Medium,
            missing: seq![
                MissingCapability::GaugeSamples,
                MissingCapability::CounterDeltas,
                MissingCapability::ActivityRows,
                MissingCapability::EntityJoin,
                MissingCapability::SourcePeriod,
                MissingCapability::InputCoverage,
            ],
        },
        DormantView {
            lens_id: "PG-REPL-015"@,
            slug: "replication_lag"@,
            domain: Domain::Pg,
            title: "Отставание физической репликации"@,
            detects: "На каком LSN-этапе растёт байтовый разрыв (sent/write/flush/replay)."@,
            confidence: ConfidenceCap::Medium,
            missing: seq![
                MissingCapability::GaugeSamples,
                MissingCapability::CounterDeltas,
                MissingCapability::EntityJoin,
                MissingCapability::SourcePeriod,
                MissingCapability::InputCoverage,
            ],
        },
        DormantView {
            lens_id: "PG-SLOT-016"@,
            slug: "slot_wal_retention"@,
            domain: Domain::Pg,
            title: "Удержание WAL слотом репликации"@,
            detects: "Слот держит растущий WAL, `retained_bytes` со склоном вверх."@,
            confidence: ConfidenceCap::Medium,
            missing: seq![
                MissingCapability::GaugeSamples,
                MissingCapability::EntityJoin,
                MissingCapability::SourcePeriod,
                MissingCapability::InputCoverage,
            ],
        },
        DormantView {
            lens_id: "PG-ARCH-017"@,
            slug: "wal_archiving_failure"@,
            domain: Domain::Pg,
            title: "Ошибки архивации WAL"@,
            detects: "Подтверждённые ошибки archive command/library (`failed_count`)."@,
            confidence: ConfidenceCap::Medium,
            missing: seq![
                MissingCapability::CounterDeltas,
                MissingCapability::GaugeSamples,
                MissingCapability::EntityJoin,
                MissingCapability::SourcePeriod,
                MissingCapability::InputCoverage,
            ],
        },
        DormantView {
            lens_id: "PG-SYNC-018"@,
            slug: "sync_replication_wait"@,
            domain: Domain::Pg,
            title: "Ожидание синхронной репликации"@,
            detects: "Backends висят на `wait_event='SyncRep'` при настроенной синхронной репликации."@,
            confidence: ConfidenceCap::Medium,
            missing: seq![
                MissingCapability::ActivityRows,
                MissingCapability::CounterDeltas,
                MissingCapability::EntityJoin,
                MissingCapability::SourcePeriod,
                MissingCapability::InputCoverage,
            ],
        },
        DormantView {
            lens_id: "PG-WAIT-019"@,
            slug: "internal_wait_concentration"@,
            domain: Domain::Pg,
            title: "Концентрация внутренних ожиданий"@,
            detects: "Растёт доля active backends на `LWLock`/`BufferPin`/`IO` wait."@,
            confidence: ConfidenceCap::Low,
            missing: seq![
                MissingCapability::ActivityRows,
                MissingCapability::EntityJoin,
                MissingCapability::SourcePeriod,
                MissingCapability::InputCoverage,
            ],
        },
        DormantView {
            lens_id: "OS-CPU-020"@,
            slug: "cpu_saturation"@,
            domain: Domain::Os,
            title: "Насыщение CPU хоста"@,
            detects: "Runnable pressure, iowait, steal."@,
            confidence: ConfidenceCap::Medium,
            missing: seq![
                MissingCapability::CounterDeltas,
                MissingCapability::PairedIntervals,
                MissingCapability::EntityJoin,
                MissingCapability::SourcePeriod,
                MissingCapability::InputCoverage,
            ],
        },
        DormantView {
            lens_id: "OS-CGRP-021"@,
            slug: "cgroup_cpu_throttling"@,
            domain: Domain::Os,
            title: "Троттлинг CPU в cgroup"@,
            detects: "Реальный throttling cgroup при доступном CPU хоста."@,
            confidence: ConfidenceCap::Medium,
            missing: seq![
                MissingCapability::PidCgroupMapping,
                MissingCapability::CounterDeltas,
                MissingCapability::EntityJoin,
                MissingCapability::SourcePeriod,
                MissingCapability::InputCoverage,
            ],
        },
        DormantView {
            lens_id: "OS-MEM-022"@,
            slug: "memory_reclaim"@,
            domain: Domain::Os,
            title: "Нехватка памяти хоста"@,
            detects: "Memory pressure, direct reclaim, swap, OOM."@,
            confidence: ConfidenceCap::Medium,
            missing: seq![
                MissingCapability::GaugeSamples,
                MissingCapability::CounterDeltas,
                MissingCapability::EntityJoin,
                MissingCapability::SourcePeriod,
                MissingCapability::InputCoverage,
            ],
        },
        DormantView {
            lens_id: "OS-CGMEM-023"@,
            slug: "cgroup_memory_limit"@,
            domain: Domain::Os,
            title: "Лимит памяти cgroup"@,
            detects: "Достижение `memory.high`/`max`/OOM в cgroup."@,
            confidence: ConfidenceCap::Medium,
            missing: seq![
                MissingCapability::PidCgroupMapping,
                MissingCapability::GaugeSamples,
                MissingCapability::CounterDeltas,
                MissingCapability::EntityJoin,
                MissingCapability::SourcePeriod,
                MissingCapability::InputCoverage,
            ],
        },
        DormantView {
            lens_id: "OS-BLOCK-024"@,
            slug: "block_device_latency"@,
            domain: Domain::Os,
            title: "Задержка блочного устройства"@,
            detects: "Растут время завершения и очередь устройства."@,
            confidence: ConfidenceCap::Medium,
            missing: seq![
                MissingCapability::CounterDeltas,
                MissingCapability::PairedIntervals,
                MissingCapability::EntityJoin,
                MissingCapability::SourcePeriod,
                MissingCapability::InputCoverage,
            ],
        },
        DormantView {
            lens_id: "OS-WB-025"@,
            slug: "writeback_pressure"@,
            domain: Domain::Os,
            title: "Давление dirty/writeback"@,
            detects: "Повышенные Dirty/Writeback совпали с write/sync-задержкой PostgreSQL."@,
            confidence: ConfidenceCap::Low,
            missing: seq![
                MissingCapability::GaugeSamples,
                MissingCapability::CounterDeltas,
                MissingCapability::EntityJoin,
                MissingCapability::SourcePeriod,
                MissingCapability::InputCoverage,
            ],
        },
        DormantView {
            lens_id: "OS-IOWHO-026"@,
            slug: "io_contender"@,
            domain: Domain::Os,
            title: "Внешний потребитель I/O"@,
            detects: "Какой процесс или cgroup нарастил block I/O рядом с давлением."@,
            confidence: ConfidenceCap::Medium,
            missing: seq![
                MissingCapability::CounterDeltas,
                MissingCapability::PidCgroupMapping,
                MissingCapability::EntityJoin,
                MissingCapability::SourcePeriod,
                MissingCapability::InputCoverage,
            ],
        },
        DormantView {
            lens_id: "OS-FS-027"@,
            slug: "filesystem_space"@,
            domain: Domain::Os,
            title: "Исчерпание места ФС"@,
            detects: "Точка монтирования близка к исчерпанию байтов."@,
            confidence: ConfidenceCap::High,
            missing: seq![
                MissingCapability::GaugeSamples,
                MissingCapability::EntityJoin,
                MissingCapability::IncidentLogEventInput,
                MissingCapability::SourcePeriod,
                MissingCapability::InputCoverage,
            ],
        },
        DormantView {
            lens_id: "OS-NET-028"@,
            slug: "network_errors"@,
            domain: Domain::Os,
            title: "Сетевые ошибки и ретрансмиты"@,
            detects: "Растут счётчики ошибок интерфейса и TCP-ретрансмиссий."@,
            confidence: ConfidenceCap::Low,
            missing: seq![
                MissingCapability::CounterDeltas,
                MissingCapability::PairedIntervals,
                MissingCapability::EntityJoin,
                MissingCapability::SourcePeriod,
                MissingCapability::InputCoverage,
            ],
        },
    ]
}

/// The design entries with the capabilities that each calls for.
pub fn dormant_catalog() -> (r: &'static [DormantLens])
    ensures
        views(r@) == design_entries(),
{
    let r: &'static [DormantLens] = &[
        DormantLens {
            lens_id: "PG-QRY-001",
            slug: "query_workload_shift",
            domain: Domain::Pg,
            title: "Сдвиг профиля запроса",
            detects: "У нормализованного запроса изменились частота, работа на вызов или время исполнения.",
            confidence: ConfidenceCap::Medium,
            missing: &[
                MissingCapability::CounterDeltas,
                MissingCapability::PairedIntervals,
                MissingCapability::SourcePeriod,
                MissingCapability::InputCoverage,
            ],
        },
        DormantLens {
            lens_id: "PG-PLAN-002",
            slug: "plan_change",
            domain: Domain::Pg,
            title: "Смена плана запроса",
            detects: "Деградация запроса совпала с появлением или сменой `planid`.",
            confidence: ConfidenceCap::Medium,
            missing: &[
                MissingCapability::CounterDeltas,
                MissingCapability::GaugeSamples,
                MissingCapability::StorePlansBridge,
                MissingCapability::TrackPlanningGate,
                MissingCapability::SourcePeriod,
                MissingCapability::InputCoverage,
            ],
        },
        DormantLens {
            lens_id: "PG-TEMP-003",
            slug: "temp_spill",
            domain: Domain::Pg,
            title: "Спил во временные файлы",
            detects: "Рост работы через временные блоки и файлы.",
            confidence: ConfidenceCap::Medium,
            missing: &[
                MissingCapability::CounterDeltas,
                MissingCapability::PairedIntervals,
                MissingCapability::IncidentLogEventInput,
                MissingCapability::EntityJoin,
                MissingCapability::SourcePeriod,
                MissingCapability::InputCoverage,
            ],
        },
        DormantLens {
            lens_id: "PG-ANALYZE-004",
            slug: "stale_statistics",
            domain: Domain::Pg,
            title: "Устаревшая статистика планировщика",
            detects: "`n_mod_since_analyze` высок, свежего analyze нет, план/работа поехали.",
            confidence: ConfidenceCap::Medium,
            missing: &[
                MissingCapability::GaugeSamples,
                MissingCapability::CounterDeltas,
                MissingCapability::EntityJoin,
                MissingCapability::SourcePeriod,
                MissingCapability::InputCoverage,
            ],
        },
        DormantLens {
            lens_id: "PG-VACUUM-005",
            slug: "vacuum_backlog",
            domain: Domain::Pg,
            title: "Отставание vacuum",
            detects: "Растёт долг мёртвых кортежей, cleanup не успевает.",
            confidence: ConfidenceCap::Medium,
            missing: &[
                MissingCapability::GaugeSamples,
                MissingCapability::CounterDeltas,
                MissingCapability::IncidentLogEventInput,
                MissingCapability::EntityJoin,
                MissingCapability::SourcePeriod,
                MissingCapability::InputCoverage,
            ],
        },
        DormantLens {
            lens_id: "PG-FREEZE-006",
            slug: "xid_wraparound_risk",
            domain: Domain::Pg,
            title: "Приближение wraparound XID/MXID",
            detects: "Headroom по возрасту XID/MXID тает, близко к форсированному aggressive vacuum.",
            confidence: ConfidenceCap::Medium,
            missing: &[
                MissingCapability::GaugeSamples,
                MissingCapability::IncidentLogEventInput,
                MissingCapability::EntityJoin,
                MissingCapability::SourcePeriod,
                MissingCapability::InputCoverage,
            ],
        },
        DormantLens {
            lens_id: "PG-HOT-007",
            slug: "hot_update_failure",
            domain: Domain::Pg,
            title: "Срыв HOT-обновлений",
            detects: "Доля non-HOT updates растёт вместе с работой по индексам и WAL.",
            confidence: ConfidenceCap::Medium,
            missing: &[
                MissingCapability::CounterDeltas,
                MissingCapability::PairedIntervals,
                MissingCapability::EntityJoin,
                MissingCapability::SourcePeriod,
                MissingCapability::InputCoverage,
            ],
        },
        DormantLens {
            lens_id: "PG-CHKPT-008",
            slug: "requested_checkpoints",
            domain: Domain::Pg,
            title: "Внеплановые контрольные точки",
            detects: "Растёт доля requested checkpoints и их write/sync-работа.",
            confidence: ConfidenceCap::Medium,
            missing: &[
                MissingCapability::CounterDeltas,
                MissingCapability::PairedIntervals,
                MissingCapability::IncidentLogEventInput,
                MissingCapability::SourcePeriod,
                MissingCapability::InputCoverage,
            ],
        },
        DormantLens {
            lens_id: "PG-WAL-009",
            slug: "wal_amplification",
            domain: Domain::Pg,
            title: "Раздувание WAL и FPI",
            detects: "Растут WAL bytes на запись, доля FPI, `wal_buffers_full`.",
            confidence: ConfidenceCap::Medium,
            missing: &[
                MissingCapability::CounterDeltas,
                MissingCapability::PairedIntervals,
                MissingCapability::EntityJoin,
                MissingCapability::SourcePeriod,
                MissingCapability::InputCoverage,
            ],
        },
        DormantLens {
            lens_id: "PG-CACHE-010",
            slug: "shared_buffer_misses",
            domain: Domain::Pg,
            title: "Промахи shared buffers",
            detects: "Растёт доля промахов shared buffers по базе/отношению/контексту.",
            confidence: ConfidenceCap::Medium,
            missing: &[
                MissingCapability::CounterDeltas,
                MissingCapability::PairedIntervals,
                MissingCapability::EntityJoin,
                MissingCapability::SourcePeriod,
                MissingCapability::InputCoverage,
            ],
        },
        DormantLens {
            lens_id: "PG-IO-011",
            slug: "backend_io_latency",
            domain: Domain::Pg,
            title: "Задержка I/O внутри PostgreSQL",
            detects: "Растёт время на операцию или блок (`pg_stat_io`, PG16+).",
            confidence: ConfidenceCap::Medium,
            missing: &[
                MissingCapability::CounterDeltas,
                MissingCapability::PairedIntervals,
                MissingCapability::EntityJoin,
                MissingCapability::SourcePeriod,
                MissingCapability::InputCoverage,
            ],
        },
        DormantLens {
            lens_id: "PG-LOCK-012",
            slug: "lock_wait_graph",
            domain: Domain::Pg,
            title: "Граф ожидания блокировок",
            detects: "Кто блокировал ожидающего в момент снимка (`blocked_by` из `pg_locks`).",
            confidence: ConfidenceCap::High,
            missing: &[
                MissingCapability::BlockedByEdges,
                MissingCapability::LockSnapshotCoverage,
            ],
        },
        DormantLens {
            lens_id: "PG-HORIZON-013",
            slug: "xmin_horizon_hold",
            domain: Domain::Pg,
            title: "Удержание горизонта xmin",
            detects: "Долгая или idle-in-transaction транзакция держит vacuum-горизонт.",
            confidence: ConfidenceCap::Medium,
            missing: &[
                MissingCapability::GaugeSamples,
                MissingCapability::CounterDeltas,
                MissingCapability::ActivityRows,
                MissingCapability::EntityJoin,
                MissingCapability::SourcePeriod,
                MissingCapability::InputCoverage,
            ],
        },
        DormantLens {
            lens_id: "PG-CONN-014",
            slug: "connection_saturation",
            domain: Domain::Pg,
            title: "Насыщение по соединениям",
            detects: "Backends подходят к `max_connections`, churn растёт при падении throughput.",
            confidence: ConfidenceCap::Medium,
            missing: &[
                MissingCapability::GaugeSamples,
                MissingCapability::CounterDeltas,
                MissingCapability::ActivityRows,
                MissingCapability::EntityJoin,
                MissingCapability::SourcePeriod,
                MissingCapability::InputCoverage,
            ],
        },
        DormantLens {
            lens_id: "PG-REPL-015",
            slug: "replication_lag",
            domain: Domain::Pg,
            title: "Отставание физической репликации",
            detects: "На каком LSN-этапе растёт байтовый разрыв (sent/write/flush/replay).",
            confidence: ConfidenceCap::Medium,
            missing: &[
                MissingCapability::GaugeSamples,
                MissingCapability::CounterDeltas,
                MissingCapability::EntityJoin,
                MissingCapability::SourcePeriod,
                MissingCapability::InputCoverage,
            ],
        },
        DormantLens {
            lens_id: "PG-SLOT-016",
            slug: "slot_wal_retention",
            domain: Domain::Pg,
            title: "Удержание WAL слотом репликации",
            detects: "Слот держит растущий WAL, `retained_bytes` со склоном вверх.",
            confidence: ConfidenceCap::Medium,
            missing: &[
                MissingCapability::GaugeSamples,
                MissingCapability::EntityJoin,
                MissingCapability::SourcePeriod,
                MissingCapability::InputCoverage,
            ],
        },
        DormantLens {
            lens_id: "PG-ARCH-017",
            slug: "wal_archiving_failure",
            domain: Domain::Pg,
            title: "Ошибки архивации WAL",
            detects: "Подтверждённые ошибки archive command/library (`failed_count`).",
            confidence: ConfidenceCap::Medium,
            missing: &[
                MissingCapability::CounterDeltas,
                MissingCapability::GaugeSamples,
                MissingCapability::EntityJoin,
                MissingCapability::SourcePeriod,
                MissingCapability::InputCoverage,
            ],
        },
        DormantLens {
            lens_id: "PG-SYNC-018",
            slug: "sync_replication_wait",
            domain: Domain::Pg,
            title: "Ожидание синхронной репликации",
            detects: "Backends висят на `wait_event='SyncRep'` при настроенной синхронной репликации.",
            confidence: ConfidenceCap::Medium,
            missing: &[
                MissingCapability::ActivityRows,
                MissingCapability::CounterDeltas,
                MissingCapability::EntityJoin,
                MissingCapability::SourcePeriod,
                MissingCapability::InputCoverage,
            ],
        },
        DormantLens {
            lens_id: "PG-WAIT-019",
            slug: "internal_wait_concentration",
            domain: Domain::Pg,
            title: "Концентрация внутренних ожиданий",
            detects: "Растёт доля active backends на `LWLock`/`BufferPin`/`IO` wait.",
            confidence: ConfidenceCap::Low,
            missing: &[
                MissingCapability::ActivityRows,
                MissingCapability::EntityJoin,
                MissingCapability::SourcePeriod,
                MissingCapability::InputCoverage,
            ],
        },
        DormantLens {
            lens_id: "OS-CPU-020",
            slug: "cpu_saturation",
            domain: Domain::Os,
            title: "Насыщение CPU хоста",
            detects: "Runnable pressure, iowait, steal.",
            confidence: ConfidenceCap::Medium,
            missing: &[
                MissingCapability::CounterDeltas,
                MissingCapability::PairedIntervals,
                MissingCapability::EntityJoin,
                MissingCapability::SourcePeriod,
                MissingCapability::InputCoverage,
            ],
        },
        DormantLens {
            lens_id: "OS-CGRP-021",
            slug: "cgroup_cpu_throttling",
            domain: Domain::Os,
            title: "Троттлинг CPU в cgroup",
            detects: "Реальный throttling cgroup при доступном CPU хоста.",
            confidence: ConfidenceCap::Medium,
            missing: &[
                MissingCapability::PidCgroupMapping,
                MissingCapability::CounterDeltas,
                MissingCapability::EntityJoin,
                MissingCapability::SourcePeriod,
                MissingCapability::InputCoverage,
            ],
        },
        DormantLens {
            lens_id: "OS-MEM-022",
            slug: "memory_reclaim",
            domain: Domain::Os,
            title: "Нехватка памяти хоста",
            detects: "Memory pressure, direct reclaim, swap, OOM.",
            confidence: ConfidenceCap::Medium,
            missing: &[
                MissingCapability::GaugeSamples,
                MissingCapability::CounterDeltas,
                MissingCapability::EntityJoin,
                MissingCapability::SourcePeriod,
                MissingCapability::InputCoverage,
            ],
        },
        DormantLens {
            lens_id: "OS-CGMEM-023",
            slug: "cgroup_memory_limit",
            domain: Domain::Os,
            title: "Лимит памяти cgroup",
            detects: "Достижение `memory.high`/`max`/OOM в cgroup.",
            confidence: ConfidenceCap::Medium,
            missing: &[
                MissingCapability::PidCgroupMapping,
                MissingCapability::GaugeSamples,
                MissingCapability::CounterDeltas,
                MissingCapability::EntityJoin,
                MissingCapability::SourcePeriod,
                MissingCapability::InputCoverage,
            ],
        },
        DormantLens {
            lens_id: "OS-BLOCK-024",
            slug: "block_device_latency",
            domain: Domain::Os,
            title: "Задержка блочного устройства",
            detects: "Растут время завершения и очередь устройства.",
            confidence: ConfidenceCap::Medium,
            missing: &[
                MissingCapability::CounterDeltas,
                MissingCapability::PairedIntervals,
                MissingCapability::EntityJoin,
                MissingCapability::SourcePeriod,
                MissingCapability::InputCoverage,
            ],
        },
        DormantLens {
            lens_id: "OS-WB-025",
            slug: "writeback_pressure",
            domain: Domain::Os,
            title: "Давление dirty/writeback",
            detects: "Повышенные Dirty/Writeback совпали с write/sync-задержкой PostgreSQL.",
            confidence: ConfidenceCap::Low,
            missing: &[
                MissingCapability::GaugeSamples,
                MissingCapability::CounterDeltas,
                MissingCapability::EntityJoin,
                MissingCapability::SourcePeriod,
                MissingCapability::InputCoverage,
            ],
        },
        DormantLens {
            lens_id: "OS-IOWHO-026",
            slug: "io_contender",
            domain: Domain::Os,
            title: "Внешний потребитель I/O",
            detects: "Какой процесс или cgroup нарастил block I/O рядом с давлением.",
            confidence: ConfidenceCap::Medium,
            missing: &[
                MissingCapability::CounterDeltas,
                MissingCapability::PidCgroupMapping,
                MissingCapability::EntityJoin,
                MissingCapability::SourcePeriod,
                MissingCapability::InputCoverage,
            ],
        },
        DormantLens {
            lens_id: "OS-FS-027",
            slug: "filesystem_space",
            domain: Domain::Os,
            title: "Исчерпание места ФС",
            detects: "Точка монтирования близка к исчерпанию байтов.",
            confidence: ConfidenceCap::High,
            missing: &[
                MissingCapability::GaugeSamples,
                MissingCapability::EntityJoin,
                MissingCapability::IncidentLogEventInput,
                MissingCapability::SourcePeriod,
                MissingCapability::InputCoverage,
            ],
        },
        DormantLens {
            lens_id: "OS-NET-028",
            slug: "network_errors",
            domain: Domain::Os,
            title: "Сетевые ошибки и ретрансмиты",
            detects: "Растут счётчики ошибок интерфейса и TCP-ретрансмиссий.",
            confidence: ConfidenceCap::Low,
            missing: &[
                MissingCapability::CounterDeltas,
                MissingCapability::PairedIntervals,
                MissingCapability::EntityJoin,
                MissingCapability::SourcePeriod,
                MissingCapability::InputCoverage,
            ],
        },
    ];
    proof {
        reveal(design_entries);
        assert(r@[0]@.missing =~= design_entries()[0].missing);
        assert(r@[1]@.missing =~= design_entries()[1].missing);
        assert(r@[2]@.missing =~= design_entries()[2].missing);
        assert(r@[3]@.missing =~= design_entries()[3].missing);
        assert(r@[4]@.missing =~= design_entries()[4].missing);
        assert(r@[5]@.missing =~= design_entries()[5].missing);
        assert(r@[6]@.missing =~= design_entries()[6].missing);
        assert(r@[7]@.missing =~= design_entries()[7].missing);
        assert(r@[8]@.missing =~= design_entries()[8].missing);
        assert(r@[9]@.missing =~= design_entries()[9].missing);
        assert(r@[10]@.missing =~= design_entries()[10].missing);
        assert(r@[11]@.missing =~= design_entries()[11].missing);
        assert(r@[12]@.missing =~= design_entries()[12].missing);
        assert(r@[13]@.missing =~= design_entries()[13].missing);
        assert(r@[14]@.missing =~= design_entries()[14].missing);
        assert(r@[15]@.missing =~= design_entries()[15].missing);
        assert(r@[16]@.missing =~= design_entries()[16].missing);
        assert(r@[17]@.missing =~= design_entries()[17].missing);
        assert(r@[18]@.missing =~= design_entries()[18].missing);
        assert(r@[19]@.missing =~= design_entries()[19].missing);
        assert(r@[20]@.missing =~= design_entries()[20].missing);
        assert(r@[21]@.missing =~= design_entries()[21].missing);
        assert(r@[22]@.missing =~= design_entries()[22].missing);
        assert(r@[23]@.missing =~= design_entries()[23].missing);
        assert(r@[24]@.missing =~= design_entries()[24].missing);
        assert(r@[25]@.missing =~= design_entries()[25].missing);
        assert(r@[26]@.missing =~= design_entries()[26].missing);
        assert(r@[27]@.missing =~= design_entries()[27].missing);
        assert(views(r@) =~= design_entries());
    }
    r
}

/// The lenses of the catalog that are evaluated over series.
pub fn core_catalog() -> (r: &'static [DormantLens])
    ensures
        views(r@) == design_entries(),
{
    dormant_catalog()
}

/// Whether a byte may stand in an alias.
pub open spec fn slug_byte(byte: u8) -> bool {
    (97 <= byte <= 122) || (48 <= byte <= 57) || byte == 95
}

/// Whether a text is an alias: lower-case letters, digits and underscores.
pub open spec fn valid_slug(text: Seq<char>) -> bool {
    let bytes = encode_utf8(text);
    1 <= bytes.len() <= MAX_CATALOG_TOKEN_BYTES && forall|i: int|
        0 <= i < bytes.len() ==> slug_byte(#[trigger] bytes[i])
}

pub fn slug_is_valid(value: &str) -> (r: bool)
    ensures
        r == valid_slug(value@),
{
    let bytes: &[u8] = value.as_bytes();
    if bytes.len() == 0 || bytes.len() > MAX_CATALOG_TOKEN_BYTES {
        return false;
    }
    let mut at: usize = 0;
    while at < bytes.len()
        invariant
            at <= bytes.len(),
            1 <= bytes.len() <= MAX_CATALOG_TOKEN_BYTES,
            bytes@ == encode_utf8(value@),
            forall|j: int| 0 <= j < at ==> slug_byte(#[trigger] bytes@[j]),
        decreases bytes.len() - at,
    {
        let byte: u8 = bytes[at];
        let lower: bool = 97 <= byte && byte <= 122;
        let digit: bool = 48 <= byte && byte <= 57;
        if !lower && !digit && byte != 95 {
            assert(!slug_byte(bytes@[at as int]));
            return false;
        }
        at = at + 1;
    }
    true
}

/// Whether a byte may stand in a text as it is: no control character, quote or
/// backslash.
pub open spec fn plain_byte(byte: u8) -> bool {
    byte >= 32 && byte != 127 && byte != 34 && byte != 92
}

/// Whether a text fits the catalog and needs no escapes.
pub open spec fn bounded_text(text: Seq<char>) -> bool {
    let bytes = encode_utf8(text);
    1 <= bytes.len() <= MAX_CATALOG_TEXT_BYTES && forall|i: int|
        0 <= i < bytes.len() ==> plain_byte(#[trigger] bytes[i])
}

pub fn json_text_is_bounded(value: &str) -> (r: bool)
    ensures
        r == bounded_text(value@),
{
    let bytes: &[u8] = value.as_bytes();
    if bytes.len() == 0 || bytes.len() > MAX_CATALOG_TEXT_BYTES {
        return false;
    }
    let mut at: usize = 0;
    while at < bytes.len()
        invariant
            at <= bytes.len(),
            1 <= bytes.len() <= MAX_CATALOG_TEXT_BYTES,
            bytes@ == encode_utf8(value@),
            forall|j: int| 0 <= j < at ==> plain_byte(#[trigger] bytes@[j]),
        decreases bytes.len() - at,
    {
        let byte: u8 = bytes[at];
        if byte < 32 || byte == 127 || byte == 34 || byte == 92 {
            assert(!plain_byte(bytes@[at as int]));
            return false;
        }
        at = at + 1;
    }
    true
}

/// Whether the capabilities of an entry are within their bounds and differ.
pub open spec fn valid_missing(missing: Seq<MissingCapability>) -> bool {
    &&& 1 <= missing.len() <= MAX_MISSING_PER_LENS
    &&& forall|i: int, j: int|
        0 <= i < j < missing.len() ==> #[trigger] missing[i] != #[trigger] missing[j]
}

/// Whether an entry is within its bounds.
pub open spec fn valid_entry(entry: DormantView) -> bool {
    &&& 1 <= encode_utf8(entry.lens_id).len() <= MAX_CATALOG_TOKEN_BYTES
    &&& valid_slug(entry.slug)
    &&& bounded_text(entry.title)
    &&& bounded_text(entry.detects)
    &&& valid_missing(entry.missing)
}

/// Whether two entries have different ids and aliases.
pub open spec fn entries_differ(a: DormantView, b: DormantView) -> bool {
    a.lens_id != b.lens_id && a.slug != b.slug
}

/// Whether a catalog is within its bounds and names no lens twice.
pub open spec fn valid_catalog(catalog: Seq<DormantView>) -> bool {
    &&& 1 <= catalog.len() <= MAX_DORMANT_LENSES
    &&& forall|i: int| 0 <= i < catalog.len() ==> valid_entry(#[trigger] catalog[i])
    &&& forall|i: int, j: int|
        0 <= i < j < catalog.len() ==> entries_differ(#[trigger] catalog[i], #[trigger] catalog[j])
}

fn missing_is_valid(missing: &[MissingCapability]) -> (r: bool)
    ensures
        r == valid_missing(missing@),
{
    if missing.len() == 0 || missing.len() > MAX_MISSING_PER_LENS {
        return false;
    }
    let mut at: usize = 0;
    while at < missing.len()
        invariant
            at <= missing.len(),
            1 <= missing.len() <= MAX_MISSING_PER_LENS,
            forall|i: int, j: int|
                0 <= i < j < at ==> #[trigger] missing@[i] != #[trigger] missing@[j],
        decreases missing.len() - at,
    {
        let mut previous: usize = 0;
        while previous < at
            invariant
                previous <= at,
                at < missing.len(),
                forall|i: int| 0 <= i < previous ==> #[trigger] missing@[i] != missing@[at as int],
            decreases at - previous,
        {
            if missing[previous] == missing[at] {
                assert(missing@[previous as int] == missing@[at as int]);
                return false;
            }
            previous = previous + 1;
        }
        at = at + 1;
    }
    true
}

fn entry_is_valid(entry: &DormantLens) -> (r: bool)
    ensures
        r == valid_entry(entry@),
{
    let id_bytes: usize = entry.lens_id.as_bytes().len();
    id_bytes > 0 && id_bytes <= MAX_CATALOG_TOKEN_BYTES && slug_is_valid(entry.slug)
        && json_text_is_bounded(entry.title) && json_text_is_bounded(entry.detects)
        && missing_is_valid(entry.missing)
}

/// Whether a catalog is within its bounds and names no lens twice.
pub fn catalog_is_valid(catalog: &[DormantLens]) -> (r: bool)
    ensures
        r == valid_catalog(views(catalog@)),
{
    let ghost all = views(catalog@);
    if catalog.len() == 0 || catalog.len() > MAX_DORMANT_LENSES {
        return false;
    }
    let mut at: usize = 0;
    while at < catalog.len()
        invariant
            at <= catalog.len(),
            1 <= catalog.len() <= MAX_DORMANT_LENSES,
            all == views(catalog@),
            forall|i: int| 0 <= i < at ==> valid_entry(#[trigger] all[i]),
            forall|i: int, j: int|
                0 <= i < j < at ==> entries_differ(#[trigger] all[i], #[trigger] all[j]),
        decreases catalog.len() - at,
    {
        let entry: &DormantLens = &catalog[at];
        assert(all[at as int] == entry@);
        if !entry_is_valid(entry) {
            return false;
        }
        let mut previous: usize = 0;
        while previous < at
            invariant
                previous <= at,
                at < catalog.len(),
                all == views(catalog@),
                all[at as int] == entry@,
                forall|i: int|
                    0 <= i < previous ==> entries_differ(#[trigger] all[i], all[at as int]),
            decreases at - previous,
        {
            let other: &DormantLens = &catalog[previous];
            assert(all[previous as int] == other@);
            if text_eq(other.lens_id, entry.lens_id) || text_eq(other.slug, entry.slug) {
                assert(!entries_differ(all[previous as int], all[at as int]));
                return false;
            }
            previous = previous + 1;
        }
        at = at + 1;
    }
    true
}

/// No two entries of a valid catalog share an id or an alias.
pub proof fn law_valid_catalogs_name_lenses_once(catalog: Seq<DormantView>, i: int, j: int)
    requires
        valid_catalog(catalog),
        0 <= i < catalog.len(),
        0 <= j < catalog.len(),
        catalog[i].lens_id == catalog[j].lens_id || catalog[i].slug == catalog[j].slug,
    ensures
        i == j,
{
    if i < j {
        assert(entries_differ(catalog[i], catalog[j]));
    } else if j < i {
        assert(entries_differ(catalog[j], catalog[i]));
    }
}

} // verus!
