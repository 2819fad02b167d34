//! The metadata of the catalog.

use std::collections::BTreeSet;

use kronika_incident::evidence::confidence::ConfidenceCap;
use kronika_incident::lenses::{
    catalog_is_valid, dormant_catalog, json_text_is_bounded, slug_is_valid, Domain, DormantLens,
    MissingCapability,
};

#[derive(Clone, Copy)]
enum EventDisposition {
    Standalone,
    EvidenceFor(&'static str),
    RoadmapFor(&'static str),
    Split(&'static [&'static str]),
}

struct EventCandidate {
    proposal_id: &'static str,
    disposition: EventDisposition,
}

const EVENT_CANDIDATES: &[EventCandidate] = &[
    EventCandidate {
        proposal_id: "oom_kill",
        disposition: EventDisposition::Split(&["backend_sigkill", "kernel_oom_victim"]),
    },
    EventCandidate {
        proposal_id: "backend_crash",
        disposition: EventDisposition::Standalone,
    },
    EventCandidate {
        proposal_id: "panic_shutdown",
        disposition: EventDisposition::Standalone,
    },
    EventCandidate {
        proposal_id: "disk_full_log",
        disposition: EventDisposition::EvidenceFor("OS-FS-027"),
    },
    EventCandidate {
        proposal_id: "out_of_memory_log",
        disposition: EventDisposition::Split(&[
            "pg_allocator_oom",
            "lock_table_exhaustion",
            "dsm_allocation_failure",
        ]),
    },
    EventCandidate {
        proposal_id: "connection_slots_exhausted",
        disposition: EventDisposition::EvidenceFor("PG-CONN-014"),
    },
    EventCandidate {
        proposal_id: "deadlock",
        disposition: EventDisposition::Standalone,
    },
    EventCandidate {
        proposal_id: "data_corruption_log",
        disposition: EventDisposition::Split(&[
            "checksum_page_validation_failure",
            "generic_block_io_failure",
        ]),
    },
    EventCandidate {
        proposal_id: "lock_wait_logged",
        disposition: EventDisposition::EvidenceFor("PG-LOCK-012"),
    },
    EventCandidate {
        proposal_id: "lock_timeout_log",
        disposition: EventDisposition::Standalone,
    },
    EventCandidate {
        proposal_id: "statement_timeout_log",
        disposition: EventDisposition::Standalone,
    },
    EventCandidate {
        proposal_id: "temp_file_spill_log",
        disposition: EventDisposition::EvidenceFor("PG-TEMP-003"),
    },
    EventCandidate {
        proposal_id: "slow_query_logged",
        disposition: EventDisposition::EvidenceFor("PG-QRY-001"),
    },
    EventCandidate {
        proposal_id: "serialization_failure",
        disposition: EventDisposition::Standalone,
    },
    EventCandidate {
        proposal_id: "idle_in_transaction_abort",
        disposition: EventDisposition::EvidenceFor("PG-HORIZON-013"),
    },
    EventCandidate {
        proposal_id: "checkpoint_too_frequent",
        disposition: EventDisposition::EvidenceFor("PG-CHKPT-008"),
    },
    EventCandidate {
        proposal_id: "aggressive_autovacuum_wraparound",
        disposition: EventDisposition::RoadmapFor("PG-FREEZE-006"),
    },
    EventCandidate {
        proposal_id: "autovacuum_cancel",
        disposition: EventDisposition::EvidenceFor("PG-VACUUM-005"),
    },
    EventCandidate {
        proposal_id: "auth_password_failures",
        disposition: EventDisposition::Standalone,
    },
    EventCandidate {
        proposal_id: "pg_hba_rejections",
        disposition: EventDisposition::Standalone,
    },
    EventCandidate {
        proposal_id: "permission_denied_burst",
        disposition: EventDisposition::Standalone,
    },
    EventCandidate {
        proposal_id: "connection_storm_log",
        disposition: EventDisposition::RoadmapFor("PG-CONN-014"),
    },
    EventCandidate {
        proposal_id: "archive_command_failure",
        disposition: EventDisposition::RoadmapFor("PG-ARCH-017"),
    },
    EventCandidate {
        proposal_id: "replication_disconnect",
        disposition: EventDisposition::Split(&[
            "walsender_timeout",
            "walreceiver_timeout_or_receive_failure",
        ]),
    },
    EventCandidate {
        proposal_id: "recovery_conflict",
        disposition: EventDisposition::Standalone,
    },
    EventCandidate {
        proposal_id: "wal_integrity_log",
        disposition: EventDisposition::Split(&["validated_wal_failure", "normal_local_end_of_wal"]),
    },
];

const EXPECTED_LENSES: [(&str, &str); 28] = [
    ("PG-QRY-001", "query_workload_shift"),
    ("PG-PLAN-002", "plan_change"),
    ("PG-TEMP-003", "temp_spill"),
    ("PG-ANALYZE-004", "stale_statistics"),
    ("PG-VACUUM-005", "vacuum_backlog"),
    ("PG-FREEZE-006", "xid_wraparound_risk"),
    ("PG-HOT-007", "hot_update_failure"),
    ("PG-CHKPT-008", "requested_checkpoints"),
    ("PG-WAL-009", "wal_amplification"),
    ("PG-CACHE-010", "shared_buffer_misses"),
    ("PG-IO-011", "backend_io_latency"),
    ("PG-LOCK-012", "lock_wait_graph"),
    ("PG-HORIZON-013", "xmin_horizon_hold"),
    ("PG-CONN-014", "connection_saturation"),
    ("PG-REPL-015", "replication_lag"),
    ("PG-SLOT-016", "slot_wal_retention"),
    ("PG-ARCH-017", "wal_archiving_failure"),
    ("PG-SYNC-018", "sync_replication_wait"),
    ("PG-WAIT-019", "internal_wait_concentration"),
    ("OS-CPU-020", "cpu_saturation"),
    ("OS-CGRP-021", "cgroup_cpu_throttling"),
    ("OS-MEM-022", "memory_reclaim"),
    ("OS-CGMEM-023", "cgroup_memory_limit"),
    ("OS-BLOCK-024", "block_device_latency"),
    ("OS-WB-025", "writeback_pressure"),
    ("OS-IOWHO-026", "io_contender"),
    ("OS-FS-027", "filesystem_space"),
    ("OS-NET-028", "network_errors"),
];

fn fixture(
    lens_id: &'static str,
    slug: &'static str,
    missing: &'static [MissingCapability],
) -> DormantLens {
    DormantLens {
        lens_id,
        slug,
        domain: Domain::Pg,
        title: "title",
        detects: "detects",
        confidence: ConfidenceCap::Medium,
        missing,
    }
}

#[test]
fn stable_ids_keep_their_readable_aliases() {
    let actual: Vec<_> = dormant_catalog()
        .iter()
        .map(|lens| (lens.lens_id(), lens.slug()))
        .collect();
    assert_eq!(actual, EXPECTED_LENSES);
}

#[test]
fn domain_and_capability_strings_are_stable() {
    assert_eq!(Domain::Pg.as_str(), "pg");
    assert_eq!(Domain::Os.as_str(), "os");
    assert_eq!(
        MissingCapability::IncidentLogEventInput.as_str(),
        "incident_log_event_input"
    );
}

#[test]
fn duplicate_ids_and_aliases_are_invalid() {
    let duplicate_id = [
        fixture("PG-A", "first", &[MissingCapability::BlockedByEdges]),
        fixture("PG-A", "second", &[MissingCapability::LockSnapshotCoverage]),
    ];
    let duplicate_slug = [
        fixture("PG-A", "same", &[MissingCapability::BlockedByEdges]),
        fixture("PG-B", "same", &[MissingCapability::LockSnapshotCoverage]),
    ];
    assert!(!catalog_is_valid(&duplicate_id));
    assert!(!catalog_is_valid(&duplicate_slug));
}

#[test]
fn static_bounds_cover_missing_tokens_and_text() {
    let too_many = [fixture(
        "PG-A",
        "first",
        &[
            MissingCapability::CounterDeltas,
            MissingCapability::GaugeSamples,
            MissingCapability::PairedIntervals,
            MissingCapability::SourcePeriod,
            MissingCapability::InputCoverage,
            MissingCapability::EntityJoin,
            MissingCapability::ActivityRows,
        ],
    )];
    let duplicate = [fixture(
        "PG-A",
        "first",
        &[MissingCapability::BlockedByEdges, MissingCapability::BlockedByEdges],
    )];
    assert!(!catalog_is_valid(&too_many));
    assert!(!catalog_is_valid(&duplicate));
    assert!(!slug_is_valid("Not_Snake_Case"));
    assert!(!json_text_is_bounded("raw \\\"quoted\\\" text"));
}

#[test]
fn lock_requirements_preserve_the_structural_contract() {
    let lock = dormant_catalog()
        .iter()
        .find(|lens| lens.lens_id() == "PG-LOCK-012")
        .expect("lock catalog entry");
    let requirements: Vec<_> = lock
        .missing()
        .iter()
        .map(|capability| capability.as_str())
        .collect();
    assert_eq!(
        requirements,
        ["sampled_blocked_by_edges", "lock_snapshot_coverage"]
    );
}

#[test]
fn proposal_event_candidates_are_accounted_once() {
    let expected = [
        "oom_kill",
        "backend_crash",
        "panic_shutdown",
        "disk_full_log",
        "out_of_memory_log",
        "connection_slots_exhausted",
        "deadlock",
        "data_corruption_log",
        "lock_wait_logged",
        "lock_timeout_log",
        "statement_timeout_log",
        "temp_file_spill_log",
        "slow_query_logged",
        "serialization_failure",
        "idle_in_transaction_abort",
        "checkpoint_too_frequent",
        "aggressive_autovacuum_wraparound",
        "autovacuum_cancel",
        "auth_password_failures",
        "pg_hba_rejections",
        "permission_denied_burst",
        "connection_storm_log",
        "archive_command_failure",
        "replication_disconnect",
        "recovery_conflict",
        "wal_integrity_log",
    ];
    let actual: Vec<_> = EVENT_CANDIDATES
        .iter()
        .map(|candidate| candidate.proposal_id)
        .collect();
    assert_eq!(actual, expected);
    assert_eq!(actual.iter().copied().collect::<BTreeSet<_>>().len(), 26);
}

#[test]
fn event_evidence_targets_existing_metric_lenses() {
    let metric_ids: BTreeSet<_> = dormant_catalog().iter().map(DormantLens::lens_id).collect();
    let mut split_facts = BTreeSet::new();
    for candidate in EVENT_CANDIDATES {
        match candidate.disposition {
            EventDisposition::Standalone => {}
            EventDisposition::EvidenceFor(id) | EventDisposition::RoadmapFor(id) => {
                assert!(metric_ids.contains(id), "unknown target `{id}`");
            }
            EventDisposition::Split(facts) => {
                assert!(facts.len() >= 2);
                for fact in facts {
                    assert!(split_facts.insert(*fact), "duplicate split fact `{fact}`");
                }
            }
        }
    }
}

#[test]
fn public_metadata_contains_no_raw_sensitive_examples() {
    const FORBIDDEN: &[&str] = &[
        "select ",
        "password=",
        "postgresql://",
        "/var/",
        "archive_command=",
        "192.168.",
    ];
    for lens in dormant_catalog() {
        let text = format!("{} {}", lens.title(), lens.detects()).to_lowercase();
        for marker in FORBIDDEN {
            assert!(!text.contains(marker), "sensitive marker `{marker}`");
        }
    }
}
