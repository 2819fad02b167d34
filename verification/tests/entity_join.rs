//! Joins of entities across sections.

use kronika_incident::entity_join::{
    EntityDomain, EntityJoinActivation, EntityJoinIndex, EntityJoinInsert, EntityJoinKey, EntityName,
    EntityScope, TypedEntityIdentity,
};

fn scope(source_id: u64, node_self_id: &str) -> EntityScope<'_> {
    EntityScope::new(source_id, node_self_id).expect("non-empty node identity")
}

fn backend(snapshot: i64, pid: i64, backend_start: i64) -> EntityJoinKey {
    EntityJoinKey::shared_snapshot(
        snapshot,
        snapshot,
        TypedEntityIdentity::postgres_backend_session(pid, backend_start)
            .expect("valid backend session"),
    )
}

#[test]
fn activation_requirements_have_stable_machine_ids() {
    let actual = [
        EntityJoinActivation::SharedSnapshot,
        EntityJoinActivation::SnapshotRelation,
        EntityJoinActivation::LifetimeMapping,
    ]
    .map(|activation| {
        (
            activation.producer(),
            activation.provenance(),
            activation.coverage(),
        )
    });
    assert_eq!(
        actual,
        [
            (
                "shared_snapshot_producer",
                "shared_snapshot_token",
                "both_inputs_complete",
            ),
            (
                "typed_relation_producer",
                "snapshot_scoped_relation",
                "relation_and_inputs_complete",
            ),
            (
                "stored_mapping_producer",
                "overlapping_lifetime_mapping",
                "mapping_and_inputs_complete",
            ),
        ]
    );
}

#[test]
fn exact_scoped_snapshot_session_join_is_observable_and_ordered() {
    let request = scope(7, "node-a");
    let key = backend(100, 42, 10);
    let mut index = EntityJoinIndex::new(request, 2);
    assert_eq!(index.insert(key.clone(), 9), EntityJoinInsert::Inserted);
    assert_eq!(index.insert(key.clone(), 3), EntityJoinInsert::Inserted);
    assert_eq!(
        index
            .matches(request, &key)
            .expect("exact join")
            .iter()
            .copied()
            .collect::<Vec<_>>(),
        [3, 9]
    );
}

#[test]
fn zero_relation_limit_rejects_without_creating_a_lookup_entry() {
    let request = scope(7, "node-a");
    let key = backend(100, 42, 10);
    let mut index = EntityJoinIndex::new(request, 0);
    assert_eq!(
        index.insert(key.clone(), 9),
        EntityJoinInsert::LimitExceeded {
            observed: 1,
            limit: 0,
        }
    );
    assert!(index.matches(request, &key).is_none());
}

#[test]
fn equal_numbers_in_other_names_or_domains_do_not_join() {
    let request = scope(7, "node-a");
    let relation = EntityJoinKey::shared_snapshot(
        100,
        100,
        TypedEntityIdentity::scalar(EntityDomain::Postgres, EntityName::Relation, 42),
    );
    let database = EntityJoinKey::shared_snapshot(
        100,
        100,
        TypedEntityIdentity::scalar(EntityDomain::Postgres, EntityName::Database, 42),
    );
    let process = EntityJoinKey::shared_snapshot(
        100,
        100,
        TypedEntityIdentity::scalar(EntityDomain::Linux, EntityName::Process, 42),
    );
    let mut index = EntityJoinIndex::new(request, 1);
    assert_eq!(index.insert(relation, 1), EntityJoinInsert::Inserted);
    assert!(index.matches(request, &database).is_none());
    assert!(index.matches(request, &process).is_none());
}

#[test]
fn source_node_snapshot_time_and_lifetime_are_part_of_the_match() {
    let request = scope(7, "node-a");
    let key = backend(100, 42, 10);
    let mut index = EntityJoinIndex::new(request, 1);
    assert_eq!(index.insert(key.clone(), 1), EntityJoinInsert::Inserted);
    assert!(index.matches(scope(8, "node-a"), &key).is_none());
    assert!(index.matches(scope(7, "node-b"), &key).is_none());
    assert!(index.matches(request, &backend(101, 42, 10)).is_none());
    assert!(index.matches(request, &backend(100, 42, 11)).is_none());

    let same_token_other_time = EntityJoinKey::shared_snapshot(
        100,
        101,
        TypedEntityIdentity::postgres_backend_session(42, 10).expect("valid session"),
    );
    assert!(index.matches(request, &same_token_other_time).is_none());
}

#[test]
fn oid_reuse_requires_a_new_snapshot_provenance() {
    let request = scope(7, "node-a");
    let relation = |snapshot| {
        EntityJoinKey::shared_snapshot(
            snapshot,
            snapshot,
            TypedEntityIdentity::scalar(EntityDomain::Postgres, EntityName::Relation, 42),
        )
    };
    let mut index = EntityJoinIndex::new(request, 1);
    assert_eq!(index.insert(relation(100), 1), EntityJoinInsert::Inserted);
    assert!(index.matches(request, &relation(200)).is_none());
}

#[test]
fn invalid_or_missing_backend_identity_cannot_form_a_key() {
    assert!(TypedEntityIdentity::postgres_backend_session(0, 1).is_none());
    assert!(TypedEntityIdentity::postgres_backend_session(1, 0).is_none());
    assert!(TypedEntityIdentity::postgres_backend_session(-1, 1).is_none());
    assert!(EntityScope::new(7, "").is_none());
}

#[test]
fn duplicate_relations_do_not_consume_the_bound() {
    let request = scope(7, "node-a");
    let key = backend(100, 42, 10);
    let mut index = EntityJoinIndex::new(request, 1);
    assert_eq!(index.insert(key.clone(), 9), EntityJoinInsert::Inserted);
    assert_eq!(index.insert(key.clone(), 9), EntityJoinInsert::Duplicate);
    assert_eq!(
        index.insert(key, 10),
        EntityJoinInsert::LimitExceeded {
            observed: 2,
            limit: 1,
        }
    );
    assert_eq!(
        index
            .matches(request, &backend(100, 42, 10))
            .expect("first admitted relation")
            .iter()
            .copied()
            .collect::<Vec<_>>(),
        [9]
    );
}

#[test]
fn relation_count_overflow_is_rejected() {
    let request = scope(7, "node-a");
    let mut index = EntityJoinIndex::new(request, usize::MAX);
    index.relation_count = usize::MAX;
    let key = backend(100, 42, 10);
    assert_eq!(
        index.insert(key.clone(), 9),
        EntityJoinInsert::LimitExceeded {
            observed: usize::MAX,
            limit: usize::MAX,
        }
    );
    assert!(index.matches(request, &key).is_none());
}
