//! Typed, request-scoped joins of entities across sections.

use crate::order::{
    ints, key_of, lemma_lex_prefix, lemma_lex_total, lex_less, ranked_sort, Keyed, Ranked,
};
use crate::ordered::{
    contents, extended, is_listing, lemma_listing, lemma_listing_extended, lemma_named, listing,
    names, ranks_ascend, well_formed, MapEntry, OrderedMap,
};
use crate::text::{push_int, text_eq};
use vstd::prelude::*;

verus! {

/// Where an entity lives.
#[derive(Debug, Clone, Copy, PartialEq, Eq, PartialOrd, Ord, Structural)]
pub enum EntityDomain {
    Postgres,
    Linux,
}

/// What kind of entity it is.
#[derive(Debug, Clone, Copy, PartialEq, Eq, PartialOrd, Ord, Structural)]
pub enum EntityName {
    BackendSession,
    Relation,
    Database,
    Process,
}

/// What a join rests on.
#[derive(Debug, Clone, Copy, PartialEq, Eq, Structural)]
pub enum EntityJoinActivation {
    /// Both input families carry one shared snapshot token that their producer
    /// proved.
    SharedSnapshot,
    /// One bounded producer row stores both typed identities and its snapshot.
    SnapshotRelation,
    /// A bounded mapping stores both typed identities and an overlap interval.
    LifetimeMapping,
}

impl EntityJoinActivation {
    pub fn producer(self) -> (r: &'static str)
        ensures
            r@ == match self {
                EntityJoinActivation::SharedSnapshot => "shared_snapshot_producer"@,
                EntityJoinActivation::SnapshotRelation => "typed_relation_producer"@,
                EntityJoinActivation::LifetimeMapping => "stored_mapping_producer"@,
            },
    {
        match self {
            EntityJoinActivation::SharedSnapshot => "shared_snapshot_producer",
            EntityJoinActivation::SnapshotRelation => "typed_relation_producer",
            EntityJoinActivation::LifetimeMapping => "stored_mapping_producer",
        }
    }

    pub fn provenance(self) -> (r: &'static str)
        ensures
            r@ == match self {
                EntityJoinActivation::SharedSnapshot => "shared_snapshot_token"@,
                EntityJoinActivation::SnapshotRelation => "snapshot_scoped_relation"@,
                EntityJoinActivation::LifetimeMapping => "overlapping_lifetime_mapping"@,
            },
    {
        match self {
            EntityJoinActivation::SharedSnapshot => "shared_snapshot_token",
            EntityJoinActivation::SnapshotRelation => "snapshot_scoped_relation",
            EntityJoinActivation::LifetimeMapping => "overlapping_lifetime_mapping",
        }
    }

    pub fn coverage(self) -> (r: &'static str)
        ensures
            r@ == match self {
                EntityJoinActivation::SharedSnapshot => "both_inputs_complete"@,
                EntityJoinActivation::SnapshotRelation => "relation_and_inputs_complete"@,
                EntityJoinActivation::LifetimeMapping => "mapping_and_inputs_complete"@,
            },
    {
        match self {
            EntityJoinActivation::SharedSnapshot => "both_inputs_complete",
            EntityJoinActivation::SnapshotRelation => "relation_and_inputs_complete",
            EntityJoinActivation::LifetimeMapping => "mapping_and_inputs_complete",
        }
    }
}

/// The producer and coverage work required before one cross-section branch can
/// claim an entity relation.
#[derive(Debug, Clone, Copy, PartialEq, Eq, Structural)]
pub enum EntityJoinContract {
    QueryDatabaseTemp,
    RelationQueryPlan,
    RelationVacuum,
    RelationVacuumHorizon,
    RelationIndexWal,
    QueryWalCheckpoint,
    RelationQueryCache,
    PgIoBlockDevice,
    BackendRelationHorizon,
    DatabaseBackend,
    ReplicationWal,
    SlotFilesystem,
    ArchiveFilesystem,
    BackendReplication,
    ActivityLockWaiter,
    HostPgCpu,
    BackendCgroupCpu,
    HostPgMemory,
    BackendCgroupMemory,
    PgStorageBlockDevice,
    WriterBlockDevice,
    ProcessCgroupDevice,
    PgStorageFilesystem,
    PgEndpointNetwork,
}

impl EntityJoinContract {
    pub fn as_str(self) -> (r: &'static str)
        ensures
            r@ == match self {
                EntityJoinContract::QueryDatabaseTemp => "query_database_temp"@,
                EntityJoinContract::RelationQueryPlan => "relation_query_plan"@,
                EntityJoinContract::RelationVacuum => "relation_vacuum"@,
                EntityJoinContract::RelationVacuumHorizon => "relation_vacuum_horizon"@,
                EntityJoinContract::RelationIndexWal => "relation_index_wal"@,
                EntityJoinContract::QueryWalCheckpoint => "query_wal_checkpoint"@,
                EntityJoinContract::RelationQueryCache => "relation_query_cache"@,
                EntityJoinContract::PgIoBlockDevice => "pg_io_block_device"@,
                EntityJoinContract::BackendRelationHorizon => "backend_relation_horizon"@,
                EntityJoinContract::DatabaseBackend => "database_backend"@,
                EntityJoinContract::ReplicationWal => "replication_wal"@,
                EntityJoinContract::SlotFilesystem => "slot_filesystem"@,
                EntityJoinContract::ArchiveFilesystem => "archive_filesystem"@,
                EntityJoinContract::BackendReplication => "backend_replication"@,
                EntityJoinContract::ActivityLockWaiter => "activity_lock_waiter"@,
                EntityJoinContract::HostPgCpu => "host_pg_cpu"@,
                EntityJoinContract::BackendCgroupCpu => "backend_cgroup_cpu"@,
                EntityJoinContract::HostPgMemory => "host_pg_memory"@,
                EntityJoinContract::BackendCgroupMemory => "backend_cgroup_memory"@,
                EntityJoinContract::PgStorageBlockDevice => "pg_storage_block_device"@,
                EntityJoinContract::WriterBlockDevice => "writer_block_device"@,
                EntityJoinContract::ProcessCgroupDevice => "process_cgroup_device"@,
                EntityJoinContract::PgStorageFilesystem => "pg_storage_filesystem"@,
                EntityJoinContract::PgEndpointNetwork => "pg_endpoint_network"@,
            },
    {
        match self {
            EntityJoinContract::QueryDatabaseTemp => "query_database_temp",
            EntityJoinContract::RelationQueryPlan => "relation_query_plan",
            EntityJoinContract::RelationVacuum => "relation_vacuum",
            EntityJoinContract::RelationVacuumHorizon => "relation_vacuum_horizon",
            EntityJoinContract::RelationIndexWal => "relation_index_wal",
            EntityJoinContract::QueryWalCheckpoint => "query_wal_checkpoint",
            EntityJoinContract::RelationQueryCache => "relation_query_cache",
            EntityJoinContract::PgIoBlockDevice => "pg_io_block_device",
            EntityJoinContract::BackendRelationHorizon => "backend_relation_horizon",
            EntityJoinContract::DatabaseBackend => "database_backend",
            EntityJoinContract::ReplicationWal => "replication_wal",
            EntityJoinContract::SlotFilesystem => "slot_filesystem",
            EntityJoinContract::ArchiveFilesystem => "archive_filesystem",
            EntityJoinContract::BackendReplication => "backend_replication",
            EntityJoinContract::ActivityLockWaiter => "activity_lock_waiter",
            EntityJoinContract::HostPgCpu => "host_pg_cpu",
            EntityJoinContract::BackendCgroupCpu => "backend_cgroup_cpu",
            EntityJoinContract::HostPgMemory => "host_pg_memory",
            EntityJoinContract::BackendCgroupMemory => "backend_cgroup_memory",
            EntityJoinContract::PgStorageBlockDevice => "pg_storage_block_device",
            EntityJoinContract::WriterBlockDevice => "writer_block_device",
            EntityJoinContract::ProcessCgroupDevice => "process_cgroup_device",
            EntityJoinContract::PgStorageFilesystem => "pg_storage_filesystem",
            EntityJoinContract::PgEndpointNetwork => "pg_endpoint_network",
        }
    }

    /// What the join of a contract rests on.
    pub open spec fn rests_on(self) -> EntityJoinActivation {
        match self {
            EntityJoinContract::ActivityLockWaiter => EntityJoinActivation::SharedSnapshot,
            EntityJoinContract::QueryDatabaseTemp
            | EntityJoinContract::RelationQueryPlan
            | EntityJoinContract::RelationVacuum
            | EntityJoinContract::RelationVacuumHorizon
            | EntityJoinContract::RelationIndexWal
            | EntityJoinContract::QueryWalCheckpoint
            | EntityJoinContract::RelationQueryCache
            | EntityJoinContract::BackendRelationHorizon
            | EntityJoinContract::DatabaseBackend
            | EntityJoinContract::ReplicationWal
            | EntityJoinContract::BackendReplication => EntityJoinActivation::SnapshotRelation,
            EntityJoinContract::PgIoBlockDevice
            | EntityJoinContract::SlotFilesystem
            | EntityJoinContract::ArchiveFilesystem
            | EntityJoinContract::HostPgCpu
            | EntityJoinContract::BackendCgroupCpu
            | EntityJoinContract::HostPgMemory
            | EntityJoinContract::BackendCgroupMemory
            | EntityJoinContract::PgStorageBlockDevice
            | EntityJoinContract::WriterBlockDevice
            | EntityJoinContract::ProcessCgroupDevice
            | EntityJoinContract::PgStorageFilesystem
            | EntityJoinContract::PgEndpointNetwork => EntityJoinActivation::LifetimeMapping,
        }
    }

    pub fn activation(self) -> (r: EntityJoinActivation)
        ensures
            r == self.rests_on(),
    {
        match self {
            EntityJoinContract::ActivityLockWaiter => EntityJoinActivation::SharedSnapshot,
            EntityJoinContract::QueryDatabaseTemp
            | EntityJoinContract::RelationQueryPlan
            | EntityJoinContract::RelationVacuum
            | EntityJoinContract::RelationVacuumHorizon
            | EntityJoinContract::RelationIndexWal
            | EntityJoinContract::QueryWalCheckpoint
            | EntityJoinContract::RelationQueryCache
            | EntityJoinContract::BackendRelationHorizon
            | EntityJoinContract::DatabaseBackend
            | EntityJoinContract::ReplicationWal
            | EntityJoinContract::BackendReplication => EntityJoinActivation::SnapshotRelation,
            EntityJoinContract::PgIoBlockDevice
            | EntityJoinContract::SlotFilesystem
            | EntityJoinContract::ArchiveFilesystem
            | EntityJoinContract::HostPgCpu
            | EntityJoinContract::BackendCgroupCpu
            | EntityJoinContract::HostPgMemory
            | EntityJoinContract::BackendCgroupMemory
            | EntityJoinContract::PgStorageBlockDevice
            | EntityJoinContract::WriterBlockDevice
            | EntityJoinContract::ProcessCgroupDevice
            | EntityJoinContract::PgStorageFilesystem
            | EntityJoinContract::PgEndpointNetwork => EntityJoinActivation::LifetimeMapping,
        }
    }
}

/// The source and the node that a join is about.
#[derive(Debug, Clone, Copy, PartialEq, Eq)]
pub struct EntityScope<'a> {
    pub source_id: u64,
    pub node_self_id: &'a str,
}

/// The mathematical value of a scope.
#[verifier::ext_equal]
pub struct EntityScopeView {
    pub source_id: u64,
    pub node_self_id: Seq<char>,
}

impl<'a> View for EntityScope<'a> {
    type V = EntityScopeView;

    open spec fn view(&self) -> EntityScopeView {
        EntityScopeView { source_id: self.source_id, node_self_id: self.node_self_id@ }
    }
}

impl<'a> EntityScope<'a> {
    /// A scope, unless the node has no name.
    pub fn new(source_id: u64, node_self_id: &'a str) -> (r: Option<Self>)
        ensures
            match r {
                Some(scope) => node_self_id@.len() > 0 && scope@ == (EntityScopeView {
                    source_id,
                    node_self_id: node_self_id@,
                }),
                None => node_self_id@.len() == 0,
            },
    {
        if text_eq(node_self_id, "") {
            proof {
                reveal_strlit("");
            }
            None
        } else {
            proof {
                reveal_strlit("");
                if node_self_id@.len() == 0 {
                    assert(node_self_id@ =~= ""@);
                }
            }
            Some(EntityScope { source_id, node_self_id })
        }
    }

    pub fn matches(self, other: EntityScope<'_>) -> (r: bool)
        ensures
            r == (self@ == other@),
    {
        self.source_id == other.source_id && text_eq(self.node_self_id, other.node_self_id)
    }
}

/// The numbers of an entity.
#[derive(Debug, Clone, Copy, PartialEq, Eq, PartialOrd, Ord, Structural)]
pub enum EntityValue {
    I64Pair(i64, i64),
    I64(i64),
}

/// An entity of one kind in one domain.
#[derive(Debug, Clone, Copy, PartialEq, Eq, PartialOrd, Ord, Structural)]
pub struct TypedEntityIdentity {
    pub domain: EntityDomain,
    pub name: EntityName,
    pub value: EntityValue,
}

impl TypedEntityIdentity {
    /// A backend session, unless its numbers cannot name one.
    pub fn postgres_backend_session(pid: i64, backend_start: i64) -> (r: Option<Self>)
        ensures
            r == if pid > 0 && backend_start > 0 {
                Some(
                    TypedEntityIdentity {
                        domain: EntityDomain::Postgres,
                        name: EntityName::BackendSession,
                        value: EntityValue::I64Pair(pid, backend_start),
                    },
                )
            } else {
                None
            },
    {
        if pid <= 0 || backend_start <= 0 {
            return None;
        }
        Some(
            TypedEntityIdentity {
                domain: EntityDomain::Postgres,
                name: EntityName::BackendSession,
                value: EntityValue::I64Pair(pid, backend_start),
            },
        )
    }

    /// An entity with one number.
    pub fn scalar(domain: EntityDomain, name: EntityName, value: i64) -> (r: Self)
        ensures
            r == (TypedEntityIdentity { domain, name, value: EntityValue::I64(value) }),
    {
        TypedEntityIdentity { domain, name, value: EntityValue::I64(value) }
    }
}

/// An entity in one snapshot.
#[derive(Debug, Clone, Copy, PartialEq, Eq, PartialOrd, Ord, Structural)]
pub struct EntityJoinKey {
    pub snapshot_token: i64,
    pub observed_at_us: i64,
    pub identity: TypedEntityIdentity,
}

impl EntityJoinKey {
    pub fn shared_snapshot(
        snapshot_token: i64,
        observed_at_us: i64,
        identity: TypedEntityIdentity,
    ) -> (r: Self)
        ensures
            r == (EntityJoinKey { snapshot_token, observed_at_us, identity }),
    {
        EntityJoinKey { snapshot_token, observed_at_us, identity }
    }
}

/// A key with one of its related ids.
#[derive(Debug, Clone, Copy, PartialEq, Eq, Structural)]
pub struct Relation {
    pub key: EntityJoinKey,
    pub related_id: i64,
}

impl View for Relation {
    type V = Relation;

    open spec fn view(&self) -> Relation {
        *self
    }
}

impl EntityDomain {
    pub open spec fn place(self) -> int {
        match self {
            EntityDomain::Postgres => 0,
            EntityDomain::Linux => 1,
        }
    }

    /// The place of the domain in the order of relations.
    pub fn number(self) -> (r: i128)
        ensures
            r == self.place(),
    {
        match self {
            EntityDomain::Postgres => 0,
            EntityDomain::Linux => 1,
        }
    }
}

impl EntityName {
    pub open spec fn place(self) -> int {
        match self {
            EntityName::BackendSession => 0,
            EntityName::Relation => 1,
            EntityName::Database => 2,
            EntityName::Process => 3,
        }
    }

    /// The place of the kind in the order of relations.
    pub fn number(self) -> (r: i128)
        ensures
            r == self.place(),
    {
        match self {
            EntityName::BackendSession => 0,
            EntityName::Relation => 1,
            EntityName::Database => 2,
            EntityName::Process => 3,
        }
    }
}

impl EntityValue {
    /// The variant and the numbers, a missing one as zero.
    pub open spec fn parts(self) -> (int, int, int) {
        match self {
            EntityValue::I64Pair(a, b) => (0, a as int, b as int),
            EntityValue::I64(a) => (1, a as int, 0),
        }
    }
}

/// Relations order by key, then by related id.
impl Ranked for Relation {
    open spec fn rank(self) -> Seq<int> {
        let id = self.key.identity;
        seq![
            self.key.snapshot_token as int,
            self.key.observed_at_us as int,
            id.domain.place(),
            id.name.place(),
            id.value.parts().0,
            id.value.parts().1,
            id.value.parts().2,
            self.related_id as int,
        ]
    }

    proof fn rank_splits(a: Self, b: Self, x: Seq<int>, y: Seq<int>) {
        let left = a.rank() + x;
        let right = b.rank() + y;
        assert forall|i: int| 0 <= i < 8 implies #[trigger] a.rank()[i] == b.rank()[i] by {
            assert(left[i] == a.rank()[i] && right[i] == b.rank()[i]);
        }
        lemma_rank_parts(a, b);
        assert(x =~= left.skip(8));
        assert(y =~= right.skip(8));
    }
}

proof fn lemma_rank_parts(a: Relation, b: Relation)
    requires
        forall|i: int| 0 <= i < 8 ==> #[trigger] a.rank()[i] == b.rank()[i],
    ensures
        a == b,
{
    assert(a.rank()[0] == b.rank()[0]);
    assert(a.rank()[1] == b.rank()[1]);
    assert(a.rank()[2] == b.rank()[2]);
    assert(a.rank()[3] == b.rank()[3]);
    assert(a.rank()[4] == b.rank()[4]);
    assert(a.rank()[5] == b.rank()[5]);
    assert(a.rank()[6] == b.rank()[6]);
    assert(a.rank()[7] == b.rank()[7]);
    assert(a.key.identity.domain == b.key.identity.domain);
    assert(a.key.identity.name == b.key.identity.name);
    assert(a.key.identity.value == b.key.identity.value);
}

impl Keyed<Relation> for Relation {
    fn key_into(&self, out: &mut Vec<i128>) {
        let ghost start = ints(out@);
        push_int(out, self.key.snapshot_token as i128);
        push_int(out, self.key.observed_at_us as i128);
        push_int(out, self.key.identity.domain.number());
        push_int(out, self.key.identity.name.number());
        match self.key.identity.value {
            EntityValue::I64Pair(a, b) => {
                push_int(out, 0);
                push_int(out, a as i128);
                push_int(out, b as i128);
            },
            EntityValue::I64(a) => {
                push_int(out, 1);
                push_int(out, a as i128);
                push_int(out, 0);
            },
        }
        push_int(out, self.related_id as i128);
        proof {
            assert(ints(out@) =~= start + self@.rank());
        }
    }
}

/// What became of a relation.
#[derive(Debug, Clone, Copy, PartialEq, Eq, Structural)]
pub enum EntityJoinInsert {
    Inserted,
    Duplicate,
    LimitExceeded { observed: usize, limit: usize },
}

/// Exact-key index bounded by the number of already-admitted input relations.
pub struct EntityJoinIndex<'scope> {
    scope: EntityScope<'scope>,
    entries: OrderedMap<Relation, ()>,
    /// Relations counted against the limit.
    pub relation_count: usize,
    relation_limit: usize,
}

/// The mathematical value of an index.
#[verifier::ext_equal]
pub struct EntityJoinView {
    pub scope: EntityScopeView,
    pub relations: Set<Relation>,
    pub relation_count: usize,
    pub relation_limit: usize,
}

impl<'scope> View for EntityJoinIndex<'scope> {
    type V = EntityJoinView;

    closed spec fn view(&self) -> EntityJoinView {
        EntityJoinView {
            scope: self.scope@,
            relations: contents::<Relation, Relation, ()>(self.entries.entries@).dom(),
            relation_count: self.relation_count,
            relation_limit: self.relation_limit,
        }
    }
}

impl EntityJoinView {
    /// Whether the count is that of the relations, within the limit.
    pub open spec fn counted(self) -> bool {
        self.relations.finite() && self.relation_count == self.relations.len()
            && self.relation_count <= self.relation_limit
    }

    /// The ids related to a key.
    pub open spec fn related(self, key: EntityJoinKey) -> spec_fn(i64) -> bool {
        related_in(self.relations, key)
    }

    /// The ids related to a key, in order, for the scope of the index. A key
    /// without a relation has none.
    pub open spec fn found(self, scope: EntityScopeView, key: EntityJoinKey) -> Option<Seq<i64>> {
        if self.scope == scope && listing(self.related(key)).len() > 0 {
            Some(listing(self.related(key)))
        } else {
            None
        }
    }

    /// What becomes of a relation.
    pub open spec fn verdict(self, relation: Relation) -> EntityJoinInsert {
        if self.relations.contains(relation) {
            EntityJoinInsert::Duplicate
        } else if self.relation_count == usize::MAX {
            EntityJoinInsert::LimitExceeded { observed: usize::MAX, limit: self.relation_limit }
        } else if self.relation_count + 1 > self.relation_limit {
            EntityJoinInsert::LimitExceeded {
                observed: (self.relation_count + 1) as usize,
                limit: self.relation_limit,
            }
        } else {
            EntityJoinInsert::Inserted
        }
    }

    /// The index after a relation was offered to it.
    pub open spec fn offered(self, relation: Relation) -> EntityJoinView {
        if self.verdict(relation) == EntityJoinInsert::Inserted {
            EntityJoinView {
                relations: self.relations.insert(relation),
                relation_count: (self.relation_count + 1) as usize,
                ..self
            }
        } else {
            self
        }
    }
}

/// The ids that some relations give a key.
pub open spec fn related_in(relations: Set<Relation>, key: EntityJoinKey) -> spec_fn(i64) -> bool {
    |related_id: i64| relations.contains(Relation { key, related_id })
}

proof fn lemma_relation_order(a: Relation, b: Relation)
    requires
        a.key == b.key,
    ensures
        lex_less(a.rank(), b.rank()) == (a.related_id < b.related_id),
{
    let x = a.rank();
    let y = b.rank();
    let p = x.take(7);
    assert(x =~= p + seq![a.related_id as int]);
    assert(y =~= p + seq![b.related_id as int]);
    let last_a = seq![a.related_id as int];
    let last_b = seq![b.related_id as int];
    lemma_lex_prefix(p, last_a, last_b);
    assert(!lex_less(last_a.drop_first(), last_b.drop_first()));
}

impl<'scope> EntityJoinIndex<'scope> {
    #[verifier::type_invariant]
    spec fn is_ordered(self) -> bool {
        well_formed::<Relation, Relation, ()>(self.entries.entries@)
    }

    pub fn new(scope: EntityScope<'scope>, relation_limit: usize) -> (r: Self)
        ensures
            r@ == (EntityJoinView {
                scope: scope@,
                relations: Set::empty(),
                relation_count: 0,
                relation_limit,
            }),
            r@.counted(),
    {
        let entries: OrderedMap<Relation, ()> = OrderedMap::new::<Relation>();
        proof {
            assert(contents::<Relation, Relation, ()>(entries.entries@).dom() =~= Set::empty());
        }
        EntityJoinIndex { scope, entries, relation_count: 0, relation_limit }
    }

    /// Adds a relation, unless it is known or the limit is reached.
    pub fn insert(&mut self, key: EntityJoinKey, related_id: i64) -> (r: EntityJoinInsert)
        ensures
            r == old(self)@.verdict(Relation { key, related_id }),
            final(self)@ == old(self)@.offered(Relation { key, related_id }),
            old(self)@.counted() ==> final(self)@.counted(),
    {
        proof {
            use_type_invariant(&*self);
        }
        let ghost before = self@;
        let relation = Relation { key, related_id };
        let wanted: Vec<i128> = key_of(&relation);
        let found: bool = self.entries.get_by_key::<Relation>(&wanted).is_some();
        assert(found == contents::<Relation, Relation, ()>(self.entries.entries@).dom().contains(
            relation,
        ));
        if found {
            return EntityJoinInsert::Duplicate;
        }
        if self.relation_count == usize::MAX {
            return EntityJoinInsert::LimitExceeded {
                observed: usize::MAX,
                limit: self.relation_limit,
            };
        }
        let observed: usize = self.relation_count + 1;
        if observed > self.relation_limit {
            return EntityJoinInsert::LimitExceeded { observed, limit: self.relation_limit };
        }
        let mut held = OrderedMap { entries: Vec::new() };
        std::mem::swap(&mut self.entries, &mut held);
        held.insert::<Relation>(relation, ());
        self.entries = held;
        self.relation_count = observed;
        proof {
            assert(self@.relations =~= before.relations.insert(relation));
        }
        EntityJoinInsert::Inserted
    }

    /// The ids related to a key, where the scope is that of the index.
    pub fn matches(&self, scope: EntityScope<'_>, key: &EntityJoinKey) -> (r: Option<Vec<i64>>)
        ensures
            match r {
                Some(list) => self@.found(scope@, *key) == Some(list@),
                None => self@.found(scope@, *key) is None,
            },
    {
        proof {
            use_type_invariant(self);
        }
        if !self.scope.matches(scope) {
            return None;
        }
        let list: Vec<i64> = self.list(key);
        if list.len() == 0 {
            None
        } else {
            Some(list)
        }
    }

    /// Lists the ids related to a key.
    fn list(&self, key: &EntityJoinKey) -> (list: Vec<i64>)
        ensures
            list@ == listing(self@.related(*key)),
    {
        proof {
            use_type_invariant(self);
        }
        let ghost entries = self.entries.entries@;
        let ghost all = names::<Relation, Relation, ()>(entries);
        let mut list: Vec<i64> = Vec::new();
        let mut i: usize = self.entries.lower_bound::<Relation>(
            &key_of(&Relation { key: *key, related_id: i64::MIN }),
        );
        let ghost start = i as int;
        while i < self.entries.entries.len() && self.entries.entries[i].name.key == *key
            invariant
                start <= i <= self.entries.entries.len(),
                entries == self.entries.entries@,
                list.len() == i - start,
                forall|k: int|
                    0 <= k < list.len() ==> entries[start + k].name == (Relation {
                        key: *key,
                        related_id: #[trigger] list@[k],
                    }),
            decreases self.entries.entries.len() - i,
        {
            list.push(self.entries.entries[i].name.related_id);
            i = i + 1;
        }
        proof {
            lemma_relations_listed(entries, *key, start, i as int, list@);
            assert forall|related_id: i64| #[trigger] list@.contains(related_id) <==> self@.related(
                *key,
            )(related_id) by {
                lemma_named::<Relation, Relation, ()>(
                    entries,
                    Relation { key: *key, related_id },
                );
            }
            lemma_listing(list@, self@.related(*key));
        }
        list
    }
}

/// Whether a key comes before another, whatever the related ids.
pub open spec fn key_less(a: EntityJoinKey, b: EntityJoinKey) -> bool {
    lex_less(
        (Relation { key: a, related_id: 0 }).rank().take(7),
        (Relation { key: b, related_id: 0 }).rank().take(7),
    )
}

proof fn lemma_key_order(a: Relation, b: Relation)
    requires
        a.key != b.key,
    ensures
        lex_less(a.rank(), b.rank()) == key_less(a.key, b.key),
        key_less(a.key, b.key) != key_less(b.key, a.key),
{
    let p = (Relation { key: a.key, related_id: 0 }).rank().take(7);
    let q = (Relation { key: b.key, related_id: 0 }).rank().take(7);
    assert(a.rank() =~= p + seq![a.related_id as int]);
    assert(b.rank() =~= q + seq![b.related_id as int]);
    lemma_equal_length_prefix(p, q, seq![a.related_id as int], seq![b.related_id as int]);
    if p == q {
        let c = Relation { key: a.key, related_id: 0 };
        let d = Relation { key: b.key, related_id: 0 };
        assert forall|i: int| 0 <= i < 8 implies #[trigger] c.rank()[i] == d.rank()[i] by {
            if i < 7 {
                assert(p[i] == q[i]);
            }
        }
        lemma_rank_parts(c, d);
    }
    lemma_lex_total(p, q);
}

proof fn lemma_equal_length_prefix(p: Seq<int>, q: Seq<int>, x: Seq<int>, y: Seq<int>)
    requires
        p.len() == q.len(),
        p != q,
    ensures
        lex_less(p + x, q + y) == lex_less(p, q),
    decreases p.len(),
{
    if p.len() == 0 {
        assert(p =~= q);
    } else {
        assert((p + x).drop_first() =~= p.drop_first() + x);
        assert((q + y).drop_first() =~= q.drop_first() + y);
        if p[0] == q[0] {
            if p.drop_first() == q.drop_first() {
                assert(p =~= seq![p[0]] + p.drop_first());
                assert(q =~= seq![q[0]] + q.drop_first());
            }
            lemma_equal_length_prefix(p.drop_first(), q.drop_first(), x, y);
        }
    }
}

/// The entries of a key are listed by a scan from its lower bound.
proof fn lemma_relations_listed(
    entries: Seq<MapEntry<Relation, ()>>,
    key: EntityJoinKey,
    start: int,
    end: int,
    list: Seq<i64>,
)
    requires
        well_formed::<Relation, Relation, ()>(entries),
        0 <= start <= end <= entries.len(),
        forall|i: int|
            0 <= i < start ==> lex_less(
                (#[trigger] entries[i]).name@.rank(),
                (Relation { key, related_id: i64::MIN }).rank(),
            ),
        forall|i: int|
            start <= i < entries.len() ==> !lex_less(
                (#[trigger] entries[i]).name@.rank(),
                (Relation { key, related_id: i64::MIN }).rank(),
            ),
        list.len() == end - start,
        forall|k: int|
            0 <= k < list.len() ==> entries[start + k].name == (Relation {
                key,
                related_id: #[trigger] list[k],
            }),
        end < entries.len() ==> entries[end].name.key != key,
    ensures
        ranks_ascend(list),
        forall|related_id: i64| #[trigger]
            list.contains(related_id) <==> names::<Relation, Relation, ()>(entries).contains(
                Relation { key, related_id },
            ),
{
    let all = names::<Relation, Relation, ()>(entries);
    let low = Relation { key, related_id: i64::MIN };
    assert forall|i: int, j: int| 0 <= i < j < list.len() implies lex_less(
        (#[trigger] list[i]).rank(),
        (#[trigger] list[j]).rank(),
    ) by {
        assert(lex_less(all[start + i].rank(), all[start + j].rank()));
        assert(all[start + i] == (Relation { key, related_id: list[i] }));
        assert(all[start + j] == (Relation { key, related_id: list[j] }));
        lemma_relation_order(all[start + i], all[start + j]);
    }
    assert forall|related_id: i64| #[trigger] list.contains(related_id) <==> all.contains(
        Relation { key, related_id },
    ) by {
        let wanted = Relation { key, related_id };
        if list.contains(related_id) {
            let k = choose|k: int| 0 <= k < list.len() && list[k] == related_id;
            assert(all[start + k] == wanted);
        }
        if all.contains(wanted) {
            let k = choose|k: int| 0 <= k < all.len() && all[k] == wanted;
            lemma_relation_order(wanted, low);
            assert(entries[k].name@ == wanted);
            assert(k >= start);
            if k >= end {
                let stop = all[end];
                assert(!lex_less(entries[end].name@.rank(), low.rank()));
                lemma_key_order(stop, low);
                if k > end {
                    assert(lex_less(all[end].rank(), all[k].rank()));
                    lemma_key_order(stop, wanted);
                }
            }
            assert(list[k - start] == related_id);
        }
    }
}

/// Offering the same relation twice changes nothing the second time.
pub proof fn law_a_relation_counts_once(index: EntityJoinView, relation: Relation)
    requires
        index.verdict(relation) == EntityJoinInsert::Inserted,
    ensures
        index.offered(relation).verdict(relation) == EntityJoinInsert::Duplicate,
        index.offered(relation).offered(relation) == index.offered(relation),
{
}

/// A refused relation leaves the index as it was.
pub proof fn law_a_refused_relation_leaves_no_trace(index: EntityJoinView, relation: Relation)
    requires
        index.verdict(relation) != EntityJoinInsert::Inserted,
    ensures
        index.offered(relation) == index,
{
}

/// The relations stay within the limit, whatever is offered.
pub proof fn law_relations_stay_within_the_limit(index: EntityJoinView, relation: Relation)
    requires
        index.counted(),
    ensures
        index.offered(relation).counted(),
        index.offered(relation).relations.len() <= index.relation_limit,
{
}

/// The ids of a finite set of relations can be listed.
proof fn lemma_related_listed(relations: Set<Relation>, key: EntityJoinKey)
    requires
        relations.finite(),
    ensures
        exists|list: Seq<i64>| #[trigger] is_listing(list, related_in(relations, key)),
    decreases relations.len(),
{
    let all = related_in(relations, key);
    if relations.len() == 0 {
        let list: Seq<i64> = Seq::empty();
        assert(relations =~= Set::empty());
        assert(is_listing(list, all));
    } else {
        let gone = relations.choose();
        let rest = relations.remove(gone);
        lemma_related_listed(rest, key);
        let fewer = related_in(rest, key);
        let list = choose|list: Seq<i64>| #[trigger] is_listing(list, fewer);
        if gone.key == key {
            lemma_listing_extended(list, fewer, gone.related_id);
            assert(extended(fewer, gone.related_id) =~= all);
            assert(is_listing(ranked_sort(list.push(gone.related_id)), all));
        } else {
            assert(fewer =~= all);
        }
    }
}

/// What is inserted is found again: under its own scope and key, its id is
/// among the related ones, and no other key is affected.
pub proof fn law_an_inserted_relation_is_found(index: EntityJoinView, relation: Relation)
    requires
        index.relations.finite(),
        index.verdict(relation) == EntityJoinInsert::Inserted,
    ensures
        index.offered(relation).found(index.scope, relation.key) is Some,
        index.offered(relation).found(index.scope, relation.key)->Some_0.contains(
            relation.related_id,
        ),
        forall|scope: EntityScopeView, key: EntityJoinKey|
            key != relation.key ==> #[trigger] index.offered(relation).found(scope, key)
                == index.found(scope, key),
{
    let after = index.offered(relation);
    lemma_related_listed(after.relations, relation.key);
    assert(after.related(relation.key) =~= related_in(after.relations, relation.key));
    let list = listing(after.related(relation.key));
    assert(is_listing(list, after.related(relation.key)));
    assert(after.related(relation.key)(relation.related_id));
    assert(list.contains(relation.related_id));
    assert forall|scope: EntityScopeView, key: EntityJoinKey|
        key != relation.key implies #[trigger] after.found(scope, key) == index.found(
        scope,
        key,
    ) by {
        assert(after.related(key) =~= index.related(key));
    }
}

/// Other kinds and domains of entities never join, whatever their numbers.
pub proof fn law_unrelated_keys_do_not_join(index: EntityJoinView, key: EntityJoinKey)
    requires
        forall|relation: Relation| #[trigger]
            index.relations.contains(relation) ==> relation.key != key,
    ensures
        index.found(index.scope, key) is None,
{
    let list: Seq<i64> = Seq::empty();
    assert(is_listing(list, index.related(key)));
    lemma_listing(list, index.related(key));
}

/// A key of another scope never joins.
pub proof fn law_another_scope_never_joins(
    index: EntityJoinView,
    scope: EntityScopeView,
    key: EntityJoinKey,
)
    requires
        scope != index.scope,
    ensures
        index.found(scope, key) is None,
{
}

} // verus!
