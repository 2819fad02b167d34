//! Direct evidence: sampled lock edges and resource limit events.

use super::confidence::Role;
use crate::order::{ints, Ranked};
use crate::text::push_int;
use vstd::prelude::*;

verus! {

/// An observation that shows a relation by itself.
#[derive(Debug, Clone, Copy, PartialEq, Eq, PartialOrd, Ord, Structural)]
pub struct DirectEvidence {
    pub kind: DirectEvidenceKind,
}

#[derive(Debug, Clone, Copy, PartialEq, Eq, PartialOrd, Ord, Structural)]
pub enum DirectEvidenceKind {
    SampledLockEdge(SampledLockEdge),
    ResourceLimitEvent,
}

/// One end of a sampled lock edge.
#[derive(Debug, Clone, Copy, PartialEq, Eq, PartialOrd, Ord, Structural)]
pub enum LockParticipant {
    Blocker,
    Waiter,
}

impl LockParticipant {
    pub open spec fn place(self) -> int {
        match self {
            LockParticipant::Blocker => 0,
            LockParticipant::Waiter => 1,
        }
    }

    /// Whether this end of an edge shows the requested role.
    pub open spec fn proves(self, requested_role: Role) -> bool {
        match self {
            LockParticipant::Blocker => requested_role == Role::Lead,
            LockParticipant::Waiter => requested_role == Role::Downstream,
        }
    }

    pub fn label(self) -> (r: &'static str)
        ensures
            r@ == match self {
                LockParticipant::Blocker => "blocker"@,
                LockParticipant::Waiter => "waiter"@,
            },
    {
        match self {
            LockParticipant::Blocker => "blocker",
            LockParticipant::Waiter => "waiter",
        }
    }

    pub fn proves_role(self, requested_role: Role) -> (r: bool)
        ensures
            r == self.proves(requested_role),
    {
        match (self, requested_role) {
            (LockParticipant::Blocker, Role::Lead) => true,
            (LockParticipant::Waiter, Role::Downstream) => true,
            _ => false,
        }
    }
}

/// One end of a blocking edge between two backends.
#[derive(Debug, Clone, Copy, PartialEq, Eq, PartialOrd, Ord, Structural)]
pub struct SampledLockEdge {
    pub observed_at_us: i64,
    pub waiter_pid: i64,
    pub blocker_pid: i64,
    pub participant: LockParticipant,
}

impl SampledLockEdge {
    pub fn observed_at_us(&self) -> (r: i64)
        ensures
            r == self.observed_at_us,
    {
        self.observed_at_us
    }

    pub fn waiter_pid(&self) -> (r: i64)
        ensures
            r == self.waiter_pid,
    {
        self.waiter_pid
    }

    pub fn blocker_pid(&self) -> (r: i64)
        ensures
            r == self.blocker_pid,
    {
        self.blocker_pid
    }

    pub fn participant(&self) -> (r: LockParticipant)
        ensures
            r == self.participant,
    {
        self.participant
    }
}

impl DirectEvidence {
    pub open spec fn of_lock_edge(
        observed_at_us: i64,
        waiter_pid: i64,
        blocker_pid: i64,
        participant: LockParticipant,
    ) -> DirectEvidence {
        DirectEvidence {
            kind: DirectEvidenceKind::SampledLockEdge(
                SampledLockEdge { observed_at_us, waiter_pid, blocker_pid, participant },
            ),
        }
    }

    /// Whether the evidence shows the requested direction.
    pub open spec fn shows(self, requested_role: Role) -> bool {
        self.kind matches DirectEvidenceKind::SampledLockEdge(edge) && edge.participant.proves(
            requested_role,
        )
    }

    /// A sampled blocking edge. It shows the direction between the two
    /// backends; the lens still controls the confidence ceiling.
    pub fn sampled_lock_edge(
        observed_at_us: i64,
        waiter_pid: i64,
        blocker_pid: i64,
        participant: LockParticipant,
    ) -> (r: Self)
        ensures
            r == DirectEvidence::of_lock_edge(observed_at_us, waiter_pid, blocker_pid, participant),
    {
        DirectEvidence {
            kind: DirectEvidenceKind::SampledLockEdge(
                SampledLockEdge { observed_at_us, waiter_pid, blocker_pid, participant },
            ),
        }
    }

    pub fn resource_limit_event() -> (r: Self)
        ensures
            r.kind == DirectEvidenceKind::ResourceLimitEvent,
    {
        DirectEvidence { kind: DirectEvidenceKind::ResourceLimitEvent }
    }

    pub fn proves_structural_direction(&self, requested_role: Role) -> (r: bool)
        ensures
            r == self.shows(requested_role),
    {
        match &self.kind {
            DirectEvidenceKind::SampledLockEdge(edge) => edge.participant.proves_role(
                requested_role,
            ),
            DirectEvidenceKind::ResourceLimitEvent => false,
        }
    }

    pub fn lock_edge(&self) -> (r: Option<&SampledLockEdge>)
        ensures
            match self.kind {
                DirectEvidenceKind::SampledLockEdge(edge) => r is Some && *r->Some_0 == edge,
                DirectEvidenceKind::ResourceLimitEvent => r is None,
            },
    {
        match &self.kind {
            DirectEvidenceKind::SampledLockEdge(edge) => Some(edge),
            DirectEvidenceKind::ResourceLimitEvent => None,
        }
    }

    /// Appends the rank to a key.
    pub fn key_into(&self, out: &mut Vec<i128>)
        ensures
            ints(final(out)@) == ints(old(out)@) + self.rank(),
    {
        let ghost start = ints(out@);
        match &self.kind {
            DirectEvidenceKind::SampledLockEdge(edge) => {
                push_int(out, 0);
                push_int(out, edge.observed_at_us as i128);
                push_int(out, edge.waiter_pid as i128);
                push_int(out, edge.blocker_pid as i128);
                push_int(
                    out,
                    match edge.participant {
                        LockParticipant::Blocker => 0,
                        LockParticipant::Waiter => 1,
                    },
                );
            },
            DirectEvidenceKind::ResourceLimitEvent => {
                push_int(out, 1);
            },
        }
        proof {
            assert(ints(out@) =~= start + self.rank());
        }
    }
}

impl Ranked for DirectEvidence {
    open spec fn rank(self) -> Seq<int> {
        match self.kind {
            DirectEvidenceKind::SampledLockEdge(edge) => seq![
                0int,
                edge.observed_at_us as int,
                edge.waiter_pid as int,
                edge.blocker_pid as int,
                edge.participant.place(),
            ],
            DirectEvidenceKind::ResourceLimitEvent => seq![1int],
        }
    }

    proof fn rank_splits(a: Self, b: Self, x: Seq<int>, y: Seq<int>) {
        let left = a.rank() + x;
        let right = b.rank() + y;
        assert(left[0] == a.rank()[0] && right[0] == b.rank()[0]);
        match (a.kind, b.kind) {
            (
                DirectEvidenceKind::SampledLockEdge(e),
                DirectEvidenceKind::SampledLockEdge(f),
            ) => {
                assert(left[1] == e.observed_at_us && right[1] == f.observed_at_us);
                assert(left[2] == e.waiter_pid && right[2] == f.waiter_pid);
                assert(left[3] == e.blocker_pid && right[3] == f.blocker_pid);
                assert(left[4] == e.participant.place() && right[4] == f.participant.place());
                assert(x =~= left.skip(5));
                assert(y =~= right.skip(5));
            },
            _ => {
                assert(x =~= left.skip(1));
                assert(y =~= right.skip(1));
            },
        }
    }
}

} // verus!
