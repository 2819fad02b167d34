//! Confidence levels, their caps, and finding roles.

use crate::order::Ranked;
use crate::text::lemma_int_splits;
use vstd::prelude::*;

verus! {

/// How certain a finding is.
#[allow(clippy::upper_case_acronyms)]
#[derive(Debug, Clone, Copy, PartialEq, Eq, PartialOrd, Ord, Structural)]
pub enum Confidence {
    LOW,
    MEDIUM,
    HIGH,
}

impl Confidence {
    pub open spec fn level(self) -> int {
        match self {
            Confidence::LOW => 0,
            Confidence::MEDIUM => 1,
            Confidence::HIGH => 2,
        }
    }

    /// The lower of two levels.
    pub open spec fn lower(self, other: Confidence) -> Confidence {
        if other.level() < self.level() {
            other
        } else {
            self
        }
    }

    /// The level as a number from zero up.
    pub fn number(self) -> (r: i128)
        ensures
            r == self.level(),
    {
        match self {
            Confidence::LOW => 0,
            Confidence::MEDIUM => 1,
            Confidence::HIGH => 2,
        }
    }

    pub fn min(self, other: Confidence) -> (r: Confidence)
        ensures
            r == self.lower(other),
    {
        if other.number() < self.number() {
            other
        } else {
            self
        }
    }

    pub fn label(self) -> (r: &'static str)
        ensures
            r@ == match self {
                Confidence::LOW => "low"@,
                Confidence::MEDIUM => "medium"@,
                Confidence::HIGH => "high"@,
            },
    {
        match self {
            Confidence::LOW => "low",
            Confidence::MEDIUM => "medium",
            Confidence::HIGH => "high",
        }
    }
}

/// The highest confidence that a lens may claim.
#[derive(Debug, Clone, Copy, PartialEq, Eq, Structural)]
pub enum ConfidenceCap {
    Low,
    Medium,
    High,
}

impl ConfidenceCap {
    pub open spec fn ceiling(self) -> Confidence {
        match self {
            ConfidenceCap::Low => Confidence::LOW,
            ConfidenceCap::Medium => Confidence::MEDIUM,
            ConfidenceCap::High => Confidence::HIGH,
        }
    }

    pub fn confidence(self) -> (r: Confidence)
        ensures
            r == self.ceiling(),
    {
        match self {
            ConfidenceCap::Low => Confidence::LOW,
            ConfidenceCap::Medium => Confidence::MEDIUM,
            ConfidenceCap::High => Confidence::HIGH,
        }
    }

    pub fn as_str(self) -> (r: &'static str)
        ensures
            r@ == match self {
                ConfidenceCap::Low => "low"@,
                ConfidenceCap::Medium => "medium"@,
                ConfidenceCap::High => "high"@,
            },
    {
        match self {
            ConfidenceCap::Low => "low",
            ConfidenceCap::Medium => "medium",
            ConfidenceCap::High => "high",
        }
    }
}

/// The part that an observation plays in an incident.
#[derive(Debug, Clone, Copy, PartialEq, Eq, PartialOrd, Ord, Structural)]
pub enum Role {
    Lead,
    Amplifier,
    Downstream,
    Coincident,
}

impl Role {
    pub open spec fn place(self) -> int {
        match self {
            Role::Lead => 0,
            Role::Amplifier => 1,
            Role::Downstream => 2,
            Role::Coincident => 3,
        }
    }

    /// Whether the role claims a causal direction.
    pub open spec fn is_directed(self) -> bool {
        self == Role::Lead || self == Role::Downstream
    }

    pub fn directed(self) -> (r: bool)
        ensures
            r == self.is_directed(),
    {
        self == Role::Lead || self == Role::Downstream
    }

    /// The place of the role in the order of findings.
    pub fn number(self) -> (r: i128)
        ensures
            r == self.place(),
    {
        match self {
            Role::Lead => 0,
            Role::Amplifier => 1,
            Role::Downstream => 2,
            Role::Coincident => 3,
        }
    }

    pub fn label(self) -> (r: &'static str)
        ensures
            r@ == match self {
                Role::Lead => "lead"@,
                Role::Amplifier => "amplifier"@,
                Role::Downstream => "downstream"@,
                Role::Coincident => "coincident"@,
            },
    {
        match self {
            Role::Lead => "lead",
            Role::Amplifier => "amplifier",
            Role::Downstream => "downstream",
            Role::Coincident => "coincident",
        }
    }
}

impl Ranked for Role {
    open spec fn rank(self) -> Seq<int> {
        seq![self.place()]
    }

    proof fn rank_splits(a: Self, b: Self, x: Seq<int>, y: Seq<int>) {
        lemma_int_splits(a.place(), b.place(), x, y);
    }
}

} // verus!
