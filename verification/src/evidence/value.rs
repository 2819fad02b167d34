//! Finite values, units and threshold kinds.

use crate::float64::Float64;
use crate::order::{ints, Ranked};
use crate::text::{lemma_int_splits, push_int};
use vstd::prelude::*;

verus! {

/// A finite number whose zero is always positive.
#[derive(Debug, Clone, Copy, PartialEq, Eq, Hash, Structural)]
pub struct FiniteValue {
    value: Float64,
}

impl View for FiniteValue {
    type V = Float64;

    closed spec fn view(&self) -> Float64 {
        self.value
    }
}

/// The number with a negative zero made positive.
pub open spec fn normal(value: Float64) -> Float64 {
    if value.ordinal() == 0 {
        Float64 { bits: 0 }
    } else {
        value
    }
}

impl FiniteValue {
    pub fn new(value: Float64) -> (r: Option<Self>)
        ensures
            match r {
                Some(v) => value.finite() && v@ == normal(value),
                None => !value.finite(),
            },
    {
        if value.is_finite() {
            let zero = Float64 { bits: 0 };
            if value.equals(zero) {
                Some(FiniteValue { value: zero })
            } else {
                Some(FiniteValue { value })
            }
        } else {
            None
        }
    }

    pub fn get(self) -> (r: Float64)
        ensures
            r == self@,
    {
        self.value
    }

    /// Appends the rank to a key.
    pub fn key_into(&self, out: &mut Vec<i128>)
        ensures
            ints(final(out)@) == ints(old(out)@) + self@.rank(),
    {
        let bits: u64 = self.value.to_bits();
        if bits >= crate::float64::SIGN {
            push_int(out, -1 - (bits - crate::float64::SIGN) as i128);
        } else {
            push_int(out, bits as i128);
        }
    }
}

/// Numbers order by sign and magnitude, with every pattern in its own place.
impl Ranked for Float64 {
    open spec fn rank(self) -> Seq<int> {
        seq![self.total_rank()]
    }

    proof fn rank_splits(a: Self, b: Self, x: Seq<int>, y: Seq<int>) {
        lemma_int_splits(a.total_rank(), b.total_rank(), x, y);
    }
}

/// Unit of an operand, a value or a threshold.
#[derive(Debug, Clone, Copy, PartialEq, Eq, PartialOrd, Ord, Structural)]
pub enum GaugeUnit {
    Count,
    Bytes,
    Kibibytes,
    Microseconds,
    Milliseconds,
    Ratio,
    BytesPerSecond,
    MicrosecondsPerSecond,
    MillisecondsPerRead,
    MillisecondsPerCall,
    MillisecondsPerOperation,
    RowsPerCall,
    BlocksPerCall,
}

impl GaugeUnit {
    pub open spec fn place(self) -> int {
        match self {
            GaugeUnit::Count => 0,
            GaugeUnit::Bytes => 1,
            GaugeUnit::Kibibytes => 2,
            GaugeUnit::Microseconds => 3,
            GaugeUnit::Milliseconds => 4,
            GaugeUnit::Ratio => 5,
            GaugeUnit::BytesPerSecond => 6,
            GaugeUnit::MicrosecondsPerSecond => 7,
            GaugeUnit::MillisecondsPerRead => 8,
            GaugeUnit::MillisecondsPerCall => 9,
            GaugeUnit::MillisecondsPerOperation => 10,
            GaugeUnit::RowsPerCall => 11,
            GaugeUnit::BlocksPerCall => 12,
        }
    }

    /// The place of the unit in the order of evidence.
    pub fn number(self) -> (r: i128)
        ensures
            r == self.place(),
    {
        match self {
            GaugeUnit::Count => 0,
            GaugeUnit::Bytes => 1,
            GaugeUnit::Kibibytes => 2,
            GaugeUnit::Microseconds => 3,
            GaugeUnit::Milliseconds => 4,
            GaugeUnit::Ratio => 5,
            GaugeUnit::BytesPerSecond => 6,
            GaugeUnit::MicrosecondsPerSecond => 7,
            GaugeUnit::MillisecondsPerRead => 8,
            GaugeUnit::MillisecondsPerCall => 9,
            GaugeUnit::MillisecondsPerOperation => 10,
            GaugeUnit::RowsPerCall => 11,
            GaugeUnit::BlocksPerCall => 12,
        }
    }

    pub fn label(self) -> (r: &'static str)
        ensures
            r@ == match self {
                GaugeUnit::Count => "count"@,
                GaugeUnit::Bytes => "bytes"@,
                GaugeUnit::Kibibytes => "KiB"@,
                GaugeUnit::Microseconds => "microseconds"@,
                GaugeUnit::Milliseconds => "milliseconds"@,
                GaugeUnit::Ratio => "ratio"@,
                GaugeUnit::BytesPerSecond => "bytes_per_second"@,
                GaugeUnit::MicrosecondsPerSecond => "microseconds_per_second"@,
                GaugeUnit::MillisecondsPerRead => "milliseconds_per_read"@,
                GaugeUnit::MillisecondsPerCall => "milliseconds_per_call"@,
                GaugeUnit::MillisecondsPerOperation => "milliseconds_per_operation"@,
                GaugeUnit::RowsPerCall => "rows_per_call"@,
                GaugeUnit::BlocksPerCall => "blocks_per_call"@,
            },
    {
        match self {
            GaugeUnit::Count => "count",
            GaugeUnit::Bytes => "bytes",
            GaugeUnit::Kibibytes => "KiB",
            GaugeUnit::Microseconds => "microseconds",
            GaugeUnit::Milliseconds => "milliseconds",
            GaugeUnit::Ratio => "ratio",
            GaugeUnit::BytesPerSecond => "bytes_per_second",
            GaugeUnit::MicrosecondsPerSecond => "microseconds_per_second",
            GaugeUnit::MillisecondsPerRead => "milliseconds_per_read",
            GaugeUnit::MillisecondsPerCall => "milliseconds_per_call",
            GaugeUnit::MillisecondsPerOperation => "milliseconds_per_operation",
            GaugeUnit::RowsPerCall => "rows_per_call",
            GaugeUnit::BlocksPerCall => "blocks_per_call",
        }
    }
}

impl Ranked for GaugeUnit {
    open spec fn rank(self) -> Seq<int> {
        seq![self.place()]
    }

    proof fn rank_splits(a: Self, b: Self, x: Seq<int>, y: Seq<int>) {
        lemma_int_splits(a.place(), b.place(), x, y);
    }
}

/// How a value is held against its threshold.
#[derive(Debug, Clone, Copy, PartialEq, Eq, PartialOrd, Ord, Structural)]
pub enum ThresholdKind {
    AtLeast,
    Above,
    Below,
}

impl ThresholdKind {
    pub open spec fn place(self) -> int {
        match self {
            ThresholdKind::AtLeast => 0,
            ThresholdKind::Above => 1,
            ThresholdKind::Below => 2,
        }
    }

    /// The place of the kind in the order of evidence.
    pub fn number(self) -> (r: i128)
        ensures
            r == self.place(),
    {
        match self {
            ThresholdKind::AtLeast => 0,
            ThresholdKind::Above => 1,
            ThresholdKind::Below => 2,
        }
    }

    pub fn label(self) -> (r: &'static str)
        ensures
            r@ == match self {
                ThresholdKind::AtLeast => "at_least"@,
                ThresholdKind::Above => "above"@,
                ThresholdKind::Below => "below"@,
            },
    {
        match self {
            ThresholdKind::AtLeast => "at_least",
            ThresholdKind::Above => "above",
            ThresholdKind::Below => "below",
        }
    }
}

impl Ranked for ThresholdKind {
    open spec fn rank(self) -> Seq<int> {
        seq![self.place()]
    }

    proof fn rank_splits(a: Self, b: Self, x: Seq<int>, y: Seq<int>) {
        lemma_int_splits(a.place(), b.place(), x, y);
    }
}

} // verus!
