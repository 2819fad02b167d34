//! Counter intervals and their sums over aligned endpoints.

use crate::align::{
    lemma_rows_fit, level, origin, row_fits, row_view, rows, rows_view, shared_rows, time_view,
};
use crate::evidence::coverage::{observed_period_from_durations, period, span_of, SourceWindow};
use crate::float64::Float64;
use vstd::prelude::*;

verus! {

/// The largest integer up to which every integer is a binary64 number.
pub const MAX_EXACT_INTEGER: i128 = 0x20_0000_0000_0000;

/// The pattern of [`MAX_EXACT_INTEGER`].
pub const MAX_EXACT_NUMBER: u64 = 0x4340_0000_0000_0000;

/// A counter difference in the type of its column.
#[derive(Debug, Clone, Copy, PartialEq, Eq, Structural)]
pub enum Scalar {
    Int(i128),
    Float(Float64),
}

/// Why an interval carries no difference.
#[derive(Debug, Clone, Copy, PartialEq, Eq, Structural)]
pub enum Reason {
    FirstPoint,
    Reset,
    Gap,
    TimestampAnomaly,
    SourceDisabled,
}

/// One folded counter interval.
#[derive(Debug, Clone, Copy, PartialEq, Eq, Structural)]
pub enum DiffPoint {
    Value { delta: Scalar, rate: Float64, dt_micros: i64 },
    NoData { reason: Reason },
}

/// One interval and the time at which it ends.
#[derive(Debug, Clone, Copy, PartialEq, Eq, Structural)]
pub struct CounterPoint {
    pub end_us: i64,
    pub point: DiffPoint,
}

/// A usable difference.
#[derive(Debug, Clone, Copy, PartialEq, Eq, Structural)]
pub struct CounterDelta {
    pub value: Float64,
    pub integer: bool,
}

/// Why a difference cannot enter numeric evidence.
#[derive(Debug, Clone, Copy, PartialEq, Eq, Structural)]
pub enum CounterDeltaError {
    Unusable,
    NumericLimit,
}

impl CounterPoint {
    /// The usable difference, or why there is none.
    pub open spec fn difference(self) -> Result<CounterDelta, CounterDeltaError> {
        match self.point {
            DiffPoint::Value { delta: Scalar::Int(delta), .. } => if delta < 0 {
                Err(CounterDeltaError::Unusable)
            } else if delta > MAX_EXACT_INTEGER {
                Err(CounterDeltaError::NumericLimit)
            } else {
                Ok(CounterDelta { value: Float64::of_int(delta as int), integer: true })
            },
            DiffPoint::Value { delta: Scalar::Float(delta), .. } => if delta.finite() && (Float64 {
                bits: 0,
            }).at_most(delta) {
                Ok(CounterDelta { value: delta, integer: false })
            } else {
                Err(CounterDeltaError::Unusable)
            },
            DiffPoint::NoData { .. } => Err(CounterDeltaError::Unusable),
        }
    }

    /// The positive duration of the interval.
    pub open spec fn duration(self) -> Option<u64> {
        match self.point {
            DiffPoint::Value { dt_micros, .. } => if dt_micros > 0 {
                Some(dt_micros as u64)
            } else {
                None
            },
            DiffPoint::NoData { .. } => None,
        }
    }

    pub fn delta(self) -> (r: Result<CounterDelta, CounterDeltaError>)
        ensures
            r == self.difference(),
    {
        match self.point {
            DiffPoint::Value { delta: Scalar::Int(delta), .. } => if delta < 0 {
                Err(CounterDeltaError::Unusable)
            } else if delta > MAX_EXACT_INTEGER {
                Err(CounterDeltaError::NumericLimit)
            } else {
                Ok(CounterDelta { value: Float64::from_i128(delta), integer: true })
            },
            DiffPoint::Value { delta: Scalar::Float(delta), .. } => {
                let zero = Float64 { bits: 0 };
                if delta.is_finite() && zero.less_or_equal(delta) {
                    Ok(CounterDelta { value: delta, integer: false })
                } else {
                    Err(CounterDeltaError::Unusable)
                }
            },
            DiffPoint::NoData { .. } => Err(CounterDeltaError::Unusable),
        }
    }

    pub fn interval_us(self) -> (r: Option<u64>)
        ensures
            r == self.duration(),
    {
        match self.point {
            DiffPoint::Value { dt_micros, .. } => if dt_micros > 0 {
                Some(dt_micros as u64)
            } else {
                None
            },
            DiffPoint::NoData { .. } => None,
        }
    }
}

/// Sum of two columns' deltas over the intervals where both are usable.
#[derive(Debug, Clone, Copy, PartialEq, Eq, Structural)]
pub struct PairedSums {
    pub sum_a: Float64,
    pub sum_b: Float64,
    /// Number of intervals both columns contributed to.
    pub intervals: usize,
    /// Distinct interval endpoints seen in either column inside the window.
    pub candidate_intervals: usize,
    pub unmatched_endpoint_intervals: usize,
    pub unusable_delta_intervals: usize,
    pub unaligned_duration_intervals: usize,
    pub numeric_limit_intervals: usize,
    pub first_start_us: Option<i64>,
    pub first_end_us: Option<i64>,
    pub last_end_us: Option<i64>,
    /// Sum of the usable, aligned interval durations.
    pub elapsed_us: u64,
    /// Median of the usable interval durations, where enough of them exist.
    pub observed_period_us: Option<u64>,
}

impl PairedSums {
    pub open spec fn zero() -> PairedSums {
        PairedSums {
            sum_a: Float64 { bits: 0 },
            sum_b: Float64 { bits: 0 },
            intervals: 0,
            candidate_intervals: 0,
            unmatched_endpoint_intervals: 0,
            unusable_delta_intervals: 0,
            unaligned_duration_intervals: 0,
            numeric_limit_intervals: 0,
            first_start_us: None,
            first_end_us: None,
            last_end_us: None,
            elapsed_us: 0,
            observed_period_us: None,
        }
    }

    /// Whether enough pairs are usable, and at least 70% of the endpoints.
    pub open spec fn covers(self, minimum_intervals: usize) -> bool {
        self.intervals >= minimum_intervals && self.candidate_intervals > 0 && self.intervals * 10
            >= self.candidate_intervals * 7
    }

    /// Requires enough usable pairs and at least 70% of the endpoints observed
    /// in either operand. This checks pairing, not expected source coverage.
    pub fn meets_pairing_coverage(self, minimum_intervals: usize) -> (r: bool)
        ensures
            r == self.covers(minimum_intervals),
    {
        self.intervals >= minimum_intervals && self.candidate_intervals > 0 && (
        self.intervals as u128) * 10 >= (self.candidate_intervals as u128) * 7
    }

    pub fn excluded_intervals(self) -> (r: usize)
        ensures
            r == if self.candidate_intervals >= self.intervals {
                self.candidate_intervals - self.intervals
            } else {
                0
            },
    {
        if self.candidate_intervals >= self.intervals {
            self.candidate_intervals - self.intervals
        } else {
            0
        }
    }
}

/// Why a matched pair does not contribute.
#[derive(Debug, Clone, Copy, PartialEq, Eq, Structural)]
pub enum PairExclusion {
    UnusableDelta,
    UnalignedDuration,
    NumericLimit,
}

/// Whether a sum that holds only integers stays exact after a delta.
pub open spec fn stays_exact(sum: Float64, sum_integer: bool, delta: CounterDelta) -> bool {
    !sum_integer || !delta.integer || sum.at_most(
        (Float64 { bits: MAX_EXACT_NUMBER }).sum_with(delta.value.negated()),
    )
}

fn check_exact(sum: Float64, sum_integer: bool, delta: CounterDelta) -> (r: bool)
    ensures
        r == stays_exact(sum, sum_integer, delta),
{
    let most = Float64 { bits: MAX_EXACT_NUMBER };
    !sum_integer || !delta.integer || sum.less_or_equal(most.minus(delta.value))
}

/// The sums, whether they hold only integers, and the durations behind them.
#[verifier::ext_equal]
pub struct PairTally {
    pub sums: PairedSums,
    pub integer_a: bool,
    pub integer_b: bool,
    pub durations: Seq<u64>,
}

impl PairTally {
    pub open spec fn zero() -> PairTally {
        PairTally {
            sums: PairedSums::zero(),
            integer_a: true,
            integer_b: true,
            durations: Seq::empty(),
        }
    }
}

/// A count that stops at the largest machine integer.
pub open spec fn counted(n: usize) -> usize {
    if n < usize::MAX {
        (n + 1) as usize
    } else {
        n
    }
}

fn count(n: usize) -> (r: usize)
    ensures
        r == counted(n),
{
    if n < usize::MAX {
        n + 1
    } else {
        n
    }
}

pub open spec fn first_of(known: Option<i64>, value: i64) -> Option<i64> {
    if known is Some {
        known
    } else {
        Some(value)
    }
}

/// The tally after a matched pair, or why the pair does not contribute.
pub open spec fn paired(
    tally: PairTally,
    first: CounterPoint,
    second: CounterPoint,
) -> Result<PairTally, PairExclusion> {
    let sums = tally.sums;
    let limited = Err::<CounterDelta, _>(CounterDeltaError::NumericLimit);
    if first.difference() == limited || second.difference() == limited {
        Err(PairExclusion::NumericLimit)
    } else if first.difference() is Err || second.difference() is Err {
        Err(PairExclusion::UnusableDelta)
    } else if first.duration() is None || first.duration() != second.duration() {
        Err(PairExclusion::UnalignedDuration)
    } else {
        let duration = first.duration()->Some_0;
        let a = first.difference()->Ok_0;
        let b = second.difference()->Ok_0;
        let start = first.end_us - duration;
        let next_a = sums.sum_a.sum_with(a.value);
        let next_b = sums.sum_b.sum_with(b.value);
        if start < i64::MIN {
            Err(PairExclusion::UnalignedDuration)
        } else if sums.elapsed_us + duration > u64::MAX || !next_a.finite() || !next_b.finite()
            || !stays_exact(sums.sum_a, tally.integer_a, a) || !stays_exact(
            sums.sum_b,
            tally.integer_b,
            b,
        ) {
            Err(PairExclusion::NumericLimit)
        } else {
            Ok(
                PairTally {
                    sums: PairedSums {
                        sum_a: next_a,
                        sum_b: next_b,
                        intervals: counted(sums.intervals),
                        first_start_us: first_of(sums.first_start_us, start as i64),
                        first_end_us: first_of(sums.first_end_us, first.end_us),
                        last_end_us: Some(first.end_us),
                        elapsed_us: (sums.elapsed_us + duration) as u64,
                        ..sums
                    },
                    integer_a: tally.integer_a && a.integer,
                    integer_b: tally.integer_b && b.integer,
                    durations: tally.durations.push(duration),
                },
            )
        }
    }
}

/// On success returns the accepted interval's duration in microseconds.
fn accumulate_counter_pair(
    sums: &mut PairedSums,
    first_sum_integer: &mut bool,
    second_sum_integer: &mut bool,
    first: CounterPoint,
    second: CounterPoint,
) -> (r: Result<u64, PairExclusion>)
    ensures
        forall|durations: Seq<u64>|
            #![trigger paired(
                PairTally {
                    sums: *old(sums),
                    integer_a: *old(first_sum_integer),
                    integer_b: *old(second_sum_integer),
                    durations,
                },
                first,
                second,
            )]
            match paired(
                PairTally {
                    sums: *old(sums),
                    integer_a: *old(first_sum_integer),
                    integer_b: *old(second_sum_integer),
                    durations,
                },
                first,
                second,
            ) {
                Ok(tally) => r is Ok && tally == (PairTally {
                    sums: *final(sums),
                    integer_a: *final(first_sum_integer),
                    integer_b: *final(second_sum_integer),
                    durations: durations.push(r->Ok_0),
                }),
                Err(exclusion) => r == Err::<u64, _>(exclusion) && *final(sums) == *old(sums)
                    && *final(first_sum_integer) == *old(first_sum_integer)
                    && *final(second_sum_integer) == *old(second_sum_integer),
            },
{
    let (a, b): (CounterDelta, CounterDelta) = match (first.delta(), second.delta()) {
        (Ok(a), Ok(b)) => (a, b),
        (Err(CounterDeltaError::NumericLimit), _) => {
            return Err(PairExclusion::NumericLimit);
        },
        (_, Err(CounterDeltaError::NumericLimit)) => {
            return Err(PairExclusion::NumericLimit);
        },
        _ => {
            return Err(PairExclusion::UnusableDelta);
        },
    };
    let duration: u64 = match (first.interval_us(), second.interval_us()) {
        (Some(p), Some(q)) => {
            if p != q {
                return Err(PairExclusion::UnalignedDuration);
            }
            p
        },
        _ => {
            return Err(PairExclusion::UnalignedDuration);
        },
    };
    let start: i128 = first.end_us as i128 - duration as i128;
    if start < i64::MIN as i128 {
        return Err(PairExclusion::UnalignedDuration);
    }
    let next_a: Float64 = sums.sum_a.plus(a.value);
    let next_b: Float64 = sums.sum_b.plus(b.value);
    if duration > u64::MAX - sums.elapsed_us {
        return Err(PairExclusion::NumericLimit);
    }
    if !next_a.is_finite() || !next_b.is_finite() || !check_exact(
        sums.sum_a,
        *first_sum_integer,
        a,
    ) || !check_exact(sums.sum_b, *second_sum_integer, b) {
        return Err(PairExclusion::NumericLimit);
    }
    sums.sum_a = next_a;
    sums.sum_b = next_b;
    sums.intervals = count(sums.intervals);
    if sums.first_start_us.is_none() {
        sums.first_start_us = Some(start as i64);
    }
    if sums.first_end_us.is_none() {
        sums.first_end_us = Some(first.end_us);
    }
    sums.last_end_us = Some(first.end_us);
    sums.elapsed_us = sums.elapsed_us + duration;
    *first_sum_integer = *first_sum_integer && a.integer;
    *second_sum_integer = *second_sum_integer && b.integer;
    Ok(duration)
}

/// An endpoint of one track, or one that both tracks share.
pub enum Endpoint {
    Unmatched(i64),
    Matched(CounterPoint, CounterPoint),
}

/// The endpoints of two tracks walked in step.
pub open spec fn endpoints(a: Seq<CounterPoint>, b: Seq<CounterPoint>) -> Seq<Endpoint>
    decreases a.len() + b.len(),
{
    if a.len() == 0 && b.len() == 0 {
        Seq::empty()
    } else if b.len() == 0 || (a.len() > 0 && a[0].end_us < b[0].end_us) {
        seq![Endpoint::Unmatched(a[0].end_us)] + endpoints(a.drop_first(), b)
    } else if a.len() == 0 || b[0].end_us < a[0].end_us {
        seq![Endpoint::Unmatched(b[0].end_us)] + endpoints(a, b.drop_first())
    } else {
        seq![Endpoint::Matched(a[0], b[0])] + endpoints(a.drop_first(), b.drop_first())
    }
}

/// The tally after one endpoint.
pub open spec fn tallied(tally: PairTally, endpoint: Endpoint, from_us: i64, to_us: i64) -> PairTally {
    let end = match endpoint {
        Endpoint::Unmatched(end) => end,
        Endpoint::Matched(first, _) => first.end_us,
    };
    if end < from_us || to_us < end {
        tally
    } else {
        let seen = PairTally {
            sums: PairedSums {
                candidate_intervals: counted(tally.sums.candidate_intervals),
                ..tally.sums
            },
            ..tally
        };
        match endpoint {
            Endpoint::Unmatched(_) => PairTally {
                sums: PairedSums {
                    unmatched_endpoint_intervals: counted(seen.sums.unmatched_endpoint_intervals),
                    ..seen.sums
                },
                ..seen
            },
            Endpoint::Matched(first, second) => match paired(seen, first, second) {
                Ok(next) => next,
                Err(PairExclusion::UnusableDelta) => PairTally {
                    sums: PairedSums {
                        unusable_delta_intervals: counted(seen.sums.unusable_delta_intervals),
                        ..seen.sums
                    },
                    ..seen
                },
                Err(PairExclusion::UnalignedDuration) => PairTally {
                    sums: PairedSums {
                        unaligned_duration_intervals: counted(
                            seen.sums.unaligned_duration_intervals,
                        ),
                        ..seen.sums
                    },
                    ..seen
                },
                Err(PairExclusion::NumericLimit) => PairTally {
                    sums: PairedSums {
                        numeric_limit_intervals: counted(seen.sums.numeric_limit_intervals),
                        ..seen.sums
                    },
                    ..seen
                },
            },
        }
    }
}

/// The tally after a run of endpoints.
pub open spec fn tally_all(
    tally: PairTally,
    points: Seq<Endpoint>,
    from_us: i64,
    to_us: i64,
) -> PairTally
    decreases points.len(),
{
    if points.len() == 0 {
        tally
    } else {
        tally_all(tallied(tally, points[0], from_us, to_us), points.drop_first(), from_us, to_us)
    }
}

/// The sums of two tracks within a window.
pub open spec fn pair_sums(
    a: Seq<CounterPoint>,
    b: Seq<CounterPoint>,
    from_us: i64,
    to_us: i64,
) -> PairedSums {
    let tally = tally_all(PairTally::zero(), endpoints(a, b), from_us, to_us);
    PairedSums { observed_period_us: period(tally.durations), ..tally.sums }
}

proof fn lemma_tally_first(
    tally: PairTally,
    first: Endpoint,
    rest: Seq<Endpoint>,
    from_us: i64,
    to_us: i64,
)
    ensures
        tally_all(tally, seq![first] + rest, from_us, to_us) == tally_all(
            tallied(tally, first, from_us, to_us),
            rest,
            from_us,
            to_us,
        ),
{
    assert((seq![first] + rest).drop_first() =~= rest);
    assert((seq![first] + rest)[0] == first);
}

/// Sums the deltas of two tracks inside `[from_us, to_us]`, over the intervals
/// where both carry a usable value and share an endpoint.
pub fn sum_pairs(a: &[CounterPoint], b: &[CounterPoint], from_us: i64, to_us: i64) -> (r:
    PairedSums)
    ensures
        r == pair_sums(a@, b@, from_us, to_us),
{
    let zero = Float64 { bits: 0 };
    let mut sums = PairedSums {
        sum_a: zero,
        sum_b: zero,
        intervals: 0,
        candidate_intervals: 0,
        unmatched_endpoint_intervals: 0,
        unusable_delta_intervals: 0,
        unaligned_duration_intervals: 0,
        numeric_limit_intervals: 0,
        first_start_us: None,
        first_end_us: None,
        last_end_us: None,
        elapsed_us: 0,
        observed_period_us: None,
    };
    let mut durations: Vec<u64> = Vec::new();
    let mut integer_a: bool = true;
    let mut integer_b: bool = true;
    let mut i: usize = 0;
    let mut j: usize = 0;
    let ghost goal = tally_all(PairTally::zero(), endpoints(a@, b@), from_us, to_us);
    proof {
        assert(a@.skip(0) =~= a@);
        assert(b@.skip(0) =~= b@);
        assert((PairTally { sums, integer_a, integer_b, durations: durations@ })
            =~= PairTally::zero());
    }
    while i < a.len() || j < b.len()
        invariant
            i <= a.len(),
            j <= b.len(),
            tally_all(
                PairTally { sums, integer_a, integer_b, durations: durations@ },
                endpoints(a@.skip(i as int), b@.skip(j as int)),
                from_us,
                to_us,
            ) == goal,
        decreases (a.len() - i) + (b.len() - j),
    {
        let ghost now = PairTally { sums, integer_a, integer_b, durations: durations@ };
        let ghost ra = a@.skip(i as int);
        let ghost rb = b@.skip(j as int);
        proof {
            if i < a.len() {
                assert(ra.drop_first() =~= a@.skip(i + 1));
                assert(ra[0] == a@[i as int]);
            }
            if j < b.len() {
                assert(rb.drop_first() =~= b@.skip(j + 1));
                assert(rb[0] == b@[j as int]);
            }
        }
        let only_a: bool = j >= b.len() || (i < a.len() && a[i].end_us < b[j].end_us);
        let only_b: bool = !only_a && (i >= a.len() || b[j].end_us < a[i].end_us);
        if only_a || only_b {
            let end_us: i64 = if only_a {
                a[i].end_us
            } else {
                b[j].end_us
            };
            proof {
                lemma_tally_first(
                    now,
                    Endpoint::Unmatched(end_us),
                    if only_a {
                        endpoints(ra.drop_first(), rb)
                    } else {
                        endpoints(ra, rb.drop_first())
                    },
                    from_us,
                    to_us,
                );
            }
            if from_us <= end_us && end_us <= to_us {
                sums.candidate_intervals = count(sums.candidate_intervals);
                sums.unmatched_endpoint_intervals = count(sums.unmatched_endpoint_intervals);
            }
            proof {
                let next = PairTally { sums, integer_a, integer_b, durations: durations@ };
                assert(next =~= tallied(now, Endpoint::Unmatched(end_us), from_us, to_us));
            }
            if only_a {
                i = i + 1;
            } else {
                j = j + 1;
            }
        } else {
            let first: CounterPoint = a[i];
            let second: CounterPoint = b[j];
            proof {
                lemma_tally_first(
                    now,
                    Endpoint::Matched(first, second),
                    endpoints(ra.drop_first(), rb.drop_first()),
                    from_us,
                    to_us,
                );
            }
            if from_us <= first.end_us && first.end_us <= to_us {
                sums.candidate_intervals = count(sums.candidate_intervals);
                let ghost seen = PairTally { sums, integer_a, integer_b, durations: durations@ };
                let ghost outcome = paired(seen, first, second);
                match accumulate_counter_pair(
                    &mut sums,
                    &mut integer_a,
                    &mut integer_b,
                    first,
                    second,
                ) {
                    Ok(duration) => {
                        durations.push(duration);
                        assert(outcome is Ok);
                    },
                    Err(PairExclusion::UnusableDelta) => {
                        sums.unusable_delta_intervals = count(sums.unusable_delta_intervals);
                    },
                    Err(PairExclusion::UnalignedDuration) => {
                        sums.unaligned_duration_intervals = count(sums.unaligned_duration_intervals);
                    },
                    Err(PairExclusion::NumericLimit) => {
                        sums.numeric_limit_intervals = count(sums.numeric_limit_intervals);
                    },
                }
            }
            proof {
                let next = PairTally { sums, integer_a, integer_b, durations: durations@ };
                assert(next =~= tallied(now, Endpoint::Matched(first, second), from_us, to_us));
            }
            i = i + 1;
            j = j + 1;
        }
    }
    proof {
        assert(endpoints(a@.skip(i as int), b@.skip(j as int)) =~= Seq::empty());
    }
    sums.observed_period_us = observed_period_from_durations(durations.as_mut_slice());
    sums
}

/// Every candidate endpoint is classified exactly once.
pub open spec fn classified(sums: PairedSums) -> bool {
    sums.candidate_intervals == sums.intervals + sums.unmatched_endpoint_intervals
        + sums.unusable_delta_intervals + sums.unaligned_duration_intervals
        + sums.numeric_limit_intervals
}

/// The usable intervals of a tally lie in order within the window.
pub open spec fn ordered(sums: PairedSums, from_us: i64, to_us: i64) -> bool {
    &&& sums.intervals > 0 <==> sums.first_end_us is Some
    &&& sums.intervals > 0 <==> sums.first_start_us is Some
    &&& sums.intervals > 0 <==> sums.last_end_us is Some
    &&& sums.intervals > 0 ==> {
        &&& sums.first_start_us->Some_0 <= sums.first_end_us->Some_0
        &&& from_us <= sums.first_end_us->Some_0 <= to_us
        &&& from_us <= sums.last_end_us->Some_0 <= to_us
        &&& sums.elapsed_us > 0
    }
}

proof fn lemma_tally_classified(tally: PairTally, points: Seq<Endpoint>, from_us: i64, to_us: i64)
    requires
        classified(tally.sums),
        ordered(tally.sums, from_us, to_us),
        tally.sums.candidate_intervals + points.len() < usize::MAX,
    ensures
        classified(tally_all(tally, points, from_us, to_us).sums),
        ordered(tally_all(tally, points, from_us, to_us).sums, from_us, to_us),
    decreases points.len(),
{
    if points.len() > 0 {
        lemma_tally_classified(
            tallied(tally, points[0], from_us, to_us),
            points.drop_first(),
            from_us,
            to_us,
        );
    }
}

proof fn lemma_endpoint_count(a: Seq<CounterPoint>, b: Seq<CounterPoint>)
    ensures
        endpoints(a, b).len() <= a.len() + b.len(),
    decreases a.len() + b.len(),
{
    if a.len() == 0 && b.len() == 0 {
    } else if b.len() == 0 || (a.len() > 0 && a[0].end_us < b[0].end_us) {
        lemma_endpoint_count(a.drop_first(), b);
    } else if a.len() == 0 || b[0].end_us < a[0].end_us {
        lemma_endpoint_count(a, b.drop_first());
    } else {
        lemma_endpoint_count(a.drop_first(), b.drop_first());
    }
}

/// Every endpoint in the window counts once: as a usable pair, or as excluded
/// for exactly one reason. Usable pairs end within the window.
pub proof fn law_every_endpoint_is_classified_once(
    a: Seq<CounterPoint>,
    b: Seq<CounterPoint>,
    from_us: i64,
    to_us: i64,
)
    requires
        a.len() + b.len() < usize::MAX,
    ensures
        classified(pair_sums(a, b, from_us, to_us)),
        ordered(pair_sums(a, b, from_us, to_us), from_us, to_us),
{
    lemma_endpoint_count(a, b);
    lemma_tally_classified(PairTally::zero(), endpoints(a, b), from_us, to_us);
}

// Sums of several columns.

/// Sums for a fixed set of cumulative columns over exactly the same usable
/// intervals.
#[derive(Debug, PartialEq, Eq)]
pub struct AlignedSums {
    pub sums: Vec<Float64>,
    pub intervals: usize,
    pub last_end_us: i64,
    pub elapsed_us: u64,
    /// Incident-window coverage: span, observed cadence, and usable intervals.
    pub source_window: SourceWindow,
}

/// The mathematical value of aligned sums.
#[verifier::ext_equal]
pub struct AlignedView {
    pub sums: Seq<Float64>,
    pub intervals: usize,
    pub last_end_us: i64,
    pub elapsed_us: u64,
    pub source_window: SourceWindow,
}

impl View for AlignedSums {
    type V = AlignedView;

    open spec fn view(&self) -> AlignedView {
        AlignedView {
            sums: self.sums@,
            intervals: self.intervals,
            last_end_us: self.last_end_us,
            elapsed_us: self.elapsed_us,
            source_window: self.source_window,
        }
    }
}

/// Sums so far, whether they hold only integers, and the durations behind them.
#[verifier::ext_equal]
pub struct AlignedTally {
    pub sums: Seq<Float64>,
    pub integers: Seq<bool>,
    pub intervals: usize,
    pub last_end_us: i64,
    pub elapsed_us: u64,
    pub durations: Seq<u64>,
}

/// Whether every point carries a usable delta over the same duration.
pub open spec fn usable_row(points: Seq<CounterPoint>) -> bool {
    forall|k: int|
        0 <= k < points.len() ==> {
            let point = #[trigger] points[k];
            &&& point.difference() is Ok
            &&& point.duration() is Some
            &&& point.duration() == points[0].duration()
            &&& point.end_us - point.duration()->Some_0 >= i64::MIN
        }
}

/// Whether a row can be added without leaving the exact or finite numbers.
pub open spec fn addable_row(tally: AlignedTally, points: Seq<CounterPoint>) -> bool {
    &&& tally.elapsed_us + points[0].duration()->Some_0 <= u64::MAX
    &&& forall|k: int|
        0 <= k < points.len() ==> {
            let delta = (#[trigger] points[k]).difference()->Ok_0;
            tally.sums[k].sum_with(delta.value).finite() && stays_exact(
                tally.sums[k],
                tally.integers[k],
                delta,
            )
        }
}

/// The tally after one row of points that end at the same time.
pub open spec fn row_tallied(
    tally: AlignedTally,
    points: Seq<CounterPoint>,
    from_us: i64,
    to_us: i64,
) -> AlignedTally {
    let end = points[0].end_us;
    if end < from_us || to_us < end || !usable_row(points) || !addable_row(tally, points) {
        tally
    } else {
        let duration = points[0].duration()->Some_0;
        AlignedTally {
            sums: Seq::new(
                tally.sums.len(),
                |k: int| tally.sums[k].sum_with(points[k].difference()->Ok_0.value),
            ),
            integers: Seq::new(
                tally.integers.len(),
                |k: int| tally.integers[k] && points[k].difference()->Ok_0.integer,
            ),
            intervals: counted(tally.intervals),
            last_end_us: end,
            elapsed_us: (tally.elapsed_us + duration) as u64,
            durations: tally.durations.push(duration),
        }
    }
}

/// The points of a row.
pub open spec fn row_points(tracks: Seq<Seq<CounterPoint>>, row: Seq<int>) -> Seq<CounterPoint> {
    Seq::new(tracks.len(), |k: int| tracks[k][row[k]])
}

/// The tally after a run of rows.
pub open spec fn rows_tallied(
    tally: AlignedTally,
    tracks: Seq<Seq<CounterPoint>>,
    found: Seq<Seq<int>>,
    from_us: i64,
    to_us: i64,
) -> AlignedTally
    decreases found.len(),
{
    if found.len() == 0 {
        tally
    } else {
        row_tallied(
            rows_tallied(tally, tracks, found.drop_last(), from_us, to_us),
            row_points(tracks, found.last()),
            from_us,
            to_us,
        )
    }
}

/// The end of each interval of each track.
pub open spec fn end_times(tracks: Seq<Seq<CounterPoint>>) -> Seq<Seq<i64>> {
    Seq::new(
        tracks.len(),
        |k: int| Seq::new(tracks[k].len(), |i: int| tracks[k][i].end_us),
    )
}

pub open spec fn empty_tally(n: nat, from_us: i64) -> AlignedTally {
    AlignedTally {
        sums: Seq::new(n, |k: int| Float64 { bits: 0 }),
        integers: Seq::new(n, |k: int| true),
        intervals: 0,
        last_end_us: from_us,
        elapsed_us: 0,
        durations: Seq::empty(),
    }
}

/// The sums of several tracks within a window.
pub open spec fn aligned_sums(
    tracks: Seq<Seq<CounterPoint>>,
    from_us: i64,
    to_us: i64,
) -> AlignedView {
    let tally = rows_tallied(
        empty_tally(tracks.len(), from_us),
        tracks,
        rows(end_times(tracks)),
        from_us,
        to_us,
    );
    AlignedView {
        sums: tally.sums,
        intervals: tally.intervals,
        last_end_us: tally.last_end_us,
        elapsed_us: tally.elapsed_us,
        source_window: SourceWindow {
            window_span_us: span_of(from_us, to_us),
            observed_period_us: period(tally.durations),
            usable_samples: tally.intervals as u64,
        },
    }
}

/// The points of each track.
pub open spec fn track_view(tracks: Seq<&Vec<CounterPoint>>) -> Seq<Seq<CounterPoint>> {
    Seq::new(tracks.len(), |k: int| tracks[k]@)
}

/// The usable deltas of a row and their common duration.
fn aligned_interval(tracks: &Vec<&Vec<CounterPoint>>, row: &Vec<usize>) -> (r: Option<
    (Vec<CounterDelta>, u64),
>)
    requires
        tracks.len() > 0,
        row.len() == tracks.len(),
        forall|k: int| 0 <= k < row.len() ==> #[trigger] row@[k] < tracks@[k].len(),
    ensures
        ({
            let points = row_points(track_view(tracks@), row_view(row@));
            match r {
                Some((deltas, duration)) => {
                    &&& usable_row(points)
                    &&& deltas.len() == points.len()
                    &&& forall|k: int|
                        0 <= k < points.len() ==> #[trigger] deltas@[k]
                            == points[k].difference()->Ok_0
                    &&& Some(duration) == points[0].duration()
                },
                None => !usable_row(points),
            }
        }),
{
    let ghost points = row_points(track_view(tracks@), row_view(row@));
    let mut deltas: Vec<CounterDelta> = Vec::new();
    let mut common: Option<u64> = None;
    let mut k: usize = 0;
    while k < tracks.len()
        invariant
            k <= tracks.len(),
            tracks.len() > 0,
            row.len() == tracks.len(),
            forall|j: int| 0 <= j < row.len() ==> #[trigger] row@[j] < tracks@[j].len(),
            points == row_points(track_view(tracks@), row_view(row@)),
            deltas.len() == k,
            forall|j: int|
                0 <= j < k ==> {
                    let point = #[trigger] points[j];
                    &&& point.difference() is Ok
                    &&& point.duration() is Some
                    &&& point.duration() == points[0].duration()
                    &&& point.end_us - point.duration()->Some_0 >= i64::MIN
                    &&& deltas@[j] == point.difference()->Ok_0
                },
            k == 0 ==> common is None,
            k > 0 ==> common == points[0].duration() && common is Some,
        decreases tracks.len() - k,
    {
        assert(row@[k as int] < tracks@[k as int].len());
        let point: CounterPoint = tracks[k][row[k]];
        assert(points[k as int] == point);
        let delta: CounterDelta = match point.delta() {
            Ok(delta) => delta,
            Err(_) => {
                return None;
            },
        };
        let duration: u64 = match point.interval_us() {
            Some(duration) => duration,
            None => {
                return None;
            },
        };
        if (point.end_us as i128 - duration as i128) < i64::MIN as i128 {
            return None;
        }
        match common {
            Some(expected) => {
                if expected != duration {
                    return None;
                }
            },
            None => {},
        }
        common = Some(duration);
        deltas.push(delta);
        k = k + 1;
    }
    match common {
        Some(duration) => Some((deltas, duration)),
        None => None,
    }
}

/// Sums several tracks over the intersection of their usable endpoints. A
/// reset, gate, gap, or missing point removes the whole interval from every
/// operand.
pub fn sum_aligned(tracks: &Vec<&Vec<CounterPoint>>, from_us: i64, to_us: i64) -> (r: AlignedSums)
    requires
        tracks.len() > 0,
    ensures
        r@ == aligned_sums(track_view(tracks@), from_us, to_us),
        r.sums.len() == tracks.len(),
{
    let ghost all = track_view(tracks@);
    let mut times: Vec<Vec<i64>> = Vec::new();
    let mut sums: Vec<Float64> = Vec::new();
    let mut integers: Vec<bool> = Vec::new();
    let mut k: usize = 0;
    while k < tracks.len()
        invariant
            k <= tracks.len(),
            all == track_view(tracks@),
            times.len() == k,
            sums.len() == k,
            integers.len() == k,
            forall|j: int| 0 <= j < k ==> #[trigger] times@[j]@ == end_times(all)[j],
            forall|j: int| 0 <= j < k ==> sums@[j] == (Float64 { bits: 0 }),
            forall|j: int| 0 <= j < k ==> integers@[j],
        decreases tracks.len() - k,
    {
        let track: &Vec<CounterPoint> = tracks[k];
        let mut ends: Vec<i64> = Vec::new();
        let mut i: usize = 0;
        while i < track.len()
            invariant
                i <= track.len(),
                ends.len() == i,
                forall|j: int| 0 <= j < i ==> ends@[j] == track@[j].end_us,
            decreases track.len() - i,
        {
            ends.push(track[i].end_us);
            i = i + 1;
        }
        proof {
            assert(ends@ =~= end_times(all)[k as int]);
        }
        times.push(ends);
        sums.push(Float64 { bits: 0 });
        integers.push(true);
        k = k + 1;
    }
    let found: Vec<Vec<usize>> = shared_rows(&times);
    let n: usize = tracks.len();
    let mut intervals: usize = 0;
    let mut last_end_us: i64 = from_us;
    let mut elapsed_us: u64 = 0;
    let mut durations: Vec<u64> = Vec::new();
    let ghost start = empty_tally(n as nat, from_us);
    let ghost list = rows_view(found@);
    proof {
        assert(time_view(times@) =~= end_times(all));
        lemma_rows_fit(end_times(all), origin(n as nat));
        assert(list.take(0) =~= Seq::empty());
        assert((AlignedTally {
            sums: sums@,
            integers: integers@,
            intervals,
            last_end_us,
            elapsed_us,
            durations: durations@,
        }) =~= start);
    }
    let mut i: usize = 0;
    while i < found.len()
        invariant
            i <= found.len(),
            n == tracks.len(),
            n > 0,
            all == track_view(tracks@),
            list == rows_view(found@),
            forall|j: int|
                0 <= j < list.len() ==> row_fits(end_times(all), #[trigger] list[j]) && level(
                    end_times(all),
                    list[j],
                ),
            sums.len() == n,
            integers.len() == n,
            rows_tallied(start, all, list.take(i as int), from_us, to_us) == (AlignedTally {
                sums: sums@,
                integers: integers@,
                intervals,
                last_end_us,
                elapsed_us,
                durations: durations@,
            }),
        decreases found.len() - i,
    {
        let row: &Vec<usize> = &found[i];
        let ghost at = list[i as int];
        let ghost points = row_points(all, at);
        let ghost now = AlignedTally {
            sums: sums@,
            integers: integers@,
            intervals,
            last_end_us,
            elapsed_us,
            durations: durations@,
        };
        proof {
            assert(at == row_view(row@));
            assert(list.take(i + 1).drop_last() =~= list.take(i as int));
            assert(list.take(i + 1).last() == at);
            assert forall|j: int| 0 <= j < row.len() implies #[trigger] row@[j]
                < tracks@[j].len() by {
                assert(at[j] < end_times(all)[j].len());
            }
            assert(row@[0] < tracks@[0].len());
        }
        let end: i64 = tracks[0][row[0]].end_us;
        assert(end == points[0].end_us);
        if from_us <= end && end <= to_us {
            if let Some((deltas, duration)) = aligned_interval(tracks, row) {
                let mut fits: bool = duration <= u64::MAX - elapsed_us;
                let mut next: Vec<Float64> = Vec::new();
                let mut next_integers: Vec<bool> = Vec::new();
                let mut j: usize = 0;
                while j < n && fits
                    invariant
                        j <= n,
                        sums.len() == n,
                        integers.len() == n,
                        deltas.len() == n,
                        points.len() == n,
                        now.sums == sums@,
                        now.integers == integers@,
                        now.elapsed_us == elapsed_us,
                        Some(duration) == points[0].duration(),
                        forall|m: int|
                            0 <= m < n ==> #[trigger] deltas@[m] == points[m].difference()->Ok_0,
                        fits ==> elapsed_us + duration <= u64::MAX,
                        !fits ==> !addable_row(now, points),
                        fits ==> next.len() == j && next_integers.len() == j,
                        fits ==> forall|m: int|
                            0 <= m < j ==> {
                                let delta = (#[trigger] points[m]).difference()->Ok_0;
                                &&& sums@[m].sum_with(delta.value).finite()
                                &&& stays_exact(sums@[m], integers@[m], delta)
                                &&& next@[m] == sums@[m].sum_with(delta.value)
                                &&& next_integers@[m] == (integers@[m] && delta.integer)
                            },
                    decreases n - j + if fits { 1int } else { 0 },
                {
                    let delta: CounterDelta = deltas[j];
                    assert(delta == points[j as int].difference()->Ok_0);
                    let sum: Float64 = sums[j].plus(delta.value);
                    if sum.is_finite() && check_exact(sums[j], integers[j], delta) {
                        next.push(sum);
                        next_integers.push(integers[j] && delta.integer);
                        j = j + 1;
                    } else {
                        fits = false;
                    }
                }
                if fits {
                    proof {
                        assert(addable_row(now, points));
                    }
                    sums = next;
                    integers = next_integers;
                    intervals = count(intervals);
                    last_end_us = end;
                    elapsed_us = elapsed_us + duration;
                    durations.push(duration);
                }
            }
        }
        proof {
            let next = AlignedTally {
                sums: sums@,
                integers: integers@,
                intervals,
                last_end_us,
                elapsed_us,
                durations: durations@,
            };
            assert(next =~= row_tallied(now, points, from_us, to_us));
        }
        i = i + 1;
    }
    proof {
        assert(list.take(i as int) =~= list);
    }
    let source_window: SourceWindow = SourceWindow::from_bounds(
        from_us,
        to_us,
        observed_period_from_durations(durations.as_mut_slice()),
        intervals,
    );
    AlignedSums { sums, intervals, last_end_us, elapsed_us, source_window }
}

} // verus!
