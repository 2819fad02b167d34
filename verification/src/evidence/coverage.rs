//! Observed source cadence and incident-window coverage.
//!
//! The collection period is derived from a series' own sample spacing, so a
//! finding can state how much of its incident window the source covered, or
//! report that the cadence is unproven.

use crate::float64::Float64;
use crate::order::{ints, lemma_ranked_sort, ranked_sort, sort_ranked, views, Keyed, Ranked};
use crate::text::push_int;
use vstd::prelude::*;

verus! {

/// Fewest usable intervals needed to trust the observed period. With three
/// durations a single gap-inflated interval cannot move the median off the
/// true cadence.
pub const MIN_INTERVALS_FOR_PERIOD: usize = 3;

/// Observed source cadence over one series' incident window.
#[derive(Debug, Clone, Copy, PartialEq, Eq, PartialOrd, Ord, Structural)]
pub struct SourceWindow {
    pub window_span_us: u64,
    pub observed_period_us: Option<u64>,
    pub usable_samples: u64,
}

/// The length of an interval, or zero where it is not one that fits.
pub open spec fn span_of(from_us: i64, to_us: i64) -> u64 {
    if 0 <= to_us - from_us <= i64::MAX {
        (to_us - from_us) as u64
    } else {
        0
    }
}

impl SourceWindow {
    pub fn new(window_span_us: u64, observed_period_us: Option<u64>, samples: usize) -> (r: Self)
        ensures
            r == (SourceWindow {
                window_span_us,
                observed_period_us,
                usable_samples: samples as u64,
            }),
    {
        SourceWindow { window_span_us, observed_period_us, usable_samples: samples as u64 }
    }

    /// Builds a window from its incident bounds, with a degenerate span made
    /// zero.
    pub fn from_bounds(
        from_us: i64,
        to_us: i64,
        observed_period_us: Option<u64>,
        samples: usize,
    ) -> (r: Self)
        ensures
            r == (SourceWindow {
                window_span_us: span_of(from_us, to_us),
                observed_period_us,
                usable_samples: samples as u64,
            }),
    {
        let delta: i128 = to_us as i128 - from_us as i128;
        let window_span_us: u64 = if 0 <= delta && delta <= i64::MAX as i128 {
            delta as u64
        } else {
            0
        };
        SourceWindow::new(window_span_us, observed_period_us, samples)
    }

    pub fn observed_period_us(&self) -> (r: Option<u64>)
        ensures
            r == self.observed_period_us,
    {
        self.observed_period_us
    }

    pub fn expected_interval_count(&self) -> (r: Option<u64>)
        ensures
            r == match self.observed_period_us {
                Some(period) => interval_count(self.window_span_us, period),
                None => None,
            },
    {
        match self.observed_period_us {
            Some(period) => expected_interval_count(self.window_span_us, period),
            None => None,
        }
    }

    pub fn source_window_completeness(&self) -> (r: Option<Float64>)
        ensures
            r == match self.observed_period_us {
                Some(period) => match interval_count(self.window_span_us, period) {
                    Some(expected) => completeness(self.usable_samples, expected),
                    None => None,
                },
                None => None,
            },
    {
        match self.expected_interval_count() {
            Some(expected) => source_window_completeness(self.usable_samples, expected),
            None => None,
        }
    }

    pub fn completeness_gap_reason(&self) -> (r: Option<&'static str>)
        ensures
            reason_text(r) == gap_reason(Some(self.window_span_us), self.observed_period_us),
    {
        source_window_gap_reason(Some(self.window_span_us), self.observed_period_us)
    }

    /// Appends the rank to a key.
    pub fn key_into(&self, out: &mut Vec<i128>)
        ensures
            ints(final(out)@) == ints(old(out)@) + self.rank(),
    {
        let ghost start = ints(out@);
        push_int(out, self.window_span_us as i128);
        match self.observed_period_us {
            Some(period) => {
                push_int(out, 1);
                push_int(out, period as i128);
            },
            None => {
                push_int(out, 0);
            },
        }
        push_int(out, self.usable_samples as i128);
        proof {
            assert(ints(out@) =~= start + self.rank());
        }
    }
}

impl Ranked for SourceWindow {
    open spec fn rank(self) -> Seq<int> {
        (self.window_span_us, (self.observed_period_us, self.usable_samples)).rank()
    }

    proof fn rank_splits(a: Self, b: Self, x: Seq<int>, y: Seq<int>) {
        <(u64, (Option<u64>, u64))>::rank_splits(
            (a.window_span_us, (a.observed_period_us, a.usable_samples)),
            (b.window_span_us, (b.observed_period_us, b.usable_samples)),
            x,
            y,
        );
    }
}

impl Keyed<u64> for u64 {
    fn key_into(&self, out: &mut Vec<i128>) {
        push_int(out, *self as i128);
    }
}

/// The median of some durations. Even lengths average the two central ones,
/// rounded to nearest.
pub open spec fn median(durations: Seq<u64>) -> Option<u64> {
    let sorted = ranked_sort(durations);
    let middle = (durations.len() / 2) as int;
    if durations.len() == 0 {
        None
    } else if durations.len() % 2 == 1 {
        Some(sorted[middle])
    } else {
        Some(((sorted[middle - 1] + sorted[middle] + 1) / 2) as u64)
    }
}

/// Sorts durations in place.
fn sort_durations(durations: &mut [u64])
    ensures
        final(durations)@ == ranked_sort(old(durations)@),
{
    let ghost start = durations@;
    let count: usize = durations.len();
    let mut copy: Vec<u64> = Vec::new();
    let mut i: usize = 0;
    while i < count
        invariant
            i <= count == durations@.len(),
            durations@ == start,
            copy@ == start.take(i as int),
        decreases count - i,
    {
        copy.push(durations[i]);
        proof {
            assert(start.take(i + 1) =~= start.take(i as int).push(start[i as int]));
        }
        i = i + 1;
    }
    proof {
        assert(start.take(i as int) =~= start);
        assert(views(copy@) =~= start);
        lemma_ranked_sort(start);
    }
    let sorted: Vec<u64> = sort_ranked(copy);
    proof {
        assert(views(sorted@) =~= sorted@);
    }
    let mut j: usize = 0;
    while j < count
        invariant
            j <= count == durations@.len() == sorted@.len(),
            forall|k: int| 0 <= k < j ==> durations@[k] == sorted@[k],
        decreases count - j,
    {
        durations[j] = sorted[j];
        j = j + 1;
    }
    proof {
        assert(durations@ =~= sorted@);
    }
}

/// Median of interval durations in microseconds. Even lengths average the two
/// central samples, rounded to nearest. Sorts the durations in place.
pub fn median_us(durations: &mut [u64]) -> (r: Option<u64>)
    ensures
        r == median(old(durations)@),
        final(durations)@ == ranked_sort(old(durations)@),
{
    proof {
        lemma_ranked_sort(durations@);
    }
    sort_durations(durations);
    let count: usize = durations.len();
    if count == 0 {
        return None;
    }
    let middle: usize = count / 2;
    if count % 2 == 1 {
        Some(durations[middle])
    } else {
        let low: u128 = durations[middle - 1] as u128;
        let high: u128 = durations[middle] as u128;
        Some(((low + high + 1) / 2) as u64)
    }
}

/// The period that some durations prove.
pub open spec fn period(durations: Seq<u64>) -> Option<u64> {
    if durations.len() >= MIN_INTERVALS_FOR_PERIOD {
        median(durations)
    } else {
        None
    }
}

/// Observed period from the durations of a series' usable intervals.
pub fn observed_period_from_durations(durations: &mut [u64]) -> (r: Option<u64>)
    ensures
        r == period(old(durations)@),
        final(durations)@ == if old(durations)@.len() >= MIN_INTERVALS_FOR_PERIOD {
            ranked_sort(old(durations)@)
        } else {
            old(durations)@
        },
{
    if durations.len() >= MIN_INTERVALS_FOR_PERIOD {
        median_us(durations)
    } else {
        None
    }
}

/// The positive gaps between adjacent timestamps.
pub open spec fn positive_gaps(ts: Seq<i64>) -> Seq<u64>
    decreases ts.len(),
{
    if ts.len() < 2 {
        Seq::empty()
    } else {
        let before = positive_gaps(ts.drop_last());
        let gap = ts.last() - ts[ts.len() - 2];
        if 0 < gap <= i64::MAX {
            before.push(gap as u64)
        } else {
            before
        }
    }
}

/// Observed period from a series' sample timestamps, ascending. The gaps
/// between adjacent samples are the candidate cadences.
pub fn observed_period_from_timestamps(sorted_ts: &[i64]) -> (r: Option<u64>)
    ensures
        r == period(positive_gaps(sorted_ts@)),
{
    let mut gaps: Vec<u64> = Vec::new();
    let mut i: usize = 1;
    if sorted_ts.len() == 0 {
        return observed_period_from_durations(gaps.as_mut_slice());
    }
    proof {
        assert(gaps@ =~= positive_gaps(sorted_ts@.take(1)));
    }
    while i < sorted_ts.len()
        invariant
            1 <= i <= sorted_ts.len(),
            gaps@ == positive_gaps(sorted_ts@.take(i as int)),
        decreases sorted_ts.len() - i,
    {
        let gap: i128 = sorted_ts[i] as i128 - sorted_ts[i - 1] as i128;
        proof {
            assert(sorted_ts@.take(i + 1).drop_last() =~= sorted_ts@.take(i as int));
        }
        if 0 < gap && gap <= i64::MAX as i128 {
            gaps.push(gap as u64);
        }
        i = i + 1;
    }
    proof {
        assert(sorted_ts@.take(i as int) =~= sorted_ts@);
    }
    observed_period_from_durations(gaps.as_mut_slice())
}

/// `round(span / period)`, where it is defined and positive.
pub open spec fn interval_count(window_span_us: u64, observed_period_us: u64) -> Option<u64> {
    if window_span_us == 0 || observed_period_us == 0 {
        None
    } else {
        let rounded = (window_span_us + observed_period_us / 2) / (observed_period_us as int);
        if rounded > 0 {
            Some(rounded as u64)
        } else {
            None
        }
    }
}

proof fn lemma_rounded_fits(span: int, period: int)
    requires
        0 < span <= u64::MAX,
        0 < period <= u64::MAX,
    ensures
        0 <= (span + period / 2) / period <= u64::MAX,
{
    assert(0 <= (span + period / 2) / period <= span) by (nonlinear_arith)
        requires
            0 < span,
            0 < period,
    ;
}

/// Intervals the source should have delivered across the window at the
/// observed cadence.
pub fn expected_interval_count(window_span_us: u64, observed_period_us: u64) -> (r: Option<u64>)
    ensures
        r == interval_count(window_span_us, observed_period_us),
{
    if window_span_us == 0 || observed_period_us == 0 {
        return None;
    }
    let span: u128 = window_span_us as u128;
    let period: u128 = observed_period_us as u128;
    let rounded: u128 = (span + period / 2) / period;
    proof {
        lemma_rounded_fits(window_span_us as int, observed_period_us as int);
    }
    if rounded > 0 {
        Some(rounded as u64)
    } else {
        None
    }
}

pub open spec fn completeness(usable: u64, expected: u64) -> Option<Float64> {
    if expected > 0 {
        Some(Float64::of_int(usable as int).quotient_by(Float64::of_int(expected as int)))
    } else {
        None
    }
}

/// Usable samples over expected intervals, not clamped.
pub fn source_window_completeness(usable: u64, expected: u64) -> (r: Option<Float64>)
    ensures
        r == completeness(usable, expected),
{
    if expected > 0 {
        Some(Float64::from_i128(usable as i128).divided_by(Float64::from_i128(expected as i128)))
    } else {
        None
    }
}

pub open spec fn reason_text(reason: Option<&'static str>) -> Option<Seq<char>> {
    match reason {
        Some(text) => Some(text@),
        None => None,
    }
}

/// Why completeness cannot be reported.
pub open spec fn gap_reason(
    window_span_us: Option<u64>,
    observed_period_us: Option<u64>,
) -> Option<Seq<char>> {
    match window_span_us {
        None => Some("empty_incident_window"@),
        Some(span) => match observed_period_us {
            None => Some("insufficient_intervals_for_observed_period"@),
            Some(period) => if interval_count(span, period) is Some {
                None
            } else if span == 0 {
                Some("empty_incident_window"@)
            } else {
                Some("incident_window_shorter_than_observed_period"@)
            },
        },
    }
}

/// The reason completeness cannot be reported, or `None` when it can.
pub fn source_window_gap_reason(
    window_span_us: Option<u64>,
    observed_period_us: Option<u64>,
) -> (r: Option<&'static str>)
    ensures
        reason_text(r) == gap_reason(window_span_us, observed_period_us),
{
    match window_span_us {
        None => Some("empty_incident_window"),
        Some(span) => match observed_period_us {
            None => Some("insufficient_intervals_for_observed_period"),
            Some(period) => match expected_interval_count(span, period) {
                Some(_) => None,
                None => if span == 0 {
                    Some("empty_incident_window")
                } else {
                    Some("incident_window_shorter_than_observed_period")
                },
            },
        },
    }
}

/// One gap among three durations cannot move the period off the cadence that
/// the other two share.
pub proof fn law_one_gap_does_not_move_the_period(cadence: u64, gap: u64, at: int)
    requires
        0 <= at < 3,
    ensures
        period(seq![cadence, cadence, cadence].update(at, gap)) == Some(cadence),
{
    let durations = seq![cadence, cadence, cadence].update(at, gap);
    let sorted = if gap < cadence {
        seq![gap, cadence, cadence]
    } else {
        seq![cadence, cadence, gap]
    };
    assert(durations.to_multiset() =~= sorted.to_multiset()) by {
        broadcast use vstd::seq_lib::group_to_multiset_ensures;

        assert(durations =~= Seq::empty().push(durations[0]).push(durations[1]).push(durations[2]));
        assert(sorted =~= Seq::empty().push(sorted[0]).push(sorted[1]).push(sorted[2]));
    }
    assert(vstd::relations::sorted_by(sorted, crate::order::rank_order::<u64>())) by {
        let leq = crate::order::rank_order::<u64>();
        assert forall|i: int, j: int| 0 <= i < j < sorted.len() implies #[trigger] leq(
            sorted[i],
            sorted[j],
        ) by {
            if sorted[i] == sorted[j] {
            } else {
                assert(sorted[i].rank()[0] < sorted[j].rank()[0]);
            }
        }
    }
    crate::order::lemma_ranked_sort_unique(durations, sorted);
}

/// Fewer than three durations prove no period.
pub proof fn law_too_few_durations_prove_nothing(durations: Seq<u64>)
    requires
        durations.len() < 3,
    ensures
        period(durations) is None,
{
}

} // verus!
