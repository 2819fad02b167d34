//! How counter intervals add up.

use crate::evidence::coverage::period;
use crate::float64::{law_small_integers_add_exactly, law_small_integers_keep_their_order, Float64};
use crate::laws::integers::lemma_largest_exact;
use crate::laws::ratio::{law_small_integers_subtract_exactly, lemma_small};
use crate::order::{lemma_ranked_sort_unique, rank_order};
use crate::typed::counter::{
    endpoints, pair_sums, tallied, tally_all, CounterPoint, DiffPoint, Endpoint, PairTally,
    PairedSums, Scalar,
};
use vstd::prelude::*;

verus! {

/// Whether all intervals of a track end before a time.
pub open spec fn all_before(track: Seq<CounterPoint>, t: i64) -> bool {
    forall|i: int| 0 <= i < track.len() ==> (#[trigger] track[i]).end_us < t
}

/// Whether an interval carries a whole difference over a positive duration.
pub open spec fn is_step(point: CounterPoint, delta: int, micros: int) -> bool {
    &&& 0 <= delta <= 0x10_0000_0000_0000
    &&& 0 < micros <= i64::MAX
    &&& point.end_us - micros >= i64::MIN
    &&& match point.point {
        DiffPoint::Value { delta: Scalar::Int(d), dt_micros, .. } => d == delta && dt_micros
            == micros,
        _ => false,
    }
}

proof fn lemma_endpoints_shared(
    a: Seq<CounterPoint>,
    b: Seq<CounterPoint>,
    p: CounterPoint,
    q: CounterPoint,
)
    requires
        all_before(a, p.end_us),
        all_before(b, p.end_us),
        q.end_us == p.end_us,
    ensures
        endpoints(a.push(p), b.push(q)) == endpoints(a, b).push(Endpoint::Matched(p, q)),
    decreases a.len() + b.len(),
{
    let x = a.push(p);
    let y = b.push(q);
    if a.len() > 0 {
        assert(x[0] == a[0] && x.drop_first() =~= a.drop_first().push(p));
        assert(all_before(a.drop_first(), p.end_us)) by {
            assert forall|i: int| 0 <= i < a.drop_first().len() implies (
            #[trigger] a.drop_first()[i]).end_us < p.end_us by {
                assert(a.drop_first()[i] == a[i + 1]);
            }
        }
    }
    if b.len() > 0 {
        assert(y[0] == b[0] && y.drop_first() =~= b.drop_first().push(q));
        assert(all_before(b.drop_first(), p.end_us)) by {
            assert forall|i: int| 0 <= i < b.drop_first().len() implies (
            #[trigger] b.drop_first()[i]).end_us < p.end_us by {
                assert(b.drop_first()[i] == b[i + 1]);
            }
        }
    }
    if a.len() == 0 && b.len() == 0 {
        assert(x.drop_first() =~= a && y.drop_first() =~= b);
        assert(endpoints(a, b) =~= Seq::empty());
        assert(endpoints(x, y) =~= seq![Endpoint::Matched(p, q)] + endpoints(a, b));
    } else if b.len() == 0 || (a.len() > 0 && a[0].end_us < b[0].end_us) {
        assert(a[0].end_us < p.end_us);
        lemma_endpoints_shared(a.drop_first(), b, p, q);
        assert(endpoints(x, y) =~= seq![Endpoint::Unmatched(a[0].end_us)] + endpoints(
            x.drop_first(),
            y,
        ));
    } else if a.len() == 0 || b[0].end_us < a[0].end_us {
        assert(b[0].end_us < p.end_us);
        lemma_endpoints_shared(a, b.drop_first(), p, q);
        assert(endpoints(x, y) =~= seq![Endpoint::Unmatched(b[0].end_us)] + endpoints(
            x,
            y.drop_first(),
        ));
    } else {
        lemma_endpoints_shared(a.drop_first(), b.drop_first(), p, q);
        assert(endpoints(x, y) =~= seq![Endpoint::Matched(a[0], b[0])] + endpoints(
            x.drop_first(),
            y.drop_first(),
        ));
    }
}

proof fn lemma_endpoints_alone(a: Seq<CounterPoint>, b: Seq<CounterPoint>, p: CounterPoint)
    requires
        all_before(a, p.end_us),
        all_before(b, p.end_us),
    ensures
        endpoints(a.push(p), b) == endpoints(a, b).push(Endpoint::Unmatched(p.end_us)),
        endpoints(b, a.push(p)) == endpoints(b, a).push(Endpoint::Unmatched(p.end_us)),
    decreases a.len() + b.len(),
{
    let x = a.push(p);
    if a.len() > 0 {
        assert(x[0] == a[0] && x.drop_first() =~= a.drop_first().push(p));
        assert(all_before(a.drop_first(), p.end_us)) by {
            assert forall|i: int| 0 <= i < a.drop_first().len() implies (
            #[trigger] a.drop_first()[i]).end_us < p.end_us by {
                assert(a.drop_first()[i] == a[i + 1]);
            }
        }
        lemma_endpoints_alone(a.drop_first(), b, p);
    }
    if b.len() > 0 {
        assert(b[0].end_us < p.end_us);
        assert(all_before(b.drop_first(), p.end_us)) by {
            assert forall|i: int| 0 <= i < b.drop_first().len() implies (
            #[trigger] b.drop_first()[i]).end_us < p.end_us by {
                assert(b.drop_first()[i] == b[i + 1]);
            }
        }
        lemma_endpoints_alone(a, b.drop_first(), p);
    }
    if a.len() > 0 && b.len() > 0 {
        lemma_endpoints_alone(a.drop_first(), b.drop_first(), p);
    }
    if a.len() == 0 && b.len() == 0 {
        assert(x.drop_first() =~= a);
        assert(endpoints(a, b) =~= Seq::empty());
        assert(endpoints(x, b) =~= seq![Endpoint::Unmatched(p.end_us)] + endpoints(a, b));
        assert(endpoints(b, x) =~= seq![Endpoint::Unmatched(p.end_us)] + endpoints(b, a));
    } else if b.len() == 0 || (a.len() > 0 && a[0].end_us < b[0].end_us) {
        assert(endpoints(x, b) =~= seq![Endpoint::Unmatched(a[0].end_us)] + endpoints(
            x.drop_first(),
            b,
        ));
        assert(endpoints(b, x) =~= seq![Endpoint::Unmatched(a[0].end_us)] + endpoints(
            b,
            x.drop_first(),
        ));
    } else if a.len() == 0 || b[0].end_us < a[0].end_us {
        assert(endpoints(x, b) =~= seq![Endpoint::Unmatched(b[0].end_us)] + endpoints(
            x,
            b.drop_first(),
        ));
        assert(endpoints(b, x) =~= seq![Endpoint::Unmatched(b[0].end_us)] + endpoints(
            b.drop_first(),
            x,
        ));
    } else {
        assert(endpoints(x, b) =~= seq![Endpoint::Matched(a[0], b[0])] + endpoints(
            x.drop_first(),
            b.drop_first(),
        ));
        assert(endpoints(b, x) =~= seq![Endpoint::Matched(b[0], a[0])] + endpoints(
            b.drop_first(),
            x.drop_first(),
        ));
    }
}

proof fn lemma_tally_last(
    tally: PairTally,
    points: Seq<Endpoint>,
    last: Endpoint,
    from_us: i64,
    to_us: i64,
)
    ensures
        tally_all(tally, points.push(last), from_us, to_us) == tallied(
            tally_all(tally, points, from_us, to_us),
            last,
            from_us,
            to_us,
        ),
    decreases points.len(),
{
    let all = points.push(last);
    if points.len() > 0 {
        assert(all[0] == points[0] && all.drop_first() =~= points.drop_first().push(last));
        lemma_tally_last(
            tallied(tally, points[0], from_us, to_us),
            points.drop_first(),
            last,
            from_us,
            to_us,
        );
    } else {
        assert(all[0] == last && all.drop_first() =~= points);
        reveal_with_fuel(tally_all, 2);
    }
}

/// Whether sums are whole, and far from every limit.
pub open spec fn are_whole(sums: PairedSums, x: int, y: int) -> bool {
    &&& 0 <= x <= 0x10_0000_0000_0000
    &&& 0 <= y <= 0x10_0000_0000_0000
    &&& sums.sum_a == Float64::of_int(x)
    &&& sums.sum_b == Float64::of_int(y)
    &&& sums.intervals < usize::MAX
    &&& sums.candidate_intervals < usize::MAX
    &&& sums.unmatched_endpoint_intervals < usize::MAX
    &&& sums.unusable_delta_intervals < usize::MAX
    &&& sums.unaligned_duration_intervals < usize::MAX
    &&& sums.elapsed_us <= i64::MAX
}

/// An interval that both counters have at the end of a window adds their
/// differences and its duration.
pub proof fn law_a_shared_interval_adds_its_differences(
    a: Seq<CounterPoint>,
    b: Seq<CounterPoint>,
    p: CounterPoint,
    q: CounterPoint,
    from_us: i64,
    to_us: i64,
    x: int,
    y: int,
    dx: int,
    dy: int,
    micros: int,
)
    requires
        all_before(a, p.end_us),
        all_before(b, p.end_us),
        q.end_us == p.end_us,
        is_step(p, dx, micros),
        is_step(q, dy, micros),
        from_us <= p.end_us <= to_us,
        are_whole(pair_sums(a, b, from_us, to_us), x, y),
    ensures
        ({
            let before = pair_sums(a, b, from_us, to_us);
            let after = pair_sums(a.push(p), b.push(q), from_us, to_us);
            &&& after.sum_a == Float64::of_int(x + dx)
            &&& after.sum_b == Float64::of_int(y + dy)
            &&& after.intervals == before.intervals + 1
            &&& after.candidate_intervals == before.candidate_intervals + 1
            &&& after.unmatched_endpoint_intervals == before.unmatched_endpoint_intervals
            &&& after.unusable_delta_intervals == before.unusable_delta_intervals
            &&& after.unaligned_duration_intervals == before.unaligned_duration_intervals
            &&& after.numeric_limit_intervals == before.numeric_limit_intervals
            &&& after.elapsed_us == before.elapsed_us + micros
            &&& after.last_end_us == Some(p.end_us)
            &&& after.first_end_us == if before.first_end_us is Some {
                before.first_end_us
            } else {
                Some(p.end_us)
            }
            &&& after.first_start_us == if before.first_start_us is Some {
                before.first_start_us
            } else {
                Some((p.end_us - micros) as i64)
            }
        }),
{
    lemma_endpoints_shared(a, b, p, q);
    lemma_tally_last(
        PairTally::zero(),
        endpoints(a, b),
        Endpoint::Matched(p, q),
        from_us,
        to_us,
    );
    let tally = tally_all(PairTally::zero(), endpoints(a, b), from_us, to_us);
    law_small_integers_add_exactly(x, dx);
    law_small_integers_add_exactly(y, dy);
    lemma_small(x + dx);
    lemma_small(y + dy);
    lemma_exact(x, dx);
    lemma_exact(y, dy);
}

pub proof fn lemma_exact(x: int, dx: int)
    requires
        0 <= x <= 0x10_0000_0000_0000,
        0 <= dx <= 0x10_0000_0000_0000,
    ensures
        Float64::of_int(x).at_most(
            (Float64 { bits: 0x4340_0000_0000_0000 }).sum_with(Float64::of_int(dx).negated()),
        ),
{
    lemma_largest_exact();
    law_small_integers_subtract_exactly(0x20_0000_0000_0000, dx);
    lemma_small(x);
    lemma_small(0x20_0000_0000_0000 - dx);
    law_small_integers_keep_their_order(0x20_0000_0000_0000 - dx, x);
}

/// An interval that only one counter has counts as unmatched and adds nothing.
pub proof fn law_a_lone_interval_adds_nothing(
    a: Seq<CounterPoint>,
    b: Seq<CounterPoint>,
    p: CounterPoint,
    from_us: i64,
    to_us: i64,
    x: int,
    y: int,
)
    requires
        all_before(a, p.end_us),
        all_before(b, p.end_us),
        from_us <= p.end_us <= to_us,
        are_whole(pair_sums(a, b, from_us, to_us), x, y),
    ensures
        ({
            let before = pair_sums(a, b, from_us, to_us);
            let after = pair_sums(a.push(p), b, from_us, to_us);
            after == PairedSums {
                candidate_intervals: (before.candidate_intervals + 1) as usize,
                unmatched_endpoint_intervals: (before.unmatched_endpoint_intervals + 1) as usize,
                ..before
            }
        }),
{
    lemma_endpoints_alone(a, b, p);
    lemma_tally_last(
        PairTally::zero(),
        endpoints(a, b),
        Endpoint::Unmatched(p.end_us),
        from_us,
        to_us,
    );
}

/// It is the same for the other counter.
pub proof fn law_a_lone_second_interval_adds_nothing(
    a: Seq<CounterPoint>,
    b: Seq<CounterPoint>,
    q: CounterPoint,
    from_us: i64,
    to_us: i64,
    x: int,
    y: int,
)
    requires
        all_before(a, q.end_us),
        all_before(b, q.end_us),
        from_us <= q.end_us <= to_us,
        are_whole(pair_sums(a, b, from_us, to_us), x, y),
    ensures
        ({
            let before = pair_sums(a, b, from_us, to_us);
            let after = pair_sums(a, b.push(q), from_us, to_us);
            after == PairedSums {
                candidate_intervals: (before.candidate_intervals + 1) as usize,
                unmatched_endpoint_intervals: (before.unmatched_endpoint_intervals + 1) as usize,
                ..before
            }
        }),
{
    lemma_endpoints_alone(b, a, q);
    lemma_tally_last(
        PairTally::zero(),
        endpoints(a, b),
        Endpoint::Unmatched(q.end_us),
        from_us,
        to_us,
    );
}

/// An interval without a difference in one of the counters is unusable; one
/// whose durations differ is unaligned. Neither adds anything.
pub proof fn law_a_broken_interval_adds_nothing(
    a: Seq<CounterPoint>,
    b: Seq<CounterPoint>,
    p: CounterPoint,
    q: CounterPoint,
    from_us: i64,
    to_us: i64,
    x: int,
    y: int,
    dx: int,
    dy: int,
    m: int,
    n: int,
)
    requires
        all_before(a, p.end_us),
        all_before(b, p.end_us),
        q.end_us == p.end_us,
        from_us <= p.end_us <= to_us,
        is_step(p, dx, m) || p.point is NoData,
        is_step(q, dy, n) || q.point is NoData,
        are_whole(pair_sums(a, b, from_us, to_us), x, y),
    ensures
        ({
            let before = pair_sums(a, b, from_us, to_us);
            let after = pair_sums(a.push(p), b.push(q), from_us, to_us);
            &&& p.point is NoData || q.point is NoData ==> after == (PairedSums {
                candidate_intervals: (before.candidate_intervals + 1) as usize,
                unusable_delta_intervals: (before.unusable_delta_intervals + 1) as usize,
                ..before
            })
            &&& is_step(p, dx, m) && is_step(q, dy, n) && m != n ==> after == (PairedSums {
                candidate_intervals: (before.candidate_intervals + 1) as usize,
                unaligned_duration_intervals: (before.unaligned_duration_intervals + 1) as usize,
                ..before
            })
        }),
{
    lemma_endpoints_shared(a, b, p, q);
    lemma_tally_last(
        PairTally::zero(),
        endpoints(a, b),
        Endpoint::Matched(p, q),
        from_us,
        to_us,
    );
}

/// Intervals that end outside the window do not count.
pub proof fn law_intervals_outside_the_window_do_not_count(
    a: Seq<CounterPoint>,
    b: Seq<CounterPoint>,
    p: CounterPoint,
    q: CounterPoint,
    from_us: i64,
    to_us: i64,
)
    requires
        all_before(a, p.end_us),
        all_before(b, p.end_us),
        q.end_us == p.end_us,
        p.end_us < from_us || to_us < p.end_us,
    ensures
        pair_sums(a.push(p), b.push(q), from_us, to_us) == pair_sums(a, b, from_us, to_us),
        pair_sums(a.push(p), b, from_us, to_us) == pair_sums(a, b, from_us, to_us),
        pair_sums(a, b.push(q), from_us, to_us) == pair_sums(a, b, from_us, to_us),
{
    let zero = PairTally::zero();
    let points = endpoints(a, b);
    lemma_endpoints_shared(a, b, p, q);
    lemma_endpoints_alone(a, b, p);
    lemma_endpoints_alone(b, a, q);
    lemma_tally_last(zero, points, Endpoint::Matched(p, q), from_us, to_us);
    lemma_tally_last(zero, points, Endpoint::Unmatched(p.end_us), from_us, to_us);
}

/// The period of at least three durations is the middle one, or halfway between
/// the two in the middle, rounded up.
pub proof fn law_the_period_is_the_median(durations: Seq<u64>, ascending: Seq<u64>)
    requires
        durations.len() >= 3,
        durations.to_multiset() == ascending.to_multiset(),
        forall|i: int, j: int|
            0 <= i < j < ascending.len() ==> #[trigger] ascending[i] <= #[trigger] ascending[j],
    ensures
        ({
            let n = ascending.len() as int;
            &&& n == durations.len()
            &&& n % 2 == 1 ==> period(durations) == Some(ascending[n / 2])
            &&& n % 2 == 0 ==> period(durations) == Some(
                ((ascending[n / 2 - 1] + ascending[n / 2] + 1) / 2) as u64,
            )
        }),
{
    let leq = rank_order::<u64>();
    assert(vstd::relations::sorted_by(ascending, leq)) by {
        assert forall|i: int, j: int| 0 <= i < j < ascending.len() implies #[trigger] leq(
            ascending[i],
            ascending[j],
        ) by {
            assert(ascending[i] <= ascending[j]);
            lemma_u64_order(ascending[i], ascending[j]);
        }
    }
    lemma_ranked_sort_unique(durations, ascending);
    durations.to_multiset_ensures();
    ascending.to_multiset_ensures();
}

proof fn lemma_u64_order(a: u64, b: u64)
    requires
        a <= b,
    ensures
        crate::order::lex_le(crate::order::Ranked::rank(a), crate::order::Ranked::rank(b)),
{
    if a < b {
        assert(crate::order::Ranked::rank(a)[0] < crate::order::Ranked::rank(b)[0]);
    }
}

} // verus!
