//! How the intervals of several counters add up.

use crate::align::{
    head, law_rows_are_the_shared_times, lemma_rows_fit, level, listed, origin, row_fits, rows,
};
use crate::float64::{law_small_integers_add_exactly, Float64};
use crate::laws::levels::lemma_row_count;
use crate::laws::ratio::lemma_small;
use crate::laws::sums::{is_step, lemma_exact};
use crate::typed::counter::{
    addable_row, aligned_sums, empty_tally, end_times, row_points, row_tallied, rows_tallied,
    usable_row, AlignedTally, AlignedView, CounterPoint,
};
use vstd::prelude::*;

verus! {

/// The differences of a counter and the durations behind them, by the times at
/// which its intervals end.
pub struct Intervals {
    pub deltas: Map<i64, int>,
    pub micros: Map<i64, int>,
}

impl Intervals {
    /// Whether a track has these intervals and no others, in order.
    pub open spec fn are_of(self, track: Seq<CounterPoint>) -> bool {
        &&& track.len() <= 0x10_0000
        &&& forall|i: int, j: int|
            0 <= i < j < track.len() ==> (#[trigger] track[i]).end_us < (#[trigger] track[j]).end_us
        &&& forall|i: int|
            0 <= i < track.len() ==> {
                let t = (#[trigger] track[i]).end_us;
                &&& self.deltas.dom().contains(t)
                &&& is_step(track[i], self.deltas[t], self.micros[t])
                &&& self.deltas[t] <= 0x4000_0000
                &&& self.micros[t] <= 0x100_0000_0000
            }
        &&& forall|t: i64| #[trigger] self.deltas.dom().contains(t) ==> ends_at(track, t)
    }
}

pub open spec fn ends_at(track: Seq<CounterPoint>, t: i64) -> bool {
    exists|i: int| 0 <= i < track.len() && (#[trigger] track[i]).end_us == t
}

/// Whether every counter has an interval that ends at a time within a window,
/// all of one duration.
pub open spec fn is_shared(all: Seq<Intervals>, from_us: i64, to_us: i64, t: i64) -> bool {
    &&& from_us <= t <= to_us
    &&& forall|k: int|
        0 <= k < all.len() ==> (#[trigger] all[k]).deltas.dom().contains(t) && all[k].micros[t]
            == all[0].micros[t]
}

/// The sum of the values at some times.
pub open spec fn sum_at(values: Map<i64, int>, times: Seq<i64>) -> int
    decreases times.len(),
{
    if times.len() == 0 {
        0
    } else {
        sum_at(values, times.drop_last()) + values[times.last()]
    }
}

/// Whether times are in order, and exactly those shared.
pub open spec fn lists_shared(
    times: Seq<i64>,
    all: Seq<Intervals>,
    from_us: i64,
    to_us: i64,
) -> bool {
    &&& forall|i: int, j: int| 0 <= i < j < times.len()
        ==> #[trigger] times[i] < #[trigger] times[j]
    &&& forall|t: i64| #[trigger] times.contains(t) <==> is_shared(all, from_us, to_us, t)
}

/// Whether sums are those of the intervals that end at some times.
pub open spec fn adds_up(sums: AlignedView, all: Seq<Intervals>, times: Seq<i64>) -> bool {
    &&& sums.sums.len() == all.len()
    &&& forall|k: int|
        0 <= k < all.len() ==> #[trigger] sums.sums[k] == Float64::of_int(
            sum_at(all[k].deltas, times),
        )
    &&& sums.intervals == times.len()
    &&& sums.elapsed_us == sum_at(all[0].micros, times)
    &&& times.len() > 0 ==> sums.last_end_us == times.last()
}

spec fn row_at(
    tracks: Seq<Seq<CounterPoint>>,
    all: Seq<Intervals>,
    row: Seq<int>,
    t: i64,
) -> bool {
    let points = row_points(tracks, row);
    forall|k: int|
        0 <= k < all.len() ==> {
            &&& (#[trigger] points[k]).end_us == t
            &&& all[k].deltas.dom().contains(t)
            &&& is_step(points[k], all[k].deltas[t], all[k].micros[t])
            &&& all[k].deltas[t] <= 0x4000_0000
            &&& all[k].micros[t] <= 0x100_0000_0000
        }
}

/// Whether a tally is that of some times.
spec fn is_tally(tally: AlignedTally, all: Seq<Intervals>, times: Seq<i64>, n: int) -> bool {
    &&& tally.sums.len() == all.len()
    &&& tally.integers.len() == all.len()
    &&& forall|k: int|
        0 <= k < all.len() ==> #[trigger] tally.sums[k] == Float64::of_int(
            sum_at(all[k].deltas, times),
        ) && 0 <= sum_at(all[k].deltas, times) <= n * 0x4000_0000
    &&& tally.intervals == times.len()
    &&& times.len() <= n
    &&& tally.elapsed_us == sum_at(all[0].micros, times)
    &&& 0 <= sum_at(all[0].micros, times) <= n * 0x100_0000_0000
    &&& times.len() > 0 ==> tally.last_end_us == times.last()
}

proof fn lemma_row_added(
    tally: AlignedTally,
    tracks: Seq<Seq<CounterPoint>>,
    all: Seq<Intervals>,
    row: Seq<int>,
    t: i64,
    times: Seq<i64>,
    n: int,
    from_us: i64,
    to_us: i64,
)
    requires
        0 < all.len() == tracks.len(),
        row_at(tracks, all, row, t),
        0 <= n < 0x10_0000,
        is_tally(tally, all, times, n),
    ensures
        ({
            let next = row_tallied(tally, row_points(tracks, row), from_us, to_us);
            if is_shared(all, from_us, to_us, t) {
                is_tally(next, all, times.push(t), n + 1)
            } else {
                next == tally && is_tally(next, all, times, n + 1)
            }
        }),
{
    let points = row_points(tracks, row);
    let next = row_tallied(tally, points, from_us, to_us);
    assert(points[0].end_us == t);
    assert forall|k: int| 0 <= k < all.len() implies ({
        let point = #[trigger] points[k];
        &&& point.difference() is Ok
        &&& point.difference()->Ok_0.value == Float64::of_int(all[k].deltas[t])
        &&& point.duration() == Some(all[k].micros[t] as u64)
        &&& point.end_us - all[k].micros[t] >= i64::MIN
        &&& 0 < all[k].micros[t] <= 0x100_0000_0000
    }) by {
        let point = points[k];
        assert(is_step(point, all[k].deltas[t], all[k].micros[t]));
    }
    if usable_row(points) {
        assert forall|k: int| 0 <= k < all.len() implies (
        #[trigger] all[k]).deltas.dom().contains(t) && all[k].micros[t] == all[0].micros[t] by {
            let point = points[k];
            assert(point.duration() == points[0].duration());
        }
    }
    if is_shared(all, from_us, to_us, t) {
        assert forall|k: int| 0 <= k < points.len() implies ({
            let point = #[trigger] points[k];
            &&& point.difference() is Ok
            &&& point.duration() is Some
            &&& point.duration() == points[0].duration()
            &&& point.end_us - point.duration()->Some_0 >= i64::MIN
        }) by {
            assert(all[k].micros[t] == all[0].micros[t]);
        }
        let more = times.push(t);
        assert(more.drop_last() =~= times);
        assert forall|k: int| 0 <= k < points.len() implies ({
            let delta = (#[trigger] points[k]).difference()->Ok_0;
            let sum = sum_at(all[k].deltas, times);
            &&& tally.sums[k].sum_with(delta.value) == Float64::of_int(sum + all[k].deltas[t])
            &&& tally.sums[k].sum_with(delta.value).finite()
            &&& crate::typed::counter::stays_exact(tally.sums[k], tally.integers[k], delta)
        }) by {
            let sum = sum_at(all[k].deltas, times);
            let d = all[k].deltas[t];
            assert(tally.sums[k] == Float64::of_int(sum));
            law_small_integers_add_exactly(sum, d);
            lemma_small(sum + d);
            lemma_exact(sum, d);
        }
        assert(addable_row(tally, points));
        assert forall|k: int| 0 <= k < all.len() implies #[trigger] next.sums[k]
            == Float64::of_int(sum_at(all[k].deltas, more)) && 0 <= sum_at(all[k].deltas, more)
            <= (n + 1) * 0x4000_0000 by {
            let point = points[k];
            let sum = sum_at(all[k].deltas, times);
            assert(tally.sums[k] == Float64::of_int(sum));
        }
    }
}

proof fn lemma_rows_added(
    tracks: Seq<Seq<CounterPoint>>,
    all: Seq<Intervals>,
    list: Seq<Seq<int>>,
    from_us: i64,
    to_us: i64,
) -> (times: Seq<i64>)
    requires
        0 < all.len() == tracks.len(),
        list.len() <= 0x10_0000,
        forall|r: int|
            0 <= r < list.len() ==> row_at(
                tracks,
                all,
                #[trigger] list[r],
                head(end_times(tracks), list[r], 0),
            ),
        forall|r: int, s: int|
            0 <= r < s < list.len() ==> head(end_times(tracks), #[trigger] list[r], 0) < head(
                end_times(tracks),
                #[trigger] list[s],
                0,
            ),
    ensures
        is_tally(
            rows_tallied(empty_tally(tracks.len(), from_us), tracks, list, from_us, to_us),
            all,
            times,
            list.len() as int,
        ),
        forall|i: int, j: int|
            0 <= i < j < times.len() ==> #[trigger] times[i] < #[trigger] times[j],
        forall|t: i64| #[trigger]
            times.contains(t) <==> is_shared(all, from_us, to_us, t) && listed(
                end_times(tracks),
                list,
                t,
            ),
    decreases list.len(),
{
    let ends = end_times(tracks);
    if list.len() == 0 {
        let times = Seq::<i64>::empty();
        lemma_small(0);
        assert forall|t: i64| !#[trigger] listed(ends, list, t) by {}
        times
    } else {
        let front = list.drop_last();
        let n = list.len() - 1;
        assert forall|r: int| 0 <= r < front.len() implies row_at(
            tracks,
            all,
            #[trigger] front[r],
            head(ends, front[r], 0),
        ) by {
            assert(front[r] == list[r]);
        }
        assert forall|r: int, s: int| 0 <= r < s < front.len() implies head(
            ends,
            #[trigger] front[r],
            0,
        ) < head(ends, #[trigger] front[s], 0) by {
            assert(front[r] == list[r] && front[s] == list[s]);
        }
        let before = lemma_rows_added(tracks, all, front, from_us, to_us);
        let t = head(ends, list[n], 0);
        let tally = rows_tallied(
            empty_tally(tracks.len(), from_us),
            tracks,
            front,
            from_us,
            to_us,
        );
        assert(row_at(tracks, all, list[n], t));
        lemma_row_added(tally, tracks, all, list[n], t, before, n as int, from_us, to_us);
        assert forall|u: i64| #[trigger] listed(ends, list, u) <==> u == t || listed(
            ends,
            front,
            u,
        ) by {
            if listed(ends, list, u) {
                let r = choose|r: int| 0 <= r < list.len()
                    && head(ends, #[trigger] list[r], 0) == u;
                if r < n {
                    assert(head(ends, front[r], 0) == u);
                }
            }
            if listed(ends, front, u) {
                let r = choose|r: int|
                    0 <= r < front.len() && head(ends, #[trigger] front[r], 0) == u;
                assert(head(ends, list[r], 0) == u);
            }
            if u == t {
                assert(head(ends, list[n], 0) == u);
            }
        }
        if is_shared(all, from_us, to_us, t) {
            let times = before.push(t);
            assert forall|i: int, j: int| 0 <= i < j < times.len() implies #[trigger] times[i]
                < #[trigger] times[j] by {
                if j == before.len() {
                    assert(before.contains(before[i]));
                    assert(listed(ends, front, before[i]));
                    let r = choose|r: int|
                        0 <= r < front.len() && head(ends, #[trigger] front[r], 0) == before[i];
                    assert(front[r] == list[r]);
                    assert(head(ends, list[r], 0) < head(ends, list[n], 0));
                }
            }
            assert forall|u: i64| #[trigger] times.contains(u) <==> is_shared(
                all,
                from_us,
                to_us,
                u,
            ) && listed(ends, list, u) by {
                if times.contains(u) {
                    let k = times.index_of(u);
                    if k < before.len() {
                        assert(before[k] == u);
                        assert(before.contains(u));
                    }
                }
                if before.contains(u) {
                    let k = before.index_of(u);
                    assert(times[k] == u);
                }
                if u == t {
                    assert(times[before.len() as int] == u);
                }
                assert(before.contains(u) <==> is_shared(all, from_us, to_us, u) && listed(
                    ends,
                    front,
                    u,
                ));
                assert(listed(ends, list, u) <==> u == t || listed(ends, front, u));
            }
            times
        } else {
            assert forall|u: i64| #[trigger] before.contains(u) <==> is_shared(
                all,
                from_us,
                to_us,
                u,
            ) && listed(ends, list, u) by {
                assert(listed(ends, list, u) <==> u == t || listed(ends, front, u));
            }
            before
        }
    }
}

/// The sums of several counters over a window are those of exactly the intervals
/// that all of them have, end within it, and have one duration.
pub proof fn law_aligned_sums_add_the_shared_intervals(
    tracks: Seq<Seq<CounterPoint>>,
    all: Seq<Intervals>,
    from_us: i64,
    to_us: i64,
)
    requires
        0 < tracks.len() == all.len(),
        forall|k: int| 0 <= k < all.len() ==> (#[trigger] all[k]).are_of(tracks[k]),
    ensures
        exists|times: Seq<i64>| #[trigger]
            lists_shared(times, all, from_us, to_us) && adds_up(
                aligned_sums(tracks, from_us, to_us),
                all,
                times,
            ),
{
    let ends = end_times(tracks);
    let list = rows(ends);
    assert forall|k: int, p: int, q: int|
        0 <= k < ends.len() && 0 <= p < q < ends[k].len() implies #[trigger] ends[k][p]
        < #[trigger] ends[k][q] by {
        assert(all[k].are_of(tracks[k]));
        assert(tracks[k][p].end_us < tracks[k][q].end_us);
    }
    law_rows_are_the_shared_times(ends);
    lemma_rows_fit(ends, origin(ends.len()));
    assert forall|r: int| 0 <= r < list.len() implies row_at(
        tracks,
        all,
        #[trigger] list[r],
        head(ends, list[r], 0),
    ) by {
        let row = list[r];
        assert(row_fits(ends, row) && level(ends, row));
        let t = head(ends, row, 0);
        let points = row_points(tracks, row);
        assert forall|k: int| 0 <= k < all.len() implies ({
            &&& (#[trigger] points[k]).end_us == t
            &&& all[k].deltas.dom().contains(t)
            &&& is_step(points[k], all[k].deltas[t], all[k].micros[t])
            &&& all[k].deltas[t] <= 0x4000_0000
            &&& all[k].micros[t] <= 0x100_0000_0000
        }) by {
            assert(all[k].are_of(tracks[k]));
            assert(0 <= row[k] < ends[k].len());
            assert(head(ends, row, k) == head(ends, row, 0));
            assert(points[k] == tracks[k][row[k]]);
            assert(ends[k][row[k]] == tracks[k][row[k]].end_us);
        }
    }
    lemma_row_count(ends, list, list.len() as int);
    assert(all[0].are_of(tracks[0]));
    if list.len() > 0 {
        assert(row_fits(ends, list[list.len() - 1]));
        assert(list[list.len() - 1][0] < ends[0].len());
    }
    let times = lemma_rows_added(tracks, all, list, from_us, to_us);
    assert forall|t: i64| #[trigger] times.contains(t) <==> is_shared(all, from_us, to_us, t) by {
        if is_shared(all, from_us, to_us, t) {
            assert forall|k: int| 0 <= k < ends.len() implies (#[trigger] ends[k]).contains(t) by {
                assert(all[k].are_of(tracks[k]));
                assert(all[k].deltas.dom().contains(t));
                let i = choose|i: int|
                    0 <= i < tracks[k].len() && (#[trigger] tracks[k][i]).end_us == t;
                assert(ends[k][i] == t);
            }
            assert(listed(ends, list, t));
        }
    }
    assert(lists_shared(times, all, from_us, to_us));
    assert(adds_up(aligned_sums(tracks, from_us, to_us), all, times));
}

} // verus!
