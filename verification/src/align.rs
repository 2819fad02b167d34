//! Walks tracks in step and finds the times that they share.

use vstd::prelude::*;

verus! {

/// The time at the position of track `k`.
pub open spec fn head(times: Seq<Seq<i64>>, pos: Seq<int>, k: int) -> i64 {
    times[k][pos[k]]
}

/// Whether some track has been walked to its end.
pub open spec fn spent(times: Seq<Seq<i64>>, pos: Seq<int>) -> bool {
    exists|k: int| 0 <= k < times.len() && #[trigger] pos[k] >= times[k].len()
}

/// Whether every track stands at the same time.
pub open spec fn level(times: Seq<Seq<i64>>, pos: Seq<int>) -> bool {
    forall|k: int|
        #![trigger head(times, pos, k)]
        0 <= k < times.len() ==> head(times, pos, k) == head(times, pos, 0)
}

/// The earliest time among the first `n` tracks.
pub open spec fn lowest(times: Seq<Seq<i64>>, pos: Seq<int>, n: nat) -> i64
    decreases n,
{
    if n <= 1 {
        head(times, pos, 0)
    } else {
        let before = lowest(times, pos, (n - 1) as nat);
        let last = head(times, pos, n - 1);
        if last < before {
            last
        } else {
            before
        }
    }
}

/// Every position moved on by one.
pub open spec fn past_all(times: Seq<Seq<i64>>, pos: Seq<int>) -> Seq<int> {
    Seq::new(times.len(), |k: int| pos[k] + 1)
}

/// The positions at the earliest time moved on by one.
pub open spec fn past_lowest(times: Seq<Seq<i64>>, pos: Seq<int>) -> Seq<int> {
    let low = lowest(times, pos, times.len());
    Seq::new(
        times.len(),
        |k: int|
            if head(times, pos, k) == low {
                pos[k] + 1
            } else {
                pos[k]
            },
    )
}

/// Points left to walk in the first `n` tracks.
pub open spec fn left(times: Seq<Seq<i64>>, pos: Seq<int>, n: nat) -> nat
    decreases n,
{
    if n == 0 {
        0
    } else {
        let here = times[n - 1].len() - pos[n - 1];
        left(times, pos, (n - 1) as nat) + if here > 0 {
            here as nat
        } else {
            0
        }
    }
}

proof fn lemma_lowest(times: Seq<Seq<i64>>, pos: Seq<int>, n: nat)
    requires
        n >= 1,
    ensures
        exists|k: int| 0 <= k < n && #[trigger] head(times, pos, k) == lowest(times, pos, n),
        forall|k: int| 0 <= k < n ==> lowest(times, pos, n) <= #[trigger] head(times, pos, k),
    decreases n,
{
    if n > 1 {
        lemma_lowest(times, pos, (n - 1) as nat);
        assert(head(times, pos, n - 1) >= lowest(times, pos, n));
    } else {
        assert(head(times, pos, 0) == lowest(times, pos, n));
    }
}

proof fn lemma_left(times: Seq<Seq<i64>>, pos: Seq<int>, next: Seq<int>, n: nat)
    requires
        forall|k: int| 0 <= k < n ==> pos[k] <= #[trigger] next[k],
    ensures
        left(times, next, n) <= left(times, pos, n),
        (exists|k: int|
            0 <= k < n && pos[k] < #[trigger] next[k] && pos[k] < times[k].len()) ==> left(
            times,
            next,
            n,
        ) < left(times, pos, n),
    decreases n,
{
    if n > 0 {
        lemma_left(times, pos, next, (n - 1) as nat);
        assert(pos[n - 1] <= next[n - 1]);
    }
}

/// Moving every position on leaves less to walk.
pub proof fn lemma_past_all(times: Seq<Seq<i64>>, pos: Seq<int>)
    requires
        times.len() > 0,
        !spent(times, pos),
    ensures
        left(times, past_all(times, pos), times.len()) < left(times, pos, times.len()),
{
    let next = past_all(times, pos);
    assert(pos[0] < times[0].len());
    assert(pos[0] < next[0]);
    lemma_left(times, pos, next, times.len());
}

/// Moving the earliest positions on leaves less to walk.
pub proof fn lemma_past_lowest(times: Seq<Seq<i64>>, pos: Seq<int>)
    requires
        times.len() > 0,
        !spent(times, pos),
    ensures
        left(times, past_lowest(times, pos), times.len()) < left(times, pos, times.len()),
{
    let next = past_lowest(times, pos);
    lemma_lowest(times, pos, times.len());
    let k = choose|k: int|
        0 <= k < times.len() && #[trigger] head(times, pos, k) == lowest(times, pos, times.len());
    assert(pos[k] < times[k].len());
    assert(pos[k] < next[k]);
    lemma_left(times, pos, next, times.len());
}

/// The positions at which all tracks stand at the same time, from `pos` on.
///
/// Where the tracks differ, those at the earliest time move on.
pub open spec fn rows_from(times: Seq<Seq<i64>>, pos: Seq<int>) -> Seq<Seq<int>>
    decreases left(times, pos, times.len()),
{
    if times.len() == 0 || spent(times, pos) {
        Seq::empty()
    } else if level(times, pos) {
        proof {
            lemma_past_all(times, pos);
        }
        seq![pos] + rows_from(times, past_all(times, pos))
    } else {
        proof {
            lemma_past_lowest(times, pos);
        }
        rows_from(times, past_lowest(times, pos))
    }
}

/// The start of every track.
pub open spec fn origin(n: nat) -> Seq<int> {
    Seq::new(n, |k: int| 0)
}

/// The positions at which all tracks stand at the same time.
pub open spec fn rows(times: Seq<Seq<i64>>) -> Seq<Seq<int>> {
    rows_from(times, origin(times.len()))
}

/// The times of each track.
pub open spec fn time_view(times: Seq<Vec<i64>>) -> Seq<Seq<i64>> {
    Seq::new(times.len(), |k: int| times[k]@)
}

/// Machine positions as mathematical ones.
pub open spec fn row_view(row: Seq<usize>) -> Seq<int> {
    Seq::new(row.len(), |k: int| row[k] as int)
}

pub open spec fn rows_view(rows: Seq<Vec<usize>>) -> Seq<Seq<int>> {
    Seq::new(rows.len(), |i: int| row_view(rows[i]@))
}

/// Whether every position of a row lies in its track.
pub open spec fn row_fits(times: Seq<Seq<i64>>, row: Seq<int>) -> bool {
    &&& row.len() == times.len()
    &&& forall|k: int| 0 <= k < row.len() ==> 0 <= #[trigger] row[k] < times[k].len()
}

/// Every row lies in the tracks and stands at one time.
pub proof fn lemma_rows_fit(times: Seq<Seq<i64>>, pos: Seq<int>)
    requires
        pos.len() == times.len(),
        forall|k: int| 0 <= k < pos.len() ==> 0 <= #[trigger] pos[k],
    ensures
        forall|i: int|
            0 <= i < rows_from(times, pos).len() ==> row_fits(
                times,
                #[trigger] rows_from(times, pos)[i],
            ) && level(times, rows_from(times, pos)[i]),
    decreases left(times, pos, times.len()),
{
    if times.len() == 0 || spent(times, pos) {
    } else if level(times, pos) {
        lemma_past_all(times, pos);
        let next = past_all(times, pos);
        assert forall|k: int| 0 <= k < next.len() implies 0 <= #[trigger] next[k] by {
            assert(0 <= pos[k]);
        }
        lemma_rows_fit(times, next);
        assert(row_fits(times, pos));
        let all = rows_from(times, pos);
        assert(all[0] == pos);
        assert forall|i: int| 0 <= i < all.len() implies row_fits(times, #[trigger] all[i])
            && level(times, all[i]) by {
            if i > 0 {
                assert(all[i] == rows_from(times, next)[i - 1]);
            }
        }
    } else {
        lemma_past_lowest(times, pos);
        let next = past_lowest(times, pos);
        assert forall|k: int| 0 <= k < next.len() implies 0 <= #[trigger] next[k] by {
            assert(0 <= pos[k]);
        }
        lemma_rows_fit(times, next);
        assert(rows_from(times, pos) == rows_from(times, next));
    }
}

/// Finds the positions at which all tracks stand at the same time.
pub fn shared_rows(times: &Vec<Vec<i64>>) -> (out: Vec<Vec<usize>>)
    ensures
        rows_view(out@) == rows(time_view(times@)),
{
    let ghost all = time_view(times@);
    let mut out: Vec<Vec<usize>> = Vec::new();
    if times.len() == 0 {
        proof {
            assert(rows_view(out@) =~= rows(all));
        }
        return out;
    }
    let n: usize = times.len();
    let mut pos: Vec<usize> = Vec::new();
    let mut i: usize = 0;
    while i < n
        invariant
            i <= n,
            pos.len() == i,
            forall|k: int| 0 <= k < i ==> pos@[k] == 0,
        decreases n - i,
    {
        pos.push(0);
        i = i + 1;
    }
    proof {
        assert(row_view(pos@) =~= origin(n as nat));
        assert(rows_view(out@) + rows(all) =~= rows(all));
    }
    loop
        invariant
            n == times.len(),
            n > 0,
            all == time_view(times@),
            pos.len() == n,
            rows_view(out@) + rows_from(all, row_view(pos@)) == rows(all),
        decreases left(all, row_view(pos@), n as nat),
    {
        let ghost at = row_view(pos@);
        // Whether a track is spent, and the earliest and latest times.
        let mut k: usize = 0;
        let mut ended: bool = false;
        while k < n && !ended
            invariant
                k <= n,
                n == times.len(),
                pos.len() == n,
                all == time_view(times@),
                at == row_view(pos@),
                !ended ==> forall|j: int| 0 <= j < k ==> #[trigger] at[j] < all[j].len(),
                ended ==> spent(all, at),
            decreases
                    n - k + if ended {
                        0int
                    } else {
                        1
                    },
        {
            if pos[k] >= times[k].len() {
                assert(at[k as int] >= all[k as int].len());
                ended = true;
            } else {
                assert(at[k as int] < all[k as int].len());
                k = k + 1;
            }
        }
        if ended {
            proof {
                assert(rows_view(out@) + Seq::<Seq<int>>::empty() =~= rows_view(out@));
            }
            return out;
        }
        assert(!spent(all, at));
        let mut minimum: i64 = times[0][pos[0]];
        let mut maximum: i64 = minimum;
        k = 1;
        while k < n
            invariant
                1 <= k <= n,
                n == times.len(),
                pos.len() == n,
                all == time_view(times@),
                at == row_view(pos@),
                forall|j: int| 0 <= j < n ==> #[trigger] at[j] < all[j].len(),
                minimum == lowest(all, at, k as nat),
                forall|j: int| 0 <= j < k ==> #[trigger] head(all, at, j) <= maximum,
                exists|j: int| 0 <= j < k && #[trigger] head(all, at, j) == maximum,
            decreases n - k,
        {
            assert(at[k as int] < all[k as int].len());
            let here: i64 = times[k][pos[k]];
            assert(here == head(all, at, k as int));
            if here < minimum {
                minimum = here;
            }
            if here > maximum {
                maximum = here;
            }
            k = k + 1;
        }
        proof {
            lemma_lowest(all, at, n as nat);
        }
        if minimum == maximum {
            let mut row: Vec<usize> = Vec::new();
            let mut next: Vec<usize> = Vec::new();
            k = 0;
            while k < n
                invariant
                    k <= n,
                    n == times.len(),
                    pos.len() == n,
                    at == row_view(pos@),
                    all == time_view(times@),
                    forall|j: int| 0 <= j < n ==> #[trigger] at[j] < all[j].len(),
                    row.len() == k,
                    next.len() == k,
                    forall|j: int| 0 <= j < k ==> row@[j] == pos@[j] && next@[j] == pos@[j] + 1,
                decreases n - k,
            {
                assert(at[k as int] < all[k as int].len());
                assert(all[k as int].len() == times@[k as int].len());
                row.push(pos[k]);
                next.push(pos[k] + 1);
                k = k + 1;
            }
            let ghost before = out@;
            proof {
                assert(row_view(row@) =~= at);
                assert(level(all, at));
                assert(row_view(next@) =~= past_all(all, at));
                lemma_past_all(all, at);
            }
            out.push(row);
            pos = next;
            proof {
                assert(rows_view(out@) =~= rows_view(before).push(at));
                assert(rows_view(out@) + rows_from(all, past_all(all, at)) =~= rows_view(before) + (
                seq![at] + rows_from(all, past_all(all, at))));
            }
        } else {
            let mut next: Vec<usize> = Vec::new();
            k = 0;
            while k < n
                invariant
                    k <= n,
                    n == times.len(),
                    pos.len() == n,
                    all == time_view(times@),
                    at == row_view(pos@),
                    minimum == lowest(all, at, n as nat),
                    forall|j: int| 0 <= j < n ==> #[trigger] at[j] < all[j].len(),
                    next.len() == k,
                    forall|j: int|
                        0 <= j < k ==> #[trigger] next@[j] == past_lowest(all, at)[j],
                decreases n - k,
            {
                assert(at[k as int] < all[k as int].len());
                assert(all[k as int].len() == times@[k as int].len());
                assert(head(all, at, k as int) == times@[k as int]@[pos@[k as int] as int]);
                if times[k][pos[k]] == minimum {
                    next.push(pos[k] + 1);
                } else {
                    next.push(pos[k]);
                }
                k = k + 1;
            }
            proof {
                assert(!level(all, at));
                assert(row_view(next@) =~= past_lowest(all, at));
                lemma_past_lowest(all, at);
            }
            pos = next;
        }
    }
}

/// Whether the times of every track ascend.
pub open spec fn tracks_ascend(times: Seq<Seq<i64>>) -> bool {
    forall|k: int, p: int, q: int|
        0 <= k < times.len() && 0 <= p < q < times[k].len() ==> #[trigger] times[k][p]
            < #[trigger] times[k][q]
}

/// Whether a track holds a time at or after a position.
pub open spec fn held_from(track: Seq<i64>, from: int, t: i64) -> bool {
    exists|p: int| from <= p < track.len() && #[trigger] track[p] == t
}

/// Whether all tracks hold a time at or after their positions.
pub open spec fn shared_from(times: Seq<Seq<i64>>, pos: Seq<int>, t: i64) -> bool {
    forall|k: int| 0 <= k < times.len() ==> held_from(#[trigger] times[k], pos[k], t)
}

/// Whether some row stands at a time.
pub open spec fn listed(times: Seq<Seq<i64>>, found: Seq<Seq<int>>, t: i64) -> bool {
    exists|i: int| 0 <= i < found.len() && head(times, #[trigger] found[i], 0) == t
}

proof fn lemma_rows_complete(times: Seq<Seq<i64>>, pos: Seq<int>)
    requires
        times.len() > 0,
        pos.len() == times.len(),
        forall|k: int| 0 <= k < pos.len() ==> 0 <= #[trigger] pos[k],
        tracks_ascend(times),
    ensures
        forall|t: i64| #[trigger]
            shared_from(times, pos, t) ==> listed(times, rows_from(times, pos), t),
        forall|i: int|
            0 <= i < rows_from(times, pos).len() ==> pos[0] <= (#[trigger] rows_from(
                times,
                pos,
            )[i])[0],
        forall|i: int, j: int|
            0 <= i < j < rows_from(times, pos).len() ==> (#[trigger] rows_from(times, pos)[i])[0]
                < (#[trigger] rows_from(times, pos)[j])[0],
    decreases left(times, pos, times.len()),
{
    let all = rows_from(times, pos);
    if spent(times, pos) {
        let k = choose|k: int| 0 <= k < times.len() && #[trigger] pos[k] >= times[k].len();
        assert forall|t: i64| !#[trigger] shared_from(times, pos, t) by {
            assert(!held_from(times[k], pos[k], t));
        }
    } else if level(times, pos) {
        let next = past_all(times, pos);
        let later = rows_from(times, next);
        lemma_past_all(times, pos);
        assert forall|k: int| 0 <= k < next.len() implies 0 <= #[trigger] next[k] by {
            assert(0 <= pos[k]);
        }
        lemma_rows_complete(times, next);
        assert(all =~= seq![pos] + later);
        assert forall|time: i64| #[trigger] shared_from(times, pos, time) implies listed(
            times,
            all,
            time,
        ) by {
            if time == head(times, pos, 0) {
                assert(all[0] == pos);
            } else {
                assert forall|k: int| 0 <= k < times.len() implies held_from(
                    #[trigger] times[k],
                    next[k],
                    time,
                ) by {
                    assert(held_from(times[k], pos[k], time));
                    let p = choose|p: int|
                        pos[k] <= p < times[k].len() && #[trigger] times[k][p] == time;
                    assert(head(times, pos, k) == head(times, pos, 0));
                    assert(p != pos[k]);
                }
                assert(shared_from(times, next, time));
                assert(listed(times, later, time));
                let i = choose|i: int|
                    0 <= i < later.len() && head(times, #[trigger] later[i], 0) == time;
                assert(all[i + 1] == later[i]);
            }
        }
        assert forall|i: int| 0 <= i < all.len() implies pos[0] <= (#[trigger] all[i])[0] by {
            if i > 0 {
                assert(all[i] == later[i - 1]);
            }
        }
        assert forall|i: int, j: int| 0 <= i < j < all.len() implies (#[trigger] all[i])[0] < (
        #[trigger] all[j])[0] by {
            assert(all[j] == later[j - 1]);
            if i > 0 {
                assert(all[i] == later[i - 1]);
            }
        }
    } else {
        let next = past_lowest(times, pos);
        let low = lowest(times, pos, times.len());
        lemma_past_lowest(times, pos);
        lemma_lowest(times, pos, times.len());
        assert forall|k: int| 0 <= k < next.len() implies 0 <= #[trigger] next[k] by {
            assert(0 <= pos[k]);
        }
        lemma_rows_complete(times, next);
        assert(all == rows_from(times, next));
        assert forall|time: i64| #[trigger] shared_from(times, pos, time) implies listed(
            times,
            all,
            time,
        ) by {
            if time == low {
                assert forall|k: int|
                    #![trigger head(times, pos, k)]
                    0 <= k < times.len() implies head(times, pos, k) == low by {
                    assert(held_from(times[k], pos[k], time));
                    let p = choose|p: int|
                        pos[k] <= p < times[k].len() && #[trigger] times[k][p] == time;
                    assert(0 <= pos[k]);
                    if pos[k] < p {
                        assert(times[k][pos[k]] < times[k][p]);
                    }
                }
                assert(head(times, pos, 0) == low);
                assert(level(times, pos));
            } else {
                assert forall|k: int| 0 <= k < times.len() implies held_from(
                    #[trigger] times[k],
                    next[k],
                    time,
                ) by {
                    assert(held_from(times[k], pos[k], time));
                    let p = choose|p: int|
                        pos[k] <= p < times[k].len() && #[trigger] times[k][p] == time;
                    if head(times, pos, k) == low {
                        assert(p != pos[k]);
                    }
                }
                assert(shared_from(times, next, time));
            }
        }
        assert(pos[0] <= next[0]);
    }
}

/// Of ascending tracks, the rows list exactly the times that every track holds,
/// each once and in ascending order.
pub proof fn law_rows_are_the_shared_times(times: Seq<Seq<i64>>)
    requires
        times.len() > 0,
        tracks_ascend(times),
    ensures
        forall|t: i64| #[trigger]
            listed(times, rows(times), t) <==> forall|k: int|
                0 <= k < times.len() ==> (#[trigger] times[k]).contains(t),
        forall|i: int, j: int|
            0 <= i < j < rows(times).len() ==> head(times, #[trigger] rows(times)[i], 0) < head(
                times,
                #[trigger] rows(times)[j],
                0,
            ),
{
    let pos = origin(times.len());
    let all = rows(times);
    lemma_rows_fit(times, pos);
    lemma_rows_complete(times, pos);
    assert forall|t: i64| #[trigger] listed(times, all, t) <==> forall|k: int|
        0 <= k < times.len() ==> (#[trigger] times[k]).contains(t) by {
        if listed(times, all, t) {
            let i = choose|i: int| 0 <= i < all.len() && head(times, #[trigger] all[i], 0) == t;
            assert(row_fits(times, all[i]) && level(times, all[i]));
            assert forall|k: int| 0 <= k < times.len() implies (#[trigger] times[k]).contains(
                t,
            ) by {
                assert(0 <= all[i][k] < times[k].len());
                assert(head(times, all[i], k) == head(times, all[i], 0));
                assert(times[k][all[i][k]] == t);
            }
        }
        if forall|k: int| 0 <= k < times.len() ==> (#[trigger] times[k]).contains(t) {
            assert forall|k: int| 0 <= k < times.len() implies held_from(
                #[trigger] times[k],
                pos[k],
                t,
            ) by {
                assert(times[k].contains(t));
            }
            assert(shared_from(times, pos, t));
        }
    }
    assert forall|i: int, j: int| 0 <= i < j < all.len() implies head(
        times,
        #[trigger] all[i],
        0,
    ) < head(times, #[trigger] all[j], 0) by {
        assert(row_fits(times, all[i]));
        assert(row_fits(times, all[j]));
        assert(0 <= all[i][0] < times[0].len());
        assert(0 <= all[j][0] < times[0].len());
        assert(all[i][0] < all[j][0]);
        assert(times[0][all[i][0]] < times[0][all[j][0]]);
    }
}

} // verus!
