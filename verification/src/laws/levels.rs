//! Readings of gauges as levels over time.

use crate::active::observe::snapshot_tracks;
use crate::align::{
    head, law_rows_are_the_shared_times, lemma_rows_fit, level, listed, origin, row_fits, rows,
};
use crate::engine::EvalContext;
use crate::evidence::finding::{DraftView, EvidenceView};
use crate::float64::Float64;
use crate::inspect::{emitted, InspectLens, MemberLens};
use crate::laws::steps::{drafts, lemma_drafts_after_charge, lemma_drafts_emitted};
use crate::model::{EpisodeView, IdentityView};
use crate::typed::gauge::{
    beats, column_score, extreme_row, extreme_snapshot, highest, is_worst,
    law_extreme_row_is_the_worst, law_ranking_finds_the_worst_row, max_reading, paired_reading,
    ranking, row_of, scored_rows, shared_points, sum_ratio, times_ascend, track_times,
    trend_reading, triple_reading, GaugeObjective, GaugePoint,
};
use crate::typed::inputs::TypedView;
use vstd::prelude::*;

verus! {

/// Whether there is a reading at a time.
pub open spec fn held_at(points: Seq<GaugePoint>, t: i64) -> bool {
    exists|i: int| 0 <= i < points.len() && (#[trigger] points[i]).ts == t
}

/// Whether readings are those of some levels, one for each time.
pub open spec fn is_series(points: Seq<GaugePoint>, levels: Map<i64, int>) -> bool {
    &&& points.len() <= usize::MAX
    &&& times_ascend(points)
    &&& forall|i: int|
        0 <= i < points.len() ==> levels.dom().contains((#[trigger] points[i]).ts)
            && points[i].value == Float64::of_int(levels[points[i].ts])
    &&& forall|t: i64| #[trigger] levels.dom().contains(t) ==> held_at(points, t)
    &&& forall|t: i64|
        levels.dom().contains(t) ==> -0x8_0000_0000 <= #[trigger] levels[t] <= 0x8_0000_0000
}

/// Whether a column reads some levels within an incident.
pub open spec fn reads(
    typed: TypedView,
    section: Seq<char>,
    column: Seq<char>,
    identity: Seq<IdentityView>,
    context: EvalContext,
    levels: Map<i64, int>,
) -> bool {
    match typed.gauge_points(
        section,
        column,
        identity,
        context.incident_start_us,
        context.incident_end_us,
    ) {
        Some(points) => is_series(points, levels),
        None => false,
    }
}

pub open spec fn never_negative(levels: Map<i64, int>) -> bool {
    forall|t: i64| levels.dom().contains(t) ==> 0 <= #[trigger] levels[t]
}

/// Whether two series have a level at a time.
pub open spec fn meet(a: Map<i64, int>, b: Map<i64, int>, t: i64) -> bool {
    a.dom().contains(t) && b.dom().contains(t)
}

/// Whether three series have a level at a time.
pub open spec fn all_three_meet(
    a: Map<i64, int>,
    b: Map<i64, int>,
    c: Map<i64, int>,
    t: i64,
) -> bool {
    a.dom().contains(t) && b.dom().contains(t) && c.dom().contains(t)
}

/// Whether all series have a level at a time.
pub open spec fn all_meet(levels: Seq<Map<i64, int>>, t: i64) -> bool {
    forall|k: int| 0 <= k < levels.len() ==> (#[trigger] levels[k]).dom().contains(t)
}

/// Whether the only evidence of a draft was observed at a time.
pub open spec fn shown_at(draft: DraftView, t: i64) -> bool {
    draft.evidence.len() == 1 && match draft.evidence[0] {
        EvidenceView::GaugeObservation(gauge) => gauge.observed_at_us == t,
        _ => false,
    }
}

/// Whether a row holds the levels of its time.
pub open spec fn row_at(levels: Seq<Map<i64, int>>, row: Seq<GaugePoint>) -> bool {
    &&& row.len() == levels.len()
    &&& all_meet(levels, row[0].ts)
    &&& forall|k: int|
        0 <= k < row.len() ==> (#[trigger] row[k]).ts == row[0].ts && row[k].value
            == Float64::of_int(levels[k][row[0].ts])
}

/// Whether some row is of a time.
pub open spec fn row_of_time(found: Seq<Seq<GaugePoint>>, t: i64) -> bool {
    exists|r: int| 0 <= r < found.len() && (#[trigger] found[r])[0].ts == t
}

/// The rows of some series are their levels at the times that all of them have,
/// in order.
pub proof fn law_rows_hold_the_shared_levels(
    tracks: Seq<Seq<GaugePoint>>,
    levels: Seq<Map<i64, int>>,
)
    requires
        0 < tracks.len() == levels.len(),
        forall|k: int| 0 <= k < tracks.len() ==> is_series(#[trigger] tracks[k], levels[k]),
    ensures
        shared_points(tracks).len() <= usize::MAX,
        forall|r: int|
            0 <= r < shared_points(tracks).len() ==> row_at(
                levels,
                #[trigger] shared_points(tracks)[r],
            ),
        forall|t: i64| #[trigger] all_meet(levels, t) ==> row_of_time(shared_points(tracks), t),
        forall|r: int, s: int|
            0 <= r < s < shared_points(tracks).len() ==> (
            #[trigger] shared_points(tracks)[r])[0].ts < (#[trigger] shared_points(tracks)[s])[0].ts,
{
    let times = track_times(tracks);
    let found = shared_points(tracks);
    let all = rows(times);
    assert forall|k: int, p: int, q: int|
        0 <= k < times.len() && 0 <= p < q < times[k].len() implies #[trigger] times[k][p]
        < #[trigger] times[k][q] by {
        assert(is_series(tracks[k], levels[k]));
        assert(tracks[k][p].ts < tracks[k][q].ts);
    }
    law_rows_are_the_shared_times(times);
    lemma_rows_fit(times, origin(times.len()));
    assert forall|r: int| 0 <= r < found.len() implies row_at(levels, #[trigger] found[r])
        && found[r][0].ts == head(times, all[r], 0) by {
        let row = all[r];
        assert(row_fits(times, row) && level(times, row));
        assert(found[r] == row_of(tracks, row));
        assert(head(times, row, 0) == head(times, row, 0));
        assert(0 <= row[0] < times[0].len());
        assert forall|k: int| 0 <= k < found[r].len() implies (#[trigger] found[r][k]).ts
            == found[r][0].ts && found[r][k].value == Float64::of_int(levels[k][found[r][0].ts])
            && levels[k].dom().contains(found[r][0].ts) by {
            assert(0 <= row[k] < times[k].len());
            assert(is_series(tracks[k], levels[k]));
            assert(head(times, row, k) == head(times, row, 0));
            let p = tracks[k][row[k]];
            assert(found[r][k] == p);
            assert(times[k][row[k]] == p.ts);
        }
        assert forall|k: int| 0 <= k < levels.len() implies (#[trigger] levels[k]).dom().contains(
            found[r][0].ts,
        ) by {
            let p = found[r][k];
        }
    }
    assert forall|t: i64| #[trigger] all_meet(levels, t) implies row_of_time(found, t) by {
        assert forall|k: int| 0 <= k < times.len() implies (#[trigger] times[k]).contains(t) by {
            assert(is_series(tracks[k], levels[k]));
            assert(levels[k].dom().contains(t));
            assert(held_at(tracks[k], t));
            let i = choose|i: int|
                0 <= i < tracks[k].len() && (#[trigger] tracks[k][i]).ts == t;
            assert(times[k][i] == t);
        }
        assert(listed(times, all, t));
        let i = choose|i: int| 0 <= i < all.len() && head(times, #[trigger] all[i], 0) == t;
        assert(found[i][0].ts == t);
    }
    assert forall|r: int, s: int| 0 <= r < s < found.len() implies (#[trigger] found[r])[0].ts < (
    #[trigger] found[s])[0].ts by {
        assert(head(times, all[r], 0) < head(times, all[s], 0));
    }
    lemma_row_count(times, all, all.len() as int);
    assert(is_series(tracks[0], levels[0]));
    if all.len() > 0 {
        assert(row_fits(times, all[all.len() - 1]));
        assert(all[all.len() - 1][0] < times[0].len());
    }
}

pub proof fn lemma_row_count(times: Seq<Seq<i64>>, all: Seq<Seq<int>>, n: int)
    requires
        times.len() > 0,
        0 <= n <= all.len(),
        forall|r: int| 0 <= r < all.len() ==> row_fits(times, #[trigger] all[r]),
        forall|p: int, q: int|
            0 <= p < q < times[0].len() ==> #[trigger] times[0][p] < #[trigger] times[0][q],
        forall|i: int, j: int|
            0 <= i < j < all.len() ==> head(times, #[trigger] all[i], 0) < head(
                times,
                #[trigger] all[j],
                0,
            ),
    ensures
        forall|r: int| 0 <= r < n ==> (#[trigger] all[r])[0] >= r,
    decreases n,
{
    if n > 0 {
        lemma_row_count(times, all, n - 1);
        let last = all[n - 1];
        assert(row_fits(times, last) && 0 <= last[0] < times[0].len());
        if n > 1 {
            let before = all[n - 2];
            assert(row_fits(times, before) && 0 <= before[0] < times[0].len());
            assert(head(times, before, 0) < head(times, last, 0));
            if last[0] < before[0] {
                assert(times[0][last[0]] < times[0][before[0]]);
            }
        }
    }
}

pub open spec fn pair_score(
    a: Map<i64, int>,
    b: Map<i64, int>,
    objective: GaugeObjective,
    t: i64,
) -> Float64 {
    objective.scored(Float64::of_int(a[t]), Float64::of_int(b[t]))
}

/// Whether the score of two levels is finite at a time, and nowhere beaten.
pub open spec fn is_worst_time(
    a: Map<i64, int>,
    b: Map<i64, int>,
    objective: GaugeObjective,
    highest: bool,
    t: i64,
) -> bool {
    &&& meet(a, b, t)
    &&& pair_score(a, b, objective, t).finite()
    &&& forall|u: i64|
        #[trigger] meet(a, b, u) && pair_score(a, b, objective, u).finite() ==> if highest {
            !pair_score(a, b, objective, t).below(pair_score(a, b, objective, u))
        } else {
            !pair_score(a, b, objective, u).below(pair_score(a, b, objective, t))
        }
}

/// What two columns read is their levels at a time where their score is worst:
/// lowest where the lowest ratio is asked for, else highest.
pub proof fn law_a_pair_reads_its_worst_time(
    x: Seq<GaugePoint>,
    y: Seq<GaugePoint>,
    a: Map<i64, int>,
    b: Map<i64, int>,
    from_us: i64,
    to_us: i64,
    objective: GaugeObjective,
)
    requires
        is_series(x, a),
        is_series(y, b),
    ensures
        match paired_reading(x, y, from_us, to_us, objective) {
            Some(pair) => {
                &&& is_worst_time(
                    a,
                    b,
                    objective,
                    objective != GaugeObjective::RatioMin,
                    pair.observed_at_us,
                )
                &&& pair.a == Float64::of_int(a[pair.observed_at_us])
                &&& pair.b == Float64::of_int(b[pair.observed_at_us])
                &&& pair.samples > 0
            },
            None => forall|t: i64| #[trigger] meet(a, b, t) ==> !pair_score(
                a,
                b,
                objective,
                t,
            ).finite(),
        },
{
    let tracks = seq![x, y];
    let levels = seq![a, b];
    assert forall|k: int| 0 <= k < tracks.len() implies is_series(
        #[trigger] tracks[k],
        levels[k],
    ) by {}
    law_rows_hold_the_shared_levels(tracks, levels);
    let found = shared_points(tracks);
    let score = |row: Seq<GaugePoint>| objective.scored(row[0].value, row[1].value);
    let maximize = objective != GaugeObjective::RatioMin;
    law_ranking_finds_the_worst_row(found, score, maximize);
    let done = ranking(found, score, maximize);
    assert forall|r: int| 0 <= r < found.len() implies ({
        let t = (#[trigger] found[r])[0].ts;
        &&& meet(a, b, t)
        &&& score(found[r]) == pair_score(a, b, objective, t)
        &&& found[r][0].value == Float64::of_int(a[t])
        &&& found[r][1].value == Float64::of_int(b[t])
    }) by {
        assert(row_at(levels, found[r]));
        let t = found[r][0].ts;
        assert(levels[0].dom().contains(t) && levels[1].dom().contains(t));
        assert(found[r][0].value == Float64::of_int(levels[0][t]));
        assert(found[r][1].value == Float64::of_int(levels[1][t]));
    }
    assert forall|t: i64| #[trigger] meet(a, b, t) implies row_of_time(found, t) by {
        assert(all_meet(levels, t));
    }
    found.lemma_filter_len(|row: Seq<GaugePoint>| score(row).finite());
    match done.best {
        Some((value, row)) => {
            let at = choose|at: int| #[trigger]
                is_worst(found, score, maximize, at) && found[at] == row;
            let t = row[0].ts;
            assert forall|u: i64|
                #[trigger] meet(a, b, u) && pair_score(a, b, objective, u).finite()
                    implies if maximize {
                !pair_score(a, b, objective, t).below(pair_score(a, b, objective, u))
            } else {
                !pair_score(a, b, objective, u).below(pair_score(a, b, objective, t))
            } by {
                assert(row_of_time(found, u));
                let r = choose|r: int| 0 <= r < found.len() && (#[trigger] found[r])[0].ts == u;
                assert(!beats(score(found[r]), score(found[at]), maximize));
            }
            found.lemma_filter_contains(|row: Seq<GaugePoint>| score(row).finite(), at);
            assert(scored_rows(found, score).contains(found[at]));
            assert(done.times.len() > 0);
        },
        None => {
            assert forall|t: i64| #[trigger] meet(a, b, t) implies !pair_score(
                a,
                b,
                objective,
                t,
            ).finite() by {
                assert(row_of_time(found, t));
                let r = choose|r: int| 0 <= r < found.len() && (#[trigger] found[r])[0].ts == t;
                assert(!score(found[r]).finite());
            }
        },
    }
}

/// Whether a time is the first at which the level of one of some series is
/// highest (or lowest) among the times that all of them share.
pub open spec fn is_extreme_level(
    levels: Seq<Map<i64, int>>,
    index: int,
    highest: bool,
    t: i64,
) -> bool {
    &&& all_meet(levels, t)
    &&& forall|u: i64| #[trigger] all_meet(levels, u) ==> if highest {
        levels[index][u] <= levels[index][t]
    } else {
        levels[index][t] <= levels[index][u]
    }
    &&& forall|u: i64| #[trigger]
        all_meet(levels, u) && u < t ==> levels[index][u] != levels[index][t]
}

/// Whether a time is the first at which the level of the first series is highest
/// (or lowest) among the times that all series share.
pub open spec fn is_extreme_time(levels: Seq<Map<i64, int>>, highest: bool, t: i64) -> bool {
    is_extreme_level(levels, 0, highest, t)
}

/// What several columns read is their levels at the first time at which the
/// level of a chosen one is highest, or lowest.
pub proof fn law_a_snapshot_reads_an_extreme_of_a_column(
    tracks: Seq<Seq<GaugePoint>>,
    levels: Seq<Map<i64, int>>,
    from_us: i64,
    to_us: i64,
    index: int,
    highest: bool,
)
    requires
        0 < tracks.len() == levels.len() <= 8,
        0 <= index < levels.len(),
        forall|k: int| 0 <= k < tracks.len() ==> is_series(#[trigger] tracks[k], levels[k]),
    ensures
        match extreme_snapshot(tracks, from_us, to_us, index, highest) {
            Some(reading) => {
                &&& is_extreme_level(levels, index, highest, reading.observed_at_us)
                &&& reading.values.len() == levels.len()
                &&& forall|k: int|
                    0 <= k < levels.len() ==> #[trigger] reading.values[k] == Float64::of_int(
                        levels[k][reading.observed_at_us],
                    )
                &&& reading.samples > 0
            },
            None => forall|t: i64| !#[trigger] all_meet(levels, t),
        },
{
    law_rows_hold_the_shared_levels(tracks, levels);
    let found = shared_points(tracks);
    assert forall|r: int| 0 <= r < found.len() implies ({
        let t = (#[trigger] found[r])[0].ts;
        &&& found[r][index].value == Float64::of_int(levels[index][t])
        &&& found[r][index].value.finite()
        &&& -0x8_0000_0000 <= levels[index][t] <= 0x8_0000_0000
    }) by {
        assert(row_at(levels, found[r]));
        let t = found[r][0].ts;
        assert(is_series(tracks[index], levels[index]));
        assert(levels[index].dom().contains(t));
        assert(found[r][index].value == Float64::of_int(levels[index][t]));
        crate::float64::law_small_integers_are_exact(levels[index][t]);
    }
    law_extreme_row_is_the_worst(found, index, highest);
    match extreme_row(found, index, highest) {
        Some(row) => {
            let at = choose|at: int| #[trigger]
                is_worst(found, column_score(index), highest, at) && found[at] == row;
            let t = row[0].ts;
            assert(row_at(levels, found[at]));
            assert forall|u: i64| #[trigger] all_meet(levels, u) implies (if highest {
                levels[index][u] <= levels[index][t]
            } else {
                levels[index][t] <= levels[index][u]
            }) && (u < t ==> levels[index][u] != levels[index][t]) by {
                assert(row_of_time(found, u));
                let r = choose|r: int| 0 <= r < found.len() && (#[trigger] found[r])[0].ts == u;
                crate::float64::law_small_integers_keep_their_order(levels[index][u], levels[index][t]);
                crate::float64::law_small_integers_keep_their_order(levels[index][t], levels[index][u]);
                let score = column_score(index);
                assert(score(found[r]) == found[r][index].value && score(found[at])
                    == found[at][index].value);
                assert(!beats(score(found[r]), score(found[at]), highest));
                if u < t {
                    if r > at {
                        assert(found[at][0].ts < found[r][0].ts);
                    }
                    assert(r < at);
                    assert(beats(score(found[at]), score(found[r]), highest));
                }
            }
        },
        None => {
            assert forall|t: i64| !#[trigger] all_meet(levels, t) by {
                if all_meet(levels, t) {
                    assert(row_of_time(found, t));
                }
            }
        },
    }
}

/// What several columns read is their levels at the first time at which the
/// level of the first is highest, or lowest.
pub proof fn law_a_snapshot_reads_its_extreme_time(
    tracks: Seq<Seq<GaugePoint>>,
    levels: Seq<Map<i64, int>>,
    from_us: i64,
    to_us: i64,
    highest: bool,
)
    requires
        0 < tracks.len() == levels.len() <= 8,
        forall|k: int| 0 <= k < tracks.len() ==> is_series(#[trigger] tracks[k], levels[k]),
    ensures
        match extreme_snapshot(tracks, from_us, to_us, 0, highest) {
            Some(reading) => {
                &&& is_extreme_time(levels, highest, reading.observed_at_us)
                &&& reading.values.len() == levels.len()
                &&& forall|k: int|
                    0 <= k < levels.len() ==> #[trigger] reading.values[k] == Float64::of_int(
                        levels[k][reading.observed_at_us],
                    )
                &&& reading.samples > 0
            },
            None => forall|t: i64| !#[trigger] all_meet(levels, t),
        },
{
    law_a_snapshot_reads_an_extreme_of_a_column(tracks, levels, from_us, to_us, 0, highest);
}

/// The sum of two levels over a third, where that is positive.
pub open spec fn triple_score(
    a: Map<i64, int>,
    b: Map<i64, int>,
    c: Map<i64, int>,
    t: i64,
) -> Float64 {
    if c[t] > 0 {
        Float64::of_int(a[t]).sum_with(Float64::of_int(b[t])).quotient_by(Float64::of_int(c[t]))
    } else {
        Float64::quiet()
    }
}

/// What three columns read is their levels at a time where the sum of two over
/// the third is highest.
pub proof fn law_a_triple_reads_its_worst_time(
    x: Seq<GaugePoint>,
    y: Seq<GaugePoint>,
    z: Seq<GaugePoint>,
    a: Map<i64, int>,
    b: Map<i64, int>,
    c: Map<i64, int>,
    from_us: i64,
    to_us: i64,
)
    requires
        is_series(x, a),
        is_series(y, b),
        is_series(z, c),
    ensures
        match triple_reading(x, y, z, from_us, to_us) {
            Some(found) => {
                let t = found.observed_at_us;
                &&& all_three_meet(a, b, c, t)
                &&& triple_score(a, b, c, t).finite()
                &&& forall|u: i64|
                    #[trigger] all_three_meet(a, b, c, u) && triple_score(a, b, c, u).finite()
                        ==> !triple_score(a, b, c, t).below(triple_score(a, b, c, u))
                &&& found.a == Float64::of_int(a[t])
                &&& found.b == Float64::of_int(b[t])
                &&& found.denominator == Float64::of_int(c[t])
                &&& found.samples > 0
            },
            None => forall|t: i64| #[trigger]
                all_three_meet(a, b, c, t) ==> !triple_score(a, b, c, t).finite(),
        },
{
    let tracks = seq![x, y, z];
    let levels = seq![a, b, c];
    assert forall|k: int| 0 <= k < tracks.len() implies is_series(
        #[trigger] tracks[k],
        levels[k],
    ) by {}
    law_rows_hold_the_shared_levels(tracks, levels);
    let found = shared_points(tracks);
    let score = |row: Seq<GaugePoint>| sum_ratio(row);
    law_ranking_finds_the_worst_row(found, score, true);
    let done = ranking(found, score, true);
    assert forall|r: int| 0 <= r < found.len() implies ({
        let t = (#[trigger] found[r])[0].ts;
        &&& all_three_meet(a, b, c, t)
        &&& score(found[r]) == triple_score(a, b, c, t)
        &&& found[r][0].value == Float64::of_int(a[t])
        &&& found[r][1].value == Float64::of_int(b[t])
        &&& found[r][2].value == Float64::of_int(c[t])
    }) by {
        assert(row_at(levels, found[r]));
        let t = found[r][0].ts;
        assert(levels[0].dom().contains(t) && levels[1].dom().contains(t)
            && levels[2].dom().contains(t));
        assert(found[r][0].value == Float64::of_int(levels[0][t]));
        assert(found[r][1].value == Float64::of_int(levels[1][t]));
        assert(found[r][2].value == Float64::of_int(levels[2][t]));
        crate::laws::ratio::lemma_small(0);
        crate::float64::law_small_integers_keep_their_order(0, c[t]);
    }
    found.lemma_filter_len(|row: Seq<GaugePoint>| score(row).finite());
    match done.best {
        Some((value, row)) => {
            let at = choose|at: int| #[trigger]
                is_worst(found, score, true, at) && found[at] == row;
            let t = row[0].ts;
            assert forall|u: i64|
                #[trigger] all_three_meet(a, b, c, u) && triple_score(a, b, c, u).finite()
                    implies !triple_score(a, b, c, t).below(
                triple_score(a, b, c, u),
            ) by {
                assert(all_meet(levels, u));
                assert(row_of_time(found, u));
                let r = choose|r: int| 0 <= r < found.len() && (#[trigger] found[r])[0].ts == u;
                assert(!beats(score(found[r]), score(found[at]), true));
            }
            found.lemma_filter_contains(|row: Seq<GaugePoint>| score(row).finite(), at);
            assert(scored_rows(found, score).contains(found[at]));
            assert(done.times.len() > 0);
        },
        None => {
            assert forall|t: i64| #[trigger] all_three_meet(a, b, c, t) implies !triple_score(
                a,
                b,
                c,
                t,
            ).finite() by {
                assert(all_meet(levels, t));
                assert(row_of_time(found, t));
                let r = choose|r: int| 0 <= r < found.len() && (#[trigger] found[r])[0].ts == t;
                assert(!score(found[r]).finite());
            }
        },
    }
}

/// There is one extreme time.
pub proof fn lemma_extreme_time_unique(
    levels: Seq<Map<i64, int>>,
    highest: bool,
    t: i64,
    u: i64,
)
    requires
        is_extreme_time(levels, highest, t),
        is_extreme_time(levels, highest, u),
    ensures
        t == u,
{
    assert(all_meet(levels, t) && all_meet(levels, u));
}

/// The tracks of columns that read some levels.
pub proof fn lemma_columns(
    typed: TypedView,
    section: Seq<char>,
    identity: Seq<IdentityView>,
    columns: Seq<Seq<char>>,
    context: EvalContext,
    levels: Seq<Map<i64, int>>,
)
    requires
        0 < columns.len() == levels.len() <= 8,
        forall|k: int|
            0 <= k < columns.len() ==> reads(
                typed,
                section,
                #[trigger] columns[k],
                identity,
                context,
                levels[k],
            ),
    ensures
        ({
            let tracks = snapshot_tracks(typed, section, identity, columns, context);
            &&& tracks is Some
            &&& tracks->Some_0.len() == levels.len()
            &&& forall|k: int|
                0 <= k < levels.len() ==> is_series(#[trigger] tracks->Some_0[k], levels[k])
        }),
{
    assert forall|k: int| 0 <= k < columns.len() implies typed.gauge_points(
        section,
        #[trigger] columns[k],
        identity,
        context.incident_start_us,
        context.incident_end_us,
    ) is Some by {
        assert(reads(typed, section, columns[k], identity, context, levels[k]));
    }
    let tracks = snapshot_tracks(typed, section, identity, columns, context)->Some_0;
    assert forall|k: int| 0 <= k < levels.len() implies is_series(
        #[trigger] tracks[k],
        levels[k],
    ) by {
        assert(reads(typed, section, columns[k], identity, context, levels[k]));
    }
}

/// The reading of a window is its highest level, where it first occurs.
pub proof fn law_the_highest_level_is_read(
    points: Seq<GaugePoint>,
    levels: Map<i64, int>,
    from_us: i64,
    to_us: i64,
)
    requires
        is_series(points, levels),
        points.len() > 0,
    ensures
        match max_reading(points, from_us, to_us) {
            Some(reading) => {
                let t = reading.observed_at_us;
                &&& levels.dom().contains(t)
                &&& reading.value == Float64::of_int(levels[t])
                &&& reading.samples == points.len()
                &&& forall|u: i64| levels.dom().contains(u) ==> #[trigger] levels[u] <= levels[t]
                &&& forall|u: i64|
                    levels.dom().contains(u) && u < t ==> #[trigger] levels[u] < levels[t]
            },
            None => false,
        },
{
    lemma_highest(points, levels);
    let top = highest(points)->Some_0;
    let t = top.ts;
    assert forall|u: i64| levels.dom().contains(u) implies #[trigger] levels[u] <= levels[t] && (u
        < t ==> levels[u] < levels[t]) by {
        assert(held_at(points, u));
        let i = choose|i: int| 0 <= i < points.len() && (#[trigger] points[i]).ts == u;
        assert(levels.dom().contains(points[i].ts));
    }
}

proof fn lemma_highest(points: Seq<GaugePoint>, levels: Map<i64, int>)
    requires
        points.len() > 0,
        times_ascend(points),
        forall|i: int|
            0 <= i < points.len() ==> levels.dom().contains((#[trigger] points[i]).ts)
                && points[i].value == Float64::of_int(levels[points[i].ts]) && -0x8_0000_0000
                <= levels[points[i].ts] <= 0x8_0000_0000,
    ensures
        highest(points) matches Some(top) && points.contains(top) && forall|i: int|
            0 <= i < points.len() ==> levels[(#[trigger] points[i]).ts] <= levels[top.ts] && (
            points[i].ts < top.ts ==> levels[points[i].ts] < levels[top.ts]),
    decreases points.len(),
{
    let front = points.drop_last();
    let last = points.last();
    let n = points.len() - 1;
    assert(points[n] == last);
    if front.len() > 0 {
        assert forall|i: int| 0 <= i < front.len() implies #[trigger] front[i] == points[i] by {}
        lemma_highest(front, levels);
        let held = highest(front)->Some_0;
        let k = front.index_of(held);
        assert(points[k] == held);
        crate::float64::law_small_integers_keep_their_order(levels[held.ts], levels[last.ts]);
        let top = highest(points)->Some_0;
        assert forall|i: int| 0 <= i < points.len() implies levels[(#[trigger] points[i]).ts]
            <= levels[top.ts] && (points[i].ts < top.ts ==> levels[points[i].ts]
            < levels[top.ts]) by {
            if i < n {
                assert(front[i] == points[i]);
            } else {
                assert(points[k].ts < points[n].ts);
            }
        }
    } else {
        assert(highest(front) is None);
        assert(points.contains(last));
    }
}

/// The trend of a window is from its first level to its last.
pub proof fn law_a_trend_runs_from_first_to_last(
    points: Seq<GaugePoint>,
    levels: Map<i64, int>,
    from_us: i64,
    to_us: i64,
)
    requires
        is_series(points, levels),
    ensures
        trend_reading(points, from_us, to_us) is Some <==> points.len() >= 2,
        trend_reading(points, from_us, to_us) matches Some(trend) ==> {
            &&& levels.dom().contains(trend.first_at_us)
            &&& levels.dom().contains(trend.last_at_us)
            &&& trend.first == Float64::of_int(levels[trend.first_at_us])
            &&& trend.last == Float64::of_int(levels[trend.last_at_us])
            &&& trend.samples == points.len()
            &&& forall|u: i64| #[trigger]
                levels.dom().contains(u) ==> trend.first_at_us <= u <= trend.last_at_us
        },
{
    if points.len() >= 2 {
        let n = points.len() - 1;
        assert(points[0].ts < points[n].ts);
        assert forall|u: i64| #[trigger] levels.dom().contains(u) implies points[0].ts <= u
            <= points[n].ts by {
            assert(held_at(points, u));
            let i = choose|i: int| 0 <= i < points.len() && (#[trigger] points[i]).ts == u;
            if i > 0 {
                assert(points[0].ts < points[i].ts);
            }
            if i < n {
                assert(points[i].ts < points[n].ts);
            }
        }
    }
}

/// What a lens that inspects members drafts of one.
pub proof fn lemma_inspected<I: InspectLens>(
    lens: &I,
    member: EpisodeView,
    typed: TypedView,
    context: EvalContext,
)
    ensures
        drafts(lens.member_steps(member, typed, context)) == match (
            lens.inspected(member, typed, context),
            lens.drafted(member, typed, context),
        ) {
            (Some(_), Some(draft)) => seq![draft],
            _ => Seq::empty(),
        },
{
    if let Some(points) = lens.inspected(member, typed, context) {
        let draft = lens.drafted(member, typed, context);
        lemma_drafts_after_charge(points, emitted(draft));
        lemma_drafts_emitted(draft);
    }
}

} // verus!
