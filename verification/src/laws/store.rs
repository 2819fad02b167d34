//! What is read back of the evidence that is put in.

use crate::float64::Float64;
use crate::model::IdentityView;
use crate::order::lemma_ranked_sort;
use crate::typed::counter::{aligned_sums, pair_sums, CounterPoint};
use crate::typed::gauge::{
    broken_times, by_time, gauge_track, usable_points, window_points, GaugePoint, GaugeTrackView,
    RawPoint,
};
use crate::typed::inputs::{TrackId, TypedView};
use vstd::prelude::*;

verus! {

/// A counter column reads back what was put in last. Nothing else changes, but
/// that the bytes read by a control group name one more of its devices.
pub proof fn law_a_counter_is_read_back(
    typed: TypedView,
    section: Seq<char>,
    column: Seq<char>,
    identity: Seq<IdentityView>,
    points: Seq<CounterPoint>,
    other_section: Seq<char>,
    other_column: Seq<char>,
    other_identity: Seq<IdentityView>,
    path: Seq<char>,
    device: Seq<IdentityView>,
)
    ensures
        ({
            let after = typed.with_counter(section, column, identity, points);
            &&& after.counter(section, column, identity) == Some(points)
            &&& (other_section != section || other_column != column || other_identity != identity)
                ==> after.counter(other_section, other_column, other_identity) == typed.counter(
                other_section,
                other_column,
                other_identity,
            )
            &&& after.gauges == typed.gauges
            &&& after.activity == typed.activity
            &&& after.locks == typed.locks
            &&& after.plans == typed.plans
            &&& after.process_cgroups == typed.process_cgroups
            &&& after.storage_devices == typed.storage_devices
            &&& after.devices(path).contains(device) <==> typed.devices(path).contains(device) || (
            section == "os_cgroup_io"@ && column == "rbytes"@ && device == identity
                && identity.len() > 0 && identity[0] == IdentityView::Text(path))
        }),
{
    let after = typed.with_counter(section, column, identity, points);
    let known = typed.devices(path);
    if section == "os_cgroup_io"@ && column == "rbytes"@ && identity.len() > 0 && identity[0]
        == IdentityView::Text(path) && !known.contains(identity) {
        let more = known.push(identity);
        assert(after.devices(path) == more);
        assert(more[known.len() as int] == identity);
        if known.contains(device) {
            let k = known.index_of(device);
            assert(more[k] == device);
        }
        if more.contains(device) {
            let k = more.index_of(device);
            if k < known.len() {
                assert(known[k] == device);
            }
        }
    }
}

/// A gauge column reads back what was put in last, and nothing else changes.
pub proof fn law_a_gauge_is_read_back(
    typed: TypedView,
    section: Seq<char>,
    column: Seq<char>,
    identity: Seq<IdentityView>,
    track: GaugeTrackView,
    other: TrackId,
    from_us: i64,
    to_us: i64,
)
    ensures
        ({
            let after = typed.with_gauge(section, column, identity, track);
            &&& after.gauge_points(section, column, identity, from_us, to_us) == window_points(
                track,
                from_us,
                to_us,
            )
            &&& other != (TrackId { section, column, identity }) ==> after.gauge_points(
                other.section,
                other.column,
                other.identity,
                from_us,
                to_us,
            ) == typed.gauge_points(
                other.section,
                other.column,
                other.identity,
                from_us,
                to_us,
            )
            &&& after.counters == typed.counters
            &&& after.activity == typed.activity
            &&& after.locks == typed.locks
        }),
{
}

/// Sums of two columns are those of their own intervals, in the order asked for,
/// and exist exactly if both columns do.
pub proof fn law_a_pair_sums_its_own_columns(
    typed: TypedView,
    section: Seq<char>,
    identity: Seq<IdentityView>,
    column_a: Seq<char>,
    column_b: Seq<char>,
    from_us: i64,
    to_us: i64,
)
    ensures
        ({
            let id_a = TrackId { section, column: column_a, identity };
            let id_b = TrackId { section, column: column_b, identity };
            let sums = typed.pair_sums(section, identity, column_a, column_b, from_us, to_us);
            &&& sums is Some <==> typed.counters.dom().contains(id_a)
                && typed.counters.dom().contains(id_b)
            &&& sums is Some ==> sums == Some(
                pair_sums(typed.counters[id_a], typed.counters[id_b], from_us, to_us),
            )
        }),
{
}

/// Sums of up to sixteen columns over an interval are those of their own
/// intervals, in the order asked for, and exist exactly if all columns do.
pub proof fn law_aligned_sums_read_their_own_columns(
    typed: TypedView,
    section: Seq<char>,
    identity: Seq<IdentityView>,
    columns: Seq<Seq<char>>,
    tracks: Seq<Seq<CounterPoint>>,
    from_us: i64,
    to_us: i64,
)
    requires
        0 < columns.len() <= 16,
        columns.len() == tracks.len(),
        from_us <= to_us,
        forall|k: int|
            0 <= k < columns.len() ==> typed.counter(section, #[trigger] columns[k], identity)
                == Some(tracks[k]),
    ensures
        typed.aligned_sums(section, identity, columns, from_us, to_us) == Some(
            aligned_sums(tracks, from_us, to_us),
        ),
        forall|missing: Seq<char>|
            typed.counter(section, missing, identity) is None && columns.len() < 16
                ==> #[trigger] typed.aligned_sums(
                section,
                identity,
                columns.push(missing),
                from_us,
                to_us,
            ) is None,
{
    assert(Seq::new(
        columns.len(),
        |k: int| typed.counter(section, columns[k], identity)->Some_0,
    ) =~= tracks);
    assert forall|missing: Seq<char>|
        typed.counter(section, missing, identity) is None && columns.len()
            < 16 implies #[trigger] typed.aligned_sums(
        section,
        identity,
        columns.push(missing),
        from_us,
        to_us,
    ) is None by {
        assert(columns.push(missing)[columns.len() as int] == missing);
    }
}

proof fn lemma_kept(arranged: Seq<RawPoint>)
    ensures
        forall|k: int|
            0 <= k < arranged.len() ==> {
                let raw = #[trigger] arranged[k];
                broken_times(arranged).contains(raw.ts) || (raw.value.finite() && usable_points(
                    arranged,
                ).contains(GaugePoint { ts: raw.ts, value: raw.value }))
            },
        forall|i: int|
            0 <= i < usable_points(arranged).len() ==> came_from(
                #[trigger] usable_points(arranged)[i],
                arranged,
            ),
    decreases arranged.len(),
{
    if arranged.len() > 0 {
        let front = arranged.drop_last();
        lemma_kept(front);
        let before = usable_points(front);
        let after = usable_points(arranged);
        let last = arranged.last();
        assert forall|k: int| 0 <= k < arranged.len() implies ({
            let raw = #[trigger] arranged[k];
            broken_times(arranged).contains(raw.ts) || (raw.value.finite() && after.contains(
                GaugePoint { ts: raw.ts, value: raw.value },
            ))
        }) by {
            let raw = arranged[k];
            let point = GaugePoint { ts: raw.ts, value: raw.value };
            if k < front.len() {
                assert(front[k] == raw);
                if before.contains(point) {
                    let i = before.index_of(point);
                    assert(after[i] == point);
                }
            } else if raw.value.finite() && !(before.len() > 0 && before.last().ts == raw.ts) {
                assert(after[before.len() as int] == point);
            }
        }
        assert forall|i: int| 0 <= i < after.len() implies came_from(
            #[trigger] after[i],
            arranged,
        ) by {
            if i < before.len() {
                assert(after[i] == before[i]);
                assert(came_from(before[i], front));
                let k = choose|k: int|
                    0 <= k < front.len() && (#[trigger] front[k]).ts == before[i].ts
                        && front[k].value == before[i].value && front[k].value.finite();
                assert(arranged[k] == front[k]);
            } else {
                assert(arranged[arranged.len() - 1] == last);
            }
        }
    }
}

spec fn came_from(point: GaugePoint, arranged: Seq<RawPoint>) -> bool {
    exists|k: int|
        0 <= k < arranged.len() && (#[trigger] arranged[k]).ts == point.ts && arranged[k].value
            == point.value && arranged[k].value.finite()
}

/// Whether a point is one of some readings.
pub open spec fn is_reading(point: GaugePoint, raw: Seq<(i64, Float64)>) -> bool {
    exists|i: int| 0 <= i < raw.len() && #[trigger] raw[i] == (point.ts, point.value)
}

/// A window holds all readings of its half-open interval and no others; there is
/// none where a break, a gap or a reading that is not finite lies in it.
pub proof fn law_a_window_holds_its_readings(
    raw: Seq<(i64, Float64)>,
    breaks: Seq<i64>,
    shared_breaks: Seq<i64>,
    gaps: Set<int>,
    from_us: i64,
    to_us: i64,
)
    requires
        raw.len() <= usize::MAX,
        window_points(gauge_track(raw, breaks, shared_breaks, gaps), from_us, to_us) is Some,
    ensures
        ({
            let points = window_points(
                gauge_track(raw, breaks, shared_breaks, gaps),
                from_us,
                to_us,
            )->Some_0;
            &&& from_us < to_us
            &&& points.len() > 0
            &&& forall|i: int|
                0 <= i < points.len() ==> is_reading(#[trigger] points[i], raw) && from_us
                    <= points[i].ts < to_us
            &&& forall|i: int|
                0 <= i < raw.len() && from_us <= (#[trigger] raw[i]).0 < to_us
                    ==> raw[i].1.finite() && points.contains(
                    GaugePoint { ts: raw[i].0, value: raw[i].1 },
                )
            &&& forall|i: int|
                0 <= i < breaks.len() ==> !(from_us <= #[trigger] breaks[i] < to_us)
            &&& forall|i: int|
                0 <= i < shared_breaks.len() ==> !(from_us <= #[trigger] shared_breaks[i] < to_us)
            &&& forall|t: int| #[trigger] gaps.contains(t) ==> !(from_us <= t < to_us)
        }),
{
    let track = gauge_track(raw, breaks, shared_breaks, gaps);
    let arranged = by_time(raw);
    let given = Seq::new(
        raw.len(),
        |i: int| RawPoint { ts: raw[i].0, index: i as usize, value: raw[i].1 },
    );
    lemma_ranked_sort(given);
    lemma_kept(arranged);
    let inside = |p: GaugePoint| from_us <= p.ts < to_us;
    let points = track.points.filter(inside);
    assert(window_points(track, from_us, to_us) == Some(points));
    arranged.to_multiset_ensures();
    given.to_multiset_ensures();
    assert forall|one: RawPoint| #[trigger] arranged.contains(one) <==> given.contains(one) by {
        assert(arranged.to_multiset().count(one) == given.to_multiset().count(one));
    }
    assert forall|i: int| 0 <= i < points.len() implies is_reading(#[trigger] points[i], raw)
        && from_us <= points[i].ts < to_us by {
        track.points.lemma_filter_pred(inside, i);
        assert(points.contains(points[i]));
        track.points.lemma_filter_contains_rev(inside, points[i]);
        let n = track.points.index_of(points[i]);
        assert(came_from(track.points[n], arranged));
        let k = choose|k: int|
            0 <= k < arranged.len() && (#[trigger] arranged[k]).ts == points[i].ts
                && arranged[k].value == points[i].value && arranged[k].value.finite();
        assert(arranged.contains(arranged[k]));
        let m = given.index_of(arranged[k]);
        assert(given[m] == arranged[k]);
        assert(raw[m] == (points[i].ts, points[i].value));
    }
    assert forall|t: i64| #[trigger] track.breaks.contains(t) implies !(from_us <= t < to_us) by {}
    assert forall|i: int| 0 <= i < raw.len() && from_us <= (#[trigger] raw[i]).0 < to_us
        implies raw[i].1.finite()
        && points.contains(GaugePoint { ts: raw[i].0, value: raw[i].1 }) by {
        let one = given[i];
        assert(given.contains(one));
        assert(arranged.contains(one));
        let k = arranged.index_of(one);
        assert(arranged[k] == one);
        assert(!track.breaks.contains(one.ts));
        let point = GaugePoint { ts: one.ts, value: one.value };
        assert(track.points.contains(point));
        let n = track.points.index_of(point);
        track.points.lemma_filter_contains(inside, n);
    }
    assert forall|i: int| 0 <= i < breaks.len() implies !(from_us <= #[trigger] breaks[i]
        < to_us) by {
        assert(breaks.to_set().contains(breaks[i]));
        assert(track.breaks.contains(breaks[i]));
    }
    assert forall|i: int| 0 <= i < shared_breaks.len()
        implies !(from_us <= #[trigger] shared_breaks[i]
        < to_us) by {
        assert(shared_breaks.to_set().contains(shared_breaks[i]));
        assert(track.breaks.contains(shared_breaks[i]));
    }
    assert forall|t: int| #[trigger] gaps.contains(t) implies !(from_us <= t < to_us) by {
        assert(track.gaps.contains(t));
    }
}

} // verus!
