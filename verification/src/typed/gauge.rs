//! Gauge tracks and the windows that lenses read from them.

use crate::align::{
    lemma_rows_fit, origin, row_fits, row_view, rows, rows_view, shared_rows, time_view,
};
use crate::evidence::coverage::{
    observed_period_from_timestamps, period, positive_gaps, span_of, SourceWindow,
};
use crate::float64::{law_order_is_numeric, Float64, ONE, QUIET_NAN};
use crate::order::{
    ints, lemma_ranked_sort, rank_order, ranked_sort, sort_ranked, views, Keyed, Ranked,
};
use crate::text::push_int;
use vstd::prelude::*;

verus! {

/// One reading.
#[derive(Debug, Clone, Copy, PartialEq, Eq, Structural)]
pub struct GaugePoint {
    pub ts: i64,
    pub value: Float64,
}

/// A half-open interval without coverage.
#[derive(Debug, Clone, Copy, PartialEq, Eq, Structural)]
pub struct GaugeGap {
    pub from: i64,
    pub to: i64,
}

impl View for GaugeGap {
    type V = GaugeGap;

    open spec fn view(&self) -> GaugeGap {
        *self
    }
}

impl Ranked for GaugeGap {
    open spec fn rank(self) -> Seq<int> {
        (self.from, self.to).rank()
    }

    proof fn rank_splits(a: Self, b: Self, x: Seq<int>, y: Seq<int>) {
        <(i64, i64)>::rank_splits((a.from, a.to), (b.from, b.to), x, y);
    }
}

impl Keyed<GaugeGap> for GaugeGap {
    fn key_into(&self, out: &mut Vec<i128>) {
        let ghost start = ints(out@);
        push_int(out, self.from as i128);
        push_int(out, self.to as i128);
        proof {
            assert(ints(out@) =~= start + self@.rank());
        }
    }
}

/// Whether some gap holds the instant `t`.
pub open spec fn gap_holds(gaps: Seq<GaugeGap>, t: int) -> bool {
    exists|i: int| 0 <= i < gaps.len() && (#[trigger] gaps[i]).from <= t < gaps[i].to
}

/// Whether some pair of bounds holds the instant `t`.
pub open spec fn bounds_hold(gaps: Seq<(i64, i64)>, t: int) -> bool {
    exists|i: int| 0 <= i < gaps.len() && (#[trigger] gaps[i]).0 <= t < gaps[i].1
}

/// Whether the gaps are non-empty, in order, and do not touch.
pub open spec fn separated(gaps: Seq<GaugeGap>) -> bool {
    &&& forall|i: int| 0 <= i < gaps.len() ==> (#[trigger] gaps[i]).from < gaps[i].to
    &&& forall|i: int, j: int|
        0 <= i < j < gaps.len() ==> (#[trigger] gaps[i]).to < (#[trigger] gaps[j]).from
}

/// Whether gaps are the normal form of some bounds: separated, and holding the
/// same instants.
pub open spec fn is_normal(gaps: Seq<GaugeGap>, bounds: Seq<(i64, i64)>) -> bool {
    separated(gaps) && forall|t: int| #[trigger] gap_holds(gaps, t) <==> bounds_hold(bounds, t)
}

/// Merges the non-empty gaps into separated ones that hold the same instants.
pub fn normalize_gaps(gaps: &[(i64, i64)]) -> (merged: Vec<GaugeGap>)
    ensures
        is_normal(merged@, gaps@),
{
    let mut kept: Vec<GaugeGap> = Vec::new();
    let mut i: usize = 0;
    while i < gaps.len()
        invariant
            i <= gaps.len(),
            forall|j: int| 0 <= j < kept.len() ==> (#[trigger] kept@[j]).from < kept@[j].to,
            forall|t: int| #[trigger]
                gap_holds(kept@, t) <==> bounds_hold(gaps@.take(i as int), t),
        decreases gaps.len() - i,
    {
        let (from, to) = gaps[i];
        let ghost before = kept@;
        if from < to {
            kept.push(GaugeGap { from, to });
        }
        proof {
            let t0 = gaps@.take(i as int);
            let t1 = gaps@.take(i + 1);
            assert forall|t: int| #[trigger] gap_holds(kept@, t) <==> bounds_hold(t1, t) by {
                if gap_holds(kept@, t) {
                    let k = choose|k: int|
                        0 <= k < kept@.len() && (#[trigger] kept@[k]).from <= t < kept@[k].to;
                    if k < before.len() {
                        assert(before[k] == kept@[k]);
                        assert(gap_holds(before, t));
                        let m = choose|m: int|
                            0 <= m < t0.len() && (#[trigger] t0[m]).0 <= t < t0[m].1;
                        assert(t1[m] == t0[m]);
                    } else {
                        assert(t1[i as int] == gaps@[i as int]);
                    }
                }
                if bounds_hold(t1, t) {
                    let m = choose|m: int| 0 <= m < t1.len() && (#[trigger] t1[m]).0 <= t < t1[m].1;
                    if m < i {
                        assert(t0[m] == t1[m]);
                        assert(gap_holds(before, t));
                        let k = choose|k: int|
                            0 <= k < before.len() && (#[trigger] before[k]).from <= t
                                < before[k].to;
                        assert(kept@[k] == before[k]);
                    } else {
                        assert(kept@[before.len() as int].from <= t);
                    }
                }
            }
        }
        i = i + 1;
    }
    proof {
        assert(gaps@.take(i as int) =~= gaps@);
        assert(views(kept@) =~= kept@);
        lemma_ranked_sort(kept@);
    }
    let ghost chosen = kept@;
    let sorted: Vec<GaugeGap> = sort_ranked(kept);
    proof {
        assert(views(sorted@) =~= sorted@);
        lemma_same_gaps(chosen, sorted@);
        lemma_gap_order(sorted@);
    }
    let mut merged: Vec<GaugeGap> = Vec::new();
    i = 0;
    proof {
        assert(sorted@.take(0) =~= Seq::empty());
    }
    while i < sorted.len()
        invariant
            i <= sorted.len(),
            separated(merged@),
            forall|j: int| 0 <= j < sorted.len() ==> (#[trigger] sorted@[j]).from < sorted@[j].to,
            forall|j: int, k: int|
                0 <= j < k < sorted.len() ==> (#[trigger] sorted@[j]).from <= (
                #[trigger] sorted@[k]).from,
            merged.len() > 0 ==> i > 0 && merged@.last().from <= sorted@[i - 1].from,
            forall|t: int| #[trigger]
                gap_holds(merged@, t) <==> gap_holds(sorted@.take(i as int), t),
        decreases sorted.len() - i,
    {
        let gap: GaugeGap = sorted[i];
        let n: usize = merged.len();
        let ghost before = merged@;
        let ghost t0 = sorted@.take(i as int);
        let ghost t1 = sorted@.take(i + 1);
        proof {
            assert(t1 =~= t0.push(gap));
            if i > 0 {
                assert(sorted@[i - 1].from <= sorted@[i as int].from);
            }
        }
        if n > 0 && gap.from <= merged[n - 1].to {
            let last: GaugeGap = merged[n - 1];
            let to: i64 = if gap.to > last.to {
                gap.to
            } else {
                last.to
            };
            merged.set(n - 1, GaugeGap { from: last.from, to });
            proof {
                assert(merged@ =~= before.update(n - 1, GaugeGap { from: last.from, to }));
                assert(before.last() == last);
            }
        } else {
            merged.push(gap);
        }
        proof {
            assert forall|t: int| #[trigger] gap_holds(merged@, t) <==> gap_holds(t1, t) by {
                lemma_held_by_push(t0, gap, t);
                assert(gap_holds(before, t) <==> gap_holds(t0, t));
                if merged@.len() == before.len() {
                    let last = before.last();
                    let front = before.drop_last();
                    assert(before =~= front.push(last));
                    assert(merged@ =~= front.push(merged@.last()));
                    lemma_held_by_push(front, last, t);
                    lemma_held_by_push(front, merged@.last(), t);
                } else {
                    lemma_held_by_push(before, gap, t);
                }
            }
        }
        i = i + 1;
    }
    proof {
        assert(sorted@.take(i as int) =~= sorted@);
        assert forall|t: int| #[trigger] gap_holds(merged@, t) <==> bounds_hold(gaps@, t) by {
            assert(gap_holds(sorted@, t) <==> gap_holds(chosen, t));
        }
    }
    merged
}

/// The bounds of some gaps.
pub open spec fn bounds_of(gaps: Seq<GaugeGap>) -> Seq<(i64, i64)> {
    Seq::new(gaps.len(), |i: int| (gaps[i].from, gaps[i].to))
}

/// Separated gaps that hold the same instants are the same.
proof fn lemma_separated_unique(a: Seq<GaugeGap>, b: Seq<GaugeGap>)
    requires
        separated(a),
        separated(b),
        forall|t: int|
            #![trigger gap_holds(a, t)]
            #![trigger gap_holds(b, t)]
            gap_holds(a, t) <==> gap_holds(b, t),
    ensures
        a == b,
    decreases a.len(),
{
    if a.len() == 0 || b.len() == 0 {
        if a.len() > 0 {
            assert(a[0].from <= a[0].from < a[0].to);
            assert(gap_holds(a, a[0].from as int));
        }
        if b.len() > 0 {
            assert(b[0].from <= b[0].from < b[0].to);
            assert(gap_holds(b, b[0].from as int));
        }
        assert(a =~= b);
    } else {
        lemma_first_gap(a);
        lemma_first_gap(b);
        assert(gap_holds(a, a[0].from as int) && gap_holds(b, b[0].from as int));
        assert(a[0].from == b[0].from);
        assert(!gap_holds(a, a[0].to as int) && !gap_holds(b, b[0].to as int));
        if a[0].to < b[0].to {
            assert(gap_holds(b, a[0].to as int));
        }
        if b[0].to < a[0].to {
            assert(gap_holds(a, b[0].to as int));
        }
        assert(a[0] == b[0]);
        let x = a.drop_first();
        let y = b.drop_first();
        lemma_later_gaps(a);
        lemma_later_gaps(b);
        assert forall|t: int| #[trigger] gap_holds(x, t) <==> gap_holds(y, t) by {
            assert(gap_holds(a, t) <==> gap_holds(b, t));
        }
        lemma_separated_unique(x, y);
        assert(a =~= seq![a[0]] + x);
        assert(b =~= seq![b[0]] + y);
    }
}

/// The first gap starts at the earliest instant, and its end is not held.
proof fn lemma_first_gap(gaps: Seq<GaugeGap>)
    requires
        separated(gaps),
        gaps.len() > 0,
    ensures
        gap_holds(gaps, gaps[0].from as int),
        forall|t: int| gaps[0].from <= t < gaps[0].to ==> #[trigger] gap_holds(gaps, t),
        forall|t: int| #[trigger] gap_holds(gaps, t) ==> gaps[0].from <= t,
        !gap_holds(gaps, gaps[0].to as int),
{
    assert(gaps[0].from < gaps[0].to);
    assert forall|t: int| #[trigger] gap_holds(gaps, t) implies gaps[0].from <= t && t
        != gaps[0].to by {
        let k = choose|k: int| 0 <= k < gaps.len() && (#[trigger] gaps[k]).from <= t < gaps[k].to;
        if k > 0 {
            assert(gaps[0].to < gaps[k].from);
        }
    }
}

/// The later gaps hold what lies past the first one.
proof fn lemma_later_gaps(gaps: Seq<GaugeGap>)
    requires
        separated(gaps),
        gaps.len() > 0,
    ensures
        separated(gaps.drop_first()),
        forall|t: int| #[trigger]
            gap_holds(gaps.drop_first(), t) <==> gap_holds(gaps, t) && t >= gaps[0].to,
{
    let later = gaps.drop_first();
    assert forall|i: int, j: int| 0 <= i < j < later.len() implies (#[trigger] later[i]).to < (
    #[trigger] later[j]).from by {
        assert(gaps[i + 1].to < gaps[j + 1].from);
    }
    assert forall|t: int| #[trigger] gap_holds(later, t) <==> gap_holds(gaps, t) && t
        >= gaps[0].to by {
        if gap_holds(later, t) {
            let k = choose|k: int|
                0 <= k < later.len() && (#[trigger] later[k]).from <= t < later[k].to;
            assert(gaps[k + 1] == later[k]);
            assert(gaps[0].to < gaps[k + 1].from);
        }
        if gap_holds(gaps, t) && t >= gaps[0].to {
            let k = choose|k: int|
                0 <= k < gaps.len() && (#[trigger] gaps[k]).from <= t < gaps[k].to;
            assert(later[k - 1] == gaps[k]);
        }
    }
}

/// The order in which gaps are given does not affect their normal form.
pub proof fn law_gap_order_does_not_matter(
    a: Seq<(i64, i64)>,
    b: Seq<(i64, i64)>,
    x: Seq<GaugeGap>,
    y: Seq<GaugeGap>,
)
    requires
        a.to_multiset() == b.to_multiset(),
        is_normal(x, a),
        is_normal(y, b),
    ensures
        x == y,
{
    lemma_bounds_kept(a, b);
    lemma_bounds_kept(b, a);
    assert forall|t: int| #[trigger] gap_holds(x, t) <==> gap_holds(y, t) by {
        assert(bounds_hold(a, t) <==> bounds_hold(b, t));
    }
    lemma_separated_unique(x, y);
}

proof fn lemma_bounds_kept(a: Seq<(i64, i64)>, b: Seq<(i64, i64)>)
    requires
        a.to_multiset() == b.to_multiset(),
    ensures
        forall|t: int| #[trigger] bounds_hold(a, t) ==> bounds_hold(b, t),
{
    broadcast use vstd::seq_lib::group_to_multiset_ensures;

    assert forall|t: int| #[trigger] bounds_hold(a, t) implies bounds_hold(b, t) by {
        let i = choose|i: int| 0 <= i < a.len() && (#[trigger] a[i]).0 <= t < a[i].1;
        assert(a.contains(a[i]));
        assert(b.to_multiset().count(a[i]) > 0);
        assert(b.contains(a[i]));
        let k = choose|k: int| 0 <= k < b.len() && b[k] == a[i];
        assert(b[k].0 <= t < b[k].1);
    }
}

/// Normalizing what is normal already changes nothing.
pub proof fn law_normalizing_twice_changes_nothing(
    gaps: Seq<(i64, i64)>,
    once: Seq<GaugeGap>,
    twice: Seq<GaugeGap>,
)
    requires
        is_normal(once, gaps),
        is_normal(twice, bounds_of(once)),
    ensures
        twice == once,
{
    let bounds = bounds_of(once);
    assert forall|t: int| #[trigger] gap_holds(twice, t) <==> gap_holds(once, t) by {
        if bounds_hold(bounds, t) {
            let i = choose|i: int|
                0 <= i < bounds.len() && (#[trigger] bounds[i]).0 <= t < bounds[i].1;
            assert(once[i].from <= t < once[i].to);
        }
        if gap_holds(once, t) {
            let i = choose|i: int|
                0 <= i < once.len() && (#[trigger] once[i]).from <= t < once[i].to;
            assert(bounds[i].0 <= t < bounds[i].1);
        }
    }
    lemma_separated_unique(twice, once);
}

proof fn lemma_held_by_push(gaps: Seq<GaugeGap>, gap: GaugeGap, t: int)
    ensures
        gap_holds(gaps.push(gap), t) <==> gap_holds(gaps, t) || gap.from <= t < gap.to,
{
    let more = gaps.push(gap);
    if gap_holds(gaps, t) {
        let k = choose|k: int| 0 <= k < gaps.len() && (#[trigger] gaps[k]).from <= t < gaps[k].to;
        assert(more[k] == gaps[k]);
    }
    if gap.from <= t < gap.to {
        assert(more[gaps.len() as int] == gap);
    }
    if gap_holds(more, t) {
        let k = choose|k: int| 0 <= k < more.len() && (#[trigger] more[k]).from <= t < more[k].to;
        if k < gaps.len() {
            assert(gaps[k] == more[k]);
        }
    }
}

proof fn lemma_same_gaps(a: Seq<GaugeGap>, b: Seq<GaugeGap>)
    requires
        a.to_multiset() == b.to_multiset(),
        forall|i: int| 0 <= i < a.len() ==> (#[trigger] a[i]).from < a[i].to,
    ensures
        forall|i: int| 0 <= i < b.len() ==> (#[trigger] b[i]).from < b[i].to,
        forall|t: int| #[trigger] gap_holds(b, t) <==> gap_holds(a, t),
{
    broadcast use vstd::seq_lib::group_to_multiset_ensures;

    assert forall|i: int| 0 <= i < b.len() implies a.contains(#[trigger] b[i]) by {
        assert(b.contains(b[i]));
        assert(a.to_multiset().count(b[i]) > 0);
    }
    assert forall|i: int| 0 <= i < a.len() implies b.contains(#[trigger] a[i]) by {
        assert(a.contains(a[i]));
        assert(b.to_multiset().count(a[i]) > 0);
    }
    assert forall|i: int| 0 <= i < b.len() implies (#[trigger] b[i]).from < b[i].to by {
        let k = choose|k: int| 0 <= k < a.len() && a[k] == b[i];
        assert(a[k].from < a[k].to);
    }
    assert forall|t: int| #[trigger] gap_holds(b, t) <==> gap_holds(a, t) by {
        if gap_holds(b, t) {
            let i = choose|i: int| 0 <= i < b.len() && (#[trigger] b[i]).from <= t < b[i].to;
            let k = choose|k: int| 0 <= k < a.len() && a[k] == b[i];
            assert(a[k].from <= t < a[k].to);
        }
        if gap_holds(a, t) {
            let i = choose|i: int| 0 <= i < a.len() && (#[trigger] a[i]).from <= t < a[i].to;
            let k = choose|k: int| 0 <= k < b.len() && b[k] == a[i];
            assert(b[k].from <= t < b[k].to);
        }
    }
}

proof fn lemma_gap_order(sorted: Seq<GaugeGap>)
    requires
        vstd::relations::sorted_by(sorted, rank_order::<GaugeGap>()),
    ensures
        forall|j: int, k: int|
            0 <= j < k < sorted.len() ==> (#[trigger] sorted[j]).from <= (#[trigger] sorted[k]).from,
{
    let leq = rank_order::<GaugeGap>();
    assert forall|j: int, k: int| 0 <= j < k < sorted.len() implies (#[trigger] sorted[j]).from <= (
    #[trigger] sorted[k]).from by {
        assert(leq(sorted[j], sorted[k]));
        assert(sorted[j].rank()[0] == sorted[j].from);
        assert(sorted[k].rank()[0] == sorted[k].from);
    }
}

pub open spec fn ascends(ts: Seq<i64>) -> bool {
    forall|i: int, j: int| 0 <= i < j < ts.len() ==> ts[i] < ts[j]
}

/// Whether one of the ascending timestamps lies in `[from_us, to_us)`.
pub fn sorted_timestamp_in_window(timestamps: &[i64], from_us: i64, to_us: i64) -> (r: bool)
    requires
        ascends(timestamps@),
    ensures
        r <==> exists|i: int|
            0 <= i < timestamps.len() && from_us <= #[trigger] timestamps@[i] < to_us,
{
    let mut low: usize = 0;
    let mut high: usize = timestamps.len();
    while low < high
        invariant
            low <= high <= timestamps.len(),
            ascends(timestamps@),
            forall|i: int| 0 <= i < low ==> #[trigger] timestamps@[i] < from_us,
            forall|i: int| high <= i < timestamps.len() ==> #[trigger] timestamps@[i] >= from_us,
        decreases high - low,
    {
        let middle: usize = low + (high - low) / 2;
        if timestamps[middle] < from_us {
            low = middle + 1;
        } else {
            high = middle;
        }
    }
    if low < timestamps.len() && timestamps[low] < to_us {
        assert(from_us <= timestamps@[low as int] < to_us);
        true
    } else {
        false
    }
}

/// Whether one of the separated gaps overlaps `[from_us, to_us)`.
pub fn sorted_gap_overlaps(gaps: &[GaugeGap], from_us: i64, to_us: i64) -> (r: bool)
    requires
        separated(gaps@),
        from_us < to_us,
    ensures
        r <==> exists|t: int| from_us <= t < to_us && #[trigger] gap_holds(gaps@, t),
{
    let mut low: usize = 0;
    let mut high: usize = gaps.len();
    while low < high
        invariant
            low <= high <= gaps.len(),
            separated(gaps@),
            forall|i: int| 0 <= i < low ==> (#[trigger] gaps@[i]).to <= from_us,
            forall|i: int| high <= i < gaps.len() ==> (#[trigger] gaps@[i]).to > from_us,
        decreases high - low,
    {
        let middle: usize = low + (high - low) / 2;
        proof {
            assert forall|i: int| middle < i < gaps.len() implies (#[trigger] gaps@[i]).to
                > gaps@[middle as int].to by {
                assert(gaps@[middle as int].to < gaps@[i].from);
            }
            assert forall|i: int| 0 <= i < middle implies (#[trigger] gaps@[i]).to
                < gaps@[middle as int].to by {
                assert(gaps@[i].to < gaps@[middle as int].from);
            }
        }
        if gaps[middle].to <= from_us {
            low = middle + 1;
        } else {
            high = middle;
        }
    }
    if low < gaps.len() && gaps[low].from < to_us {
        proof {
            let t: int = if gaps@[low as int].from > from_us {
                gaps@[low as int].from as int
            } else {
                from_us as int
            };
            assert(gap_holds(gaps@, t));
        }
        true
    } else {
        proof {
            assert forall|t: int| from_us <= t < to_us implies !#[trigger] gap_holds(gaps@, t) by {
                if gap_holds(gaps@, t) {
                    let k = choose|k: int|
                        0 <= k < gaps@.len() && (#[trigger] gaps@[k]).from <= t < gaps@[k].to;
                    if k > low {
                        assert(gaps@[low as int].to < gaps@[k].from);
                    }
                }
            }
        }
        false
    }
}

/// Section-level coverage gaps shared by tracks built from one reader page.
pub struct GaugeQuality {
    gaps: Vec<GaugeGap>,
}

impl View for GaugeQuality {
    type V = Set<int>;

    /// The instants without coverage.
    closed spec fn view(&self) -> Set<int> {
        Set::new(|t: int| gap_holds(self.gaps@, t))
    }
}

impl GaugeQuality {
    #[verifier::type_invariant]
    spec fn is_separated(self) -> bool {
        separated(self.gaps@)
    }

    pub fn new(gaps: &[(i64, i64)]) -> (r: Self)
        ensures
            r@ == Set::new(|t: int| bounds_hold(gaps@, t)),
    {
        let merged: Vec<GaugeGap> = normalize_gaps(gaps);
        let quality = GaugeQuality { gaps: merged };
        proof {
            assert(quality@ =~= Set::new(|t: int| bounds_hold(gaps@, t)));
        }
        quality
    }
}

/// A raw reading with its place in the input.
#[derive(Clone, Copy)]
pub struct RawPoint {
    pub ts: i64,
    pub index: usize,
    pub value: Float64,
}

impl View for RawPoint {
    type V = RawPoint;

    open spec fn view(&self) -> RawPoint {
        *self
    }
}

impl Ranked for RawPoint {
    open spec fn rank(self) -> Seq<int> {
        seq![self.ts as int, self.index as int, self.value.bits as int]
    }

    proof fn rank_splits(a: Self, b: Self, x: Seq<int>, y: Seq<int>) {
        let left = a.rank() + x;
        let right = b.rank() + y;
        assert(left[0] == a.ts && right[0] == b.ts);
        assert(left[1] == a.index && right[1] == b.index);
        assert(left[2] == a.value.bits && right[2] == b.value.bits);
        assert(x =~= left.skip(3));
        assert(y =~= right.skip(3));
    }
}

impl Keyed<RawPoint> for RawPoint {
    fn key_into(&self, out: &mut Vec<i128>) {
        let ghost start = ints(out@);
        push_int(out, self.ts as i128);
        push_int(out, self.index as i128);
        push_int(out, self.value.bits as i128);
        proof {
            assert(ints(out@) =~= start + self@.rank());
        }
    }
}

/// The readings by time, equal times in the order of the input.
pub open spec fn by_time(raw: Seq<(i64, Float64)>) -> Seq<RawPoint> {
    ranked_sort(
        Seq::new(
            raw.len(),
            |i: int| RawPoint { ts: raw[i].0, index: i as usize, value: raw[i].1 },
        ),
    )
}

/// The first finite reading of each time.
pub open spec fn usable_points(arranged: Seq<RawPoint>) -> Seq<GaugePoint>
    decreases arranged.len(),
{
    if arranged.len() == 0 {
        Seq::empty()
    } else {
        let before = usable_points(arranged.drop_last());
        let raw = arranged.last();
        if !raw.value.finite() || (before.len() > 0 && before.last().ts == raw.ts) {
            before
        } else {
            before.push(GaugePoint { ts: raw.ts, value: raw.value })
        }
    }
}

/// The times of readings that are not usable.
pub open spec fn broken_times(arranged: Seq<RawPoint>) -> Set<i64>
    decreases arranged.len(),
{
    if arranged.len() == 0 {
        Set::empty()
    } else {
        let kept = usable_points(arranged.drop_last());
        let before = broken_times(arranged.drop_last());
        let raw = arranged.last();
        if !raw.value.finite() || (kept.len() > 0 && kept.last().ts == raw.ts) {
            before.insert(raw.ts)
        } else {
            before
        }
    }
}

/// One gauge column's readings for one series.
pub struct GaugeTrack {
    points: Vec<GaugePoint>,
    breaks: Vec<i64>,
    gaps: Vec<GaugeGap>,
}

/// The mathematical value of a gauge track.
#[verifier::ext_equal]
pub struct GaugeTrackView {
    /// Finite readings at ascending times.
    pub points: Seq<GaugePoint>,
    /// Times at which the column had no usable reading.
    pub breaks: Set<i64>,
    /// Instants without coverage.
    pub gaps: Set<int>,
}

impl View for GaugeTrack {
    type V = GaugeTrackView;

    closed spec fn view(&self) -> GaugeTrackView {
        GaugeTrackView {
            points: self.points@,
            breaks: self.breaks@.to_set(),
            gaps: Set::new(|t: int| gap_holds(self.gaps@, t)),
        }
    }
}

pub open spec fn point_times(points: Seq<GaugePoint>) -> Seq<i64> {
    Seq::new(points.len(), |i: int| points[i].ts)
}

pub open spec fn times_ascend(points: Seq<GaugePoint>) -> bool {
    forall|i: int, j: int|
        0 <= i < j < points.len() ==> (#[trigger] points[i]).ts < (#[trigger] points[j]).ts
}

/// The track of some raw readings, breaks and coverage gaps.
pub open spec fn gauge_track(
    raw: Seq<(i64, Float64)>,
    breaks: Seq<i64>,
    shared_breaks: Seq<i64>,
    gaps: Set<int>,
) -> GaugeTrackView {
    GaugeTrackView {
        points: usable_points(by_time(raw)),
        breaks: breaks.to_set().union(shared_breaks.to_set()).union(broken_times(by_time(raw))),
        gaps,
    }
}

/// The readings of a window, unless a break or a gap lies in it.
pub open spec fn window_points(track: GaugeTrackView, from_us: i64, to_us: i64) -> Option<
    Seq<GaugePoint>,
> {
    let inside = track.points.filter(|p: GaugePoint| from_us <= p.ts < to_us);
    if from_us >= to_us || (exists|t: i64| from_us <= t < to_us && #[trigger] track.breaks.contains(
        t,
    )) || (exists|t: int| from_us <= t < to_us && #[trigger] track.gaps.contains(t))
        || inside.len() == 0 {
        None
    } else {
        Some(inside)
    }
}

/// A timestamp that can be sorted.
pub struct Moment {
    pub ts: i64,
}

impl View for Moment {
    type V = i64;

    open spec fn view(&self) -> i64 {
        self.ts
    }
}

impl Keyed<i64> for Moment {
    fn key_into(&self, out: &mut Vec<i128>) {
        push_int(out, self.ts as i128);
    }
}

/// Sorts timestamps and drops repeated ones.
fn sort_distinct(ts: &Vec<i64>) -> (out: Vec<i64>)
    ensures
        ascends(out@),
        out@.to_set() == ts@.to_set(),
{
    let mut wrapped: Vec<Moment> = Vec::new();
    let mut i: usize = 0;
    while i < ts.len()
        invariant
            i <= ts.len(),
            wrapped.len() == i,
            forall|j: int| 0 <= j < i ==> (#[trigger] wrapped@[j]).ts == ts@[j],
        decreases ts.len() - i,
    {
        wrapped.push(Moment { ts: ts[i] });
        i = i + 1;
    }
    proof {
        assert(views(wrapped@) =~= ts@);
        lemma_ranked_sort(ts@);
    }
    let sorted: Vec<Moment> = sort_ranked(wrapped);
    let ghost order = views(sorted@);
    proof {
        let leq = rank_order::<i64>();
        assert forall|a: int, b: int| 0 <= a < b < order.len() implies #[trigger] order[a]
            <= #[trigger] order[b] by {
            assert(leq(order[a], order[b]));
            assert(order[a].rank()[0] == order[a]);
            assert(order[b].rank()[0] == order[b]);
        }
    }
    let mut out: Vec<i64> = Vec::new();
    i = 0;
    proof {
        assert(order.take(0).to_set() =~= out@.to_set());
    }
    while i < sorted.len()
        invariant
            i <= sorted.len(),
            order == views(sorted@),
            forall|a: int, b: int|
                0 <= a < b < order.len() ==> #[trigger] order[a] <= #[trigger] order[b],
            ascends(out@),
            out.len() > 0 ==> i > 0 && out@.last() == order[i - 1],
            i > 0 ==> out.len() > 0,
            out@.to_set() == order.take(i as int).to_set(),
        decreases sorted.len() - i,
    {
        let t: i64 = sorted[i].ts;
        let ghost before = out@;
        proof {
            assert(order[i as int] == t);
            assert(order.take(i + 1) =~= order.take(i as int).push(t));
            lemma_push_set(order.take(i as int), t);
            lemma_push_set(before, t);
            if i > 0 {
                assert(order[i - 1] <= order[i as int]);
            }
        }
        let n: usize = out.len();
        if n == 0 || out[n - 1] != t {
            out.push(t);
        } else {
            proof {
                assert(before.contains(t)) by {
                    assert(before[n - 1] == t);
                }
                assert(before.to_set().insert(t) =~= before.to_set());
            }
        }
        i = i + 1;
    }
    proof {
        assert(order.take(i as int) =~= order);
        assert(order.to_set() =~= ts@.to_set()) by {
            broadcast use vstd::seq_lib::group_to_multiset_ensures;

            assert forall|t: i64| order.contains(t) <==> ts@.contains(t) by {
                assert(order.contains(t) <==> order.to_multiset().count(t) > 0);
                assert(ts@.contains(t) <==> ts@.to_multiset().count(t) > 0);
            }
        }
    }
    out
}

proof fn lemma_push_set(s: Seq<i64>, t: i64)
    ensures
        s.push(t).to_set() == s.to_set().insert(t),
{
    let more = s.push(t);
    assert forall|x: i64| more.contains(x) <==> s.contains(x) || x == t by {
        if s.contains(x) {
            let i = choose|i: int| 0 <= i < s.len() && s[i] == x;
            assert(more[i] == x);
        }
        if x == t {
            assert(more[s.len() as int] == x);
        }
        if more.contains(x) {
            let i = choose|i: int| 0 <= i < more.len() && more[i] == x;
            if i < s.len() {
                assert(s[i] == x);
            }
        }
    }
    assert(more.to_set() =~= s.to_set().insert(t));
}

proof fn lemma_usable_points_ascend(arranged: Seq<RawPoint>)
    requires
        forall|i: int, j: int|
            0 <= i < j < arranged.len() ==> (#[trigger] arranged[i]).ts <= (
            #[trigger] arranged[j]).ts,
    ensures
        times_ascend(usable_points(arranged)),
        forall|i: int|
            0 <= i < usable_points(arranged).len() ==> (#[trigger] usable_points(
                arranged,
            )[i]).value.finite(),
        arranged.len() > 0 && usable_points(arranged).len() > 0 ==> usable_points(
            arranged,
        ).last().ts <= arranged.last().ts,
    decreases arranged.len(),
{
    if arranged.len() > 0 {
        let front = arranged.drop_last();
        assert forall|i: int, j: int| 0 <= i < j < front.len() implies (#[trigger] front[i]).ts <= (
        #[trigger] front[j]).ts by {
            assert(arranged[i].ts <= arranged[j].ts);
        }
        lemma_usable_points_ascend(front);
        if front.len() > 0 {
            assert(arranged[front.len() - 1].ts <= arranged[arranged.len() - 1].ts);
        }
        let before = usable_points(front);
        let now = usable_points(arranged);
        assert forall|i: int, j: int| 0 <= i < j < now.len() implies (#[trigger] now[i]).ts < (
        #[trigger] now[j]).ts by {
            if j == before.len() {
                if i < before.len() - 1 {
                    assert(before[i].ts < before[before.len() - 1].ts);
                }
            } else {
                assert(before[i].ts < before[j].ts);
            }
        }
        assert forall|i: int| 0 <= i < now.len() implies (#[trigger] now[i]).value.finite() by {
            if i < before.len() {
                assert(before[i].value.finite());
            }
        }
    }
}

impl GaugeTrack {
    #[verifier::type_invariant]
    spec fn is_ordered(self) -> bool {
        &&& times_ascend(self.points@)
        &&& ascends(self.breaks@)
        &&& separated(self.gaps@)
    }

    /// Orders the readings and turns unusable ones into breaks.
    pub fn build(
        raw_points: Vec<(i64, Float64)>,
        breaks: Vec<i64>,
        shared_breaks: &Vec<i64>,
        quality: &GaugeQuality,
    ) -> (r: Self)
        ensures
            r@ == gauge_track(raw_points@, breaks@, shared_breaks@, quality@),
    {
        proof {
            use_type_invariant(quality);
        }
        let ghost indexed = Seq::new(
            raw_points@.len(),
            |i: int|
                RawPoint { ts: raw_points@[i].0, index: i as usize, value: raw_points@[i].1 },
        );
        let mut raw: Vec<RawPoint> = Vec::new();
        let mut i: usize = 0;
        while i < raw_points.len()
            invariant
                i <= raw_points.len(),
                raw.len() == i,
                indexed.len() == raw_points.len(),
                forall|j: int|
                    0 <= j < raw_points.len() ==> #[trigger] indexed[j] == (RawPoint {
                        ts: raw_points@[j].0,
                        index: j as usize,
                        value: raw_points@[j].1,
                    }),
                forall|j: int| 0 <= j < i ==> #[trigger] raw@[j] == indexed[j],
            decreases raw_points.len() - i,
        {
            let (ts, value) = raw_points[i];
            assert(indexed[i as int].ts == ts);
            raw.push(RawPoint { ts, index: i, value });
            i = i + 1;
        }
        proof {
            assert(views(raw@) =~= indexed);
            lemma_ranked_sort(indexed);
        }
        let arranged: Vec<RawPoint> = sort_ranked(raw);
        proof {
            assert(views(arranged@) =~= arranged@);
            assert(arranged@ == by_time(raw_points@));
            let leq = rank_order::<RawPoint>();
            assert forall|a: int, b: int| 0 <= a < b < arranged.len() implies (
            #[trigger] arranged@[a]).ts <= (#[trigger] arranged@[b]).ts by {
                assert(leq(arranged@[a], arranged@[b]));
                assert(arranged@[a].rank()[0] == arranged@[a].ts);
                assert(arranged@[b].rank()[0] == arranged@[b].ts);
            }
        }
        let ghost given = breaks@;
        let mut all_breaks: Vec<i64> = breaks;
        let mut points: Vec<GaugePoint> = Vec::new();
        i = 0;
        proof {
            assert(arranged@.take(0) =~= Seq::empty());
            assert(given.to_set() =~= given.to_set().union(broken_times(Seq::empty())));
        }
        while i < arranged.len()
            invariant
                i <= arranged.len(),
                points@ == usable_points(arranged@.take(i as int)),
                all_breaks@.to_set() == given.to_set().union(
                    broken_times(arranged@.take(i as int)),
                ),
            decreases arranged.len() - i,
        {
            let raw: RawPoint = arranged[i];
            let n: usize = points.len();
            let ghost before = all_breaks@;
            proof {
                assert(arranged@.take(i + 1).drop_last() =~= arranged@.take(i as int));
            }
            if !raw.value.is_finite() || (n > 0 && points[n - 1].ts == raw.ts) {
                all_breaks.push(raw.ts);
                proof {
                    lemma_push_set(before, raw.ts);
                    assert(all_breaks@.to_set() =~= given.to_set().union(
                        broken_times(arranged@.take(i + 1)),
                    ));
                }
            } else {
                points.push(GaugePoint { ts: raw.ts, value: raw.value });
            }
            i = i + 1;
        }
        proof {
            assert(arranged@.take(i as int) =~= arranged@);
            lemma_usable_points_ascend(arranged@);
        }
        i = 0;
        let ghost own = all_breaks@;
        proof {
            assert(own.to_set() =~= own.to_set().union(shared_breaks@.take(0).to_set()));
        }
        while i < shared_breaks.len()
            invariant
                i <= shared_breaks.len(),
                all_breaks@.to_set() == own.to_set().union(
                    shared_breaks@.take(i as int).to_set(),
                ),
            decreases shared_breaks.len() - i,
        {
            let ghost before = all_breaks@;
            all_breaks.push(shared_breaks[i]);
            proof {
                let t = shared_breaks@[i as int];
                assert(shared_breaks@.take(i + 1) =~= shared_breaks@.take(i as int).push(t));
                lemma_push_set(shared_breaks@.take(i as int), t);
                lemma_push_set(before, t);
                assert(all_breaks@.to_set() =~= own.to_set().union(
                    shared_breaks@.take(i + 1).to_set(),
                ));
            }
            i = i + 1;
        }
        proof {
            assert(shared_breaks@.take(i as int) =~= shared_breaks@);
        }
        let breaks: Vec<i64> = sort_distinct(&all_breaks);
        let gaps: Vec<GaugeGap> = quality.gaps.clone();
        proof {
            assert(gaps@ =~= quality.gaps@);
            assert(breaks@.to_set() =~= given.to_set().union(shared_breaks@.to_set()).union(
                broken_times(by_time(raw_points@)),
            ));
        }
        let track = GaugeTrack { points, breaks, gaps };
        proof {
            assert(track@ =~= gauge_track(raw_points@, given, shared_breaks@, quality@));
        }
        track
    }

    /// The readings of `[from_us, to_us)`, unless a break or a gap lies in it.
    pub fn window(&self, from_us: i64, to_us: i64) -> (r: Option<GaugeWindow<'_>>)
        ensures
            match r {
                Some(window) => window_points(self@, from_us, to_us) == Some(window.points@)
                    && window.from_us == from_us && window.to_us == to_us,
                None => window_points(self@, from_us, to_us) is None,
            },
    {
        proof {
            use_type_invariant(&*self);
        }
        if from_us >= to_us {
            return None;
        }
        let ghost inside = self.points@.filter(|p: GaugePoint| from_us <= p.ts < to_us);
        if sorted_timestamp_in_window(self.breaks.as_slice(), from_us, to_us) {
            proof {
                let k = choose|k: int|
                    0 <= k < self.breaks.len() && from_us <= #[trigger] self.breaks@[k] < to_us;
                assert(self@.breaks.contains(self.breaks@[k]));
            }
            return None;
        }
        proof {
            assert forall|t: i64| from_us <= t < to_us implies !#[trigger] self@.breaks.contains(
                t,
            ) by {
                if self.breaks@.contains(t) {
                    let k = choose|k: int| 0 <= k < self.breaks.len() && self.breaks@[k] == t;
                    assert(from_us <= self.breaks@[k] < to_us);
                }
            }
        }
        if sorted_gap_overlaps(self.gaps.as_slice(), from_us, to_us) {
            proof {
                let t = choose|t: int| from_us <= t < to_us && #[trigger] gap_holds(self.gaps@, t);
                assert(self@.gaps.contains(t));
            }
            return None;
        }
        let start: usize = first_at(&self.points, from_us);
        let end: usize = first_at(&self.points, to_us);
        proof {
            if end < start {
                assert(self.points@[end as int].ts >= to_us);
                assert(self.points@[end as int].ts < from_us);
            }
            lemma_window_filter(self.points@, from_us, to_us, start as int, end as int);
        }
        if start < end {
            Some(
                GaugeWindow {
                    points: vstd::slice::slice_subrange(self.points.as_slice(), start, end),
                    from_us,
                    to_us,
                },
            )
        } else {
            None
        }
    }
}

/// The first position whose time is not before `t`.
fn first_at(points: &Vec<GaugePoint>, t: i64) -> (r: usize)
    requires
        times_ascend(points@),
    ensures
        r <= points.len(),
        forall|i: int| 0 <= i < r ==> (#[trigger] points@[i]).ts < t,
        forall|i: int| r <= i < points.len() ==> (#[trigger] points@[i]).ts >= t,
{
    let mut low: usize = 0;
    let mut high: usize = points.len();
    while low < high
        invariant
            low <= high <= points.len(),
            times_ascend(points@),
            forall|i: int| 0 <= i < low ==> (#[trigger] points@[i]).ts < t,
            forall|i: int| high <= i < points.len() ==> (#[trigger] points@[i]).ts >= t,
        decreases high - low,
    {
        let middle: usize = low + (high - low) / 2;
        if points[middle].ts < t {
            proof {
                assert forall|i: int| 0 <= i <= middle implies (#[trigger] points@[i]).ts < t by {
                    if i < middle {
                        assert(points@[i].ts < points@[middle as int].ts);
                    }
                }
            }
            low = middle + 1;
        } else {
            proof {
                assert forall|i: int| middle <= i < points.len() implies (
                #[trigger] points@[i]).ts >= t by {
                    if middle < i {
                        assert(points@[middle as int].ts < points@[i].ts);
                    }
                }
            }
            high = middle;
        }
    }
    low
}

proof fn lemma_window_filter(
    points: Seq<GaugePoint>,
    from_us: i64,
    to_us: i64,
    start: int,
    end: int,
)
    requires
        0 <= start <= end <= points.len(),
        forall|i: int| 0 <= i < start ==> (#[trigger] points[i]).ts < from_us,
        forall|i: int| start <= i < points.len() ==> (#[trigger] points[i]).ts >= from_us,
        forall|i: int| 0 <= i < end ==> (#[trigger] points[i]).ts < to_us,
        forall|i: int| end <= i < points.len() ==> (#[trigger] points[i]).ts >= to_us,
    ensures
        points.filter(|p: GaugePoint| from_us <= p.ts < to_us) == points.subrange(start, end),
    decreases points.len(),
{
    reveal(Seq::filter);
    let test = |p: GaugePoint| from_us <= p.ts < to_us;
    if points.len() == 0 {
        assert(points.filter(test) =~= points.subrange(start, end));
    } else {
        let front = points.drop_last();
        let n = points.len() - 1;
        assert forall|i: int| 0 <= i < front.len() implies #[trigger] front[i] == points[i] by {}
        if end == points.len() && start < points.len() {
            assert(points[n].ts >= from_us && points[n].ts < to_us);
            lemma_window_filter(front, from_us, to_us, start, end - 1);
            assert(points.subrange(start, end) =~= front.subrange(start, end - 1).push(points[n]));
        } else if end == points.len() {
            // Every point lies before the window.
            assert(points[n].ts < from_us);
            lemma_window_filter(front, from_us, to_us, start - 1, end - 1);
            assert(points.subrange(start, end) =~= front.subrange(start - 1, end - 1));
        } else {
            assert(points[n].ts >= to_us);
            lemma_window_filter(front, from_us, to_us, start, end);
            assert(points.subrange(start, end) =~= front.subrange(start, end));
        }
    }
}

// Windows.

/// A single gauge column reduced to one worst-case level over a window.
#[derive(Debug, Clone, Copy, PartialEq, Eq, Structural)]
pub struct GaugeReading {
    pub value: Float64,
    pub observed_at_us: i64,
    /// Valid readings that fell inside the window.
    pub samples: usize,
    pub source_window: SourceWindow,
}

/// Two gauge columns at the shared timestamp that is worst for an objective.
#[derive(Debug, Clone, Copy, PartialEq, Eq, Structural)]
pub struct PairedGauge {
    pub a: Float64,
    pub b: Float64,
    pub observed_at_us: i64,
    /// Shared timestamps at which the objective was finite.
    pub samples: usize,
    pub source_window: SourceWindow,
}

/// Three gauge columns at one shared timestamp.
#[derive(Debug, Clone, Copy, PartialEq, Eq, Structural)]
pub struct TripleGauge {
    pub a: Float64,
    pub b: Float64,
    pub denominator: Float64,
    pub observed_at_us: i64,
    pub samples: usize,
    pub source_window: SourceWindow,
}

/// Gap-free change between the first and last valid sample in a window.
#[derive(Debug, Clone, Copy, PartialEq, Eq, Structural)]
pub struct GaugeTrend {
    pub first: Float64,
    pub last: Float64,
    pub first_at_us: i64,
    pub last_at_us: i64,
    pub samples: usize,
    pub source_window: SourceWindow,
}

/// Several gauge columns at one shared timestamp.
#[derive(Debug, PartialEq, Eq)]
pub struct GaugeSnapshot {
    pub values: Vec<Float64>,
    pub observed_at_us: i64,
    pub samples: usize,
    pub source_window: SourceWindow,
}

/// The mathematical value of a snapshot.
#[verifier::ext_equal]
pub struct GaugeSnapshotView {
    pub values: Seq<Float64>,
    pub observed_at_us: i64,
    pub samples: usize,
    pub source_window: SourceWindow,
}

impl View for GaugeSnapshot {
    type V = GaugeSnapshotView;

    open spec fn view(&self) -> GaugeSnapshotView {
        GaugeSnapshotView {
            values: self.values@,
            observed_at_us: self.observed_at_us,
            samples: self.samples,
            source_window: self.source_window,
        }
    }
}

/// How two same-timestamp readings are combined and which extreme is the worst
/// case. A reading whose score is not finite is skipped.
#[derive(Debug, Clone, Copy, PartialEq, Eq, Structural)]
pub enum GaugeObjective {
    /// `a / (a + b)`, worst = max. Skips readings where `a + b <= 0`.
    ShareMax,
    /// `a / b`, worst = max. Skips readings where `b <= 0`.
    RatioMax,
    /// `a / b`, worst = min. Skips readings where `b <= 0`.
    RatioMin,
    /// `a - b`, worst = max.
    DiffMax,
    /// `a / max(abs(b), 1)`, worst = max.
    RatioAbsOneMax,
}

impl GaugeObjective {
    pub open spec fn scored(self, a: Float64, b: Float64) -> Float64 {
        let zero = Float64 { bits: 0 };
        match self {
            GaugeObjective::ShareMax => {
                let total = a.sum_with(b);
                if zero.below(total) {
                    a.quotient_by(total)
                } else {
                    Float64::quiet()
                }
            },
            GaugeObjective::RatioMax | GaugeObjective::RatioMin => if zero.below(b) {
                a.quotient_by(b)
            } else {
                Float64::quiet()
            },
            GaugeObjective::DiffMax => a.sum_with(b.negated()),
            GaugeObjective::RatioAbsOneMax => a.quotient_by(
                b.absolute().larger(Float64 { bits: ONE }),
            ),
        }
    }

    pub fn score(self, a: Float64, b: Float64) -> (r: Float64)
        ensures
            r == self.scored(a, b),
    {
        let zero = Float64 { bits: 0 };
        match self {
            GaugeObjective::ShareMax => {
                let total: Float64 = a.plus(b);
                if zero.less(total) {
                    a.divided_by(total)
                } else {
                    Float64 { bits: QUIET_NAN }
                }
            },
            GaugeObjective::RatioMax | GaugeObjective::RatioMin => if zero.less(b) {
                a.divided_by(b)
            } else {
                Float64 { bits: QUIET_NAN }
            },
            GaugeObjective::DiffMax => a.minus(b),
            GaugeObjective::RatioAbsOneMax => {
                let one = Float64 { bits: ONE };
                a.divided_by(b.abs().max(one))
            },
        }
    }

    pub fn maximizes(self) -> (r: bool)
        ensures
            r == (self != GaugeObjective::RatioMin),
    {
        match self {
            GaugeObjective::RatioMin => false,
            _ => true,
        }
    }
}

/// Coverage of a window by samples at the given times. `n` samples span `n - 1`
/// sampling intervals.
pub open spec fn sampled_window(from_us: i64, to_us: i64, ts: Seq<i64>, samples: usize) -> SourceWindow {
    SourceWindow {
        window_span_us: span_of(from_us, to_us),
        observed_period_us: period(positive_gaps(ts)),
        usable_samples: if samples > 0 {
            (samples - 1) as u64
        } else {
            0
        },
    }
}

/// Observed source cadence over a gauge window from its sample timestamps.
pub fn gauge_source_window(from_us: i64, to_us: i64, sample_ts: &[i64], samples: usize) -> (r:
    SourceWindow)
    ensures
        r == sampled_window(from_us, to_us, sample_ts@, samples),
{
    let usable_intervals: usize = if samples > 0 {
        samples - 1
    } else {
        0
    };
    SourceWindow::from_bounds(
        from_us,
        to_us,
        observed_period_from_timestamps(sample_ts),
        usable_intervals,
    )
}

/// The times of some readings.
fn times_of(points: &[GaugePoint]) -> (r: Vec<i64>)
    ensures
        r@ == point_times(points@),
{
    let mut r: Vec<i64> = Vec::new();
    let mut i: usize = 0;
    while i < points.len()
        invariant
            i <= points.len(),
            r@ == point_times(points@).take(i as int),
        decreases points.len() - i,
    {
        r.push(points[i].ts);
        proof {
            assert(r@ =~= point_times(points@).take(i + 1));
        }
        i = i + 1;
    }
    proof {
        assert(r@ =~= point_times(points@));
    }
    r
}

/// Readings of one column.
pub struct GaugeWindow<'a> {
    pub points: &'a [GaugePoint],
    pub from_us: i64,
    pub to_us: i64,
}

/// The first reading of the highest value.
pub open spec fn highest(points: Seq<GaugePoint>) -> Option<GaugePoint>
    decreases points.len(),
{
    if points.len() == 0 {
        None
    } else {
        let before = highest(points.drop_last());
        let point = points.last();
        if before is None || before->Some_0.value.below(point.value) {
            Some(point)
        } else {
            before
        }
    }
}

/// The highest reading of a window.
pub open spec fn max_reading(points: Seq<GaugePoint>, from_us: i64, to_us: i64) -> Option<GaugeReading> {
    match highest(points) {
        Some(point) => Some(
            GaugeReading {
                value: point.value,
                observed_at_us: point.ts,
                samples: points.len() as usize,
                source_window: sampled_window(
                    from_us,
                    to_us,
                    point_times(points),
                    points.len() as usize,
                ),
            },
        ),
        None => None,
    }
}

/// The change over a window of at least two readings.
pub open spec fn trend_reading(points: Seq<GaugePoint>, from_us: i64, to_us: i64) -> Option<GaugeTrend> {
    if points.len() >= 2 && points[0].ts < points.last().ts {
        Some(
            GaugeTrend {
                first: points[0].value,
                last: points.last().value,
                first_at_us: points[0].ts,
                last_at_us: points.last().ts,
                samples: points.len() as usize,
                source_window: sampled_window(
                    from_us,
                    to_us,
                    point_times(points),
                    points.len() as usize,
                ),
            },
        )
    } else {
        None
    }
}

impl<'a> GaugeWindow<'a> {
    pub fn inspected_points(&self) -> (r: usize)
        ensures
            r == self.points@.len(),
    {
        self.points.len()
    }

    fn source_window(&self) -> (r: SourceWindow)
        ensures
            r == sampled_window(
                self.from_us,
                self.to_us,
                point_times(self.points@),
                self.points@.len() as usize,
            ),
    {
        let ts: Vec<i64> = times_of(self.points);
        gauge_source_window(self.from_us, self.to_us, ts.as_slice(), self.points.len())
    }

    pub fn max(&self) -> (r: Option<GaugeReading>)
        ensures
            r == max_reading(self.points@, self.from_us, self.to_us),
    {
        let mut best: Option<GaugePoint> = None;
        let mut i: usize = 0;
        while i < self.points.len()
            invariant
                i <= self.points.len(),
                best == highest(self.points@.take(i as int)),
            decreases self.points.len() - i,
        {
            let point: GaugePoint = self.points[i];
            proof {
                assert(self.points@.take(i + 1).drop_last() =~= self.points@.take(i as int));
            }
            let improves: bool = match best {
                None => true,
                Some(current) => current.value.less(point.value),
            };
            if improves {
                best = Some(point);
            }
            i = i + 1;
        }
        proof {
            assert(self.points@.take(i as int) =~= self.points@);
        }
        match best {
            Some(point) => Some(
                GaugeReading {
                    value: point.value,
                    observed_at_us: point.ts,
                    samples: self.points.len(),
                    source_window: self.source_window(),
                },
            ),
            None => None,
        }
    }

    pub fn trend(&self) -> (r: Option<GaugeTrend>)
        ensures
            r == trend_reading(self.points@, self.from_us, self.to_us),
    {
        let n: usize = self.points.len();
        if n < 2 {
            return None;
        }
        let first: GaugePoint = self.points[0];
        let last: GaugePoint = self.points[n - 1];
        if first.ts < last.ts {
            Some(
                GaugeTrend {
                    first: first.value,
                    last: last.value,
                    first_at_us: first.ts,
                    last_at_us: last.ts,
                    samples: n,
                    source_window: self.source_window(),
                },
            )
        } else {
            None
        }
    }
}

/// The times of several tracks.
pub open spec fn track_times(tracks: Seq<Seq<GaugePoint>>) -> Seq<Seq<i64>> {
    Seq::new(tracks.len(), |k: int| point_times(tracks[k]))
}

/// The readings of a row.
pub open spec fn row_of(tracks: Seq<Seq<GaugePoint>>, row: Seq<int>) -> Seq<GaugePoint> {
    Seq::new(tracks.len(), |k: int| tracks[k][row[k]])
}

/// The readings at each time that all tracks share.
pub open spec fn shared_points(tracks: Seq<Seq<GaugePoint>>) -> Seq<Seq<GaugePoint>> {
    let found = rows(track_times(tracks));
    Seq::new(found.len(), |i: int| row_of(tracks, found[i]))
}

pub open spec fn slices_view(tracks: Seq<&[GaugePoint]>) -> Seq<Seq<GaugePoint>> {
    Seq::new(tracks.len(), |k: int| tracks[k]@)
}

pub open spec fn row_views(found: Seq<Vec<GaugePoint>>) -> Seq<Seq<GaugePoint>> {
    Seq::new(found.len(), |i: int| found[i]@)
}

/// Reads the tracks at each time that all of them share.
fn read_shared(tracks: &Vec<&[GaugePoint]>) -> (out: Vec<Vec<GaugePoint>>)
    ensures
        row_views(out@) == shared_points(slices_view(tracks@)),
        forall|i: int| 0 <= i < out.len() ==> (#[trigger] out@[i]).len() == tracks.len(),
{
    let ghost all = slices_view(tracks@);
    let mut times: Vec<Vec<i64>> = Vec::new();
    let mut k: usize = 0;
    while k < tracks.len()
        invariant
            k <= tracks.len(),
            all == slices_view(tracks@),
            times.len() == k,
            forall|j: int| 0 <= j < k ==> #[trigger] times@[j]@ == track_times(all)[j],
        decreases tracks.len() - k,
    {
        let ts: Vec<i64> = times_of(tracks[k]);
        proof {
            assert(ts@ == track_times(all)[k as int]);
        }
        times.push(ts);
        k = k + 1;
    }
    proof {
        assert(time_view(times@) =~= track_times(all));
        lemma_rows_fit(track_times(all), origin(tracks.len() as nat));
    }
    let found: Vec<Vec<usize>> = shared_rows(&times);
    let ghost list = rows_view(found@);
    let mut out: Vec<Vec<GaugePoint>> = Vec::new();
    let mut i: usize = 0;
    while i < found.len()
        invariant
            i <= found.len(),
            all == slices_view(tracks@),
            list == rows_view(found@),
            forall|j: int|
                0 <= j < list.len() ==> row_fits(track_times(all), #[trigger] list[j]),
            out.len() == i,
            forall|j: int| 0 <= j < i ==> #[trigger] out@[j]@ == row_of(all, list[j]),
        decreases found.len() - i,
    {
        let row: &Vec<usize> = &found[i];
        let ghost at = list[i as int];
        assert(at == row_view(row@));
        let mut points: Vec<GaugePoint> = Vec::new();
        k = 0;
        while k < tracks.len()
            invariant
                k <= tracks.len(),
                all == slices_view(tracks@),
                at == row_view(row@),
                row_fits(track_times(all), at),
                points.len() == k,
                forall|j: int| 0 <= j < k ==> points@[j] == all[j][at[j]],
            decreases tracks.len() - k,
        {
            assert(0 <= at[k as int] < track_times(all)[k as int].len());
            points.push(tracks[k][row[k]]);
            k = k + 1;
        }
        proof {
            assert(points@ =~= row_of(all, at));
        }
        out.push(points);
        i = i + 1;
    }
    proof {
        assert(row_views(out@) =~= shared_points(all));
        assert forall|i: int| 0 <= i < out.len() implies (#[trigger] out@[i]).len()
            == tracks.len() by {
            assert(out@[i]@ == row_of(all, list[i]));
        }
    }
    out
}

/// The worst row so far, its score, and the times of the rows that count.
#[verifier::ext_equal]
pub struct Ranking {
    pub best: Option<(Float64, Seq<GaugePoint>)>,
    pub times: Seq<i64>,
}

/// The ranking after one more row. A row without a finite score is skipped.
pub open spec fn ranked_with(
    ranking: Ranking,
    score: Float64,
    row: Seq<GaugePoint>,
    maximize: bool,
) -> Ranking {
    if !score.finite() {
        ranking
    } else {
        let improves = match ranking.best {
            None => true,
            Some((held, _)) => if maximize {
                held.below(score)
            } else {
                score.below(held)
            },
        };
        Ranking {
            best: if improves {
                Some((score, row))
            } else {
                ranking.best
            },
            times: ranking.times.push(row[0].ts),
        }
    }
}

/// The ranking of rows by a score.
pub open spec fn ranking(
    found: Seq<Seq<GaugePoint>>,
    score: spec_fn(Seq<GaugePoint>) -> Float64,
    maximize: bool,
) -> Ranking
    decreases found.len(),
{
    if found.len() == 0 {
        Ranking { best: None, times: Seq::empty() }
    } else {
        ranked_with(
            ranking(found.drop_last(), score, maximize),
            score(found.last()),
            found.last(),
            maximize,
        )
    }
}

/// Readings of two columns.
pub struct PairedGaugeWindow<'a> {
    pub a: &'a [GaugePoint],
    pub b: &'a [GaugePoint],
    pub from_us: i64,
    pub to_us: i64,
}

/// The pair that is worst for an objective.
pub open spec fn paired_reading(
    a: Seq<GaugePoint>,
    b: Seq<GaugePoint>,
    from_us: i64,
    to_us: i64,
    objective: GaugeObjective,
) -> Option<PairedGauge> {
    let done = ranking(
        shared_points(seq![a, b]),
        |row: Seq<GaugePoint>| objective.scored(row[0].value, row[1].value),
        objective != GaugeObjective::RatioMin,
    );
    match done.best {
        Some((_, row)) => Some(
            PairedGauge {
                a: row[0].value,
                b: row[1].value,
                observed_at_us: row[0].ts,
                samples: done.times.len() as usize,
                source_window: sampled_window(
                    from_us,
                    to_us,
                    done.times,
                    done.times.len() as usize,
                ),
            },
        ),
        None => None,
    }
}

/// The number of points that tracks hold together, up to the largest machine
/// integer.
pub open spec fn capped(n: nat) -> usize {
    if n <= usize::MAX {
        n as usize
    } else {
        usize::MAX
    }
}

fn capped_sum(a: usize, b: usize) -> (r: usize)
    ensures
        r == capped((a + b) as nat),
{
    if a <= usize::MAX - b {
        a + b
    } else {
        usize::MAX
    }
}

impl<'a> PairedGaugeWindow<'a> {
    pub fn inspected_points(&self) -> (r: usize)
        ensures
            r == capped(self.a@.len() + self.b@.len()),
    {
        capped_sum(self.a.len(), self.b.len())
    }

    pub fn reduce(&self, objective: GaugeObjective) -> (r: Option<PairedGauge>)
        ensures
            r == paired_reading(self.a@, self.b@, self.from_us, self.to_us, objective),
    {
        let mut tracks: Vec<&[GaugePoint]> = Vec::new();
        tracks.push(self.a);
        tracks.push(self.b);
        let found: Vec<Vec<GaugePoint>> = read_shared(&tracks);
        let ghost list = row_views(found@);
        let ghost score = |row: Seq<GaugePoint>| objective.scored(row[0].value, row[1].value);
        let maximize: bool = objective.maximizes();
        let mut best: Option<(Float64, GaugePoint, GaugePoint)> = None;
        let mut shared_ts: Vec<i64> = Vec::new();
        let mut i: usize = 0;
        proof {
            assert(slices_view(tracks@) =~= seq![self.a@, self.b@]);
            assert(list.take(0) =~= Seq::empty());
        }
        while i < found.len()
            invariant
                i <= found.len(),
                list == row_views(found@),
                tracks.len() == 2,
                forall|j: int| 0 <= j < found.len() ==> (#[trigger] found@[j]).len() == 2,
                score == (|row: Seq<GaugePoint>| objective.scored(row[0].value, row[1].value)),
                maximize == (objective != GaugeObjective::RatioMin),
                ({
                    let done = ranking(list.take(i as int), score, maximize);
                    &&& done.times == shared_ts@
                    &&& match (done.best, best) {
                        (None, None) => true,
                        (Some((held, row)), Some((s, a, b))) => held == s && row.len() == 2
                            && row[0] == a && row[1] == b,
                        _ => false,
                    }
                }),
            decreases found.len() - i,
        {
            assert(found@[i as int].len() == 2);
            let a: GaugePoint = found[i][0];
            let b: GaugePoint = found[i][1];
            proof {
                assert(list.take(i + 1).drop_last() =~= list.take(i as int));
                assert(list.take(i + 1).last() == found@[i as int]@);
            }
            let value: Float64 = objective.score(a.value, b.value);
            if value.is_finite() {
                shared_ts.push(a.ts);
                let improves: bool = match best {
                    None => true,
                    Some((held, _, _)) => if maximize {
                        held.less(value)
                    } else {
                        value.less(held)
                    },
                };
                if improves {
                    best = Some((value, a, b));
                }
            }
            i = i + 1;
        }
        proof {
            assert(list.take(i as int) =~= list);
        }
        match best {
            Some((_, a, b)) => Some(
                PairedGauge {
                    a: a.value,
                    b: b.value,
                    observed_at_us: a.ts,
                    samples: shared_ts.len(),
                    source_window: gauge_source_window(
                        self.from_us,
                        self.to_us,
                        shared_ts.as_slice(),
                        shared_ts.len(),
                    ),
                },
            ),
            None => None,
        }
    }
}

/// Readings of three columns.
pub struct TripleGaugeWindow<'a> {
    pub a: &'a [GaugePoint],
    pub b: &'a [GaugePoint],
    pub denominator: &'a [GaugePoint],
    pub from_us: i64,
    pub to_us: i64,
}

/// `(a + b) / denominator`, where the denominator is positive.
pub open spec fn sum_ratio(row: Seq<GaugePoint>) -> Float64 {
    if (Float64 { bits: 0 }).below(row[2].value) {
        row[0].value.sum_with(row[1].value).quotient_by(row[2].value)
    } else {
        Float64::quiet()
    }
}

/// The readings with the highest `(a + b) / denominator`.
pub open spec fn triple_reading(
    a: Seq<GaugePoint>,
    b: Seq<GaugePoint>,
    denominator: Seq<GaugePoint>,
    from_us: i64,
    to_us: i64,
) -> Option<TripleGauge> {
    let done = ranking(
        shared_points(seq![a, b, denominator]),
        |row: Seq<GaugePoint>| sum_ratio(row),
        true,
    );
    match done.best {
        Some((_, row)) => Some(
            TripleGauge {
                a: row[0].value,
                b: row[1].value,
                denominator: row[2].value,
                observed_at_us: row[0].ts,
                samples: done.times.len() as usize,
                source_window: sampled_window(
                    from_us,
                    to_us,
                    done.times,
                    done.times.len() as usize,
                ),
            },
        ),
        None => None,
    }
}

impl<'a> TripleGaugeWindow<'a> {
    pub fn inspected_points(&self) -> (r: usize)
        ensures
            r == capped(self.a@.len() + self.b@.len() + self.denominator@.len()),
    {
        capped_sum(capped_sum(self.a.len(), self.b.len()), self.denominator.len())
    }

    pub fn sum_ratio_max(&self) -> (r: Option<TripleGauge>)
        ensures
            r == triple_reading(self.a@, self.b@, self.denominator@, self.from_us, self.to_us),
    {
        let mut tracks: Vec<&[GaugePoint]> = Vec::new();
        tracks.push(self.a);
        tracks.push(self.b);
        tracks.push(self.denominator);
        let found: Vec<Vec<GaugePoint>> = read_shared(&tracks);
        let ghost list = row_views(found@);
        let ghost score = |row: Seq<GaugePoint>| sum_ratio(row);
        let zero = Float64 { bits: 0 };
        let mut best: Option<(Float64, GaugePoint, GaugePoint, GaugePoint)> = None;
        let mut shared_ts: Vec<i64> = Vec::new();
        let mut i: usize = 0;
        proof {
            assert(slices_view(tracks@) =~= seq![self.a@, self.b@, self.denominator@]);
            assert(list.take(0) =~= Seq::empty());
        }
        while i < found.len()
            invariant
                i <= found.len(),
                list == row_views(found@),
                zero == (Float64 { bits: 0 }),
                forall|j: int| 0 <= j < found.len() ==> (#[trigger] found@[j]).len() == 3,
                score == (|row: Seq<GaugePoint>| sum_ratio(row)),
                ({
                    let done = ranking(list.take(i as int), score, true);
                    &&& done.times == shared_ts@
                    &&& match (done.best, best) {
                        (None, None) => true,
                        (Some((held, row)), Some((s, a, b, c))) => held == s && row.len() == 3
                            && row[0] == a && row[1] == b && row[2] == c,
                        _ => false,
                    }
                }),
            decreases found.len() - i,
        {
            assert(found@[i as int].len() == 3);
            let a: GaugePoint = found[i][0];
            let b: GaugePoint = found[i][1];
            let denominator: GaugePoint = found[i][2];
            proof {
                assert(list.take(i + 1).drop_last() =~= list.take(i as int));
                assert(list.take(i + 1).last() == found@[i as int]@);
            }
            if zero.less(denominator.value) {
                let value: Float64 = a.value.plus(b.value).divided_by(denominator.value);
                if value.is_finite() {
                    shared_ts.push(a.ts);
                    let improves: bool = match best {
                        None => true,
                        Some((held, _, _, _)) => held.less(value),
                    };
                    if improves {
                        best = Some((value, a, b, denominator));
                    }
                }
            }
            i = i + 1;
        }
        proof {
            assert(list.take(i as int) =~= list);
        }
        match best {
            Some((_, a, b, denominator)) => Some(
                TripleGauge {
                    a: a.value,
                    b: b.value,
                    denominator: denominator.value,
                    observed_at_us: a.ts,
                    samples: shared_ts.len(),
                    source_window: gauge_source_window(
                        self.from_us,
                        self.to_us,
                        shared_ts.as_slice(),
                        shared_ts.len(),
                    ),
                },
            ),
            None => None,
        }
    }
}

/// Exact-timestamp readings for a small fixed lens contract.
pub struct GaugeSnapshotWindow<'a> {
    pub tracks: Vec<&'a [GaugePoint]>,
    pub from_us: i64,
    pub to_us: i64,
}

/// Most columns that one snapshot holds.
pub const MAX_SNAPSHOT_COLUMNS: usize = 8;

/// Points of the first `n` tracks together.
pub open spec fn total_points(tracks: Seq<Seq<GaugePoint>>) -> nat
    decreases tracks.len(),
{
    if tracks.len() == 0 {
        0
    } else {
        total_points(tracks.drop_last()) + tracks.last().len()
    }
}

/// The first row whose score is the highest, or the lowest.
pub open spec fn extreme_row(
    found: Seq<Seq<GaugePoint>>,
    score_index: int,
    maximize: bool,
) -> Option<Seq<GaugePoint>>
    decreases found.len(),
{
    if found.len() == 0 {
        None
    } else {
        let before = extreme_row(found.drop_last(), score_index, maximize);
        let row = found.last();
        let improves = match before {
            None => true,
            Some(held) => if maximize {
                held[score_index].value.below(row[score_index].value)
            } else {
                row[score_index].value.below(held[score_index].value)
            },
        };
        if improves {
            Some(row)
        } else {
            before
        }
    }
}

/// The time of each row.
pub open spec fn row_times(found: Seq<Seq<GaugePoint>>) -> Seq<i64> {
    Seq::new(found.len(), |i: int| found[i][0].ts)
}

/// The snapshot whose value in one column is the highest, or the lowest.
pub open spec fn extreme_snapshot(
    tracks: Seq<Seq<GaugePoint>>,
    from_us: i64,
    to_us: i64,
    score_index: int,
    maximize: bool,
) -> Option<GaugeSnapshotView> {
    let found = shared_points(tracks);
    if tracks.len() == 0 || tracks.len() > MAX_SNAPSHOT_COLUMNS || score_index >= tracks.len() {
        None
    } else {
        match extreme_row(found, score_index, maximize) {
            Some(row) => Some(
                GaugeSnapshotView {
                    values: Seq::new(row.len(), |k: int| row[k].value),
                    observed_at_us: row[0].ts,
                    samples: found.len() as usize,
                    source_window: sampled_window(
                        from_us,
                        to_us,
                        row_times(found),
                        found.len() as usize,
                    ),
                },
            ),
            None => None,
        }
    }
}

pub open spec fn snapshot_option(snapshot: Option<GaugeSnapshot>) -> Option<GaugeSnapshotView> {
    match snapshot {
        Some(found) => Some(found@),
        None => None,
    }
}

/// The lowest and highest value of one column and the number of snapshots.
pub open spec fn column_range(
    tracks: Seq<Seq<GaugePoint>>,
    from_us: i64,
    to_us: i64,
    index: int,
) -> Option<(Float64, Float64, usize)> {
    match (
        extreme_snapshot(tracks, from_us, to_us, index, false),
        extreme_snapshot(tracks, from_us, to_us, index, true),
    ) {
        (Some(minimum), Some(maximum)) => Some(
            (minimum.values[index], maximum.values[index], minimum.samples),
        ),
        _ => None,
    }
}

impl<'a> GaugeSnapshotWindow<'a> {
    pub fn inspected_points(&self) -> (r: usize)
        ensures
            r == capped(total_points(slices_view(self.tracks@))),
    {
        let ghost all = slices_view(self.tracks@);
        let mut total: usize = 0;
        let mut k: usize = 0;
        proof {
            assert(all.take(0) =~= Seq::empty());
        }
        while k < self.tracks.len()
            invariant
                k <= self.tracks.len(),
                all == slices_view(self.tracks@),
                total == capped(total_points(all.take(k as int))),
            decreases self.tracks.len() - k,
        {
            proof {
                assert(all.take(k + 1).drop_last() =~= all.take(k as int));
            }
            total = capped_sum(total, self.tracks[k].len());
            k = k + 1;
        }
        proof {
            assert(all.take(k as int) =~= all);
        }
        total
    }

    pub fn extreme(&self, score_index: usize, maximize: bool) -> (r: Option<GaugeSnapshot>)
        ensures
            snapshot_option(r) == extreme_snapshot(
                slices_view(self.tracks@),
                self.from_us,
                self.to_us,
                score_index as int,
                maximize,
            ),
            r matches Some(snapshot) ==> snapshot.values.len() == self.tracks.len(),
    {
        if self.tracks.len() == 0 || self.tracks.len() > MAX_SNAPSHOT_COLUMNS || score_index
            >= self.tracks.len() {
            return None;
        }
        let ghost all = slices_view(self.tracks@);
        let found: Vec<Vec<GaugePoint>> = read_shared(&self.tracks);
        let ghost list = row_views(found@);
        let n: usize = self.tracks.len();
        let mut best: Option<usize> = None;
        let mut shared_ts: Vec<i64> = Vec::new();
        let mut i: usize = 0;
        proof {
            assert(list.take(0) =~= Seq::empty());
        }
        while i < found.len()
            invariant
                i <= found.len(),
                list == row_views(found@),
                n > 0,
                score_index < n,
                forall|j: int| 0 <= j < found.len() ==> (#[trigger] found@[j]).len() == n,
                shared_ts@ == row_times(list).take(i as int),
                best matches Some(at) ==> at < i,
                match (extreme_row(list.take(i as int), score_index as int, maximize), best) {
                    (None, None) => true,
                    (Some(row), Some(at)) => row == list[at as int],
                    _ => false,
                },
            decreases found.len() - i,
        {
            assert(found@[i as int].len() == n);
            proof {
                assert(list.take(i + 1).drop_last() =~= list.take(i as int));
                assert(list.take(i + 1).last() == found@[i as int]@);
            }
            shared_ts.push(found[i][0].ts);
            proof {
                assert(shared_ts@ =~= row_times(list).take(i + 1));
            }
            let value: Float64 = found[i][score_index].value;
            let improves: bool = match best {
                None => true,
                Some(at) => {
                    assert(found@[at as int].len() == n);
                    assert(list[at as int] == found@[at as int]@);
                    let held: Float64 = found[at][score_index].value;
                    if maximize {
                        held.less(value)
                    } else {
                        value.less(held)
                    }
                },
            };
            if improves {
                best = Some(i);
            }
            i = i + 1;
        }
        proof {
            assert(list.take(i as int) =~= list);
            assert(row_times(list).take(i as int) =~= row_times(list));
        }
        match best {
            Some(at) => {
                assert(found@[at as int].len() == n);
                let row: &Vec<GaugePoint> = &found[at];
                let mut values: Vec<Float64> = Vec::new();
                let mut k: usize = 0;
                while k < n
                    invariant
                        k <= n,
                        row.len() == n,
                        values.len() == k,
                        forall|j: int| 0 <= j < k ==> values@[j] == row@[j].value,
                    decreases n - k,
                {
                    values.push(row[k].value);
                    k = k + 1;
                }
                proof {
                    assert(values@ =~= Seq::new(row@.len(), |k: int| row@[k].value));
                    assert(list[at as int] == row@);
                }
                Some(
                    GaugeSnapshot {
                        values,
                        observed_at_us: row[0].ts,
                        samples: shared_ts.len(),
                        source_window: gauge_source_window(
                            self.from_us,
                            self.to_us,
                            shared_ts.as_slice(),
                            shared_ts.len(),
                        ),
                    },
                )
            },
            None => None,
        }
    }

    pub fn value_range(&self, index: usize) -> (r: Option<(Float64, Float64, usize)>)
        ensures
            r == column_range(
                slices_view(self.tracks@),
                self.from_us,
                self.to_us,
                index as int,
            ),
    {
        let minimum: GaugeSnapshot = match self.extreme(index, false) {
            Some(snapshot) => snapshot,
            None => {
                return None;
            },
        };
        let maximum: GaugeSnapshot = match self.extreme(index, true) {
            Some(snapshot) => snapshot,
            None => {
                return None;
            },
        };
        proof {
            lemma_extreme_width(slices_view(self.tracks@), index as int, false);
            lemma_extreme_width(slices_view(self.tracks@), index as int, true);
        }
        Some((minimum.values[index], maximum.values[index], minimum.samples))
    }
}

proof fn lemma_extreme_width(tracks: Seq<Seq<GaugePoint>>, index: int, maximize: bool)
    ensures
        extreme_row(shared_points(tracks), index, maximize) matches Some(row) ==> row.len()
            == tracks.len(),
{
    lemma_row_width(shared_points(tracks), tracks.len(), index, maximize);
}

proof fn lemma_row_width(found: Seq<Seq<GaugePoint>>, n: nat, index: int, maximize: bool)
    requires
        forall|i: int| 0 <= i < found.len() ==> (#[trigger] found[i]).len() == n,
    ensures
        extreme_row(found, index, maximize) matches Some(row) ==> row.len() == n,
    decreases found.len(),
{
    if found.len() > 0 {
        lemma_row_width(found.drop_last(), n, index, maximize);
    }
}

/// Whether a score is worse for the objective than another one.
pub open spec fn beats(score: Float64, other: Float64, maximize: bool) -> bool {
    if maximize {
        other.below(score)
    } else {
        score.below(other)
    }
}

/// Whether a row is the earliest with a finite score that no other row beats.
pub open spec fn is_worst(
    found: Seq<Seq<GaugePoint>>,
    score: spec_fn(Seq<GaugePoint>) -> Float64,
    maximize: bool,
    at: int,
) -> bool {
    &&& 0 <= at < found.len()
    &&& score(found[at]).finite()
    &&& forall|j: int|
        0 <= j < found.len() && score(#[trigger] found[j]).finite() ==> !beats(
            score(found[j]),
            score(found[at]),
            maximize,
        )
    &&& forall|j: int|
        0 <= j < at && score(#[trigger] found[j]).finite() ==> beats(
            score(found[at]),
            score(found[j]),
            maximize,
        )
}

/// The rows with a finite score.
pub open spec fn scored_rows(
    found: Seq<Seq<GaugePoint>>,
    score: spec_fn(Seq<GaugePoint>) -> Float64,
) -> Seq<Seq<GaugePoint>> {
    found.filter(|row: Seq<GaugePoint>| score(row).finite())
}

proof fn lemma_worst_extended(
    found: Seq<Seq<GaugePoint>>,
    score: spec_fn(Seq<GaugePoint>) -> Float64,
    maximize: bool,
    at: int,
)
    requires
        found.len() > 0,
        is_worst(found.drop_last(), score, maximize, at),
    ensures
        ({
            let last = score(found.last());
            let held = score(found[at]);
            if last.finite() && beats(last, held, maximize) {
                is_worst(found, score, maximize, found.len() - 1)
            } else {
                is_worst(found, score, maximize, at)
            }
        }),
{
    let rest = found.drop_last();
    let last = score(found.last());
    let held = score(found[at]);
    assert(rest[at] == found[at]);
    assert forall|j: int| 0 <= j < rest.len() implies #[trigger] found[j] == rest[j] by {}
    if last.finite() {
        law_order_is_numeric(last, held);
        law_order_is_numeric(held, last);
        law_order_is_numeric(last, last);
        assert forall|j: int|
            0 <= j < rest.len() && score(#[trigger] found[j]).finite() implies !beats(
            score(found[j]),
            held,
            maximize,
        ) && (beats(last, held, maximize) ==> beats(last, score(found[j]), maximize) && !beats(
            score(found[j]),
            last,
            maximize,
        )) by {
            assert(score(rest[j]).finite());
            law_order_is_numeric(score(found[j]), held);
            law_order_is_numeric(held, score(found[j]));
            law_order_is_numeric(score(found[j]), last);
            law_order_is_numeric(last, score(found[j]));
        }
    }
    assert forall|j: int| 0 <= j < at && score(#[trigger] found[j]).finite() implies beats(
        held,
        score(found[j]),
        maximize,
    ) by {
        assert(score(rest[j]).finite());
    }
    assert forall|j: int|
        0 <= j < rest.len() && score(#[trigger] found[j]).finite() implies !beats(
        score(found[j]),
        held,
        maximize,
    ) by {
        assert(score(rest[j]).finite());
    }
}

/// The chosen row is the earliest one with a finite score that no other row
/// beats, and the rows with a finite score are the samples.
pub proof fn law_ranking_finds_the_worst_row(
    found: Seq<Seq<GaugePoint>>,
    score: spec_fn(Seq<GaugePoint>) -> Float64,
    maximize: bool,
)
    ensures
        match ranking(found, score, maximize).best {
            Some((value, row)) => value == score(row) && exists|at: int| #[trigger]
                is_worst(found, score, maximize, at) && found[at] == row,
            None => forall|i: int| 0 <= i < found.len() ==> !score(#[trigger] found[i]).finite(),
        },
        ranking(found, score, maximize).times == row_times(scored_rows(found, score)),
    decreases found.len(),
{
    reveal(Seq::filter);
    if found.len() == 0 {
        assert(row_times(scored_rows(found, score)) =~= Seq::empty());
    } else {
        let rest = found.drop_last();
        let last = found.last();
        law_ranking_finds_the_worst_row(rest, score, maximize);
        let before = ranking(rest, score, maximize);
        assert forall|j: int| 0 <= j < rest.len() implies #[trigger] found[j] == rest[j] by {}
        let kept = scored_rows(rest, score);
        if score(last).finite() {
            assert(scored_rows(found, score) =~= kept.push(last));
            assert(row_times(kept.push(last)) =~= row_times(kept).push(last[0].ts));
        } else {
            assert(scored_rows(found, score) =~= kept);
        }
        match before.best {
            Some((value, row)) => {
                let at = choose|at: int| #[trigger]
                    is_worst(rest, score, maximize, at) && rest[at] == row;
                lemma_worst_extended(found, score, maximize, at);
                assert(found[at] == row);
            },
            None => {
                if score(last).finite() {
                    law_order_is_numeric(score(last), score(last));
                    let at = found.len() - 1;
                    assert forall|j: int|
                        0 <= j < found.len() && score(#[trigger] found[j]).finite() implies j
                        == at by {
                        if j < at {
                            assert(!score(rest[j]).finite());
                        }
                    }
                    assert(is_worst(found, score, maximize, at));
                } else {
                    assert forall|i: int| 0 <= i < found.len() implies !score(
                        #[trigger] found[i],
                    ).finite() by {
                        if i < rest.len() {
                            assert(!score(rest[i]).finite());
                        }
                    }
                }
            },
        }
    }
}

/// The value of a row in one column.
pub open spec fn column_score(index: int) -> spec_fn(Seq<GaugePoint>) -> Float64 {
    |row: Seq<GaugePoint>| row[index].value
}

/// Of rows with finite values in a column, the chosen one is the earliest whose
/// value no other row's beats.
pub proof fn law_extreme_row_is_the_worst(
    found: Seq<Seq<GaugePoint>>,
    score_index: int,
    maximize: bool,
)
    requires
        forall|i: int|
            0 <= i < found.len() ==> (#[trigger] found[i])[score_index].value.finite(),
    ensures
        match extreme_row(found, score_index, maximize) {
            Some(row) => exists|at: int| #[trigger]
                is_worst(found, column_score(score_index), maximize, at) && found[at] == row,
            None => found.len() == 0,
        },
    decreases found.len(),
{
    let score = column_score(score_index);
    if found.len() > 0 {
        let rest = found.drop_last();
        let last = found.last();
        assert forall|i: int| 0 <= i < rest.len() implies (
        #[trigger] rest[i])[score_index].value.finite() by {
            assert(found[i] == rest[i]);
        }
        assert(found[found.len() - 1] == last);
        law_extreme_row_is_the_worst(rest, score_index, maximize);
        match extreme_row(rest, score_index, maximize) {
            Some(row) => {
                let at = choose|at: int| #[trigger]
                    is_worst(rest, score, maximize, at) && rest[at] == row;
                lemma_worst_extended(found, score, maximize, at);
                assert(found[at] == row);
            },
            None => {
                law_order_is_numeric(score(last), score(last));
                assert(is_worst(found, score, maximize, 0));
            },
        }
    }
}

} // verus!
