//! The typed evidence of one analysis request.

use super::counter::{
    aligned_sums, pair_sums, sum_aligned, sum_pairs, track_view, AlignedSums, AlignedView,
    CounterPoint, DiffPoint, PairedSums,
};
use super::gauge::{
    capped, gauge_track, paired_reading, slices_view, window_points, GaugeObjective, GaugePoint,
    GaugeQuality, GaugeReading, GaugeSnapshotWindow, GaugeTrack, GaugeTrackView, GaugeWindow,
    PairedGauge, PairedGaugeWindow, TripleGaugeWindow, max_reading, bounds_hold,
    MAX_SNAPSHOT_COLUMNS,
};
use super::snapshot::{
    order_plans, plan_times_ascend, plans_in_order, ActivitySnapshot, ActivityView, LockSnapshot,
    LockView, PlanSample, ProcessCgroupSample, ProcessMoment, str_view,
};
use crate::dispatch::texts;
use crate::float64::Float64;
use crate::model::{clone_identity, same_identity, IdentityValue, IdentityView};
use crate::order::{
    ints, key_of, lemma_lex_prefix, lex_less, views, Keyed, Ranked,
};
use crate::ordered::{
    contents, entry_at, lemma_entry, lemma_listing_unique, names, ranks_ascend, well_formed,
    OrderedMap,
};
use crate::text::{push_seq, push_text, text_eq};
use vstd::prelude::*;

verus! {

/// Name of one series' column.
pub struct TrackKey {
    pub section: &'static str,
    pub column: &'static str,
    pub identity: Vec<IdentityValue>,
}

/// The mathematical value of a track name.
#[verifier::ext_equal]
pub struct TrackId {
    pub section: Seq<char>,
    pub column: Seq<char>,
    pub identity: Seq<IdentityView>,
}

impl View for TrackKey {
    type V = TrackId;

    open spec fn view(&self) -> TrackId {
        TrackId {
            section: self.section@,
            column: self.column@,
            identity: views(self.identity@),
        }
    }
}

impl Ranked for TrackId {
    open spec fn rank(self) -> Seq<int> {
        ((self.section, self.column), self.identity).rank()
    }

    proof fn rank_splits(a: Self, b: Self, x: Seq<int>, y: Seq<int>) {
        <((Seq<char>, Seq<char>), Seq<IdentityView>)>::rank_splits(
            ((a.section, a.column), a.identity),
            ((b.section, b.column), b.identity),
            x,
            y,
        );
    }
}

impl Keyed<TrackId> for TrackKey {
    fn key_into(&self, out: &mut Vec<i128>) {
        let ghost start = ints(out@);
        push_text(out, self.section);
        push_text(out, self.column);
        push_seq(out, self.identity.as_slice());
        proof {
            assert(ints(out@) =~= start + self@.rank());
        }
    }
}

/// The key of a track name.
pub fn track_key(section: &str, column: &str, identity: &[IdentityValue]) -> (key: Vec<i128>)
    ensures
        ints(key@) == (TrackId {
            section: section@,
            column: column@,
            identity: views(identity@),
        }).rank(),
{
    let mut key: Vec<i128> = Vec::new();
    push_text(&mut key, section);
    push_text(&mut key, column);
    push_seq(&mut key, identity);
    proof {
        assert(ints(key@) =~= (TrackId {
            section: section@,
            column: column@,
            identity: views(identity@),
        }).rank());
    }
    key
}

/// A path that names a cgroup.
pub struct PathKey {
    pub path: String,
}

impl View for PathKey {
    type V = Seq<char>;

    open spec fn view(&self) -> Seq<char> {
        self.path@
    }
}

impl Keyed<Seq<char>> for PathKey {
    fn key_into(&self, out: &mut Vec<i128>) {
        push_text(out, self.path.as_str());
    }
}

/// The views of the values of a map.
pub open spec fn value_views<W, V: View>(m: Map<W, V>) -> Map<W, V::V> {
    Map::new(|w: W| m.dom().contains(w), |w: W| m[w]@)
}

/// The views of a map with one more value.
pub proof fn lemma_value_views_insert<W, V: View>(m: Map<W, V>, w: W, v: V)
    ensures
        value_views(m.insert(w, v)) == value_views(m).insert(w, v@),
{
    assert(value_views(m.insert(w, v)) =~= value_views(m).insert(w, v@));
}

pub open spec fn identity_lists(list: Seq<Vec<IdentityValue>>) -> Seq<Seq<IdentityView>> {
    Seq::new(list.len(), |i: int| views(list[i]@))
}

/// Identities of one cgroup's devices.
pub struct DeviceList {
    pub identities: Vec<Vec<IdentityValue>>,
}

impl View for DeviceList {
    type V = Seq<Seq<IdentityView>>;

    open spec fn view(&self) -> Seq<Seq<IdentityView>> {
        identity_lists(self.identities@)
    }
}

/// Typed evidence for one analysis request.
pub struct TypedInputs {
    counters: OrderedMap<TrackKey, Vec<CounterPoint>>,
    gauges: OrderedMap<TrackKey, GaugeTrack>,
    activity: Vec<ActivitySnapshot>,
    locks: Vec<LockSnapshot>,
    plans: Vec<PlanSample>,
    process_cgroups: OrderedMap<ProcessMoment, String>,
    cgroup_devices: OrderedMap<PathKey, DeviceList>,
    postgres_storage_devices: Vec<(i64, i64)>,
}

/// The mathematical value of typed evidence.
#[verifier::ext_equal]
pub struct TypedView {
    pub counters: Map<TrackId, Seq<CounterPoint>>,
    pub gauges: Map<TrackId, GaugeTrackView>,
    pub activity: Seq<ActivityView>,
    pub locks: Seq<LockView>,
    pub plans: Seq<PlanSample>,
    pub process_cgroups: Map<ProcessMoment, Seq<char>>,
    pub cgroup_devices: Map<Seq<char>, Seq<Seq<IdentityView>>>,
    pub storage_devices: Set<(i64, i64)>,
}

impl View for TypedInputs {
    type V = TypedView;

    closed spec fn view(&self) -> TypedView {
        TypedView {
            counters: value_views(contents::<TrackId, _, _>(self.counters.entries@)),
            gauges: value_views(contents::<TrackId, _, _>(self.gauges.entries@)),
            activity: views(self.activity@),
            locks: views(self.locks@),
            plans: self.plans@,
            process_cgroups: value_views(
                contents::<ProcessMoment, _, _>(self.process_cgroups.entries@),
            ),
            cgroup_devices: value_views(contents::<Seq<char>, _, _>(self.cgroup_devices.entries@)),
            storage_devices: self.postgres_storage_devices@.to_set(),
        }
    }
}

/// Raw readings of one gauge column.
pub struct GaugeTrackInput {
    pub section: &'static str,
    pub column: &'static str,
    pub identity: Vec<IdentityValue>,
    pub raw_points: Vec<(i64, Float64)>,
    pub breaks: Vec<i64>,
    pub shared_breaks: Vec<i64>,
}

/// Whether `list` names exactly the identities of a counter column, in order.
pub open spec fn lists_identities(
    list: Seq<Seq<IdentityView>>,
    counters: Map<TrackId, Seq<CounterPoint>>,
    section: Seq<char>,
    column: Seq<char>,
) -> bool {
    &&& ranks_ascend(list)
    &&& forall|identity: Seq<IdentityView>| #[trigger]
        list.contains(identity) <==> counters.dom().contains(
            TrackId { section, column, identity },
        )
}

/// Most counter columns that are summed together.
pub const MAX_ALIGNED_COLUMNS: usize = 16;

impl TypedView {
    pub open spec fn empty() -> TypedView {
        TypedView {
            counters: Map::empty(),
            gauges: Map::empty(),
            activity: Seq::empty(),
            locks: Seq::empty(),
            plans: Seq::empty(),
            process_cgroups: Map::empty(),
            cgroup_devices: Map::empty(),
            storage_devices: Set::empty(),
        }
    }

    /// The intervals of a counter column.
    pub open spec fn counter(
        self,
        section: Seq<char>,
        column: Seq<char>,
        identity: Seq<IdentityView>,
    ) -> Option<Seq<CounterPoint>> {
        let id = TrackId { section, column, identity };
        if self.counters.dom().contains(id) {
            Some(self.counters[id])
        } else {
            None
        }
    }

    /// The identities of a counter column, in order.
    pub open spec fn identities(self, section: Seq<char>, column: Seq<char>) -> Seq<
        Seq<IdentityView>,
    > {
        choose|list: Seq<Seq<IdentityView>>|
            lists_identities(list, self.counters, section, column)
    }

    /// Intervals that the columns hold together.
    pub open spec fn counter_points(
        self,
        section: Seq<char>,
        identity: Seq<IdentityView>,
        columns: Seq<Seq<char>>,
    ) -> nat
        decreases columns.len(),
    {
        if columns.len() == 0 {
            0
        } else {
            self.counter_points(section, identity, columns.drop_last()) + match self.counter(
                section,
                columns.last(),
                identity,
            ) {
                Some(points) => points.len(),
                None => 0,
            }
        }
    }

    /// The sums of two counter columns within a window.
    pub open spec fn pair_sums(
        self,
        section: Seq<char>,
        identity: Seq<IdentityView>,
        column_a: Seq<char>,
        column_b: Seq<char>,
        from_us: i64,
        to_us: i64,
    ) -> Option<PairedSums> {
        match (
            self.counter(section, column_a, identity),
            self.counter(section, column_b, identity),
        ) {
            (Some(a), Some(b)) => Some(pair_sums(a, b, from_us, to_us)),
            _ => None,
        }
    }

    /// The sums of several counter columns within a window.
    pub open spec fn aligned_sums(
        self,
        section: Seq<char>,
        identity: Seq<IdentityView>,
        columns: Seq<Seq<char>>,
        from_us: i64,
        to_us: i64,
    ) -> Option<AlignedView> {
        if columns.len() == 0 || columns.len() > MAX_ALIGNED_COLUMNS || from_us > to_us || exists|
            k: int,
        |
            0 <= k < columns.len() && self.counter(section, #[trigger] columns[k], identity)
                is None {
            None
        } else {
            Some(
                aligned_sums(
                    Seq::new(
                        columns.len(),
                        |k: int| self.counter(section, columns[k], identity)->Some_0,
                    ),
                    from_us,
                    to_us,
                ),
            )
        }
    }

    /// The readings of a gauge column within a window.
    pub open spec fn gauge_points(
        self,
        section: Seq<char>,
        column: Seq<char>,
        identity: Seq<IdentityView>,
        from_us: i64,
        to_us: i64,
    ) -> Option<Seq<GaugePoint>> {
        let id = TrackId { section, column, identity };
        if self.gauges.dom().contains(id) {
            window_points(self.gauges[id], from_us, to_us)
        } else {
            None
        }
    }

    /// The readings of several gauge columns within a window.
    pub open spec fn gauge_columns(
        self,
        section: Seq<char>,
        identity: Seq<IdentityView>,
        columns: Seq<Seq<char>>,
        from_us: i64,
        to_us: i64,
    ) -> Option<Seq<Seq<GaugePoint>>> {
        if exists|k: int|
            0 <= k < columns.len() && self.gauge_points(
                section,
                #[trigger] columns[k],
                identity,
                from_us,
                to_us,
            ) is None {
            None
        } else {
            Some(
                Seq::new(
                    columns.len(),
                    |k: int|
                        self.gauge_points(
                            section,
                            columns[k],
                            identity,
                            from_us,
                            to_us,
                        )->Some_0,
                ),
            )
        }
    }

    /// Activity snapshots within a window.
    pub open spec fn activity_window(self, from_us: i64, to_us: i64) -> Seq<ActivityView> {
        self.activity.filter(|s: ActivityView| from_us <= s.ts < to_us)
    }

    /// Lock snapshots within a window.
    pub open spec fn lock_window(self, from_us: i64, to_us: i64) -> Seq<LockView> {
        self.locks.filter(|s: LockView| from_us <= s.ts < to_us)
    }

    /// Plan samples within a window, its end included.
    pub open spec fn plan_window(self, from_us: i64, to_us: i64) -> Seq<PlanSample> {
        self.plans.filter(|s: PlanSample| from_us <= s.ts <= to_us)
    }

    /// The devices of a cgroup.
    pub open spec fn devices(self, path: Seq<char>) -> Seq<Seq<IdentityView>> {
        if self.cgroup_devices.dom().contains(path) {
            self.cgroup_devices[path]
        } else {
            Seq::empty()
        }
    }

    /// Whether a process appears as a backend within a window.
    pub open spec fn is_backend(
        self,
        pid: i64,
        starttime: i64,
        from_us: i64,
        to_us: i64,
    ) -> bool {
        exists|i: int|
            0 <= i < self.activity_window(from_us, to_us).len() && holds_backend(
                #[trigger] self.activity_window(from_us, to_us)[i],
                pid,
                starttime,
            )
    }

    /// The evidence with a counter column set.
    pub open spec fn with_counter(
        self,
        section: Seq<char>,
        column: Seq<char>,
        identity: Seq<IdentityView>,
        points: Seq<CounterPoint>,
    ) -> TypedView {
        let known = TypedView {
            counters: self.counters.insert(TrackId { section, column, identity }, points),
            ..self
        };
        if section == "os_cgroup_io"@ && column == "rbytes"@ && identity.len() > 0
            && identity[0] is Text {
            let path = identity[0]->Text_0;
            TypedView {
                cgroup_devices: self.cgroup_devices.insert(
                    path,
                    if self.devices(path).contains(identity) {
                        self.devices(path)
                    } else {
                        self.devices(path).push(identity)
                    },
                ),
                ..known
            }
        } else {
            known
        }
    }

    /// The evidence with a gauge column set.
    pub open spec fn with_gauge(
        self,
        section: Seq<char>,
        column: Seq<char>,
        identity: Seq<IdentityView>,
        track: GaugeTrackView,
    ) -> TypedView {
        TypedView {
            gauges: self.gauges.insert(TrackId { section, column, identity }, track),
            ..self
        }
    }
}

pub open spec fn holds_backend(snapshot: ActivityView, pid: i64, starttime: i64) -> bool {
    exists|j: int|
        0 <= j < snapshot.backends.len() && (#[trigger] snapshot.backends[j]).pid == pid
            && snapshot.backends[j].backend_start == starttime
}

/// Folded intervals as points.
pub open spec fn interval_points(points: Seq<(i64, DiffPoint)>) -> Seq<CounterPoint> {
    Seq::new(points.len(), |i: int| CounterPoint { end_us: points[i].0, point: points[i].1 })
}

pub open spec fn aligned_option(sums: Option<AlignedSums>) -> Option<AlignedView> {
    match sums {
        Some(found) => Some(found@),
        None => None,
    }
}

pub open spec fn window_option(window: Option<GaugeWindow<'_>>) -> Option<Seq<GaugePoint>> {
    match window {
        Some(found) => Some(found.points@),
        None => None,
    }
}

impl TypedInputs {
    #[verifier::type_invariant]
    spec fn is_ordered(self) -> bool {
        &&& well_formed::<TrackId, _, _>(self.counters.entries@)
        &&& well_formed::<TrackId, _, _>(self.gauges.entries@)
        &&& well_formed::<ProcessMoment, _, _>(self.process_cgroups.entries@)
        &&& well_formed::<Seq<char>, _, _>(self.cgroup_devices.entries@)
        &&& plan_times_ascend(self.plans@)
    }

    pub fn new() -> (r: Self)
        ensures
            r@ == TypedView::empty(),
    {
        let r = TypedInputs {
            counters: OrderedMap::new::<TrackId>(),
            gauges: OrderedMap::new::<TrackId>(),
            activity: Vec::new(),
            locks: Vec::new(),
            plans: Vec::new(),
            process_cgroups: OrderedMap::new::<ProcessMoment>(),
            cgroup_devices: OrderedMap::new::<Seq<char>>(),
            postgres_storage_devices: Vec::new(),
        };
        proof {
            assert(r@ =~= TypedView::empty());
        }
        r
    }

    pub fn insert_counter(
        &mut self,
        section: &'static str,
        column: &'static str,
        identity: Vec<IdentityValue>,
        points: Vec<(i64, DiffPoint)>,
    )
        ensures
            final(self)@ == old(self)@.with_counter(
                section@,
                column@,
                views(identity@),
                interval_points(points@),
            ),
    {
        proof {
            use_type_invariant(&*self);
        }
        let ghost before = self@;
        let ghost id = views(identity@);
        let mut intervals: Vec<CounterPoint> = Vec::new();
        let mut i: usize = 0;
        while i < points.len()
            invariant
                i <= points.len(),
                intervals@ == interval_points(points@).take(i as int),
            decreases points.len() - i,
        {
            let (end_us, point) = points[i];
            intervals.push(CounterPoint { end_us, point });
            proof {
                assert(intervals@ =~= interval_points(points@).take(i + 1));
            }
            i = i + 1;
        }
        proof {
            assert(interval_points(points@).take(i as int) =~= interval_points(points@));
        }
        if text_eq(section, "os_cgroup_io") && text_eq(column, "rbytes") && identity.len()
            > 0 {
            if let IdentityValue::Text(path) = &identity[0] {
                let mut list: Vec<Vec<IdentityValue>> = clone_devices(
                    self.cgroup_devices(path.as_str()),
                );
                let known: bool = holds_identity(&list, &identity);
                let ghost listed = identity_lists(list@);
                if !known {
                    list.push(clone_identity(&identity));
                    proof {
                        assert(identity_lists(list@) =~= listed.push(id));
                    }
                }
                let ghost devices0 = contents::<Seq<char>, _, _>(self.cgroup_devices.entries@);
                let name = PathKey { path: path.clone() };
                let value = DeviceList { identities: list };
                proof {
                    lemma_value_views_insert(devices0, name@, value);
                }
                let mut devices = OrderedMap { entries: Vec::new() };
                std::mem::swap(&mut self.cgroup_devices, &mut devices);
                devices.insert::<Seq<char>>(name, value);
                self.cgroup_devices = devices;
                proof {
                    assert(id[0] == IdentityView::Text(path@));
                }
            }
        }
        let ghost middle = self@;
        let name = TrackKey { section, column, identity };
        proof {
            lemma_value_views_insert(
                contents::<TrackId, _, _>(self.counters.entries@),
                name@,
                intervals,
            );
        }
        let mut counters = OrderedMap { entries: Vec::new() };
        std::mem::swap(&mut self.counters, &mut counters);
        counters.insert::<TrackId>(name, intervals);
        self.counters = counters;
        proof {
            assert(self@ =~= before.with_counter(section@, column@, id, interval_points(points@)));
        }
    }
}

impl TypedInputs {
    fn counter(&self, section: &str, column: &str, identity: &[IdentityValue]) -> (r: Option<
        &Vec<CounterPoint>,
    >)
        ensures
            match r {
                Some(points) => self@.counter(section@, column@, views(identity@)) == Some(
                    points@,
                ),
                None => self@.counter(section@, column@, views(identity@)) is None,
            },
    {
        proof {
            use_type_invariant(&*self);
        }
        let key: Vec<i128> = track_key(section, column, identity);
        let ghost id = TrackId {
            section: section@,
            column: column@,
            identity: views(identity@),
        };
        let found = self.counters.get_by_key::<TrackId>(&key);
        assert(id.rank() == ints(key@));
        assert(contents::<TrackId, _, _>(self.counters.entries@).dom().contains(id)
            == self@.counters.dom().contains(id));
        found
    }

    /// Number of identities that a counter column has.
    pub fn counter_identity_count(&self, section: &'static str, column: &'static str) -> (r: usize)
        ensures
            r == self@.identities(section@, column@).len(),
    {
        self.counter_identities(section, column).len()
    }

    pub fn has_counter(
        &self,
        section: &'static str,
        column: &'static str,
        identity: &[IdentityValue],
    ) -> (r: bool)
        ensures
            r == (self@.counter(section@, column@, views(identity@)) is Some),
    {
        self.counter(section, column, identity).is_some()
    }

    /// The identities of a counter column, in order.
    pub fn counter_identities(&self, section: &'static str, column: &'static str) -> (out: Vec<
        Vec<IdentityValue>,
    >)
        ensures
            identity_lists(out@) == self@.identities(section@, column@),
            lists_identities(identity_lists(out@), self@.counters, section@, column@),
    {
        proof {
            use_type_invariant(&*self);
        }
        let ghost entries = self.counters.entries@;
        let ghost order = names::<TrackId, _, _>(entries);
        let mut out: Vec<Vec<IdentityValue>> = Vec::new();
        let mut i: usize = 0;
        while i < self.counters.entries.len()
            invariant
                i <= self.counters.entries.len(),
                entries == self.counters.entries@,
                order == names::<TrackId, _, _>(entries),
                ranks_ascend(order),
                ranks_ascend(identity_lists(out@)),
                forall|identity: Seq<IdentityView>| #[trigger]
                    identity_lists(out@).contains(identity) <==> order.take(i as int).contains(
                        TrackId { section: section@, column: column@, identity },
                    ),
            decreases self.counters.entries.len() - i,
        {
            let name: &TrackKey = &self.counters.entries[i].name;
            let ghost here = order[i as int];
            let ghost before = identity_lists(out@);
            let ghost t0 = order.take(i as int);
            let ghost t1 = order.take(i + 1);
            proof {
                assert(t1 =~= t0.push(here));
                assert(here == name@);
            }
            if text_eq(name.section, section) && text_eq(name.column, column) {
                out.push(clone_identity(&name.identity));
                proof {
                    let now = identity_lists(out@);
                    assert(now =~= before.push(here.identity));
                    assert forall|a: int, b: int| 0 <= a < b < now.len() implies lex_less(
                        (#[trigger] now[a]).rank(),
                        (#[trigger] now[b]).rank(),
                    ) by {
                        if b == before.len() {
                            let id = TrackId {
                                section: section@,
                                column: column@,
                                identity: before[a],
                            };
                            assert(before.contains(before[a]));
                            assert(t0.contains(id));
                            let k = choose|k: int| 0 <= k < t0.len() && t0[k] == id;
                            assert(lex_less(order[k].rank(), order[i as int].rank()));
                            lemma_same_column(id, here);
                        } else {
                            assert(now[a] == before[a] && now[b] == before[b]);
                        }
                    }
                    assert forall|identity: Seq<IdentityView>| #[trigger]
                        now.contains(identity) <==> t1.contains(
                        TrackId { section: section@, column: column@, identity },
                    ) by {
                        let id = TrackId { section: section@, column: column@, identity };
                        lemma_push_contains(before, here.identity, identity);
                        lemma_push_contains(t0, here, id);
                        assert(before.contains(identity) <==> t0.contains(id));
                    }
                }
            } else {
                proof {
                    assert forall|identity: Seq<IdentityView>| #[trigger]
                        before.contains(identity) <==> t1.contains(
                        TrackId { section: section@, column: column@, identity },
                    ) by {
                        let id = TrackId { section: section@, column: column@, identity };
                        lemma_push_contains(t0, here, id);
                    }
                }
            }
            i = i + 1;
        }
        proof {
            let list = identity_lists(out@);
            assert(order.take(i as int) =~= order);
            assert forall|identity: Seq<IdentityView>| #[trigger]
                list.contains(identity) <==> self@.counters.dom().contains(
                TrackId { section: section@, column: column@, identity },
            ) by {
                let id = TrackId { section: section@, column: column@, identity };
                if order.contains(id) {
                    let k = choose|k: int| 0 <= k < order.len() && order[k] == id;
                    lemma_entry::<TrackId, _, _>(entries, k);
                }
                if self@.counters.dom().contains(id) {
                    let k = choose|k: int| entry_at::<TrackId, _, _>(entries, id, k);
                    assert(order[k] == id);
                }
            }
            assert(lists_identities(list, self@.counters, section@, column@));
            let chosen = self@.identities(section@, column@);
            assert forall|identity: Seq<IdentityView>| #[trigger]
                list.contains(identity) <==> chosen.contains(identity) by {
                assert(chosen.contains(identity) <==> self@.counters.dom().contains(
                    TrackId { section: section@, column: column@, identity },
                ));
            }
            lemma_listing_unique(list, chosen);
        }
        out
    }

    /// Sums two columns' deltas of one series inside `[from_us, to_us]`, over
    /// intervals where both columns carry a usable value and share a snapshot
    /// time.
    pub fn paired_delta_sums(
        &self,
        section: &'static str,
        identity: &[IdentityValue],
        column_a: &'static str,
        column_b: &'static str,
        from_us: i64,
        to_us: i64,
    ) -> (r: Option<PairedSums>)
        ensures
            r == self@.pair_sums(section@, views(identity@), column_a@, column_b@, from_us, to_us),
    {
        match (
            self.counter(section, column_a, identity),
            self.counter(section, column_b, identity),
        ) {
            (Some(a), Some(b)) => Some(sum_pairs(a.as_slice(), b.as_slice(), from_us, to_us)),
            _ => None,
        }
    }

    /// Intervals that the columns hold together.
    pub fn aligned_counter_points(
        &self,
        section: &'static str,
        identity: &[IdentityValue],
        columns: &[&'static str],
    ) -> (r: usize)
        ensures
            r == capped(self@.counter_points(section@, views(identity@), texts(columns@))),
    {
        let ghost all = texts(columns@);
        let mut total: usize = 0;
        let mut k: usize = 0;
        proof {
            assert(all.take(0) =~= Seq::empty());
        }
        while k < columns.len()
            invariant
                k <= columns.len(),
                all == texts(columns@),
                total == capped(
                    self@.counter_points(section@, views(identity@), all.take(k as int)),
                ),
            decreases columns.len() - k,
        {
            proof {
                assert(all.take(k + 1).drop_last() =~= all.take(k as int));
                assert(all.take(k + 1).last() == columns@[k as int]@);
            }
            let points: usize = match self.counter(section, columns[k], identity) {
                Some(track) => track.len(),
                None => 0,
            };
            total = if total <= usize::MAX - points {
                total + points
            } else {
                usize::MAX
            };
            k = k + 1;
        }
        proof {
            assert(all.take(k as int) =~= all);
        }
        total
    }

    /// Sums at most 16 columns over the intersection of their usable interval
    /// endpoints. A reset, gate, gap, or missing point removes the whole
    /// interval from every operand.
    pub fn aligned_delta_sums(
        &self,
        section: &'static str,
        identity: &[IdentityValue],
        columns: &[&'static str],
        from_us: i64,
        to_us: i64,
    ) -> (r: Option<AlignedSums>)
        ensures
            aligned_option(r) == self@.aligned_sums(
                section@,
                views(identity@),
                texts(columns@),
                from_us,
                to_us,
            ),
            r matches Some(found) ==> found.sums.len() == columns.len(),
    {
        if columns.len() == 0 || columns.len() > MAX_ALIGNED_COLUMNS || from_us > to_us {
            return None;
        }
        let ghost all = texts(columns@);
        let ghost id = views(identity@);
        let mut tracks: Vec<&Vec<CounterPoint>> = Vec::new();
        let mut k: usize = 0;
        while k < columns.len()
            invariant
                k <= columns.len(),
                all == texts(columns@),
                id == views(identity@),
                columns.len() <= MAX_ALIGNED_COLUMNS,
                from_us <= to_us,
                tracks.len() == k,
                forall|j: int|
                    0 <= j < k ==> self@.counter(section@, #[trigger] all[j], id) == Some(
                        tracks@[j]@,
                    ),
            decreases columns.len() - k,
        {
            assert(all[k as int] == columns@[k as int]@);
            match self.counter(section, columns[k], identity) {
                Some(track) => {
                    tracks.push(track);
                },
                None => {
                    return None;
                },
            }
            k = k + 1;
        }
        proof {
            assert(track_view(tracks@) =~= Seq::new(
                all.len(),
                |k: int| self@.counter(section@, all[k], id)->Some_0,
            ));
        }
        Some(sum_aligned(&tracks, from_us, to_us))
    }

    pub fn insert_plan_samples(&mut self, samples: Vec<PlanSample>)
        ensures
            final(self)@ == (TypedView {
                plans: plans_in_order(old(self)@.plans + samples@),
                ..old(self)@
            }),
    {
        let ghost before = self@;
        let mut all: Vec<PlanSample> = self.plans.clone();
        proof {
            assert(all@ =~= self.plans@);
        }
        let mut samples: Vec<PlanSample> = samples;
        all.append(&mut samples);
        let ordered: Vec<PlanSample> = order_plans(&all);
        proof {
            use_type_invariant(&*self);
        }
        self.plans = ordered;
        proof {
            assert(self@ =~= (TypedView { plans: plans_in_order(all@), ..before }));
        }
    }

    /// Plan samples whose time lies inside `[from_us, to_us]`.
    pub fn plan_window(&self, from_us: i64, to_us: i64) -> (r: Vec<PlanSample>)
        ensures
            r@ == self@.plan_window(from_us, to_us),
    {
        let ghost test = |s: PlanSample| from_us <= s.ts <= to_us;
        let mut r: Vec<PlanSample> = Vec::new();
        let mut i: usize = 0;
        proof {
            reveal(Seq::filter);
            assert(self.plans@.take(0).filter(test) =~= Seq::empty());
        }
        while i < self.plans.len()
            invariant
                i <= self.plans.len(),
                test == (|s: PlanSample| from_us <= s.ts <= to_us),
                r@ == self.plans@.take(i as int).filter(test),
            decreases self.plans.len() - i,
        {
            proof {
                reveal(Seq::filter);
                assert(self.plans@.take(i + 1).drop_last() =~= self.plans@.take(i as int));
            }
            let sample: PlanSample = self.plans[i];
            if from_us <= sample.ts && sample.ts <= to_us {
                r.push(sample);
            }
            i = i + 1;
        }
        proof {
            assert(self.plans@.take(i as int) =~= self.plans@);
        }
        r
    }

    pub fn process_is_postgres_backend(
        &self,
        pid: i64,
        starttime: i64,
        from_us: i64,
        to_us: i64,
    ) -> (r: bool)
        ensures
            r == self@.is_backend(pid, starttime, from_us, to_us),
    {
        let snapshots = self.activity_window(from_us, to_us);
        let ghost all = views(snapshots@);
        let mut i: usize = 0;
        while i < snapshots.len()
            invariant
                i <= snapshots.len(),
                all == views(snapshots@),
                all == self@.activity_window(from_us, to_us),
                forall|k: int| 0 <= k < i ==> !holds_backend(#[trigger] all[k], pid, starttime),
            decreases snapshots.len() - i,
        {
            let snapshot: &ActivitySnapshot = snapshots[i];
            assert(all[i as int] == snapshot@);
            let mut j: usize = 0;
            while j < snapshot.backends.len()
                invariant
                    i < snapshots.len(),
                    j <= snapshot.backends.len(),
                    all == self@.activity_window(from_us, to_us),
                    i < all.len(),
                    all[i as int] == snapshot@,
                    forall|k: int|
                        0 <= k < j ==> !((#[trigger] snapshot@.backends[k]).pid == pid
                            && snapshot@.backends[k].backend_start == starttime),
                decreases snapshot.backends.len() - j,
            {
                assert(snapshot@.backends[j as int] == snapshot.backends@[j as int]@);
                if snapshot.backends[j].pid == pid && snapshot.backends[j].backend_start
                    == starttime {
                    assert(holds_backend(all[i as int], pid, starttime));
                    return true;
                }
                j = j + 1;
            }
            i = i + 1;
        }
        false
    }

    pub fn insert_process_cgroups(&mut self, samples: Vec<ProcessCgroupSample>)
        ensures
            final(self)@ == (TypedView {
                process_cgroups: with_cgroups(old(self)@.process_cgroups, samples@),
                ..old(self)@
            }),
    {
        let ghost before = self@;
        let mut i: usize = 0;
        while i < samples.len()
            invariant
                i <= samples.len(),
                self@ == (TypedView {
                    process_cgroups: with_cgroups(
                        before.process_cgroups,
                        samples@.take(i as int),
                    ),
                    ..before
                }),
            decreases samples.len() - i,
        {
            let sample: &ProcessCgroupSample = &samples[i];
            let name = ProcessMoment {
                pid: sample.pid,
                starttime: sample.starttime,
                ts: sample.ts,
            };
            let path: String = sample.cgroup_path.clone();
            proof {
                use_type_invariant(&*self);
                lemma_value_views_insert(
                    contents::<ProcessMoment, _, _>(self.process_cgroups.entries@),
                    name,
                    path,
                );
                assert(samples@.take(i + 1).drop_last() =~= samples@.take(i as int));
                assert(samples@.take(i + 1).last() == *sample);
            }
            let mut placed = OrderedMap { entries: Vec::new() };
            std::mem::swap(&mut self.process_cgroups, &mut placed);
            placed.insert::<ProcessMoment>(name, path);
            self.process_cgroups = placed;
            i = i + 1;
        }
        proof {
            assert(samples@.take(i as int) =~= samples@);
        }
    }

    pub fn process_cgroup_at(&self, pid: i64, starttime: i64, ts: i64) -> (r: Option<&str>)
        ensures
            ({
                let at = ProcessMoment { pid, starttime, ts };
                str_view(r) == if self@.process_cgroups.dom().contains(at) {
                    Some(self@.process_cgroups[at])
                } else {
                    None
                }
            }),
    {
        proof {
            use_type_invariant(&*self);
        }
        let at = ProcessMoment { pid, starttime, ts };
        let key: Vec<i128> = key_of(&at);
        let found = self.process_cgroups.get_by_key::<ProcessMoment>(&key);
        assert(contents::<ProcessMoment, _, _>(self.process_cgroups.entries@).dom().contains(at)
            == self@.process_cgroups.dom().contains(at));
        match found {
            Some(path) => Some(path.as_str()),
            None => None,
        }
    }

    /// The devices of a cgroup.
    pub fn cgroup_devices(&self, cgroup_path: &str) -> (r: &[Vec<IdentityValue>])
        ensures
            identity_lists(r@) == self@.devices(cgroup_path@),
    {
        proof {
            use_type_invariant(&*self);
        }
        let mut key: Vec<i128> = Vec::new();
        push_text(&mut key, cgroup_path);
        proof {
            assert(ints(key@) =~= cgroup_path@.rank());
        }
        let found = self.cgroup_devices.get_by_key::<Seq<char>>(&key);
        assert(contents::<Seq<char>, _, _>(self.cgroup_devices.entries@).dom().contains(cgroup_path@)
            == self@.cgroup_devices.dom().contains(cgroup_path@));
        match found {
            Some(list) => list.identities.as_slice(),
            None => {
                let none: &[Vec<IdentityValue>] = &[];
                proof {
                    assert(identity_lists(none@) =~= Seq::empty());
                }
                none
            },
        }
    }

    /// Marks a device as holding database storage. Major zero and negative
    /// numbers name no device.
    pub fn insert_postgres_storage_device(&mut self, major: i64, minor: i64)
        ensures
            final(self)@ == (TypedView {
                storage_devices: if major > 0 && minor >= 0 {
                    old(self)@.storage_devices.insert((major, minor))
                } else {
                    old(self)@.storage_devices
                },
                ..old(self)@
            }),
    {
        proof {
            use_type_invariant(&*self);
        }
        if major > 0 && minor >= 0 {
            let ghost before = self.postgres_storage_devices@;
            let mut devices: Vec<(i64, i64)> = Vec::new();
            std::mem::swap(&mut self.postgres_storage_devices, &mut devices);
            devices.push((major, minor));
            self.postgres_storage_devices = devices;
            proof {
                let now = self.postgres_storage_devices@;
                assert forall|d: (i64, i64)| now.contains(d) <==> before.contains(d) || d == (
                    major,
                    minor,
                ) by {
                    lemma_push_contains(before, (major, minor), d);
                }
                assert(now.to_set() =~= before.to_set().insert((major, minor)));
            }
        }
    }

    pub fn is_postgres_storage_device(&self, major: i64, minor: i64) -> (r: bool)
        ensures
            r == self@.storage_devices.contains((major, minor)),
    {
        let mut i: usize = 0;
        while i < self.postgres_storage_devices.len()
            invariant
                i <= self.postgres_storage_devices.len(),
                forall|j: int|
                    0 <= j < i ==> #[trigger] self.postgres_storage_devices@[j] != (major, minor),
            decreases self.postgres_storage_devices.len() - i,
        {
            let (a, b) = self.postgres_storage_devices[i];
            if a == major && b == minor {
                assert(self.postgres_storage_devices@[i as int] == (major, minor));
                assert(self.postgres_storage_devices@.contains((major, minor)));
                return true;
            }
            i = i + 1;
        }
        false
    }

    pub fn insert_gauge(
        &mut self,
        section: &'static str,
        column: &'static str,
        identity: Vec<IdentityValue>,
        points: Vec<(i64, Float64)>,
    )
        ensures
            final(self)@ == old(self)@.with_gauge(
                section@,
                column@,
                views(identity@),
                gauge_track(points@, Seq::empty(), Seq::empty(), Set::empty()),
            ),
    {
        let gaps: &[(i64, i64)] = &[];
        let breaks: Vec<i64> = Vec::new();
        proof {
            assert(breaks@ =~= Seq::empty());
            assert(Set::new(|t: int| bounds_hold(gaps@, t)) =~= Set::empty());
        }
        self.insert_gauge_with_quality(section, column, identity, points, breaks, gaps);
    }

    pub fn insert_gauge_with_quality(
        &mut self,
        section: &'static str,
        column: &'static str,
        identity: Vec<IdentityValue>,
        raw_points: Vec<(i64, Float64)>,
        breaks: Vec<i64>,
        gaps: &[(i64, i64)],
    )
        ensures
            final(self)@ == old(self)@.with_gauge(
                section@,
                column@,
                views(identity@),
                gauge_track(
                    raw_points@,
                    breaks@,
                    Seq::empty(),
                    Set::new(|t: int| bounds_hold(gaps@, t)),
                ),
            ),
    {
        let quality = GaugeQuality::new(gaps);
        self.insert_gauge_with_shared_quality(
            GaugeTrackInput {
                section,
                column,
                identity,
                raw_points,
                breaks,
                shared_breaks: Vec::new(),
            },
            &quality,
        );
    }

    pub fn insert_gauge_with_shared_quality(
        &mut self,
        input: GaugeTrackInput,
        quality: &GaugeQuality,
    )
        ensures
            final(self)@ == old(self)@.with_gauge(
                input.section@,
                input.column@,
                views(input.identity@),
                gauge_track(
                    input.raw_points@,
                    input.breaks@,
                    input.shared_breaks@,
                    quality@,
                ),
            ),
    {
        proof {
            use_type_invariant(&*self);
        }
        let ghost before = self@;
        let track = GaugeTrack::build(
            input.raw_points,
            input.breaks,
            &input.shared_breaks,
            quality,
        );
        let name = TrackKey {
            section: input.section,
            column: input.column,
            identity: input.identity,
        };
        proof {
            lemma_value_views_insert(
                contents::<TrackId, _, _>(self.gauges.entries@),
                name@,
                track,
            );
        }
        let mut gauges = OrderedMap { entries: Vec::new() };
        std::mem::swap(&mut self.gauges, &mut gauges);
        gauges.insert::<TrackId>(name, track);
        self.gauges = gauges;
        proof {
            assert(self@ =~= before.with_gauge(name@.section, name@.column, name@.identity, track@));
        }
    }

    /// The readings of `[from_us, to_us)`, unless a break or a gap lies in it.
    pub fn gauge_window(
        &self,
        section: &'static str,
        column: &'static str,
        identity: &[IdentityValue],
        from_us: i64,
        to_us: i64,
    ) -> (r: Option<GaugeWindow<'_>>)
        ensures
            window_option(r) == self@.gauge_points(
                section@,
                column@,
                views(identity@),
                from_us,
                to_us,
            ),
            r matches Some(window) ==> window.from_us == from_us && window.to_us == to_us,
    {
        proof {
            use_type_invariant(&*self);
        }
        let key: Vec<i128> = track_key(section, column, identity);
        let ghost id = TrackId {
            section: section@,
            column: column@,
            identity: views(identity@),
        };
        assert(id.rank() == ints(key@));
        let found = self.gauges.get_by_key::<TrackId>(&key);
        assert(contents::<TrackId, _, _>(self.gauges.entries@).dom().contains(id)
            == self@.gauges.dom().contains(id));
        match found {
            Some(track) => track.window(from_us, to_us),
            None => None,
        }
    }

    pub fn gauge_max(
        &self,
        section: &'static str,
        column: &'static str,
        identity: &[IdentityValue],
        from_us: i64,
        to_us: i64,
    ) -> (r: Option<GaugeReading>)
        ensures
            r == match self@.gauge_points(section@, column@, views(identity@), from_us, to_us) {
                Some(points) => max_reading(points, from_us, to_us),
                None => None,
            },
    {
        match self.gauge_window(section, column, identity, from_us, to_us) {
            Some(window) => window.max(),
            None => None,
        }
    }

    /// The readings of two columns within a window.
    pub fn paired_gauge_window(
        &self,
        section: &'static str,
        identity: &[IdentityValue],
        columns: (&'static str, &'static str),
        from_us: i64,
        to_us: i64,
    ) -> (r: Option<PairedGaugeWindow<'_>>)
        ensures
            ({
                let a = self@.gauge_points(
                    section@,
                    columns.0@,
                    views(identity@),
                    from_us,
                    to_us,
                );
                let b = self@.gauge_points(
                    section@,
                    columns.1@,
                    views(identity@),
                    from_us,
                    to_us,
                );
                match r {
                    Some(window) => a == Some(window.a@) && b == Some(window.b@) && window.from_us
                        == from_us && window.to_us == to_us,
                    None => a is None || b is None,
                }
            }),
    {
        let a = match self.gauge_window(section, columns.0, identity, from_us, to_us) {
            Some(window) => window,
            None => {
                return None;
            },
        };
        let b = match self.gauge_window(section, columns.1, identity, from_us, to_us) {
            Some(window) => window,
            None => {
                return None;
            },
        };
        Some(PairedGaugeWindow { a: a.points, b: b.points, from_us, to_us })
    }

    /// The pair of two columns that is worst for an objective. Only timestamps
    /// where both columns carry a valid reading and the score is finite
    /// contribute.
    pub fn paired_gauge(
        &self,
        section: &'static str,
        identity: &[IdentityValue],
        columns: (&'static str, &'static str),
        from_us: i64,
        to_us: i64,
        objective: GaugeObjective,
    ) -> (r: Option<PairedGauge>)
        ensures
            r == match (
                self@.gauge_points(section@, columns.0@, views(identity@), from_us, to_us),
                self@.gauge_points(section@, columns.1@, views(identity@), from_us, to_us),
            ) {
                (Some(a), Some(b)) => paired_reading(a, b, from_us, to_us, objective),
                _ => None,
            },
    {
        match self.paired_gauge_window(section, identity, columns, from_us, to_us) {
            Some(window) => window.reduce(objective),
            None => None,
        }
    }

    /// The readings of three columns within a window.
    pub fn triple_gauge_window(
        &self,
        section: &'static str,
        identity: &[IdentityValue],
        columns: (&'static str, &'static str, &'static str),
        from_us: i64,
        to_us: i64,
    ) -> (r: Option<TripleGaugeWindow<'_>>)
        ensures
            ({
                let id = views(identity@);
                let a = self@.gauge_points(section@, columns.0@, id, from_us, to_us);
                let b = self@.gauge_points(section@, columns.1@, id, from_us, to_us);
                let c = self@.gauge_points(section@, columns.2@, id, from_us, to_us);
                match r {
                    Some(window) => a == Some(window.a@) && b == Some(window.b@) && c == Some(
                        window.denominator@,
                    ) && window.from_us == from_us && window.to_us == to_us,
                    None => a is None || b is None || c is None,
                }
            }),
    {
        let a = match self.gauge_window(section, columns.0, identity, from_us, to_us) {
            Some(window) => window,
            None => {
                return None;
            },
        };
        let b = match self.gauge_window(section, columns.1, identity, from_us, to_us) {
            Some(window) => window,
            None => {
                return None;
            },
        };
        let c = match self.gauge_window(section, columns.2, identity, from_us, to_us) {
            Some(window) => window,
            None => {
                return None;
            },
        };
        Some(
            TripleGaugeWindow {
                a: a.points,
                b: b.points,
                denominator: c.points,
                from_us,
                to_us,
            },
        )
    }

    /// The readings of several columns within a window.
    pub fn gauge_snapshot_window(
        &self,
        section: &'static str,
        identity: &[IdentityValue],
        columns: &[&'static str],
        from_us: i64,
        to_us: i64,
    ) -> (r: Option<GaugeSnapshotWindow<'_>>)
        ensures
            match r {
                Some(window) => 0 < columns.len() <= MAX_SNAPSHOT_COLUMNS && self@.gauge_columns(
                    section@,
                    views(identity@),
                    texts(columns@),
                    from_us,
                    to_us,
                ) == Some(slices_view(window.tracks@)) && window.from_us == from_us && window.to_us
                    == to_us,
                None => columns.len() == 0 || columns.len() > MAX_SNAPSHOT_COLUMNS
                    || self@.gauge_columns(
                    section@,
                    views(identity@),
                    texts(columns@),
                    from_us,
                    to_us,
                ) is None,
            },
    {
        if columns.len() == 0 || columns.len() > MAX_SNAPSHOT_COLUMNS {
            return None;
        }
        let ghost all = texts(columns@);
        let ghost id = views(identity@);
        let mut tracks: Vec<&[GaugePoint]> = Vec::new();
        let mut k: usize = 0;
        while k < columns.len()
            invariant
                k <= columns.len(),
                0 < columns.len() <= MAX_SNAPSHOT_COLUMNS,
                all == texts(columns@),
                id == views(identity@),
                tracks.len() == k,
                forall|j: int|
                    0 <= j < k ==> self@.gauge_points(
                        section@,
                        #[trigger] all[j],
                        id,
                        from_us,
                        to_us,
                    ) == Some(tracks@[j]@),
            decreases columns.len() - k,
        {
            assert(all[k as int] == columns@[k as int]@);
            match self.gauge_window(section, columns[k], identity, from_us, to_us) {
                Some(window) => {
                    tracks.push(window.points);
                },
                None => {
                    return None;
                },
            }
            k = k + 1;
        }
        proof {
            assert(slices_view(tracks@) =~= Seq::new(
                all.len(),
                |k: int| self@.gauge_points(section@, all[k], id, from_us, to_us)->Some_0,
            ));
        }
        Some(GaugeSnapshotWindow { tracks, from_us, to_us })
    }

    /// Appends one activity snapshot.
    pub fn insert_activity_snapshot(&mut self, snapshot: ActivitySnapshot)
        ensures
            final(self)@ == (TypedView {
                activity: old(self)@.activity.push(snapshot@),
                ..old(self)@
            }),
    {
        proof {
            use_type_invariant(&*self);
        }
        let ghost before = self@;
        let ghost v = snapshot@;
        let mut activity: Vec<ActivitySnapshot> = Vec::new();
        std::mem::swap(&mut self.activity, &mut activity);
        activity.push(snapshot);
        self.activity = activity;
        proof {
            assert(self@.activity =~= before.activity.push(v));
        }
    }

    /// Appends one lock snapshot.
    pub fn insert_lock_snapshot(&mut self, snapshot: LockSnapshot)
        ensures
            final(self)@ == (TypedView {
                locks: old(self)@.locks.push(snapshot@),
                ..old(self)@
            }),
    {
        proof {
            use_type_invariant(&*self);
        }
        let ghost before = self@;
        let ghost v = snapshot@;
        let mut locks: Vec<LockSnapshot> = Vec::new();
        std::mem::swap(&mut self.locks, &mut locks);
        locks.push(snapshot);
        self.locks = locks;
        proof {
            assert(self@.locks =~= before.locks.push(v));
        }
    }

    /// Activity snapshots whose collection time lies inside `[from_us, to_us)`.
    pub fn activity_window(&self, from_us: i64, to_us: i64) -> (out: Vec<&ActivitySnapshot>)
        ensures
            views(out@) == self@.activity_window(from_us, to_us),
    {
        let ghost test = |s: ActivityView| from_us <= s.ts < to_us;
        let ghost all = views(self.activity@);
        let mut out: Vec<&ActivitySnapshot> = Vec::new();
        let mut i: usize = 0;
        proof {
            reveal(Seq::filter);
            assert(all.take(0).filter(test) =~= Seq::empty());
            assert(views(out@) =~= Seq::empty());
        }
        while i < self.activity.len()
            invariant
                i <= self.activity.len(),
                all == views(self.activity@),
                test == (|s: ActivityView| from_us <= s.ts < to_us),
                views(out@) == all.take(i as int).filter(test),
            decreases self.activity.len() - i,
        {
            let snapshot: &ActivitySnapshot = &self.activity[i];
            proof {
                reveal(Seq::filter);
                assert(all.take(i + 1).drop_last() =~= all.take(i as int));
                assert(all.take(i + 1).last() == snapshot@);
            }
            if from_us <= snapshot.ts && snapshot.ts < to_us {
                out.push(snapshot);
                proof {
                    assert(views(out@) =~= all.take(i as int).filter(test).push(snapshot@));
                }
            }
            i = i + 1;
        }
        proof {
            assert(all.take(i as int) =~= all);
        }
        out
    }

    /// Lock snapshots whose collection time lies inside `[from_us, to_us)`.
    pub fn lock_window(&self, from_us: i64, to_us: i64) -> (out: Vec<&LockSnapshot>)
        ensures
            views(out@) == self@.lock_window(from_us, to_us),
    {
        let ghost test = |s: LockView| from_us <= s.ts < to_us;
        let ghost all = views(self.locks@);
        let mut out: Vec<&LockSnapshot> = Vec::new();
        let mut i: usize = 0;
        proof {
            reveal(Seq::filter);
            assert(all.take(0).filter(test) =~= Seq::empty());
            assert(views(out@) =~= Seq::empty());
        }
        while i < self.locks.len()
            invariant
                i <= self.locks.len(),
                all == views(self.locks@),
                test == (|s: LockView| from_us <= s.ts < to_us),
                views(out@) == all.take(i as int).filter(test),
            decreases self.locks.len() - i,
        {
            let snapshot: &LockSnapshot = &self.locks[i];
            proof {
                reveal(Seq::filter);
                assert(all.take(i + 1).drop_last() =~= all.take(i as int));
                assert(all.take(i + 1).last() == snapshot@);
            }
            if from_us <= snapshot.ts && snapshot.ts < to_us {
                out.push(snapshot);
                proof {
                    assert(views(out@) =~= all.take(i as int).filter(test).push(snapshot@));
                }
            }
            i = i + 1;
        }
        proof {
            assert(all.take(i as int) =~= all);
        }
        out
    }
}

/// The placements once some samples have been added.
pub open spec fn with_cgroups(
    known: Map<ProcessMoment, Seq<char>>,
    samples: Seq<ProcessCgroupSample>,
) -> Map<ProcessMoment, Seq<char>>
    decreases samples.len(),
{
    if samples.len() == 0 {
        known
    } else {
        let last = samples.last();
        with_cgroups(known, samples.drop_last()).insert(
            ProcessMoment { pid: last.pid, starttime: last.starttime, ts: last.ts },
            last.cgroup_path@,
        )
    }
}

proof fn lemma_push_contains<A>(s: Seq<A>, v: A, x: A)
    ensures
        s.push(v).contains(x) <==> s.contains(x) || x == v,
{
    let more = s.push(v);
    if s.contains(x) {
        let i = choose|i: int| 0 <= i < s.len() && s[i] == x;
        assert(more[i] == x);
    }
    if x == v {
        assert(more[s.len() as int] == x);
    }
    if more.contains(x) {
        let i = choose|i: int| 0 <= i < more.len() && more[i] == x;
        if i < s.len() {
            assert(s[i] == x);
        }
    }
}

proof fn lemma_same_column(a: TrackId, b: TrackId)
    requires
        a.section == b.section,
        a.column == b.column,
        lex_less(a.rank(), b.rank()),
    ensures
        lex_less(a.identity.rank(), b.identity.rank()),
{
    lemma_lex_prefix((a.section, a.column).rank(), a.identity.rank(), b.identity.rank());
}

fn clone_devices(list: &[Vec<IdentityValue>]) -> (r: Vec<Vec<IdentityValue>>)
    ensures
        identity_lists(r@) == identity_lists(list@),
{
    let mut r: Vec<Vec<IdentityValue>> = Vec::new();
    let mut i: usize = 0;
    while i < list.len()
        invariant
            i <= list.len(),
            identity_lists(r@) == identity_lists(list@).take(i as int),
        decreases list.len() - i,
    {
        let ghost before = identity_lists(r@);
        r.push(clone_identity(&list[i]));
        proof {
            assert(identity_lists(r@) =~= before.push(views(list@[i as int]@)));
            assert(identity_lists(r@) =~= identity_lists(list@).take(i + 1));
        }
        i = i + 1;
    }
    proof {
        assert(identity_lists(list@).take(i as int) =~= identity_lists(list@));
    }
    r
}

fn holds_identity(list: &Vec<Vec<IdentityValue>>, identity: &Vec<IdentityValue>) -> (r: bool)
    ensures
        r == identity_lists(list@).contains(views(identity@)),
{
    let ghost all = identity_lists(list@);
    let mut i: usize = 0;
    while i < list.len()
        invariant
            i <= list.len(),
            all == identity_lists(list@),
            forall|j: int| 0 <= j < i ==> #[trigger] all[j] != views(identity@),
        decreases list.len() - i,
    {
        if same_identity(list[i].as_slice(), identity.as_slice()) {
            assert(all[i as int] == views(identity@));
            return true;
        }
        assert(all[i as int] != views(identity@));
        i = i + 1;
    }
    false
}

} // verus!
