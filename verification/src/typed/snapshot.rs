//! Multi-row snapshots: activity, locks, plans and process placement.

use crate::float64::Float64;
use crate::order::{
    ints, lemma_ranked_sort, rank_order, ranked_sort, sort_ranked, views, Keyed, Ranked,
};
use crate::text::push_int;
use vstd::prelude::*;

verus! {

/// One backend, reduced to the fields that the sampled activity lenses read.
#[derive(Debug, Clone, PartialEq, Eq)]
pub struct ActivityBackend {
    /// Stable session identity together with `backend_start`.
    pub pid: i64,
    /// Backend start, Unix microseconds.
    pub backend_start: i64,
    /// Age of the assigned transaction id in transactions.
    pub xid_age: Option<i64>,
    /// Age of the pinned horizon in transactions.
    pub xmin_age: Option<i64>,
    /// Session state.
    pub state: Option<String>,
    /// Wait-event class; `None` when the backend is not waiting.
    pub wait_event_type: Option<String>,
    /// Wait-event name; `None` when the backend is not waiting.
    pub wait_event: Option<String>,
    /// Open-transaction age at snapshot time, microseconds.
    pub xact_age_us: Option<i64>,
}

/// The mathematical value of a backend.
#[verifier::ext_equal]
pub struct BackendView {
    pub pid: i64,
    pub backend_start: i64,
    pub xid_age: Option<i64>,
    pub xmin_age: Option<i64>,
    pub state: Option<Seq<char>>,
    pub wait_event_type: Option<Seq<char>>,
    pub wait_event: Option<Seq<char>>,
    pub xact_age_us: Option<i64>,
}

/// The text of an optional label.
pub open spec fn label_view(label: Option<String>) -> Option<Seq<char>> {
    match label {
        Some(text) => Some(text@),
        None => None,
    }
}

/// A label as a borrowed text.
pub fn label_text(label: &Option<String>) -> (r: Option<&str>)
    ensures
        str_view(r) == label_view(*label),
{
    match label {
        Some(text) => Some(text.as_str()),
        None => None,
    }
}

/// The text of an optional borrowed label.
pub open spec fn str_view(label: Option<&str>) -> Option<Seq<char>> {
    match label {
        Some(text) => Some(text@),
        None => None,
    }
}

impl View for ActivityBackend {
    type V = BackendView;

    open spec fn view(&self) -> BackendView {
        BackendView {
            pid: self.pid,
            backend_start: self.backend_start,
            xid_age: self.xid_age,
            xmin_age: self.xmin_age,
            state: label_view(self.state),
            wait_event_type: label_view(self.wait_event_type),
            wait_event: label_view(self.wait_event),
            xact_age_us: self.xact_age_us,
        }
    }
}

/// Provenance of one stored multi-row snapshot.
#[derive(Debug, Clone, Copy, PartialEq, Eq, Structural)]
pub enum SnapshotCompleteness {
    /// The source read completed and the collector could see all activity
    /// fields.
    Complete,
    /// The read completed, but activity fields for other sessions may be
    /// absent.
    Restricted,
    /// No valid marker exists.
    Unknown,
}

impl SnapshotCompleteness {
    pub fn denominator_usable(self) -> (r: bool)
        ensures
            r == (self == SnapshotCompleteness::Complete),
    {
        match self {
            SnapshotCompleteness::Complete => true,
            _ => false,
        }
    }
}

/// The backends captured at one collection time.
#[derive(Debug, PartialEq, Eq)]
pub struct ActivitySnapshot {
    pub ts: i64,
    pub backends: Vec<ActivityBackend>,
    pub completeness: SnapshotCompleteness,
}

/// The mathematical value of an activity snapshot.
#[verifier::ext_equal]
pub struct ActivityView {
    pub ts: i64,
    pub backends: Seq<BackendView>,
    pub completeness: SnapshotCompleteness,
}

impl View for ActivitySnapshot {
    type V = ActivityView;

    open spec fn view(&self) -> ActivityView {
        ActivityView {
            ts: self.ts,
            backends: views(self.backends@),
            completeness: self.completeness,
        }
    }
}

/// One directed blocking edge: `waiter_pid` waits on `blocker_pid`. A blocker
/// of zero is a prepared-transaction holder with no live backend.
#[derive(Debug, Clone, Copy, PartialEq, Eq, PartialOrd, Ord, Structural)]
pub struct LockEdge {
    pub waiter_pid: i64,
    /// Start of the waiting backend, where the lock sample names it.
    pub waiter_backend_start: Option<i64>,
    pub blocker_pid: i64,
}

/// The blocking edges captured at one collection time.
#[derive(Debug, PartialEq, Eq)]
pub struct LockSnapshot {
    pub ts: i64,
    /// Collection time of the activity snapshot taken in the same sample.
    pub activity_snapshot_ts: Option<i64>,
    pub edges: Vec<LockEdge>,
}

/// The mathematical value of a lock snapshot.
#[verifier::ext_equal]
pub struct LockView {
    pub ts: i64,
    pub activity_snapshot_ts: Option<i64>,
    pub edges: Seq<LockEdge>,
}

impl View for LockSnapshot {
    type V = LockView;

    open spec fn view(&self) -> LockView {
        LockView {
            ts: self.ts,
            activity_snapshot_ts: self.activity_snapshot_ts,
            edges: self.edges@,
        }
    }
}

/// Which plan store a sample comes from.
#[derive(Debug, Clone, Copy, PartialEq, Eq, PartialOrd, Ord, Structural)]
pub enum PlanFork {
    Ossc,
    Vadv,
}

impl PlanFork {
    pub open spec fn place(self) -> int {
        match self {
            PlanFork::Ossc => 0,
            PlanFork::Vadv => 1,
        }
    }

    /// The place of the store in the order of samples.
    pub fn number(self) -> (r: i128)
        ensures
            r == self.place(),
    {
        match self {
            PlanFork::Ossc => 0,
            PlanFork::Vadv => 1,
        }
    }
}

/// One privacy-reduced plan row. Plan text and names never enter incident
/// input.
#[derive(Debug, Clone, Copy, PartialEq, Eq, Structural)]
pub struct PlanSample {
    pub ts: i64,
    pub fork: PlanFork,
    pub queryid: i64,
    pub planid: i64,
    pub userid: u64,
    pub dbid: u64,
    pub calls: Float64,
    pub total_time_ms: Float64,
}

/// A plan sample with its place in the input.
#[derive(Clone, Copy)]
pub struct PlanEntry {
    pub sample: PlanSample,
    pub index: usize,
}

impl View for PlanEntry {
    type V = PlanEntry;

    open spec fn view(&self) -> PlanEntry {
        *self
    }
}

/// Samples order by time, store, database, user, query and plan, then by their
/// place in the input.
impl Ranked for PlanEntry {
    open spec fn rank(self) -> Seq<int> {
        let s = self.sample;
        seq![
            s.ts as int,
            s.fork.place(),
            s.dbid as int,
            s.userid as int,
            s.queryid as int,
            s.planid as int,
            self.index as int,
            s.calls.bits as int,
            s.total_time_ms.bits as int,
        ]
    }

    proof fn rank_splits(a: Self, b: Self, x: Seq<int>, y: Seq<int>) {
        let left = a.rank() + x;
        let right = b.rank() + y;
        assert forall|i: int| 0 <= i < 9 implies #[trigger] a.rank()[i] == b.rank()[i] by {
            assert(left[i] == a.rank()[i] && right[i] == b.rank()[i]);
        }
        assert(a.rank()[0] == b.rank()[0]);
        assert(a.rank()[1] == b.rank()[1]);
        assert(a.rank()[2] == b.rank()[2]);
        assert(a.rank()[3] == b.rank()[3]);
        assert(a.rank()[4] == b.rank()[4]);
        assert(a.rank()[5] == b.rank()[5]);
        assert(a.rank()[6] == b.rank()[6]);
        assert(a.rank()[7] == b.rank()[7]);
        assert(a.rank()[8] == b.rank()[8]);
        assert(x =~= left.skip(9));
        assert(y =~= right.skip(9));
    }
}

impl Keyed<PlanEntry> for PlanEntry {
    fn key_into(&self, out: &mut Vec<i128>) {
        let ghost start = ints(out@);
        push_int(out, self.sample.ts as i128);
        push_int(out, self.sample.fork.number());
        push_int(out, self.sample.dbid as i128);
        push_int(out, self.sample.userid as i128);
        push_int(out, self.sample.queryid as i128);
        push_int(out, self.sample.planid as i128);
        push_int(out, self.index as i128);
        push_int(out, self.sample.calls.bits as i128);
        push_int(out, self.sample.total_time_ms.bits as i128);
        proof {
            assert(ints(out@) =~= start + self@.rank());
        }
    }
}

pub open spec fn plan_entries(samples: Seq<PlanSample>) -> Seq<PlanEntry> {
    Seq::new(samples.len(), |i: int| PlanEntry { sample: samples[i], index: i as usize })
}

/// The samples in order, equal ones in the order of the input.
pub open spec fn plans_in_order(samples: Seq<PlanSample>) -> Seq<PlanSample> {
    let sorted = ranked_sort(plan_entries(samples));
    Seq::new(sorted.len(), |i: int| sorted[i].sample)
}

pub open spec fn plan_times_ascend(samples: Seq<PlanSample>) -> bool {
    forall|i: int, j: int|
        0 <= i <= j < samples.len() ==> (#[trigger] samples[i]).ts <= (#[trigger] samples[j]).ts
}

/// Orders plan samples.
pub fn order_plans(samples: &Vec<PlanSample>) -> (out: Vec<PlanSample>)
    ensures
        out@ == plans_in_order(samples@),
        plan_times_ascend(out@),
{
    let ghost all = plan_entries(samples@);
    let mut entries: Vec<PlanEntry> = Vec::new();
    let mut i: usize = 0;
    while i < samples.len()
        invariant
            i <= samples.len(),
            all == plan_entries(samples@),
            entries.len() == i,
            forall|j: int| 0 <= j < i ==> #[trigger] entries@[j] == all[j],
        decreases samples.len() - i,
    {
        entries.push(PlanEntry { sample: samples[i], index: i });
        i = i + 1;
    }
    proof {
        assert(views(entries@) =~= all);
        lemma_ranked_sort(all);
    }
    let sorted: Vec<PlanEntry> = sort_ranked(entries);
    proof {
        assert(views(sorted@) =~= sorted@);
    }
    let mut out: Vec<PlanSample> = Vec::new();
    i = 0;
    while i < sorted.len()
        invariant
            i <= sorted.len(),
            out.len() == i,
            forall|j: int| 0 <= j < i ==> #[trigger] out@[j] == sorted@[j].sample,
        decreases sorted.len() - i,
    {
        out.push(sorted[i].sample);
        i = i + 1;
    }
    proof {
        assert(out@ =~= plans_in_order(samples@));
        let leq = rank_order::<PlanEntry>();
        assert forall|a: int, b: int| 0 <= a <= b < out.len() implies (#[trigger] out@[a]).ts <= (
        #[trigger] out@[b]).ts by {
            if a < b {
                assert(leq(sorted@[a], sorted@[b]));
                assert(sorted@[a].rank()[0] == out@[a].ts);
                assert(sorted@[b].rank()[0] == out@[b].ts);
            }
        }
    }
    out
}

/// Where a process was placed at one time.
#[derive(Debug, PartialEq, Eq)]
pub struct ProcessCgroupSample {
    pub ts: i64,
    pub pid: i64,
    pub starttime: i64,
    pub cgroup_path: String,
}

/// One process at one time.
#[derive(Debug, Clone, Copy, PartialEq, Eq, Structural)]
pub struct ProcessMoment {
    pub pid: i64,
    pub starttime: i64,
    pub ts: i64,
}

impl View for ProcessMoment {
    type V = ProcessMoment;

    open spec fn view(&self) -> ProcessMoment {
        *self
    }
}

impl Ranked for ProcessMoment {
    open spec fn rank(self) -> Seq<int> {
        (self.pid, (self.starttime, self.ts)).rank()
    }

    proof fn rank_splits(a: Self, b: Self, x: Seq<int>, y: Seq<int>) {
        <(i64, (i64, i64))>::rank_splits(
            (a.pid, (a.starttime, a.ts)),
            (b.pid, (b.starttime, b.ts)),
            x,
            y,
        );
    }
}

impl Keyed<ProcessMoment> for ProcessMoment {
    fn key_into(&self, out: &mut Vec<i128>) {
        let ghost start = ints(out@);
        push_int(out, self.pid as i128);
        push_int(out, self.starttime as i128);
        push_int(out, self.ts as i128);
        proof {
            assert(ints(out@) =~= start + self@.rank());
        }
    }
}

} // verus!
