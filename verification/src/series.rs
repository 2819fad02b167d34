//! Validated numeric series held for one analysis request.

use crate::dispatch::LimitHit;
use crate::evidence::sink::{step, FindingSink, Step};
use crate::float64::Float64;
use crate::model::{EpisodeRefV1, EpisodeView, IdentityValue};
use crate::order::{ints, views, Ranked};
use crate::ordered::{contents, well_formed, OrderedMap};
use crate::typed::inputs::{track_key, value_views, lemma_value_views_insert, TrackId, TrackKey};
use vstd::prelude::*;

verus! {

/// Points of one series in runs without gaps.
pub struct Series {
    runs: Vec<SeriesRun>,
    points: usize,
}

/// Points at ascending times.
pub struct SeriesRun {
    ts: Vec<i64>,
    values: Vec<Float64>,
}

/// The mathematical value of a run.
#[verifier::ext_equal]
pub struct RunView {
    pub ts: Seq<i64>,
    pub values: Seq<Float64>,
}

impl View for SeriesRun {
    type V = RunView;

    closed spec fn view(&self) -> RunView {
        RunView { ts: self.ts@, values: self.values@ }
    }
}

/// The mathematical value of a series.
#[verifier::ext_equal]
pub struct SeriesView {
    pub runs: Seq<RunView>,
    pub points: usize,
}

impl View for Series {
    type V = SeriesView;

    closed spec fn view(&self) -> SeriesView {
        SeriesView { runs: views(self.runs@), points: self.points }
    }
}

/// Why some points do not form a series.
#[derive(Debug, Clone, Copy, PartialEq, Eq, Structural)]
pub enum SeriesError {
    LengthMismatch,
    TimestampsNotStrictlyIncreasing,
    NonFiniteValue,
    PointCountOverflow,
}

/// Times and values of one run.
pub open spec fn run_of(run: (Vec<i64>, Vec<Float64>)) -> RunView {
    RunView { ts: run.0@, values: run.1@ }
}

pub open spec fn runs_of(runs: Seq<(Vec<i64>, Vec<Float64>)>) -> Seq<RunView> {
    Seq::new(runs.len(), |i: int| run_of(runs[i]))
}

pub open spec fn rises(ts: Seq<i64>) -> bool {
    forall|i: int| 0 < i < ts.len() ==> ts[i - 1] < #[trigger] ts[i]
}

pub open spec fn all_finite(values: Seq<Float64>) -> bool {
    forall|i: int| 0 <= i < values.len() ==> (#[trigger] values[i]).finite()
}

/// The series once a run has been added, or why it cannot be.
pub open spec fn with_run(series: SeriesView, run: RunView) -> Result<SeriesView, SeriesError> {
    if run.ts.len() != run.values.len() {
        Err(SeriesError::LengthMismatch)
    } else if !rises(run.ts) || (series.runs.len() > 0 && run.ts.len() > 0
        && series.runs.last().ts.last() >= run.ts[0]) {
        Err(SeriesError::TimestampsNotStrictlyIncreasing)
    } else if !all_finite(run.values) {
        Err(SeriesError::NonFiniteValue)
    } else if series.points + run.ts.len() > usize::MAX {
        Err(SeriesError::PointCountOverflow)
    } else {
        Ok(
            SeriesView {
                runs: if run.ts.len() > 0 {
                    series.runs.push(run)
                } else {
                    series.runs
                },
                points: (series.points + run.ts.len()) as usize,
            },
        )
    }
}

/// The series of some runs, or the first reason why they form none.
pub open spec fn series_of(runs: Seq<RunView>) -> Result<SeriesView, SeriesError>
    decreases runs.len(),
{
    if runs.len() == 0 {
        Ok(SeriesView { runs: Seq::empty(), points: 0 })
    } else {
        match series_of(runs.drop_last()) {
            Ok(series) => with_run(series, runs.last()),
            Err(error) => Err(error),
        }
    }
}

proof fn lemma_first_error(runs: Seq<RunView>, n: int)
    requires
        0 <= n <= runs.len(),
        series_of(runs.take(n)) is Err,
    ensures
        series_of(runs) == series_of(runs.take(n)),
    decreases runs.len(),
{
    if n < runs.len() {
        assert(runs.drop_last().take(n) =~= runs.take(n));
        lemma_first_error(runs.drop_last(), n);
    } else {
        assert(runs.take(n) =~= runs);
    }
}

pub open spec fn outcome(r: Result<Series, SeriesError>) -> Result<SeriesView, SeriesError> {
    match r {
        Ok(series) => Ok(series@),
        Err(error) => Err(error),
    }
}

fn check_rises(ts: &Vec<i64>) -> (r: bool)
    ensures
        r == rises(ts@),
{
    let mut i: usize = 1;
    while i < ts.len()
        invariant
            1 <= i,
            forall|j: int| 0 < j < i && j < ts.len() ==> ts@[j - 1] < #[trigger] ts@[j],
        decreases ts.len() - i,
    {
        if ts[i - 1] >= ts[i] {
            return false;
        }
        i = i + 1;
    }
    true
}

fn check_finite(values: &Vec<Float64>) -> (r: bool)
    ensures
        r == all_finite(values@),
{
    let mut i: usize = 0;
    while i < values.len()
        invariant
            i <= values.len(),
            forall|j: int| 0 <= j < i ==> (#[trigger] values@[j]).finite(),
        decreases values.len() - i,
    {
        if !values[i].is_finite() {
            return false;
        }
        i = i + 1;
    }
    true
}

impl Series {
    pub fn new(ts: Vec<i64>, values: Vec<Float64>) -> (r: Result<Self, SeriesError>)
        ensures
            outcome(r) == series_of(seq![RunView { ts: ts@, values: values@ }]),
    {
        let ghost run = RunView { ts: ts@, values: values@ };
        let mut runs: Vec<(Vec<i64>, Vec<Float64>)> = Vec::new();
        runs.push((ts, values));
        proof {
            assert(runs_of(runs@) =~= seq![run]);
        }
        Series::from_runs(runs)
    }

    pub fn from_runs(runs: Vec<(Vec<i64>, Vec<Float64>)>) -> (r: Result<Self, SeriesError>)
        ensures
            outcome(r) == series_of(runs_of(runs@)),
    {
        let ghost all = runs_of(runs@);
        let mut built: Vec<SeriesRun> = Vec::new();
        let mut points: usize = 0;
        let mut previous_last: Option<i64> = None;
        let mut i: usize = 0;
        proof {
            assert(all.take(0) =~= Seq::empty());
            assert(views(built@) =~= Seq::empty());
        }
        while i < runs.len()
            invariant
                i <= runs.len(),
                all == runs_of(runs@),
                series_of(all.take(i as int)) == Ok::<SeriesView, SeriesError>(
                    SeriesView { runs: views(built@), points },
                ),
                match previous_last {
                    Some(last) => built.len() > 0 && built@.last().ts@.len() > 0 && last
                        == built@.last().ts@.last(),
                    None => built.len() == 0,
                },
            decreases runs.len() - i,
        {
            let ts: &Vec<i64> = &runs[i].0;
            let values: &Vec<Float64> = &runs[i].1;
            let ghost run = all[i as int];
            let ghost before = SeriesView { runs: views(built@), points };
            proof {
                assert(all.take(i + 1).drop_last() =~= all.take(i as int));
                assert(all.take(i + 1).last() == run);
                assert(run.ts == ts@ && run.values == values@);
                if built.len() > 0 {
                    assert(views(built@).last() == built@.last()@);
                }
                if with_run(before, run) is Err {
                    lemma_first_error(all, i + 1);
                }
            }
            if ts.len() != values.len() {
                return Err(SeriesError::LengthMismatch);
            }
            if !check_rises(ts) {
                return Err(SeriesError::TimestampsNotStrictlyIncreasing);
            }
            if let Some(previous) = previous_last {
                if ts.len() > 0 && previous >= ts[0] {
                    return Err(SeriesError::TimestampsNotStrictlyIncreasing);
                }
            }
            if !check_finite(values) {
                return Err(SeriesError::NonFiniteValue);
            }
            if ts.len() > usize::MAX - points {
                return Err(SeriesError::PointCountOverflow);
            }
            points = points + ts.len();
            if ts.len() > 0 {
                previous_last = Some(ts[ts.len() - 1]);
                let kept = SeriesRun { ts: ts.clone(), values: values.clone() };
                proof {
                    assert(kept.ts@ =~= ts@);
                    assert(kept.values@ =~= values@);
                }
                let ghost b0 = built@;
                built.push(kept);
                proof {
                    assert(views(built@) =~= views(b0).push(run));
                }
            }
            i = i + 1;
        }
        proof {
            assert(all.take(i as int) =~= all);
        }
        Ok(Series { runs: built, points })
    }

    pub fn runs(&self) -> (r: &[SeriesRun])
        ensures
            views(r@) == self@.runs,
    {
        self.runs.as_slice()
    }

    pub fn len(&self) -> (r: usize)
        ensures
            r == self@.points,
    {
        self.points
    }

    pub fn is_empty(&self) -> (r: bool)
        ensures
            r == (self@.points == 0),
    {
        self.points == 0
    }
}

impl SeriesRun {
    pub fn ts(&self) -> (r: &[i64])
        ensures
            r@ == self@.ts,
    {
        self.ts.as_slice()
    }

    pub fn values(&self) -> (r: &[Float64])
        ensures
            r@ == self@.values,
    {
        self.values.as_slice()
    }
}

/// Whether a series holds finite values at times that ascend from its first
/// run to its last.
pub open spec fn sound(series: SeriesView) -> bool {
    &&& forall|i: int|
        0 <= i < series.runs.len() ==> {
            let run = #[trigger] series.runs[i];
            run.ts.len() > 0 && run.ts.len() == run.values.len() && rises(run.ts) && all_finite(
                run.values,
            )
        }
    &&& forall|i: int|
        0 < i < series.runs.len() ==> series.runs[i - 1].ts.last() < (
        #[trigger] series.runs[i]).ts[0]
}

/// Every series holds finite values at ascending times.
pub proof fn law_series_are_sound(runs: Seq<RunView>)
    requires
        series_of(runs) is Ok,
    ensures
        sound(series_of(runs)->Ok_0),
    decreases runs.len(),
{
    if runs.len() > 0 {
        law_series_are_sound(runs.drop_last());
        let before = series_of(runs.drop_last())->Ok_0;
        let now = series_of(runs)->Ok_0;
        assert forall|i: int| 0 <= i < now.runs.len() implies {
            let run = #[trigger] now.runs[i];
            run.ts.len() > 0 && run.ts.len() == run.values.len() && rises(run.ts) && all_finite(
                run.values,
            )
        } by {
            if i < before.runs.len() {
                assert(now.runs[i] == before.runs[i]);
            }
        }
        assert forall|i: int| 0 < i < now.runs.len() implies now.runs[i - 1].ts.last() < (
        #[trigger] now.runs[i]).ts[0] by {
            if i < before.runs.len() {
                assert(now.runs[i] == before.runs[i]);
            }
        }
    }
}

/// Series by section, column and identity, within a limit on their points.
pub struct SeriesSet {
    series: OrderedMap<TrackKey, Series>,
    points: usize,
    point_limit: usize,
}

/// The mathematical value of a series set.
#[verifier::ext_equal]
pub struct SeriesSetView {
    pub series: Map<TrackId, SeriesView>,
    pub points: usize,
    pub point_limit: usize,
}

impl View for SeriesSet {
    type V = SeriesSetView;

    closed spec fn view(&self) -> SeriesSetView {
        SeriesSetView {
            series: value_views(contents::<TrackId, _, _>(self.series.entries@)),
            points: self.points,
            point_limit: self.point_limit,
        }
    }
}

/// Why a series cannot be added.
#[derive(Debug, Clone, Copy, PartialEq, Eq, Structural)]
pub enum SeriesInsertError {
    Duplicate,
    PointLimit { observed: usize, limit: usize },
}

impl SeriesSetView {
    pub open spec fn empty(point_limit: usize) -> SeriesSetView {
        SeriesSetView { series: Map::empty(), points: 0, point_limit }
    }

    /// The set once a series has been added, or why it cannot be.
    pub open spec fn with(self, id: TrackId, series: SeriesView) -> Result<
        SeriesSetView,
        SeriesInsertError,
    > {
        let observed = self.points + series.points;
        if self.series.dom().contains(id) {
            Err(SeriesInsertError::Duplicate)
        } else if observed > self.point_limit {
            Err(
                SeriesInsertError::PointLimit {
                    observed: if observed <= usize::MAX {
                        observed as usize
                    } else {
                        usize::MAX
                    },
                    limit: self.point_limit,
                },
            )
        } else {
            Ok(
                SeriesSetView {
                    series: self.series.insert(id, series),
                    points: observed as usize,
                    ..self
                },
            )
        }
    }

    /// The series that an episode refers to.
    pub open spec fn of_episode(self, reference: EpisodeView) -> Option<SeriesView> {
        let id = TrackId {
            section: reference.logical_section,
            column: reference.column,
            identity: reference.identity,
        };
        if self.series.dom().contains(id) {
            Some(self.series[id])
        } else {
            None
        }
    }
}

impl SeriesSet {
    #[verifier::type_invariant]
    spec fn is_bounded(self) -> bool {
        &&& well_formed::<TrackId, _, _>(self.series.entries@)
        &&& self.points <= self.point_limit
    }

    pub fn new(point_limit: usize) -> (r: Self)
        ensures
            r@ == SeriesSetView::empty(point_limit),
    {
        let r = SeriesSet { series: OrderedMap::new::<TrackId>(), points: 0, point_limit };
        proof {
            assert(r@ =~= SeriesSetView::empty(point_limit));
        }
        r
    }

    pub fn for_test(point_limit: usize) -> (r: Self)
        ensures
            r@ == SeriesSetView::empty(point_limit),
    {
        SeriesSet::new(point_limit)
    }

    pub fn remaining_points(&self) -> (r: usize)
        ensures
            r == self@.point_limit - self@.points,
    {
        proof {
            use_type_invariant(&*self);
        }
        self.point_limit - self.points
    }

    pub fn point_limit(&self) -> (r: usize)
        ensures
            r == self@.point_limit,
    {
        self.point_limit
    }

    fn find(&self, section: &str, column: &str, identity: &[IdentityValue]) -> (r: Option<&Series>)
        ensures
            ({
                let id = TrackId {
                    section: section@,
                    column: column@,
                    identity: views(identity@),
                };
                match r {
                    Some(series) => self@.series.dom().contains(id) && series@
                        == self@.series[id],
                    None => !self@.series.dom().contains(id),
                }
            }),
    {
        proof {
            use_type_invariant(&*self);
        }
        let key: Vec<i128> = track_key(section, column, identity);
        let ghost id = TrackId {
            section: section@,
            column: column@,
            identity: views(identity@),
        };
        assert(id.rank() == ints(key@));
        let found = self.series.get_by_key::<TrackId>(&key);
        assert(contents::<TrackId, _, _>(self.series.entries@).dom().contains(id)
            == self@.series.dom().contains(id));
        found
    }

    pub fn contains(
        &self,
        section: &'static str,
        column: &'static str,
        identity: &[IdentityValue],
    ) -> (r: bool)
        ensures
            r == self@.series.dom().contains(
                TrackId { section: section@, column: column@, identity: views(identity@) },
            ),
    {
        self.find(section, column, identity).is_some()
    }

    /// Adds a series, unless it is known or exceeds the limit on points.
    pub fn insert(
        &mut self,
        section: &'static str,
        column: &'static str,
        identity: Vec<IdentityValue>,
        series: Series,
    ) -> (r: Result<(), SeriesInsertError>)
        ensures
            match old(self)@.with(
                TrackId { section: section@, column: column@, identity: views(identity@) },
                series@,
            ) {
                Ok(next) => r is Ok && final(self)@ == next,
                Err(error) => r == Err::<(), _>(error) && final(self)@ == old(self)@,
            },
    {
        let ghost before = self@;
        if self.contains(section, column, identity.as_slice()) {
            return Err(SeriesInsertError::Duplicate);
        }
        let count: usize = series.len();
        if count > usize::MAX - self.points {
            proof {
                use_type_invariant(&*self);
            }
            return Err(
                SeriesInsertError::PointLimit { observed: usize::MAX, limit: self.point_limit },
            );
        }
        let observed: usize = self.points + count;
        if observed > self.point_limit {
            return Err(SeriesInsertError::PointLimit { observed, limit: self.point_limit });
        }
        proof {
            use_type_invariant(&*self);
        }
        let name = TrackKey { section, column, identity };
        proof {
            lemma_value_views_insert(
                contents::<TrackId, _, _>(self.series.entries@),
                name@,
                series,
            );
        }
        let mut held = OrderedMap { entries: Vec::new() };
        std::mem::swap(&mut self.series, &mut held);
        held.insert::<TrackId>(name, series);
        self.series = held;
        self.points = observed;
        Ok(())
    }

    /// The series of an episode, paid for before it is read.
    pub fn get<'a>(&'a self, reference: &EpisodeRefV1, sink: &mut FindingSink<'_>) -> (r: Result<
        Option<&'a Series>,
        LimitHit,
    >)
        ensures
            match self@.of_episode(reference@) {
                Some(series) => {
                    &&& final(sink)@.state == step(
                        old(sink)@.state,
                        old(sink)@.rules,
                        Step::Charge(series.points),
                    )
                    &&& match r {
                        Ok(found) => found is Some && found->Some_0@ == series
                            && final(sink)@.state.hit is None,
                        Err(hit) => final(sink)@.state.hit == Some(hit),
                    }
                },
                None => r is Ok && r->Ok_0 is None && final(sink)@.state == old(sink)@.state,
            },
            final(sink)@.rules == old(sink)@.rules,
            *final(final(sink).findings) == *final(old(sink).findings),
            *final(final(sink).budget) == *final(old(sink).budget),
            *final(final(sink).counts) == *final(old(sink).counts),
    {
        match self.lookup(reference) {
            Some(series) => match sink.charge_points(series.len()) {
                Ok(_) => Ok(Some(series)),
                Err(hit) => Err(hit),
            },
            None => Ok(None),
        }
    }

    pub fn lookup(&self, reference: &EpisodeRefV1) -> (r: Option<&Series>)
        ensures
            match r {
                Some(series) => self@.of_episode(reference@) == Some(series@),
                None => self@.of_episode(reference@) is None,
            },
    {
        self.find(reference.logical_section, reference.column, reference.identity.as_slice())
    }
}

} // verus!
