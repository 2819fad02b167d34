//! What is taken in, and what is turned away.

use crate::entity_join::{EntityJoinInsert, EntityJoinView, Relation};
use crate::events::{ErrorGroupView, EventsView, LifecycleEvent};
use crate::model::EpisodeView;
use crate::series::{series_of, RunView, SeriesInsertError, SeriesSetView, SeriesView};
use crate::typed::inputs::TrackId;
use vstd::prelude::*;

verus! {

/// A series is taken in exactly if there is none of its name and its points fit;
/// then episodes of its name refer to it, and all others to what they did.
pub proof fn law_a_series_is_read_back(
    set: SeriesSetView,
    id: TrackId,
    series: SeriesView,
    episode: EpisodeView,
)
    ensures
        ({
            let known = set.series.dom().contains(id);
            let named = episode.logical_section == id.section && episode.column == id.column
                && episode.identity == id.identity;
            match set.with(id, series) {
                Ok(after) => {
                    &&& !known
                    &&& set.points + series.points <= set.point_limit
                    &&& after.points == set.points + series.points
                    &&& after.point_limit == set.point_limit
                    &&& after.of_episode(episode) == if named {
                        Some(series)
                    } else {
                        set.of_episode(episode)
                    }
                },
                Err(SeriesInsertError::Duplicate) => known,
                Err(SeriesInsertError::PointLimit { limit, .. }) => !known && set.points
                    + series.points > limit && limit == set.point_limit,
            }
        }),
{
}

/// Whether runs hold finite values at times that rise within each and from one
/// to the next.
pub open spec fn are_ordered_runs(runs: Seq<RunView>) -> bool {
    &&& forall|i: int|
        0 <= i < runs.len() ==> {
            let run = #[trigger] runs[i];
            &&& 0 < run.ts.len() == run.values.len()
            &&& forall|j: int, k: int|
                0 <= j < k < run.ts.len() ==> #[trigger] run.ts[j] < #[trigger] run.ts[k]
            &&& forall|j: int| 0 <= j < run.values.len() ==> (#[trigger] run.values[j]).finite()
        }
    &&& forall|i: int|
        0 < i < runs.len() ==> runs[i - 1].ts.last() < (#[trigger] runs[i]).ts[0]
}

/// The points of some runs.
pub open spec fn run_points(runs: Seq<RunView>) -> nat
    decreases runs.len(),
{
    if runs.len() == 0 {
        0
    } else {
        run_points(runs.drop_last()) + runs.last().ts.len()
    }
}

/// Ordered runs form a series of just these runs.
pub proof fn law_ordered_runs_form_a_series(runs: Seq<RunView>)
    requires
        are_ordered_runs(runs),
        run_points(runs) <= usize::MAX,
    ensures
        series_of(runs) is Ok,
        series_of(runs)->Ok_0.runs == runs,
        series_of(runs)->Ok_0.points == run_points(runs),
    decreases runs.len(),
{
    if runs.len() > 0 {
        let front = runs.drop_last();
        let n = runs.len() - 1;
        assert(runs[n] == runs.last());
        assert forall|i: int| 0 <= i < front.len() implies #[trigger] front[i] == runs[i] by {}
        assert(are_ordered_runs(front)) by {
            assert forall|i: int| 0 < i < front.len() implies front[i - 1].ts.last() < (
            #[trigger] front[i]).ts[0] by {
                assert(runs[i - 1].ts.last() < runs[i].ts[0]);
            }
        }
        law_ordered_runs_form_a_series(front);
        if n > 0 {
            assert(front.last() == runs[n - 1]);
            assert(runs[n - 1].ts.last() < runs[n].ts[0]);
        }
        assert(front.push(runs.last()) =~= runs);
    } else {
        assert(series_of(runs)->Ok_0.runs =~= runs);
    }
}

/// Log rows are kept in the order of their arrival, as long as there is room for
/// their kind.
pub proof fn law_rows_are_kept_in_order(
    events: EventsView,
    group: ErrorGroupView,
    event: LifecycleEvent,
)
    ensures
        ({
            let a = events.with_error(group);
            let b = events.with_lifecycle(event);
            &&& events.errors.len() < events.limits.max_error_groups ==> a.errors
                == events.errors.push(group) && a.overflow == events.overflow
            &&& events.errors.len() >= events.limits.max_error_groups ==> a.errors == events.errors
                && a.overflow
            &&& a.lifecycle == events.lifecycle && a.coverage == events.coverage && a.limits
                == events.limits
            &&& events.lifecycle.len() < events.limits.max_lifecycle_events ==> b.lifecycle
                == events.lifecycle.push(event) && b.overflow == events.overflow
            &&& events.lifecycle.len() >= events.limits.max_lifecycle_events ==> b.lifecycle
                == events.lifecycle && b.overflow
            &&& b.errors == events.errors && b.coverage == events.coverage && b.limits
                == events.limits
        }),
{
}

/// A relation is taken in exactly if it is new and there is room for it.
pub proof fn law_a_new_relation_is_taken_in(index: EntityJoinView, relation: Relation, other: Relation)
    requires
        index.counted(),
    ensures
        ({
            let known = index.relations.contains(relation);
            let fits = index.relation_count < index.relation_limit;
            let after = index.offered(relation);
            &&& index.verdict(relation) == EntityJoinInsert::Inserted <==> !known && fits
            &&& index.verdict(relation) == EntityJoinInsert::Duplicate <==> known
            &&& after.relations.contains(other) <==> index.relations.contains(other) || (other
                == relation && fits)
            &&& after.relation_count == index.relation_count + if !known && fits {
                1int
            } else {
                0
            }
            &&& after.scope == index.scope
            &&& after.relation_limit == index.relation_limit
        }),
{
}

} // verus!
