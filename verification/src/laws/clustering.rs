//! Which episodes belong together, in their times.

use crate::cluster::{
    chained, cluster_refusal, clustered, covers, law_clusters_partition_the_episodes,
    law_members_are_within_epsilon, near_pairs, ClusterView,
};
use crate::model::EpisodeView;
use crate::order::{lemma_ranked_sort, rank_order, ranked_sort, Ranked};
use vstd::prelude::*;

verus! {

/// An episode opens a new cluster only if it starts later than epsilon after the
/// end of the cluster before it, or if their common interval, from the start of
/// that cluster to the later of both ends, is longer than the span cap.
pub proof fn law_neighbours_could_not_be_one_cluster(
    episodes: Seq<EpisodeView>,
    epsilon_us: i64,
    max_span_us: i64,
    i: int,
)
    requires
        cluster_refusal(episodes, epsilon_us, max_span_us) is None,
        0 <= i < clustered(episodes, epsilon_us, max_span_us).clusters.len() - 1,
    ensures
        ({
            let clusters = clustered(episodes, epsilon_us, max_span_us).clusters;
            let earlier = clusters[i];
            let next = clusters[i + 1].members[0];
            let common_end = if next.end_us > earlier.end_us {
                next.end_us
            } else {
                earlier.end_us
            };
            next.start_us - earlier.end_us > epsilon_us || common_end - earlier.start_us
                > max_span_us
        }),
{
    law_clusters_partition_the_episodes(episodes, epsilon_us, max_span_us);
}

/// The interval of a cluster is that of its members together: it starts with
/// the earliest start, ends with the latest end, and is within the span cap.
pub proof fn law_a_cluster_spans_its_members(
    episodes: Seq<EpisodeView>,
    epsilon_us: i64,
    max_span_us: i64,
    i: int,
)
    requires
        cluster_refusal(episodes, epsilon_us, max_span_us) is None,
        0 <= i < clustered(episodes, epsilon_us, max_span_us).clusters.len(),
    ensures
        ({
            let cluster = clustered(episodes, epsilon_us, max_span_us).clusters[i];
            &&& cluster.members.len() > 0
            &&& forall|k: int|
                0 <= k < cluster.members.len() ==> cluster.start_us <= (
                #[trigger] cluster.members[k]).start_us && cluster.members[k].end_us
                    <= cluster.end_us
            &&& exists|k: int|
                0 <= k < cluster.members.len() && (#[trigger] cluster.members[k]).start_us
                    == cluster.start_us
            &&& exists|k: int|
                0 <= k < cluster.members.len() && (#[trigger] cluster.members[k]).end_us
                    == cluster.end_us
            &&& cluster.end_us - cluster.start_us <= max_span_us
        }),
{
    law_clusters_partition_the_episodes(episodes, epsilon_us, max_span_us);
    let cluster = clustered(episodes, epsilon_us, max_span_us).clusters[i];
    assert(cluster.members[0].start_us == cluster.start_us);
}

/// Episodes are swept by start, and those of one start by end.
pub proof fn law_episodes_are_swept_in_time(episodes: Seq<EpisodeView>, i: int, j: int)
    requires
        0 <= i < j < episodes.len(),
    ensures
        ({
            let swept = ranked_sort(episodes);
            &&& swept[i].start_us <= swept[j].start_us
            &&& swept[i].start_us == swept[j].start_us ==> swept[i].end_us <= swept[j].end_us
        }),
{
    lemma_ranked_sort(episodes);
    let swept = ranked_sort(episodes);
    assert(rank_order::<EpisodeView>()(swept[i], swept[j]));
    let a = swept[i].rank();
    let b = swept[j].rank();
    assert(a[0] == swept[i].start_us && b[0] == swept[j].start_us);
    assert(a[1] == swept[i].end_us && b[1] == swept[j].end_us);
    assert(a.drop_first()[0] == a[1] && b.drop_first()[0] == b[1]);
    assert(a.len() >= 2 && b.len() >= 2);
    reveal_with_fuel(crate::order::lex_less, 3);
}

/// Every later member of a cluster starts at most epsilon after the end of an
/// earlier one.
pub proof fn law_members_start_within_epsilon(
    episodes: Seq<EpisodeView>,
    epsilon_us: i64,
    max_span_us: i64,
    i: int,
    k: int,
)
    requires
        cluster_refusal(episodes, epsilon_us, max_span_us) is None,
        0 <= i < clustered(episodes, epsilon_us, max_span_us).clusters.len(),
        0 < k < clustered(episodes, epsilon_us, max_span_us).clusters[i].members.len(),
    ensures
        exists|j: int|
            0 <= j < k && clustered(
                episodes,
                epsilon_us,
                max_span_us,
            ).clusters[i].members[k].start_us - (#[trigger] clustered(
                episodes,
                epsilon_us,
                max_span_us,
            ).clusters[i].members[j]).end_us <= epsilon_us,
{
    law_members_are_within_epsilon(episodes, epsilon_us, max_span_us);
    let cluster = clustered(episodes, epsilon_us, max_span_us).clusters[i];
    assert(chained(cluster, epsilon_us as int));
    let member = cluster.members[k];
}

/// How many clusters start at most epsilon after the end of the one before.
pub open spec fn close_neighbours(clusters: Seq<ClusterView>, epsilon_us: int) -> nat
    decreases clusters.len(),
{
    if clusters.len() < 2 {
        0
    } else {
        let n = clusters.len() - 1;
        close_neighbours(clusters.drop_last(), epsilon_us) + if clusters[n].start_us - clusters[n
            - 1].end_us <= epsilon_us {
            1nat
        } else {
            0
        }
    }
}

/// The splits counted are those of clusters that only the span cap kept apart.
pub proof fn law_splits_are_close_neighbours(
    episodes: Seq<EpisodeView>,
    epsilon_us: i64,
    max_span_us: i64,
)
    requires
        cluster_refusal(episodes, epsilon_us, max_span_us) is None,
    ensures
        ({
            let out = clustered(episodes, epsilon_us, max_span_us);
            out.span_splits == close_neighbours(out.clusters, epsilon_us as int)
        }),
{
    law_members_are_within_epsilon(episodes, epsilon_us, max_span_us);
    law_clusters_partition_the_episodes(episodes, epsilon_us, max_span_us);
    let clusters = clustered(episodes, epsilon_us, max_span_us).clusters;
    assert forall|i: int| 0 <= i < clusters.len() implies (#[trigger] clusters[i]).members.len() > 0
        && clusters[i].members[0].start_us == clusters[i].start_us by {
        assert(covers(clusters[i], max_span_us as int));
    }
    lemma_neighbours(clusters, epsilon_us as int);
}

proof fn lemma_neighbours(clusters: Seq<ClusterView>, epsilon_us: int)
    requires
        forall|i: int|
            0 <= i < clusters.len() ==> (#[trigger] clusters[i]).members.len() > 0
                && clusters[i].members[0].start_us == clusters[i].start_us,
    ensures
        near_pairs(clusters, epsilon_us) == close_neighbours(clusters, epsilon_us),
    decreases clusters.len(),
{
    if clusters.len() >= 2 {
        let front = clusters.drop_last();
        assert forall|i: int| 0 <= i < front.len() implies (#[trigger] front[i]).members.len() > 0
            && front[i].members[0].start_us == front[i].start_us by {
            assert(front[i] == clusters[i]);
        }
        lemma_neighbours(front, epsilon_us);
        let n = clusters.len() - 1;
        assert(clusters[n].members.len() > 0 && clusters[n - 1].members.len() > 0);
    }
}

/// What cannot be clustered: a negative distance or cap, a distance beyond the
/// cap, an episode that ends before it starts, and one longer than the cap.
pub proof fn law_unfit_episodes_are_refused(
    episodes: Seq<EpisodeView>,
    epsilon_us: i64,
    max_span_us: i64,
)
    ensures
        cluster_refusal(episodes, epsilon_us, max_span_us) is None <==> {
            &&& 0 <= epsilon_us <= max_span_us
            &&& forall|i: int|
                0 <= i < episodes.len() ==> 0 <= (#[trigger] episodes[i]).end_us
                    - episodes[i].start_us <= max_span_us
        },
{
}

} // verus!
