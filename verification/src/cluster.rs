//! Sweep-line clustering of anomaly episodes.

use crate::model::{EpisodeRefV1, EpisodeView, IdentityValue};
use crate::order::{
    lemma_ranked_sort, lemma_ranked_sort_order_free, rank_order, ranked_sort, sort_ranked, views,
    Ranked,
};
use crate::text::text_eq;
use vstd::prelude::*;

verus! {

/// A time-contiguous group of episodes and its covering interval.
pub struct Cluster {
    pub start_us: i64,
    pub end_us: i64,
    pub members: Vec<EpisodeRefV1>,
}

/// The mathematical value of a cluster.
#[verifier::ext_equal]
pub struct ClusterView {
    pub start_us: i64,
    pub end_us: i64,
    pub members: Seq<EpisodeView>,
}

impl View for Cluster {
    type V = ClusterView;

    open spec fn view(&self) -> ClusterView {
        ClusterView {
            start_us: self.start_us,
            end_us: self.end_us,
            members: views(self.members@),
        }
    }
}

/// Whether a member of another section shares an identity scalar with `anchor`.
pub open spec fn joins(member: EpisodeView, anchor: EpisodeView) -> bool {
    &&& member.logical_section != anchor.logical_section
    &&& exists|i: int|
        0 <= i < member.identity.len() && anchor.identity.contains(#[trigger] member.identity[i])
}

/// Whether `scalar` occurs in `identity`.
fn holds_scalar(identity: &[IdentityValue], scalar: &IdentityValue) -> (r: bool)
    ensures
        r == views(identity@).contains(scalar@),
{
    let mut i: usize = 0;
    while i < identity.len()
        invariant
            i <= identity.len(),
            forall|j: int| 0 <= j < i ==> #[trigger] identity@[j]@ != scalar@,
        decreases identity.len() - i,
    {
        if identity[i].same(scalar) {
            proof {
                assert(views(identity@)[i as int] == scalar@);
            }
            return true;
        }
        i = i + 1;
    }
    proof {
        assert forall|j: int| 0 <= j < identity.len() implies views(identity@)[j] != scalar@ by {
            assert(identity@[j]@ != scalar@);
        }
    }
    false
}

impl ClusterView {
    pub open spec fn of_one(episode: EpisodeView) -> ClusterView {
        ClusterView {
            start_us: episode.start_us,
            end_us: episode.end_us,
            members: seq![episode],
        }
    }

    /// Whether `episode` starts no later than `epsilon_us` past the end.
    pub open spec fn reaches(self, episode: EpisodeView, epsilon_us: int) -> bool {
        episode.start_us - self.end_us <= epsilon_us
    }

    /// The end once `episode` has joined.
    pub open spec fn end_with(self, episode: EpisodeView) -> i64 {
        if episode.end_us > self.end_us {
            episode.end_us
        } else {
            self.end_us
        }
    }

    /// Whether the span stays within the cap once `episode` has joined.
    pub open spec fn fits(self, episode: EpisodeView, max_span_us: int) -> bool {
        self.end_with(episode) - self.start_us <= max_span_us
    }

    pub open spec fn with(self, episode: EpisodeView) -> ClusterView {
        ClusterView {
            end_us: self.end_with(episode),
            members: self.members.push(episode),
            ..self
        }
    }
}

impl Cluster {
    pub fn singleton(episode: EpisodeRefV1) -> (r: Self)
        ensures
            r@ == ClusterView::of_one(episode@),
    {
        let start_us: i64 = episode.start_us;
        let end_us: i64 = episode.end_us;
        let ghost v = episode@;
        let mut members: Vec<EpisodeRefV1> = Vec::new();
        members.push(episode);
        proof {
            assert(views(members@) =~= seq![v]);
        }
        Cluster { start_us, end_us, members }
    }

    /// Members of other sections whose identity shares a scalar with `anchor`.
    pub fn joined_by_identity<'a>(&'a self, anchor: &EpisodeRefV1) -> (out: Vec<&'a EpisodeRefV1>)
        ensures
            views(out@) == self@.members.filter(|member: EpisodeView| joins(member, anchor@)),
    {
        let ghost test = |member: EpisodeView| joins(member, anchor@);
        let ghost all = self@.members;
        let mut out: Vec<&'a EpisodeRefV1> = Vec::new();
        let mut i: usize = 0;
        proof {
            reveal(Seq::filter);
            assert(all.take(0).filter(test) =~= Seq::empty());
            assert(views(out@) =~= Seq::empty());
        }
        while i < self.members.len()
            invariant
                i <= self.members.len(),
                all == views(self.members@),
                test == (|member: EpisodeView| joins(member, anchor@)),
                views(out@) == all.take(i as int).filter(test),
            decreases self.members.len() - i,
        {
            let member: &'a EpisodeRefV1 = &self.members[i];
            let mut shared: bool = false;
            if !text_eq(member.logical_section, anchor.logical_section) {
                let mut k: usize = 0;
                while k < member.identity.len() && !shared
                    invariant
                        k <= member.identity.len(),
                        !shared ==> forall|j: int|
                            0 <= j < k ==> !anchor@.identity.contains(
                                #[trigger] member@.identity[j],
                            ),
                        shared ==> exists|j: int|
                            0 <= j < member@.identity.len() && anchor@.identity.contains(
                                #[trigger] member@.identity[j],
                            ),
                    decreases member.identity.len() - k,
                {
                    shared = holds_scalar(anchor.identity.as_slice(), &member.identity[k]);
                    proof {
                        assert(member@.identity[k as int] == member.identity@[k as int]@);
                    }
                    k = k + 1;
                }
            }
            proof {
                reveal(Seq::filter);
                let next = all.take(i + 1);
                assert(next.drop_last() =~= all.take(i as int));
                assert(next.last() == member@);
                assert(shared == test(member@));
            }
            if shared {
                out.push(member);
                proof {
                    assert(views(out@) =~= all.take(i as int).filter(test).push(member@));
                }
            }
            i = i + 1;
        }
        proof {
            assert(all.take(i as int) =~= all);
        }
        out
    }
}

/// Clusters and how often the span cap separated neighbours.
pub struct ClusterOutcome {
    pub clusters: Vec<Cluster>,
    pub span_splits: u64,
}

/// Why episodes cannot be clustered.
#[derive(Debug, Clone, Copy, PartialEq, Eq, Structural)]
pub enum ClusterError {
    NegativeEpsilon,
    NegativeMaxSpan,
    EpsilonExceedsMaxSpan,
    InvalidInterval,
    EpisodeExceedsMaxSpan,
    SplitCountOverflow,
}

/// The clusters that a sweep has formed, the last one still open.
#[verifier::ext_equal]
pub struct Sweep {
    pub clusters: Seq<ClusterView>,
    pub span_splits: nat,
}

/// The sweep over `episodes` in the given order.
pub open spec fn sweep(episodes: Seq<EpisodeView>, epsilon_us: int, max_span_us: int) -> Sweep
    decreases episodes.len(),
{
    if episodes.len() == 0 {
        Sweep { clusters: Seq::empty(), span_splits: 0 }
    } else {
        let before = sweep(episodes.drop_last(), epsilon_us, max_span_us);
        let episode = episodes.last();
        if before.clusters.len() == 0 {
            Sweep { clusters: seq![ClusterView::of_one(episode)], span_splits: 0 }
        } else {
            let open = before.clusters.last();
            let reached = open.reaches(episode, epsilon_us);
            if reached && open.fits(episode, max_span_us) {
                Sweep {
                    clusters: before.clusters.drop_last().push(open.with(episode)),
                    ..before
                }
            } else {
                Sweep {
                    clusters: before.clusters.push(ClusterView::of_one(episode)),
                    span_splits: before.span_splits + if reached {
                        1nat
                    } else {
                        0
                    },
                }
            }
        }
    }
}

/// The first reason why the request cannot be clustered.
pub open spec fn cluster_refusal(
    episodes: Seq<EpisodeView>,
    epsilon_us: i64,
    max_span_us: i64,
) -> Option<ClusterError> {
    if epsilon_us < 0 {
        Some(ClusterError::NegativeEpsilon)
    } else if max_span_us < 0 {
        Some(ClusterError::NegativeMaxSpan)
    } else if epsilon_us > max_span_us {
        Some(ClusterError::EpsilonExceedsMaxSpan)
    } else if exists|i: int|
        0 <= i < episodes.len() && (#[trigger] episodes[i]).start_us > episodes[i].end_us {
        Some(ClusterError::InvalidInterval)
    } else if exists|i: int|
        0 <= i < episodes.len() && (#[trigger] episodes[i]).end_us - episodes[i].start_us
            > max_span_us {
        Some(ClusterError::EpisodeExceedsMaxSpan)
    } else {
        None
    }
}

/// The clusters of some episodes, whatever their order.
pub open spec fn clustered(episodes: Seq<EpisodeView>, epsilon_us: i64, max_span_us: i64) -> Sweep {
    sweep(ranked_sort(episodes), epsilon_us as int, max_span_us as int)
}

/// Groups episodes separated by at most `epsilon_us` without exceeding the span
/// cap.
pub fn cluster_episodes(
    episodes: Vec<EpisodeRefV1>,
    epsilon_us: i64,
    max_cluster_span_us: i64,
) -> (r: Result<ClusterOutcome, ClusterError>)
    ensures
        match cluster_refusal(views(episodes@), epsilon_us, max_cluster_span_us) {
            Some(error) => r is Err && r->Err_0 == error,
            None => r is Ok && views(r->Ok_0.clusters@) == clustered(
                views(episodes@),
                epsilon_us,
                max_cluster_span_us,
            ).clusters && r->Ok_0.span_splits == clustered(
                views(episodes@),
                epsilon_us,
                max_cluster_span_us,
            ).span_splits,
        },
{
    if epsilon_us < 0 {
        return Err(ClusterError::NegativeEpsilon);
    }
    if max_cluster_span_us < 0 {
        return Err(ClusterError::NegativeMaxSpan);
    }
    if epsilon_us > max_cluster_span_us {
        return Err(ClusterError::EpsilonExceedsMaxSpan);
    }
    let ghost given = views(episodes@);
    let mut i: usize = 0;
    while i < episodes.len()
        invariant
            i <= episodes.len(),
            given == views(episodes@),
            0 <= epsilon_us <= max_cluster_span_us,
            forall|j: int| 0 <= j < i ==> (#[trigger] given[j]).start_us <= given[j].end_us,
        decreases episodes.len() - i,
    {
        proof {
            assert(given[i as int] == episodes@[i as int]@);
        }
        if episodes[i].start_us > episodes[i].end_us {
            return Err(ClusterError::InvalidInterval);
        }
        i = i + 1;
    }
    i = 0;
    while i < episodes.len()
        invariant
            i <= episodes.len(),
            given == views(episodes@),
            0 <= epsilon_us <= max_cluster_span_us,
            forall|j: int|
                0 <= j < given.len() ==> (#[trigger] given[j]).start_us <= given[j].end_us,
            forall|j: int|
                0 <= j < i ==> (#[trigger] given[j]).end_us - given[j].start_us
                    <= max_cluster_span_us,
        decreases episodes.len() - i,
    {
        proof {
            assert(given[i as int] == episodes@[i as int]@);
        }
        if episodes[i].end_us as i128 - episodes[i].start_us as i128 > max_cluster_span_us as i128 {
            return Err(ClusterError::EpisodeExceedsMaxSpan);
        }
        i = i + 1;
    }
    let mut sorted: Vec<EpisodeRefV1> = sort_ranked(episodes);
    let ghost order = views(sorted@);
    // Taken from the back, so that the front of the order comes first.
    let mut pending: Vec<EpisodeRefV1> = Vec::new();
    while sorted.len() > 0
        invariant
            sorted.len() + pending.len() == order.len(),
            forall|j: int| 0 <= j < sorted.len() ==> #[trigger] sorted@[j]@ == order[j],
            forall|j: int|
                0 <= j < pending.len() ==> #[trigger] pending@[j]@ == order[order.len() - 1 - j],
        decreases sorted.len(),
    {
        let episode: EpisodeRefV1 = sorted.pop().unwrap();
        pending.push(episode);
    }
    let ghost total = order.len();
    let mut clusters: Vec<Cluster> = Vec::new();
    let mut span_splits: u64 = 0;
    let mut open: Option<Cluster> = None;
    proof {
        assert(order.take(0) =~= Seq::empty());
        assert(so_far(clusters@, open) =~= Seq::empty());
    }
    while pending.len() > 0
        invariant
            0 <= epsilon_us <= max_cluster_span_us,
            total == order.len(),
            pending.len() <= total,
            total <= usize::MAX,
            forall|j: int|
                0 <= j < pending.len() ==> #[trigger] pending@[j]@ == order[total - 1 - j],
            ({
                let done = sweep(
                    order.take(total - pending.len()),
                    epsilon_us as int,
                    max_cluster_span_us as int,
                );
                &&& so_far(clusters@, open) == done.clusters
                &&& open is None ==> done.clusters.len() == 0
                &&& span_splits == done.span_splits
                &&& span_splits <= total - pending.len()
            }),
        decreases pending.len(),
    {
        let ghost done_before = order.take(total - pending.len());
        let episode: EpisodeRefV1 = pending.pop().unwrap();
        let ghost v = episode@;
        proof {
            let next = order.take(total - pending.len());
            assert(next.drop_last() =~= done_before);
            assert(next.last() == v);
        }
        let ghost before = so_far(clusters@, open);
        match open {
            None => {
                open = Some(Cluster::singleton(episode));
                proof {
                    assert(clusters@.len() == 0);
                    assert(so_far(clusters@, open) =~= seq![ClusterView::of_one(v)]);
                }
            },
            Some(mut current) => {
                let ghost c0 = current@;
                proof {
                    assert(before.last() == c0);
                    assert(before.drop_last() =~= views(clusters@));
                }
                let joinable: bool = episode.start_us as i128 - current.end_us as i128
                    <= epsilon_us as i128;
                let merged_end: i64 = if episode.end_us > current.end_us {
                    episode.end_us
                } else {
                    current.end_us
                };
                let span_fits: bool = merged_end as i128 - current.start_us as i128
                    <= max_cluster_span_us as i128;
                if joinable && span_fits {
                    let ghost m0 = current.members@;
                    current.end_us = merged_end;
                    current.members.push(episode);
                    proof {
                        assert(views(current.members@) =~= views(m0).push(v));
                        assert(current@ =~= c0.with(v));
                    }
                    open = Some(current);
                    proof {
                        assert(so_far(clusters@, open) =~= before.drop_last().push(c0.with(v)));
                    }
                } else {
                    if joinable {
                        span_splits = span_splits + 1;
                    }
                    clusters.push(current);
                    open = Some(Cluster::singleton(episode));
                    proof {
                        assert(so_far(clusters@, open) =~= before.push(ClusterView::of_one(v)));
                    }
                }
            },
        }
    }
    proof {
        assert(order.take(total as int) =~= order);
    }
    let ghost formed = so_far(clusters@, open);
    if let Some(last) = open {
        clusters.push(last);
    }
    proof {
        assert(views(clusters@) =~= formed);
    }
    Ok(ClusterOutcome { clusters, span_splits })
}

spec fn so_far(clusters: Seq<Cluster>, open: Option<Cluster>) -> Seq<ClusterView> {
    match open {
        Some(last) => views(clusters).push(last@),
        None => views(clusters),
    }
}

// Laws of clustering.

/// The members of all clusters, one cluster after another.
pub open spec fn all_members(clusters: Seq<ClusterView>) -> Seq<EpisodeView>
    decreases clusters.len(),
{
    if clusters.len() == 0 {
        Seq::empty()
    } else {
        all_members(clusters.drop_last()) + clusters.last().members
    }
}

/// A cluster covers its members, starts with its first and stays in the cap.
pub open spec fn covers(cluster: ClusterView, max_span_us: int) -> bool {
    &&& cluster.members.len() > 0
    &&& cluster.start_us == cluster.members[0].start_us
    &&& cluster.end_us - cluster.start_us <= max_span_us
    &&& forall|i: int|
        0 <= i < cluster.members.len() ==> cluster.start_us <= (
        #[trigger] cluster.members[i]).start_us && cluster.members[i].end_us <= cluster.end_us
    &&& exists|i: int|
        0 <= i < cluster.members.len() && (#[trigger] cluster.members[i]).end_us == cluster.end_us
}

/// Whether every episode is an interval within the cap.
pub open spec fn admissible(episodes: Seq<EpisodeView>, max_span_us: int) -> bool {
    forall|i: int|
        0 <= i < episodes.len() ==> (#[trigger] episodes[i]).start_us <= episodes[i].end_us
            && episodes[i].end_us - episodes[i].start_us <= max_span_us
}

pub open spec fn starts_ascend(episodes: Seq<EpisodeView>) -> bool {
    forall|i: int, j: int|
        0 <= i <= j < episodes.len() ==> (#[trigger] episodes[i]).start_us <= (
        #[trigger] episodes[j]).start_us
}

proof fn lemma_sweep(episodes: Seq<EpisodeView>, epsilon_us: int, max_span_us: int)
    requires
        admissible(episodes, max_span_us),
        starts_ascend(episodes),
        0 <= epsilon_us <= max_span_us,
    ensures
        ({
            let out = sweep(episodes, epsilon_us, max_span_us);
            &&& all_members(out.clusters) == episodes
            &&& out.clusters.len() == 0 <==> episodes.len() == 0
            &&& out.span_splits <= episodes.len()
            &&& forall|i: int|
                0 <= i < out.clusters.len() ==> covers(#[trigger] out.clusters[i], max_span_us)
            &&& forall|i: int|
                0 <= i < out.clusters.len() - 1 ==> separated(
                    #[trigger] out.clusters[i],
                    out.clusters[i + 1],
                    epsilon_us,
                    max_span_us,
                )
        }),
    decreases episodes.len(),
{
    let out = sweep(episodes, epsilon_us, max_span_us);
    if episodes.len() == 0 {
        assert(all_members(out.clusters) =~= episodes);
    } else {
        let rest = episodes.drop_last();
        let episode = episodes.last();
        assert forall|i: int| 0 <= i < rest.len() implies (#[trigger] rest[i]).start_us
            <= rest[i].end_us && rest[i].end_us - rest[i].start_us <= max_span_us by {
            assert(rest[i] == episodes[i]);
        }
        assert(starts_ascend(rest)) by {
            assert forall|i: int, j: int| 0 <= i <= j < rest.len() implies (
            #[trigger] rest[i]).start_us <= (#[trigger] rest[j]).start_us by {
                assert(episodes[i].start_us <= episodes[j].start_us);
            }
        }
        lemma_sweep(rest, epsilon_us, max_span_us);
        let before = sweep(rest, epsilon_us, max_span_us);
        assert(episodes =~= rest.push(episode));
        assert(episodes[episodes.len() - 1] == episode);
        if before.clusters.len() == 0 {
            assert(rest.len() == 0);
            assert(out.clusters.drop_last() =~= Seq::empty());
            assert(all_members(out.clusters) =~= seq![episode]);
            assert(episodes =~= seq![episode]);
            assert(out.clusters[0].members[0] == episode);
            assert(covers(out.clusters[0], max_span_us));
        } else {
            let open = before.clusters.last();
            let earlier = before.clusters.drop_last();
            assert(covers(before.clusters[before.clusters.len() - 1], max_span_us));
            if open.reaches(episode, epsilon_us) && open.fits(episode, max_span_us) {
                let grown = open.with(episode);
                assert(out.clusters.drop_last() =~= earlier);
                assert(all_members(out.clusters) =~= episodes);
                assert(covers(grown, max_span_us)) by {
                    lemma_first_starts(before.clusters, rest, episodes, episode);
                    assert(grown.members[0] == open.members[0]);
                    let i = choose|i: int|
                        0 <= i < open.members.len() && (#[trigger] open.members[i]).end_us
                            == open.end_us;
                    assert(grown.members[i] == open.members[i]);
                    assert(grown.members[open.members.len() as int] == episode);
                    assert forall|i: int| 0 <= i < grown.members.len() implies grown.start_us <= (
                    #[trigger] grown.members[i]).start_us && grown.members[i].end_us
                        <= grown.end_us by {
                        if i < open.members.len() {
                            assert(grown.members[i] == open.members[i]);
                        }
                    }
                }
                assert forall|i: int| 0 <= i < out.clusters.len() implies covers(
                    #[trigger] out.clusters[i],
                    max_span_us,
                ) by {
                    if i < earlier.len() {
                        assert(out.clusters[i] == before.clusters[i]);
                    }
                }
                assert forall|i: int| 0 <= i < out.clusters.len() - 1 implies separated(
                    #[trigger] out.clusters[i],
                    out.clusters[i + 1],
                    epsilon_us,
                    max_span_us,
                ) by {
                    assert(out.clusters[i] == before.clusters[i]);
                    assert(separated(
                        before.clusters[i],
                        before.clusters[i + 1],
                        epsilon_us,
                        max_span_us,
                    ));
                    if i + 1 == earlier.len() {
                        assert(grown.members[0] == open.members[0]);
                    } else {
                        assert(out.clusters[i + 1] == before.clusters[i + 1]);
                    }
                }
            } else {
                let single = ClusterView::of_one(episode);
                assert(out.clusters.drop_last() =~= before.clusters);
                assert(all_members(out.clusters) =~= episodes);
                assert(single.members[0] == episode);
                assert(covers(single, max_span_us));
                assert forall|i: int| 0 <= i < out.clusters.len() implies covers(
                    #[trigger] out.clusters[i],
                    max_span_us,
                ) by {
                    if i < before.clusters.len() {
                        assert(out.clusters[i] == before.clusters[i]);
                    }
                }
                assert forall|i: int| 0 <= i < out.clusters.len() - 1 implies separated(
                    #[trigger] out.clusters[i],
                    out.clusters[i + 1],
                    epsilon_us,
                    max_span_us,
                ) by {
                    if i + 1 < before.clusters.len() {
                        assert(separated(
                            before.clusters[i],
                            before.clusters[i + 1],
                            epsilon_us,
                            max_span_us,
                        ));
                    }
                }
            }
        }
    }
}

/// The first member of the open cluster is one of the swept episodes.
proof fn lemma_first_starts(
    clusters: Seq<ClusterView>,
    rest: Seq<EpisodeView>,
    episodes: Seq<EpisodeView>,
    episode: EpisodeView,
)
    requires
        clusters.len() > 0,
        clusters.last().members.len() > 0,
        all_members(clusters) == rest,
        episodes == rest.push(episode),
        starts_ascend(episodes),
    ensures
        clusters.last().members[0].start_us <= episode.start_us,
{
    let at = all_members(clusters.drop_last()).len() as int;
    assert(rest[at] == clusters.last().members[0]);
    assert(episodes[at] == rest[at]);
    assert(episodes[rest.len() as int] == episode);
    assert(episodes[at].start_us <= episodes[rest.len() as int].start_us);
}

/// The first member of a later cluster could not join the one before it.
pub open spec fn separated(
    earlier: ClusterView,
    later: ClusterView,
    epsilon_us: int,
    max_span_us: int,
) -> bool {
    !earlier.reaches(later.members[0], epsilon_us) || !earlier.fits(later.members[0], max_span_us)
}

proof fn lemma_rank_orders_starts(a: EpisodeView, b: EpisodeView)
    requires
        rank_order::<EpisodeView>()(a, b),
    ensures
        a.start_us <= b.start_us,
{
    assert(a.rank()[0] == a.start_us && b.rank()[0] == b.start_us);
}

proof fn lemma_sorted_episodes(episodes: Seq<EpisodeView>, max_span_us: int)
    requires
        admissible(episodes, max_span_us),
    ensures
        admissible(ranked_sort(episodes), max_span_us),
        starts_ascend(ranked_sort(episodes)),
{
    let sorted = ranked_sort(episodes);
    lemma_ranked_sort(episodes);
    assert forall|i: int| 0 <= i < sorted.len() implies (#[trigger] sorted[i]).start_us
        <= sorted[i].end_us && sorted[i].end_us - sorted[i].start_us <= max_span_us by {
        broadcast use vstd::seq_lib::group_to_multiset_ensures;

        assert(sorted.contains(sorted[i]));
        assert(episodes.to_multiset().count(sorted[i]) > 0);
        assert(episodes.contains(sorted[i]));
        let k = choose|k: int| 0 <= k < episodes.len() && episodes[k] == sorted[i];
        assert(episodes[k] == sorted[i]);
    }
    assert forall|i: int, j: int| 0 <= i <= j < sorted.len() implies (
    #[trigger] sorted[i]).start_us <= (#[trigger] sorted[j]).start_us by {
        if i < j {
            lemma_rank_orders_starts(sorted[i], sorted[j]);
        }
    }
}

/// Clusters hold every episode exactly once, in canonical order, each covers
/// its members within the span cap, and neighbours could not have been joined.
pub proof fn law_clusters_partition_the_episodes(
    episodes: Seq<EpisodeView>,
    epsilon_us: i64,
    max_span_us: i64,
)
    requires
        cluster_refusal(episodes, epsilon_us, max_span_us) is None,
    ensures
        ({
            let out = clustered(episodes, epsilon_us, max_span_us);
            &&& all_members(out.clusters) == ranked_sort(episodes)
            &&& all_members(out.clusters).to_multiset() == episodes.to_multiset()
            &&& out.span_splits <= episodes.len()
            &&& forall|i: int|
                0 <= i < out.clusters.len() ==> covers(
                    #[trigger] out.clusters[i],
                    max_span_us as int,
                )
            &&& forall|i: int|
                0 <= i < out.clusters.len() - 1 ==> separated(
                    #[trigger] out.clusters[i],
                    out.clusters[i + 1],
                    epsilon_us as int,
                    max_span_us as int,
                )
        }),
{
    assert(admissible(episodes, max_span_us as int));
    lemma_sorted_episodes(episodes, max_span_us as int);
    lemma_ranked_sort(episodes);
    lemma_sweep(ranked_sort(episodes), epsilon_us as int, max_span_us as int);
}

/// The order in which episodes are given does not affect the outcome.
pub proof fn law_input_order_does_not_matter(
    a: Seq<EpisodeView>,
    b: Seq<EpisodeView>,
    epsilon_us: i64,
    max_span_us: i64,
)
    requires
        a.to_multiset() == b.to_multiset(),
    ensures
        cluster_refusal(a, epsilon_us, max_span_us) == cluster_refusal(b, epsilon_us, max_span_us),
        clustered(a, epsilon_us, max_span_us) == clustered(b, epsilon_us, max_span_us),
{
    lemma_ranked_sort_order_free(a, b);
    lemma_same_members(a, b);
    lemma_same_members(b, a);
}

proof fn lemma_same_members(a: Seq<EpisodeView>, b: Seq<EpisodeView>)
    requires
        a.to_multiset() == b.to_multiset(),
    ensures
        forall|i: int| 0 <= i < a.len() ==> b.contains(#[trigger] a[i]),
{
    assert forall|i: int| 0 <= i < a.len() implies b.contains(#[trigger] a[i]) by {
        broadcast use vstd::seq_lib::group_to_multiset_ensures;

        assert(a.contains(a[i]));
        assert(b.to_multiset().count(a[i]) > 0);
    }
}

/// Whether every later member of a cluster starts at most `epsilon_us` after
/// the end of some earlier one.
pub open spec fn chained(cluster: ClusterView, epsilon_us: int) -> bool {
    forall|i: int|
        1 <= i < cluster.members.len() ==> near_earlier(
            cluster.members,
            #[trigger] cluster.members[i],
            i,
            epsilon_us,
        )
}

/// Whether a member starts at most `epsilon_us` after the end of one of the
/// first `n` members.
pub open spec fn near_earlier(
    members: Seq<EpisodeView>,
    member: EpisodeView,
    n: int,
    epsilon_us: int,
) -> bool {
    exists|j: int| 0 <= j < n && member.start_us - (#[trigger] members[j]).end_us <= epsilon_us
}

/// How many neighbours lie within `epsilon_us` of each other.
pub open spec fn near_pairs(clusters: Seq<ClusterView>, epsilon_us: int) -> nat
    decreases clusters.len(),
{
    if clusters.len() < 2 {
        0
    } else {
        near_pairs(clusters.drop_last(), epsilon_us) + if clusters.last().members[0].start_us
            - clusters[clusters.len() - 2].end_us <= epsilon_us {
            1nat
        } else {
            0
        }
    }
}

proof fn lemma_sweep_chains(episodes: Seq<EpisodeView>, epsilon_us: int, max_span_us: int)
    requires
        admissible(episodes, max_span_us),
        starts_ascend(episodes),
        0 <= epsilon_us <= max_span_us,
    ensures
        ({
            let out = sweep(episodes, epsilon_us, max_span_us);
            &&& out.span_splits == near_pairs(out.clusters, epsilon_us)
            &&& forall|i: int|
                0 <= i < out.clusters.len() ==> chained(#[trigger] out.clusters[i], epsilon_us)
        }),
    decreases episodes.len(),
{
    if episodes.len() > 0 {
        let rest = episodes.drop_last();
        let episode = episodes.last();
        assert(admissible(rest, max_span_us)) by {
            assert forall|i: int| 0 <= i < rest.len() implies (#[trigger] rest[i]).start_us
                <= rest[i].end_us && rest[i].end_us - rest[i].start_us <= max_span_us by {
                assert(rest[i] == episodes[i]);
            }
        }
        assert(starts_ascend(rest)) by {
            assert forall|i: int, j: int| 0 <= i <= j < rest.len() implies (
            #[trigger] rest[i]).start_us <= (#[trigger] rest[j]).start_us by {
                assert(episodes[i].start_us <= episodes[j].start_us);
            }
        }
        lemma_sweep_chains(rest, epsilon_us, max_span_us);
        lemma_sweep(rest, epsilon_us, max_span_us);
        let out = sweep(episodes, epsilon_us, max_span_us);
        let before = sweep(rest, epsilon_us, max_span_us);
        if before.clusters.len() > 0 {
            let open = before.clusters.last();
            let n = before.clusters.len() as int;
            assert(covers(before.clusters[n - 1], max_span_us));
            assert(chained(before.clusters[n - 1], epsilon_us));
            if open.reaches(episode, epsilon_us) && open.fits(episode, max_span_us) {
                let grown = open.with(episode);
                assert(out.clusters.drop_last() =~= before.clusters.drop_last());
                assert(grown.members[0] == open.members[0]);
                assert(out.clusters.len() == n);
                assert(chained(grown, epsilon_us)) by {
                    let count = open.members.len() as int;
                    assert forall|i: int| 1 <= i < grown.members.len() implies near_earlier(
                        grown.members,
                        #[trigger] grown.members[i],
                        i,
                        epsilon_us,
                    ) by {
                        if i < count {
                            assert(near_earlier(open.members, open.members[i], i, epsilon_us));
                            let j = choose|j: int|
                                0 <= j < i && open.members[i].start_us - (
                                #[trigger] open.members[j]).end_us <= epsilon_us;
                            assert(grown.members[j] == open.members[j]);
                        } else {
                            let j = choose|j: int|
                                0 <= j < count && (#[trigger] open.members[j]).end_us
                                    == open.end_us;
                            assert(grown.members[j] == open.members[j]);
                        }
                    }
                }
                assert forall|i: int| 0 <= i < out.clusters.len() implies chained(
                    #[trigger] out.clusters[i],
                    epsilon_us,
                ) by {
                    if i < n - 1 {
                        assert(out.clusters[i] == before.clusters[i]);
                    }
                }
                if n >= 2 {
                    assert(out.clusters[n - 2] == before.clusters[n - 2]);
                }
            } else {
                assert(out.clusters.drop_last() =~= before.clusters);
                assert(out.clusters[n - 1] == open);
                assert forall|i: int| 0 <= i < out.clusters.len() implies chained(
                    #[trigger] out.clusters[i],
                    epsilon_us,
                ) by {
                    if i < n {
                        assert(out.clusters[i] == before.clusters[i]);
                    }
                }
            }
        }
    }
}

/// Inside a cluster each later member starts at most epsilon after some earlier
/// member's end, and the span splits are the neighbours within epsilon.
pub proof fn law_members_are_within_epsilon(
    episodes: Seq<EpisodeView>,
    epsilon_us: i64,
    max_span_us: i64,
)
    requires
        cluster_refusal(episodes, epsilon_us, max_span_us) is None,
    ensures
        ({
            let out = clustered(episodes, epsilon_us, max_span_us);
            &&& out.span_splits == near_pairs(out.clusters, epsilon_us as int)
            &&& forall|i: int|
                0 <= i < out.clusters.len() ==> chained(
                    #[trigger] out.clusters[i],
                    epsilon_us as int,
                )
        }),
{
    lemma_sorted_episodes(episodes, max_span_us as int);
    lemma_sweep_chains(ranked_sort(episodes), epsilon_us as int, max_span_us as int);
}

} // verus!
