//! Clustering of episodes.

use kronika_incident::cluster::{cluster_episodes, Cluster, ClusterError, ClusterOutcome};
use kronika_incident::model::{EpisodeRefV1, IdentityValue};

fn ep(start: i64, end: i64, id: i64) -> EpisodeRefV1 {
    EpisodeRefV1 {
        logical_section: "s",
        column: "c",
        identity: vec![IdentityValue::I64(id)],
        start_us: start,
        end_us: end,
    }
}

fn ep_in(section: &'static str, id: i64) -> EpisodeRefV1 {
    EpisodeRefV1 {
        logical_section: section,
        column: "c",
        identity: vec![IdentityValue::I64(id)],
        start_us: 0,
        end_us: 10,
    }
}

#[test]
fn joined_by_identity_links_a_shared_scalar_across_sections() {
    let anchor = ep_in("pg_stat_user_tables", 42);
    let cluster = Cluster {
        start_us: 0,
        end_us: 10,
        members: vec![
            anchor.clone(),
            ep_in("pg_statio_user_tables", 42),
            ep_in("pg_statio_user_tables", 99),
            ep_in("pg_stat_user_tables", 42),
        ],
    };
    let joined: Vec<_> = cluster
        .joined_by_identity(&anchor)
        .into_iter()
        .map(|member| (member.logical_section, member.identity[0].clone()))
        .collect();
    // The same relid in another section joins; the same section (even with
    // the same relid) and a different relid do not.
    assert_eq!(
        joined,
        vec![("pg_statio_user_tables", IdentityValue::I64(42))]
    );
}

fn spans(outcome: &ClusterOutcome) -> Vec<(i64, i64, usize)> {
    outcome
        .clusters
        .iter()
        .map(|c| (c.start_us, c.end_us, c.members.len()))
        .collect()
}

fn cluster(
    episodes: Vec<EpisodeRefV1>,
    epsilon_us: i64,
    max_cluster_span_us: i64,
) -> ClusterOutcome {
    cluster_episodes(episodes, epsilon_us, max_cluster_span_us).expect("valid cluster input")
}

#[test]
fn no_episodes_yield_no_clusters() {
    let outcome = cluster(vec![], 10, 1000);
    assert!(outcome.clusters.is_empty());
    assert_eq!(outcome.span_splits, 0);
}

#[test]
fn a_single_episode_is_its_own_cluster() {
    let outcome = cluster(vec![ep(10, 20, 1)], 5, 1000);
    assert_eq!(spans(&outcome), vec![(10, 20, 1)]);
}

#[test]
fn episodes_within_epsilon_merge() {
    let outcome = cluster(vec![ep(0, 10, 1), ep(15, 25, 2)], 5, 1000);
    assert_eq!(spans(&outcome), vec![(0, 25, 2)]);
    assert_eq!(outcome.span_splits, 0);
}

#[test]
fn a_gap_wider_than_epsilon_splits_without_counting_a_span_split() {
    let outcome = cluster(vec![ep(0, 10, 1), ep(100, 110, 2)], 15, 1000);
    assert_eq!(spans(&outcome), vec![(0, 10, 1), (100, 110, 1)]);
    assert_eq!(outcome.span_splits, 0, "a natural gap is not a span split");
}

#[test]
fn merge_extends_the_end_to_the_maximum() {
    let outcome = cluster(vec![ep(0, 50, 1), ep(10, 100, 2)], 20, 1000);
    assert_eq!(spans(&outcome), vec![(0, 100, 2)]);
}

#[test]
fn a_nested_episode_does_not_shrink_the_cluster_end() {
    let outcome = cluster(vec![ep(0, 100, 1), ep(10, 20, 2)], 5, 1000);
    assert_eq!(
        spans(&outcome),
        vec![(0, 100, 2)],
        "end stays at the furthest, not next.end"
    );
}

#[test]
fn the_epsilon_boundary_is_inclusive() {
    let outcome = cluster(vec![ep(0, 10, 1), ep(15, 25, 2)], 5, 1000);
    assert_eq!(
        spans(&outcome),
        vec![(0, 25, 2)],
        "start == end + epsilon joins"
    );
}

#[test]
fn the_span_cap_splits_a_joinable_chain_and_counts_it() {
    let outcome = cluster(vec![ep(0, 10, 1), ep(20, 30, 2), ep(40, 50, 3)], 15, 25);
    assert_eq!(spans(&outcome), vec![(0, 10, 1), (20, 30, 1), (40, 50, 1)]);
    assert_eq!(
        outcome.span_splits, 2,
        "each joinable-but-too-wide break counts"
    );
}

#[test]
fn a_fresh_singleton_after_a_span_split_can_grow_again() {
    let outcome = cluster(vec![ep(0, 10, 1), ep(20, 30, 2), ep(32, 40, 3)], 15, 25);
    assert_eq!(spans(&outcome), vec![(0, 10, 1), (20, 40, 2)]);
    assert_eq!(outcome.span_splits, 1);
}

#[test]
fn clustering_is_independent_of_input_order() {
    let ordered = cluster(vec![ep(0, 10, 1), ep(15, 25, 2), ep(100, 110, 3)], 5, 1000);
    let shuffled = cluster(vec![ep(100, 110, 3), ep(15, 25, 2), ep(0, 10, 1)], 5, 1000);
    assert_eq!(spans(&ordered), spans(&shuffled));
}

#[test]
fn an_unrepresentable_gap_does_not_become_joinable() {
    let outcome = cluster(
        vec![ep(i64::MIN, i64::MIN, 1), ep(i64::MAX, i64::MAX, 2)],
        i64::MAX,
        i64::MAX,
    );
    assert_eq!(outcome.clusters.len(), 2);
}

#[test]
fn invalid_configuration_and_intervals_are_typed_errors() {
    assert!(matches!(
        cluster_episodes(vec![], -1, 1),
        Err(ClusterError::NegativeEpsilon)
    ));
    assert!(matches!(
        cluster_episodes(vec![], 2, 1),
        Err(ClusterError::EpsilonExceedsMaxSpan)
    ));
    assert!(matches!(
        cluster_episodes(vec![ep(2, 1, 1)], 0, 1),
        Err(ClusterError::InvalidInterval)
    ));
    assert!(matches!(
        cluster_episodes(vec![ep(0, 2, 1)], 0, 1),
        Err(ClusterError::EpisodeExceedsMaxSpan)
    ));
}

#[test]
fn a_negative_span_cap_is_a_typed_error() {
    assert!(matches!(
        cluster_episodes(vec![], 0, -1),
        Err(ClusterError::NegativeMaxSpan)
    ));
}

#[test]
fn every_episode_is_a_member_of_exactly_one_cluster() {
    let episodes = vec![
        ep(30, 35, 4),
        ep(0, 10, 1),
        ep(12, 20, 2),
        ep(0, 10, 3),
        ep(100, 101, 5),
    ];
    let outcome = cluster_episodes(episodes.clone(), 5, 1_000).expect("valid");
    let members: Vec<EpisodeRefV1> = outcome
        .clusters
        .iter()
        .flat_map(|cluster| cluster.members.iter().cloned())
        .collect();
    assert_eq!(members.len(), episodes.len());
    for episode in &episodes {
        assert_eq!(members.iter().filter(|member| *member == episode).count(), 1);
    }
    for cluster in &outcome.clusters {
        assert!(cluster
            .members
            .iter()
            .all(|member| cluster.start_us <= member.start_us && member.end_us <= cluster.end_us));
    }
    assert_eq!(spans(&outcome), vec![(0, 20, 3), (30, 35, 1), (100, 101, 1)]);
}

#[test]
fn span_splits_are_the_neighbours_within_epsilon() {
    let outcome = cluster_episodes(
        vec![ep(0, 4, 1), ep(6, 10, 2), ep(12, 14, 3), ep(40, 41, 4)],
        2,
        10,
    )
    .expect("valid");
    assert_eq!(
        spans(&outcome),
        vec![(0, 10, 2), (12, 14, 1), (40, 41, 1)]
    );
    assert_eq!(outcome.span_splits, 1);
}
