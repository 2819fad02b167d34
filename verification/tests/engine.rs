//! The analysis of a request.

use std::cmp::Ordering;

use kronika_incident::cluster::{Cluster, ClusterError};
use kronika_incident::dispatch::{LimitAxis, LimitHit, SectionColumn, WorkBudget};
use kronika_incident::engine::{analyze, AnalyzeError, ClockRelation, EvalContext, IncidentConfig};
use kronika_incident::evidence::confidence::{Confidence, ConfidenceCap, Role};
use kronika_incident::evidence::finding::{finding_order, Evidence, FindingDraft, FindingScope};
use kronika_incident::evidence::sink::{FindingSink, OutputCounts, OutputLimits};
use kronika_incident::float64::Float64;
use kronika_incident::lens::Lens;
use kronika_incident::model::{
    Direction, EnrichedEpisode, Episode, EpisodeRefV1, Evaluated, IdentityValue, KeyTooLarge,
};
use kronika_incident::order::Rank;
use kronika_incident::series::SeriesSet;
use kronika_incident::typed::inputs::TypedInputs;

/// The library's number with the bits of a machine float.
fn num(value: f64) -> Float64 {
    Float64::from_bits(value.to_bits())
}

#[derive(Clone, Copy)]
enum TestEvidence {
    Ratio,
    Gauge,
    Counter,
}

impl TestEvidence {
    fn build(self) -> Evidence {
        match self {
            Self::Ratio => Evidence::Ratio,
            Self::Gauge => Evidence::Gauge,
            Self::Counter => Evidence::Counter,
        }
    }
}

struct FixedLens {
    id: &'static str,
    inputs: &'static [SectionColumn],
    cap: ConfidenceCap,
    role: Role,
    evidence: TestEvidence,
}

impl Lens for FixedLens {
    fn id(&self) -> &'static str {
        self.id
    }

    fn inputs(&self) -> &'static [SectionColumn] {
        self.inputs
    }

    fn confidence_cap(&self) -> ConfidenceCap {
        self.cap
    }

    fn evaluate(
        &self,
        cluster: &Cluster,
        _series: &SeriesSet,
        _typed: &TypedInputs,
        context: &EvalContext,
        sink: &mut FindingSink<'_>,
    ) -> Result<(), LimitHit> {
        let scope = FindingScope::from_episode(&cluster.members[0]);
        sink.emit(FindingDraft::with_temporal_direction(
            self.role,
            scope,
            vec![self.evidence.build()],
            context.temporal_direction().as_ref(),
        ))
    }
}

const LOCKS: &[SectionColumn] = &[SectionColumn {
    section: "pg_locks",
    column: "blocked_by",
}];
const CACHE: &[SectionColumn] = &[SectionColumn {
    section: "pg_stat_database",
    column: "blks_read",
}];

fn placeholder_episode() -> Episode {
    Episode {
        start: 0,
        end: 0,
        peak_ts: 0,
        peak: Evaluated {
            m: num(0.0),
            dir: Direction::Flat,
            med_cur: num(0.0),
            med_ref: num(0.0),
            mad_ref: num(1.0),
            sigma_used: num(1.4826),
            n_cur: 0,
            n_ref: 0,
        },
    }
}

fn episode(section: &'static str, id: i64, start: i64, end: i64) -> EnrichedEpisode {
    EnrichedEpisode {
        episode: placeholder_episode(),
        reference: EpisodeRefV1 {
            logical_section: section,
            column: "c",
            identity: vec![IdentityValue::I64(id)],
            start_us: start,
            end_us: end,
        },
    }
}

fn config(work_limit: u64) -> IncidentConfig {
    IncidentConfig {
        node_self_id: "node".to_owned(),
        epsilon_us: 5,
        max_cluster_span_us: 1_000,
        clock_relation: ClockRelation::Unknown,
        work_limit,
        max_episodes: 100,
        max_clusters: 100,
        max_key_bytes: 4_096,
        max_total_key_bytes: 64 * 1_024,
        max_lens_evaluations: 100,
        max_findings: 100,
        max_evidence_rows: 100,
        max_output_bytes: 1 << 20,
    }
}

fn cache_lens(id: &'static str, evidence: TestEvidence) -> FixedLens {
    FixedLens {
        id,
        inputs: CACHE,
        cap: ConfidenceCap::Medium,
        role: Role::Amplifier,
        evidence,
    }
}

#[test]
fn no_episodes_yield_no_incidents() {
    let outcome = analyze(
        vec![],
        &SeriesSet::for_test(0),
        &TypedInputs::new(),
        &[],
        &config(100),
    )
    .expect("valid");
    assert!(outcome.incidents.is_empty());
    assert!(outcome.complete);
    assert!(outcome.skipped.is_empty());
}

#[test]
fn total_key_bytes_are_bounded_across_incidents() {
    let mut limits = config(100);
    limits.max_total_key_bytes = 1;
    let error = analyze(
        vec![episode("pg_stat_database", 1, 0, 10)],
        &SeriesSet::for_test(0),
        &TypedInputs::new(),
        &[],
        &limits,
    )
    .err()
    .expect("the request-wide key budget is smaller than one key");
    assert!(matches!(error, AnalyzeError::KeyBudget { limit: 1, .. }));
}

#[test]
fn a_cluster_without_a_matching_lens_has_no_findings() {
    let lens = cache_lens("CACHE", TestEvidence::Ratio);
    let outcome = analyze(
        vec![episode("pg_locks", 1, 0, 10)],
        &SeriesSet::for_test(0),
        &TypedInputs::new(),
        &[&lens],
        &config(100),
    )
    .expect("valid");
    assert!(outcome.incidents[0].findings.is_empty());
}

#[test]
fn a_matching_lens_produces_a_finding() {
    let lens = cache_lens("CACHE", TestEvidence::Ratio);
    let outcome = analyze(
        vec![episode("pg_stat_database", 1, 0, 10)],
        &SeriesSet::for_test(0),
        &TypedInputs::new(),
        &[&lens],
        &config(100),
    )
    .expect("valid");
    assert_eq!(outcome.incidents[0].findings.len(), 1);
    assert_eq!(
        outcome.incidents[0].findings[0].confidence(),
        Confidence::MEDIUM
    );
}

#[test]
fn separate_clusters_become_separate_incidents() {
    let lens = FixedLens {
        id: "LOCK",
        inputs: LOCKS,
        cap: ConfidenceCap::Low,
        role: Role::Coincident,
        evidence: TestEvidence::Counter,
    };
    let outcome = analyze(
        vec![
            episode("pg_locks", 1, 0, 10),
            episode("pg_locks", 2, 500, 510),
        ],
        &SeriesSet::for_test(0),
        &TypedInputs::new(),
        &[&lens],
        &config(100),
    )
    .expect("valid");
    assert_eq!(outcome.incidents.len(), 2);
}

#[test]
fn finding_order_is_independent_of_lens_registration_order() {
    let ratio = cache_lens("SAME", TestEvidence::Ratio);
    let gauge = cache_lens("SAME", TestEvidence::Gauge);
    let run = |reverse: bool| {
        let reference = episode("pg_stat_database", 1, 0, 10).reference;
        let scope = FindingScope::from_episode(&reference);
        let mut findings = Vec::new();
        let mut budget = WorkBudget::new(10);
        let mut counts = OutputCounts::new();
        for evidence in [ratio.evidence.build(), gauge.evidence.build()] {
            FindingSink::new(
                &mut findings,
                &mut budget,
                &mut counts,
                OutputLimits::new(2, 2),
                "SAME",
                ConfidenceCap::Medium,
            )
            .emit(FindingDraft::new(
                Role::Amplifier,
                scope.clone(),
                vec![evidence],
            ))
            .expect("within limits");
        }
        if reverse {
            findings.reverse();
        }
        findings.sort_by(|a, b| match finding_order(a, b) {
            Rank::Less => Ordering::Less,
            Rank::Equal => Ordering::Equal,
            Rank::Greater => Ordering::Greater,
        });
        findings
            .into_iter()
            .map(|finding| format!("{:?}", finding.evidence()[0]))
            .collect::<Vec<_>>()
    };

    assert_eq!(run(false), run(true));
}

#[test]
fn unknown_clock_rejects_an_unproven_lead() {
    let lens = FixedLens {
        id: "TEMPORAL",
        inputs: CACHE,
        cap: ConfidenceCap::Medium,
        role: Role::Lead,
        evidence: TestEvidence::Ratio,
    };
    let outcome = analyze(
        vec![episode("pg_stat_database", 1, 0, 10)],
        &SeriesSet::for_test(0),
        &TypedInputs::new(),
        &[&lens],
        &config(100),
    )
    .expect("valid");
    assert_eq!(outcome.incidents[0].findings[0].role(), Role::Coincident);
}

#[test]
fn key_is_independent_of_episode_order() {
    let run = |episodes| {
        analyze(
            episodes,
            &SeriesSet::for_test(0),
            &TypedInputs::new(),
            &[],
            &config(100),
        )
        .expect("valid")
        .incidents
        .remove(0)
        .key
        .canonical_bytes()
        .to_vec()
    };
    let first = episode("pg_locks", 1, 0, 10);
    let second = episode("pg_stat_database", 2, 2, 8);
    let forward = run(vec![first, second]);
    let reversed = run(vec![
        episode("pg_stat_database", 2, 2, 8),
        episode("pg_locks", 1, 0, 10),
    ]);
    assert_eq!(forward, reversed);
}

#[test]
fn engine_duplicate_lens_ids_are_rejected() {
    let one = cache_lens("DUP", TestEvidence::Ratio);
    let two = cache_lens("DUP", TestEvidence::Gauge);
    assert!(matches!(
        analyze(
            vec![episode("pg_stat_database", 1, 0, 10)],
            &SeriesSet::for_test(0),
            &TypedInputs::new(),
            &[&one, &two],
            &config(100),
        ),
        Err(AnalyzeError::DuplicateLensId("DUP"))
    ));
}

#[test]
fn missing_node_and_input_limits_are_typed_errors() {
    let mut missing_node = config(100);
    missing_node.node_self_id.clear();
    assert!(matches!(
        analyze(
            vec![],
            &SeriesSet::for_test(0),
            &TypedInputs::new(),
            &[],
            &missing_node
        ),
        Err(AnalyzeError::MissingNodeIdentity)
    ));

    let mut episode_limited = config(100);
    episode_limited.max_episodes = 0;
    assert!(matches!(
        analyze(
            vec![episode("s", 1, 0, 1)],
            &SeriesSet::for_test(0),
            &TypedInputs::new(),
            &[],
            &episode_limited,
        ),
        Err(AnalyzeError::EpisodeLimit {
            observed: 1,
            limit: 0
        })
    ));

    let mut cluster_limited = config(100);
    cluster_limited.max_clusters = 0;
    assert!(matches!(
        analyze(
            vec![episode("s", 1, 0, 1)],
            &SeriesSet::for_test(0),
            &TypedInputs::new(),
            &[],
            &cluster_limited,
        ),
        Err(AnalyzeError::ClusterLimit {
            observed: 1,
            limit: 0
        })
    ));

    let mut key_limited = config(100);
    key_limited.max_key_bytes = 1;
    assert!(matches!(
        analyze(
            vec![episode("s", 1, 0, 1)],
            &SeriesSet::for_test(0),
            &TypedInputs::new(),
            &[],
            &key_limited,
        ),
        Err(AnalyzeError::Key(KeyTooLarge {
            observed: 88,
            limit: 1
        }))
    ));
}

#[test]
fn exhausted_work_marks_the_partial_incident_and_response() {
    let first = cache_lens("A", TestEvidence::Ratio);
    let second = cache_lens("B", TestEvidence::Gauge);
    let outcome = analyze(
        vec![episode("pg_stat_database", 1, 0, 10)],
        &SeriesSet::for_test(0),
        &TypedInputs::new(),
        &[&first, &second],
        &config(2),
    )
    .expect("bounded partial result");
    assert!(!outcome.complete);
    assert!(!outcome.incidents[0].evaluation_complete);
    assert_eq!(outcome.incidents[0].findings.len(), 1);
    assert_eq!(outcome.skipped[0].limit.axis, LimitAxis::Work);
}

#[test]
fn finding_limit_is_reported_without_retaining_excess_output() {
    let first = cache_lens("A", TestEvidence::Ratio);
    let second = cache_lens("B", TestEvidence::Gauge);
    let mut cfg = config(100);
    cfg.max_findings = 1;
    let outcome = analyze(
        vec![episode("pg_stat_database", 1, 0, 10)],
        &SeriesSet::for_test(0),
        &TypedInputs::new(),
        &[&first, &second],
        &cfg,
    )
    .expect("bounded partial result");
    assert!(!outcome.complete);
    assert_eq!(outcome.incidents[0].findings.len(), 1);
    assert_eq!(outcome.skipped[0].limit.axis, LimitAxis::Findings);
}

#[test]
fn lens_evaluation_limit_is_reported_before_calling_the_excess_lens() {
    let first = cache_lens("A", TestEvidence::Ratio);
    let second = cache_lens("B", TestEvidence::Gauge);
    let mut cfg = config(100);
    cfg.max_lens_evaluations = 1;
    let outcome = analyze(
        vec![episode("pg_stat_database", 1, 0, 10)],
        &SeriesSet::for_test(0),
        &TypedInputs::new(),
        &[&first, &second],
        &cfg,
    )
    .expect("bounded partial result");
    assert!(!outcome.complete);
    assert_eq!(outcome.incidents[0].findings.len(), 1);
    assert_eq!(
        outcome.skipped[0].limit,
        LimitHit {
            axis: LimitAxis::LensEvaluations,
            observed: 2,
            limit: 1,
        }
    );
}

#[test]
fn findings_carry_the_id_of_a_lens_that_reads_their_sections() {
    let cache = cache_lens("CACHE", TestEvidence::Ratio);
    let lock = FixedLens {
        id: "LOCK",
        inputs: LOCKS,
        cap: ConfidenceCap::Low,
        role: Role::Coincident,
        evidence: TestEvidence::Counter,
    };
    let outcome = analyze(
        vec![
            episode("pg_stat_database", 1, 0, 10),
            episode("pg_locks", 2, 500, 510),
            episode("pg_stat_database", 3, 600, 610),
            episode("pg_locks", 4, 602, 612),
        ],
        &SeriesSet::for_test(0),
        &TypedInputs::new(),
        &[&lock, &cache],
        &config(100),
    )
    .expect("valid");
    let ids: Vec<Vec<&str>> = outcome
        .incidents
        .iter()
        .map(|incident| {
            let mut ids: Vec<&str> = incident
                .findings
                .iter()
                .map(|finding| finding.lens_id())
                .collect();
            ids.sort_unstable();
            ids
        })
        .collect();
    assert_eq!(ids, vec![vec!["CACHE"], vec!["LOCK"], vec!["CACHE", "LOCK"]]);
    for finding in outcome.incidents.iter().flat_map(|incident| &incident.findings) {
        let ceiling = if finding.lens_id() == "LOCK" {
            Confidence::LOW
        } else {
            Confidence::MEDIUM
        };
        assert!(finding.confidence() <= ceiling);
    }
}

#[test]
fn a_response_never_holds_more_findings_than_its_limit() {
    let first = cache_lens("FIRST", TestEvidence::Ratio);
    let second = cache_lens("SECOND", TestEvidence::Ratio);
    for limit in 0..6_u64 {
        let mut bounded = config(100);
        bounded.max_findings = limit;
        let outcome = analyze(
            vec![
                episode("pg_stat_database", 1, 0, 10),
                episode("pg_stat_database", 2, 500, 510),
            ],
            &SeriesSet::for_test(0),
            &TypedInputs::new(),
            &[&first, &second],
            &bounded,
        )
        .expect("valid");
        let total: usize = outcome
            .incidents
            .iter()
            .map(|incident| incident.findings.len())
            .sum();
        assert_eq!(total as u64, limit.min(4));
        assert_eq!(outcome.complete, limit >= 4);
    }
}

#[test]
fn an_invalid_clustering_is_reported() {
    let mut invalid = config(100);
    invalid.epsilon_us = -1;
    assert!(matches!(
        analyze(
            vec![episode("s", 1, 0, 1)],
            &SeriesSet::for_test(0),
            &TypedInputs::new(),
            &[],
            &invalid,
        ),
        Err(AnalyzeError::Cluster(ClusterError::NegativeEpsilon))
    ));
}
