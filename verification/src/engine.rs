//! Bounded, deterministic incident evaluation.

use crate::cluster::{
    cluster_episodes, cluster_refusal, clustered, law_input_order_does_not_matter, Cluster,
    ClusterError, ClusterOutcome, ClusterView,
};
use crate::dispatch::{
    candidate_lenses, candidates, law_dispatch_reaches_every_reader_once, present_reads, readers,
    section_index, texts, BudgetView, LimitAxis, LimitHit, SectionColumn, WorkBudget,
};
use crate::evidence::finding::{
    law_confidence_never_exceeds_the_cap, sat, sat_sum, DraftView, Finding, FindingView,
};
use crate::evidence::sink::{
    graded_by, law_findings_are_counted, law_findings_only_grow, law_output_stays_within_its_limits,
    run, within, FindingSink, OutputCounts, OutputLimits, SinkRules, SinkState,
};
use crate::lens::Lens;
use crate::model::{
    clone_references, EnrichedEpisode, EpisodeRefV1, EpisodeView, IncidentKeyV1, KeyTooLarge,
    KeyView,
};
use crate::order::{lemma_ranked_sort, rank_order, ranked_sort, sort_ranked, views};
use crate::series::{SeriesSet, SeriesSetView};
use crate::text::text_eq;
use crate::typed::inputs::{TypedInputs, TypedView};
use vstd::prelude::*;
use vstd::relations::sorted_by;

verus! {

/// What is known of the clocks behind an incident.
#[derive(Debug, Clone, Copy, PartialEq, Eq, Structural)]
pub enum ClockRelation {
    /// All observations share one clock.
    SameDomain,
    /// The observations were taken together.
    Simultaneous,
    Unknown,
}

/// What a lens knows of the incident it evaluates.
#[derive(Debug, Clone, Copy, PartialEq, Eq, Structural)]
pub struct EvalContext {
    pub incident_start_us: i64,
    pub incident_end_us: i64,
    pub clock_relation: ClockRelation,
}

/// Shows that the observations of a context can be ordered in time.
pub struct TemporalDirectionPermit<'a> {
    context: &'a EvalContext,
}

impl TemporalDirectionPermit<'_> {
    /// The context that the permit speaks of.
    pub closed spec fn context(self) -> EvalContext {
        *self.context
    }
}

impl EvalContext {
    /// A permit, where all observations share one clock.
    pub fn temporal_direction(&self) -> (r: Option<TemporalDirectionPermit<'_>>)
        ensures
            match r {
                Some(permit) => self.clock_relation == ClockRelation::SameDomain
                    && permit.context() == *self,
                None => self.clock_relation != ClockRelation::SameDomain,
            },
    {
        if self.clock_relation == ClockRelation::SameDomain {
            Some(TemporalDirectionPermit { context: self })
        } else {
            None
        }
    }

    pub fn clock_relation(&self) -> (r: ClockRelation)
        ensures
            r == self.clock_relation,
    {
        self.clock_relation
    }

    pub fn for_test(clock_relation: ClockRelation) -> (r: Self)
        ensures
            r == (EvalContext { incident_start_us: 0, incident_end_us: 10, clock_relation }),
    {
        EvalContext { incident_start_us: 0, incident_end_us: 10, clock_relation }
    }
}

/// Limits of one analysis request.
pub struct IncidentConfig {
    pub node_self_id: String,
    pub epsilon_us: i64,
    pub max_cluster_span_us: i64,
    pub clock_relation: ClockRelation,
    pub work_limit: u64,
    pub max_episodes: usize,
    pub max_clusters: usize,
    pub max_key_bytes: usize,
    pub max_total_key_bytes: usize,
    pub max_lens_evaluations: u64,
    pub max_findings: u64,
    pub max_evidence_rows: u64,
    pub max_output_bytes: u64,
}

/// The mathematical value of a configuration.
#[verifier::ext_equal]
pub struct ConfigView {
    pub node_self_id: Seq<char>,
    pub epsilon_us: i64,
    pub max_cluster_span_us: i64,
    pub clock_relation: ClockRelation,
    pub work_limit: u64,
    pub max_episodes: usize,
    pub max_clusters: usize,
    pub max_key_bytes: usize,
    pub max_total_key_bytes: usize,
    pub max_lens_evaluations: u64,
    pub limits: OutputLimits,
}

impl View for IncidentConfig {
    type V = ConfigView;

    open spec fn view(&self) -> ConfigView {
        ConfigView {
            node_self_id: self.node_self_id@,
            epsilon_us: self.epsilon_us,
            max_cluster_span_us: self.max_cluster_span_us,
            clock_relation: self.clock_relation,
            work_limit: self.work_limit,
            max_episodes: self.max_episodes,
            max_clusters: self.max_clusters,
            max_key_bytes: self.max_key_bytes,
            max_total_key_bytes: self.max_total_key_bytes,
            max_lens_evaluations: self.max_lens_evaluations,
            limits: OutputLimits {
                findings: self.max_findings,
                evidence_rows: self.max_evidence_rows,
                output_bytes: self.max_output_bytes,
            },
        }
    }
}

impl IncidentConfig {
    /// Fixed ceilings for collection sizes and work units.
    ///
    /// These values do not claim a resident-memory budget.
    pub fn production(
        node_self_id: &str,
        epsilon_us: i64,
        max_cluster_span_us: i64,
        clock_relation: ClockRelation,
    ) -> (r: Self)
        ensures
            r@ == (ConfigView {
                node_self_id: node_self_id@,
                epsilon_us,
                max_cluster_span_us,
                clock_relation,
                work_limit: 50_000_000,
                max_episodes: 20_000,
                max_clusters: 5_000,
                max_key_bytes: 262_144,
                max_total_key_bytes: 4_194_304,
                max_lens_evaluations: 1_000_000,
                limits: OutputLimits {
                    findings: 50_000,
                    evidence_rows: 200_000,
                    output_bytes: 33_554_432,
                },
            }),
    {
        IncidentConfig {
            node_self_id: node_self_id.to_owned(),
            epsilon_us,
            max_cluster_span_us,
            clock_relation,
            work_limit: 50_000_000,
            max_episodes: 20_000,
            max_clusters: 5_000,
            max_key_bytes: 262_144,
            max_total_key_bytes: 4_194_304,
            max_lens_evaluations: 1_000_000,
            max_findings: 50_000,
            max_evidence_rows: 200_000,
            max_output_bytes: 33_554_432,
        }
    }

    /// Relaxed collection and work ceilings for focused engine tests.
    pub fn for_test(
        node_self_id: &str,
        epsilon_us: i64,
        max_cluster_span_us: i64,
        clock_relation: ClockRelation,
    ) -> (r: Self)
        ensures
            r@ == (ConfigView {
                node_self_id: node_self_id@,
                epsilon_us,
                max_cluster_span_us,
                clock_relation,
                work_limit: u64::MAX,
                max_episodes: usize::MAX,
                max_clusters: usize::MAX,
                max_key_bytes: 1_048_576,
                max_total_key_bytes: usize::MAX,
                max_lens_evaluations: u64::MAX,
                limits: OutputLimits {
                    findings: u64::MAX,
                    evidence_rows: u64::MAX,
                    output_bytes: u64::MAX,
                },
            }),
    {
        IncidentConfig {
            node_self_id: node_self_id.to_owned(),
            epsilon_us,
            max_cluster_span_us,
            clock_relation,
            work_limit: u64::MAX,
            max_episodes: usize::MAX,
            max_clusters: usize::MAX,
            max_key_bytes: 1_048_576,
            max_total_key_bytes: usize::MAX,
            max_lens_evaluations: u64::MAX,
            max_findings: u64::MAX,
            max_evidence_rows: u64::MAX,
            max_output_bytes: u64::MAX,
        }
    }

    pub fn for_test_with_work_limit(
        node_self_id: &str,
        epsilon_us: i64,
        max_cluster_span_us: i64,
        clock_relation: ClockRelation,
        work_limit: u64,
    ) -> (r: Self)
        ensures
            r@ == (ConfigView {
                node_self_id: node_self_id@,
                epsilon_us,
                max_cluster_span_us,
                clock_relation,
                work_limit,
                max_episodes: usize::MAX,
                max_clusters: usize::MAX,
                max_key_bytes: 1_048_576,
                max_total_key_bytes: usize::MAX,
                max_lens_evaluations: u64::MAX,
                limits: OutputLimits {
                    findings: u64::MAX,
                    evidence_rows: u64::MAX,
                    output_bytes: u64::MAX,
                },
            }),
    {
        let mut config = IncidentConfig::for_test(
            node_self_id,
            epsilon_us,
            max_cluster_span_us,
            clock_relation,
        );
        config.work_limit = work_limit;
        config
    }
}

/// One incident and what the lenses found in it.
pub struct Incident {
    pub key: IncidentKeyV1,
    pub start_us: i64,
    pub end_us: i64,
    pub members: Vec<EpisodeRefV1>,
    pub findings: Vec<Finding>,
    pub evaluation_complete: bool,
}

/// The mathematical value of an incident.
#[verifier::ext_equal]
pub struct IncidentView {
    pub key: KeyView,
    pub start_us: i64,
    pub end_us: i64,
    pub members: Seq<EpisodeView>,
    pub findings: Seq<FindingView>,
    pub evaluation_complete: bool,
}

impl View for Incident {
    type V = IncidentView;

    open spec fn view(&self) -> IncidentView {
        IncidentView {
            key: self.key@,
            start_us: self.start_us,
            end_us: self.end_us,
            members: views(self.members@),
            findings: views(self.findings@),
            evaluation_complete: self.evaluation_complete,
        }
    }
}

/// A lens that was not evaluated in full, and the limit that stopped it.
#[derive(Debug, Clone, Copy, PartialEq, Eq)]
pub struct EngineSkip {
    pub lens_id: Option<&'static str>,
    pub limit: LimitHit,
}

/// The mathematical value of a skip.
#[verifier::ext_equal]
pub struct SkipView {
    pub lens_id: Option<Seq<char>>,
    pub limit: LimitHit,
}

impl View for EngineSkip {
    type V = SkipView;

    open spec fn view(&self) -> SkipView {
        SkipView {
            lens_id: match self.lens_id {
                Some(id) => Some(id@),
                None => None,
            },
            limit: self.limit,
        }
    }
}

/// Incidents of one request.
pub struct EngineOutcome {
    pub incidents: Vec<Incident>,
    pub span_splits: u64,
    pub complete: bool,
    pub skipped: Vec<EngineSkip>,
}

/// The mathematical value of an outcome.
#[verifier::ext_equal]
pub struct OutcomeView {
    pub incidents: Seq<IncidentView>,
    pub span_splits: nat,
    pub complete: bool,
    pub skipped: Seq<SkipView>,
}

impl View for EngineOutcome {
    type V = OutcomeView;

    open spec fn view(&self) -> OutcomeView {
        OutcomeView {
            incidents: views(self.incidents@),
            span_splits: self.span_splits as nat,
            complete: self.complete,
            skipped: views(self.skipped@),
        }
    }
}

/// Why a request cannot be analyzed.
#[derive(Debug, Clone, Copy, PartialEq, Eq)]
pub enum AnalyzeError {
    MissingNodeIdentity,
    EpisodeLimit { observed: usize, limit: usize },
    ClusterLimit { observed: usize, limit: usize },
    DuplicateLensId(&'static str),
    Key(KeyTooLarge),
    KeyBudget { observed: usize, limit: usize },
    Cluster(ClusterError),
}

/// The mathematical value of an error.
#[verifier::ext_equal]
pub enum FailureView {
    MissingNodeIdentity,
    EpisodeLimit { observed: usize, limit: usize },
    ClusterLimit { observed: usize, limit: usize },
    DuplicateLensId(Seq<char>),
    Key(KeyTooLarge),
    KeyBudget { observed: usize, limit: usize },
    Cluster(ClusterError),
}

impl View for AnalyzeError {
    type V = FailureView;

    open spec fn view(&self) -> FailureView {
        match self {
            AnalyzeError::MissingNodeIdentity => FailureView::MissingNodeIdentity,
            AnalyzeError::EpisodeLimit { observed, limit } => FailureView::EpisodeLimit {
                observed: *observed,
                limit: *limit,
            },
            AnalyzeError::ClusterLimit { observed, limit } => FailureView::ClusterLimit {
                observed: *observed,
                limit: *limit,
            },
            AnalyzeError::DuplicateLensId(id) => FailureView::DuplicateLensId(id@),
            AnalyzeError::Key(error) => FailureView::Key(*error),
            AnalyzeError::KeyBudget { observed, limit } => FailureView::KeyBudget {
                observed: *observed,
                limit: *limit,
            },
            AnalyzeError::Cluster(error) => FailureView::Cluster(*error),
        }
    }
}

/// The references of some episodes.
pub open spec fn references(episodes: Seq<EnrichedEpisode>) -> Seq<EpisodeView> {
    Seq::new(episodes.len(), |i: int| episodes[i].reference@)
}

/// Why the episodes of a request cannot be clustered within its limits.
pub open spec fn preparation_failure(episodes: Seq<EpisodeView>, config: ConfigView) -> Option<
    FailureView,
> {
    let found = clustered(episodes, config.epsilon_us, config.max_cluster_span_us).clusters.len();
    if config.node_self_id.len() == 0 {
        Some(FailureView::MissingNodeIdentity)
    } else if episodes.len() > config.max_episodes {
        Some(
            FailureView::EpisodeLimit {
                observed: episodes.len() as usize,
                limit: config.max_episodes,
            },
        )
    } else {
        match cluster_refusal(episodes, config.epsilon_us, config.max_cluster_span_us) {
            Some(error) => Some(FailureView::Cluster(error)),
            None => if found > config.max_clusters {
                Some(
                    FailureView::ClusterLimit {
                        observed: found as usize,
                        limit: config.max_clusters,
                    },
                )
            } else {
                None
            },
        }
    }
}

/// Clusters the episodes of a request.
pub fn prepare_clusters(episodes: Vec<EnrichedEpisode>, config: &IncidentConfig) -> (r: Result<
    ClusterOutcome,
    AnalyzeError,
>)
    ensures
        match preparation_failure(references(episodes@), config@) {
            Some(failure) => r is Err && r->Err_0@ == failure,
            None => {
                let out = clustered(
                    references(episodes@),
                    config.epsilon_us,
                    config.max_cluster_span_us,
                );
                r is Ok && views(r->Ok_0.clusters@) == out.clusters && r->Ok_0.span_splits
                    == out.span_splits
            },
        },
{
    if config.node_self_id.as_str().is_empty() {
        return Err(AnalyzeError::MissingNodeIdentity);
    }
    if episodes.len() > config.max_episodes {
        return Err(
            AnalyzeError::EpisodeLimit { observed: episodes.len(), limit: config.max_episodes },
        );
    }
    let ghost all = references(episodes@);
    let mut references: Vec<EpisodeRefV1> = Vec::new();
    let mut i: usize = 0;
    proof {
        assert(views(references@) =~= all.take(0));
    }
    while i < episodes.len()
        invariant
            i <= episodes.len(),
            all == self::references(episodes@),
            views(references@) == all.take(i as int),
        decreases episodes.len() - i,
    {
        let ghost before = references@;
        references.push(episodes[i].reference.clone());
        proof {
            assert(views(references@) =~= views(before).push(all[i as int]));
            assert(all.take(i + 1) =~= all.take(i as int).push(all[i as int]));
        }
        i = i + 1;
    }
    proof {
        assert(all.take(i as int) =~= all);
    }
    match cluster_episodes(references, config.epsilon_us, config.max_cluster_span_us) {
        Ok(outcome) => {
            proof {
                assert(outcome.clusters.len() == views(outcome.clusters@).len());
            }
            if outcome.clusters.len() > config.max_clusters {
                Err(
                    AnalyzeError::ClusterLimit {
                        observed: outcome.clusters.len(),
                        limit: config.max_clusters,
                    },
                )
            } else {
                Ok(outcome)
            }
        },
        Err(error) => Err(AnalyzeError::Cluster(error)),
    }
}

/// Why one more lens cannot be evaluated.
pub open spec fn admission(evaluations: u64, limit: u64, budget: BudgetView) -> Option<LimitHit> {
    let observed = sat((evaluations + 1) as nat);
    if observed > limit {
        Some(LimitHit { axis: LimitAxis::LensEvaluations, observed, limit })
    } else if !budget.grants(1) {
        Some(
            LimitHit {
                axis: LimitAxis::Work,
                observed: sat((budget.spent + 1) as nat),
                limit: budget.limit,
            },
        )
    } else {
        None
    }
}

/// The budget once a lens has asked to be evaluated.
pub open spec fn budget_after_admission(evaluations: u64, limit: u64, budget: BudgetView) -> BudgetView {
    if sat((evaluations + 1) as nat) > limit {
        budget
    } else {
        budget.charged(1)
    }
}

/// Admits one lens evaluation and pays for it.
pub fn admit_lens_evaluation(
    lens_id: &'static str,
    evaluations: &mut u64,
    evaluation_limit: u64,
    budget: &mut WorkBudget,
) -> (r: Result<(), EngineSkip>)
    ensures
        final(budget)@ == budget_after_admission(
            *old(evaluations),
            evaluation_limit,
            old(budget)@,
        ),
        match admission(*old(evaluations), evaluation_limit, old(budget)@) {
            Some(limit) => r is Err && r->Err_0@ == (SkipView { lens_id: Some(lens_id@), limit })
                && *final(evaluations) == *old(evaluations),
            None => r is Ok && *final(evaluations) == sat((*old(evaluations) + 1) as nat),
        },
{
    let observed: u64 = sat_sum(*evaluations, 1);
    if observed > evaluation_limit {
        return Err(
            EngineSkip {
                lens_id: Some(lens_id),
                limit: LimitHit {
                    axis: LimitAxis::LensEvaluations,
                    observed,
                    limit: evaluation_limit,
                },
            },
        );
    }
    if !budget.charge(1) {
        return Err(
            EngineSkip {
                lens_id: Some(lens_id),
                limit: LimitHit {
                    axis: LimitAxis::Work,
                    observed: sat_sum(budget.spent(), 1),
                    limit: budget.limit(),
                },
            },
        );
    }
    *evaluations = observed;
    Ok(())
}

/// Key bytes of a request after one more key, or why they exceed their limit.
pub open spec fn keys_charged(spent: usize, size: nat, limit: usize) -> Result<usize, FailureView> {
    let observed = spent + size;
    if observed > limit {
        Err(
            FailureView::KeyBudget {
                observed: if observed <= usize::MAX {
                    observed as usize
                } else {
                    usize::MAX
                },
                limit,
            },
        )
    } else {
        Ok(observed as usize)
    }
}

pub fn charge_key_bytes(spent: usize, key: &IncidentKeyV1, limit: usize) -> (r: Result<
    usize,
    AnalyzeError,
>)
    ensures
        match keys_charged(spent, key@.encoded().len(), limit) {
            Ok(observed) => r is Ok && r->Ok_0 == observed,
            Err(failure) => r is Err && r->Err_0@ == failure,
        },
{
    let size: usize = key.canonical_bytes().len();
    if size > usize::MAX - spent {
        return Err(AnalyzeError::KeyBudget { observed: usize::MAX, limit });
    }
    let observed: usize = spent + size;
    if observed > limit {
        return Err(AnalyzeError::KeyBudget { observed, limit });
    }
    Ok(observed)
}

/// Evaluation of one incident's lenses.
#[verifier::ext_equal]
pub struct Pass {
    pub findings: Seq<FindingView>,
    pub budget: BudgetView,
    pub counts: OutputCounts,
    pub evaluations: u64,
    pub skip: Option<SkipView>,
}

/// The pass after one more lens.
pub open spec fn passed(
    pass: Pass,
    lenses: Seq<&dyn Lens>,
    at: int,
    cluster: ClusterView,
    series: SeriesSetView,
    typed: TypedView,
    context: EvalContext,
    config: ConfigView,
) -> Pass {
    let budget = budget_after_admission(
        pass.evaluations,
        config.max_lens_evaluations,
        pass.budget,
    );
    match admission(pass.evaluations, config.max_lens_evaluations, pass.budget) {
        Some(limit) => Pass {
            budget,
            skip: Some(SkipView { lens_id: Some(lenses[at].id_text()), limit }),
            ..pass
        },
        None => {
            let end = run(
                SinkState { findings: pass.findings, budget, counts: pass.counts, hit: None },
                SinkRules { limits: config.limits, lens_id: lenses[at].id_text(), cap: lenses[at].cap() },
                lenses[at].steps(cluster, series, typed, context),
            );
            Pass {
                findings: end.findings,
                budget: end.budget,
                counts: end.counts,
                evaluations: sat((pass.evaluations + 1) as nat),
                skip: match end.hit {
                    Some(limit) => Some(SkipView { lens_id: Some(lenses[at].id_text()), limit }),
                    None => None,
                },
            }
        },
    }
}

/// The pass over a list of lenses, until one is skipped.
pub open spec fn pass_all(
    pass: Pass,
    lenses: Seq<&dyn Lens>,
    order: Seq<usize>,
    cluster: ClusterView,
    series: SeriesSetView,
    typed: TypedView,
    context: EvalContext,
    config: ConfigView,
) -> Pass
    decreases order.len(),
{
    if order.len() == 0 || pass.skip is Some {
        pass
    } else {
        pass_all(
            passed(pass, lenses, order[0] as int, cluster, series, typed, context, config),
            lenses,
            order.drop_first(),
            cluster,
            series,
            typed,
            context,
            config,
        )
    }
}

/// The sections of some members.
pub open spec fn sections(members: Seq<EpisodeView>) -> Seq<Seq<char>> {
    Seq::new(members.len(), |i: int| members[i].logical_section)
}

/// The lenses among the first `n` that read a present section, in catalog
/// order.
pub open spec fn dispatched(lenses: Seq<&dyn Lens>, present: Seq<Seq<char>>, n: nat) -> Seq<usize>
    decreases n,
{
    if n == 0 {
        Seq::empty()
    } else {
        let before = dispatched(lenses, present, (n - 1) as nat);
        if present_reads(lenses[n - 1].input_list(), present) {
            before.push((n - 1) as usize)
        } else {
            before
        }
    }
}

/// The scan of a request's clusters so far.
#[verifier::ext_equal]
pub struct Scan {
    pub incidents: Seq<IncidentView>,
    pub skipped: Seq<SkipView>,
    pub budget: BudgetView,
    pub counts: OutputCounts,
    pub evaluations: u64,
    pub key_bytes: usize,
    pub stopped: bool,
}

/// The context of a cluster.
pub open spec fn context_of(cluster: ClusterView, config: ConfigView) -> EvalContext {
    EvalContext {
        incident_start_us: cluster.start_us,
        incident_end_us: cluster.end_us,
        clock_relation: config.clock_relation,
    }
}

/// The evaluation of a cluster by the lenses that read its sections.
pub open spec fn cluster_pass(
    scan: Scan,
    cluster: ClusterView,
    lenses: Seq<&dyn Lens>,
    series: SeriesSetView,
    typed: TypedView,
    config: ConfigView,
) -> Pass {
    pass_all(
        Pass {
            findings: Seq::empty(),
            budget: scan.budget,
            counts: scan.counts,
            evaluations: scan.evaluations,
            skip: None,
        },
        lenses,
        dispatched(lenses, sections(cluster.members), lenses.len()),
        cluster,
        series,
        typed,
        context_of(cluster, config),
        config,
    )
}

/// The key of a cluster.
pub open spec fn key_of_cluster(cluster: ClusterView, config: ConfigView) -> KeyView {
    KeyView {
        node_self_id: config.node_self_id,
        start_us: cluster.start_us,
        end_us: cluster.end_us,
        members: ranked_sort(cluster.members),
    }
}

/// The scan after one more cluster, or why the request fails.
pub open spec fn scanned(
    scan: Scan,
    cluster: ClusterView,
    lenses: Seq<&dyn Lens>,
    series: SeriesSetView,
    typed: TypedView,
    config: ConfigView,
) -> Result<Scan, FailureView> {
    let pass = cluster_pass(scan, cluster, lenses, series, typed, config);
    let key = key_of_cluster(cluster, config);
    let size = key.encoded().len();
    if size > config.max_key_bytes {
        Err(
            FailureView::Key(KeyTooLarge { observed: size as usize, limit: config.max_key_bytes }),
        )
    } else {
        match keys_charged(scan.key_bytes, size, config.max_total_key_bytes) {
            Err(failure) => Err(failure),
            Ok(key_bytes) => Ok(
                Scan {
                    incidents: scan.incidents.push(
                        IncidentView {
                            key,
                            start_us: cluster.start_us,
                            end_us: cluster.end_us,
                            members: cluster.members,
                            findings: ranked_sort(pass.findings),
                            evaluation_complete: pass.skip is None,
                        },
                    ),
                    skipped: match pass.skip {
                        Some(skip) => scan.skipped.push(skip),
                        None => scan.skipped,
                    },
                    budget: pass.budget,
                    counts: pass.counts,
                    evaluations: pass.evaluations,
                    key_bytes,
                    stopped: pass.skip is Some,
                },
            ),
        }
    }
}

/// The scan of a run of clusters, until one is not evaluated in full.
pub open spec fn scan_all(
    scan: Scan,
    clusters: Seq<ClusterView>,
    lenses: Seq<&dyn Lens>,
    series: SeriesSetView,
    typed: TypedView,
    config: ConfigView,
) -> Result<Scan, FailureView>
    decreases clusters.len(),
{
    if clusters.len() == 0 || scan.stopped {
        Ok(scan)
    } else {
        match scanned(scan, clusters[0], lenses, series, typed, config) {
            Ok(next) => scan_all(next, clusters.drop_first(), lenses, series, typed, config),
            Err(failure) => Err(failure),
        }
    }
}

/// The first of the first `n` lenses whose id an earlier lens has.
pub open spec fn duplicate_id(lenses: Seq<&dyn Lens>, n: nat) -> Option<Seq<char>>
    decreases n,
{
    if n == 0 {
        None
    } else {
        match duplicate_id(lenses, (n - 1) as nat) {
            Some(id) => Some(id),
            None => {
                let id = lenses[n - 1].id_text();
                if exists|i: int| 0 <= i < n - 1 && (#[trigger] lenses[i]).id_text() == id {
                    Some(id)
                } else {
                    None
                }
            },
        }
    }
}

/// The scan before the first cluster.
pub open spec fn fresh_scan(config: ConfigView) -> Scan {
    Scan {
        incidents: Seq::empty(),
        skipped: Seq::empty(),
        budget: BudgetView { limit: config.work_limit, spent: 0, exhausted: false },
        counts: OutputCounts { findings: 0, evidence_rows: 0, output_bytes: 0 },
        evaluations: 0,
        key_bytes: 0,
        stopped: false,
    }
}

/// The incidents of a request, or why it cannot be analyzed.
pub open spec fn analysis(
    episodes: Seq<EpisodeView>,
    series: SeriesSetView,
    typed: TypedView,
    lenses: Seq<&dyn Lens>,
    config: ConfigView,
) -> Result<OutcomeView, FailureView> {
    let found = clustered(episodes, config.epsilon_us, config.max_cluster_span_us);
    match preparation_failure(episodes, config) {
        Some(failure) => Err(failure),
        None => match duplicate_id(lenses, lenses.len()) {
            Some(id) => Err(FailureView::DuplicateLensId(id)),
            None => match scan_all(
                fresh_scan(config),
                found.clusters,
                lenses,
                series,
                typed,
                config,
            ) {
                Err(failure) => Err(failure),
                Ok(scan) => Ok(
                    OutcomeView {
                        incidents: scan.incidents,
                        span_splits: found.span_splits,
                        complete: !scan.stopped,
                        skipped: scan.skipped,
                    },
                ),
            },
        },
    }
}

pub open spec fn analysis_view(r: Result<EngineOutcome, AnalyzeError>) -> Result<
    OutcomeView,
    FailureView,
> {
    match r {
        Ok(outcome) => Ok(outcome@),
        Err(error) => Err(error@),
    }
}

/// Evaluates one lens into the collections of a request.
fn evaluate_lens(
    lenses: &[&dyn Lens],
    at: usize,
    findings: &mut Vec<Finding>,
    budget: &mut WorkBudget,
    counts: &mut OutputCounts,
    limits: OutputLimits,
    cluster: &Cluster,
    series: &SeriesSet,
    typed: &TypedInputs,
    context: &EvalContext,
) -> (r: Option<LimitHit>)
    requires
        at < lenses.len(),
    ensures
        ({
            let end = run(
                SinkState {
                    findings: views(old(findings)@),
                    budget: old(budget)@,
                    counts: *old(counts),
                    hit: None,
                },
                SinkRules { limits, lens_id: lenses@[at as int].id_text(), cap: lenses@[at as int].cap() },
                lenses@[at as int].steps(cluster@, series@, typed@, *context),
            );
            &&& views(final(findings)@) == end.findings
            &&& final(budget)@ == end.budget
            &&& *final(counts) == end.counts
            &&& r == end.hit
        }),
{
    let mut sink = FindingSink::new(
        findings,
        budget,
        counts,
        limits,
        lenses[at].id(),
        lenses[at].confidence_cap(),
    );
    let evaluation = lenses[at].evaluate(cluster, series, typed, context, &mut sink);
    match evaluation {
        Ok(_) => sink.limit_hit(),
        Err(hit) => Some(hit),
    }
}

proof fn lemma_dispatched(
    lenses: Seq<&dyn Lens>,
    inputs: Seq<&[SectionColumn]>,
    present: Seq<Seq<char>>,
    n: nat,
)
    requires
        n <= lenses.len(),
        inputs.len() == lenses.len(),
        forall|i: int| 0 <= i < lenses.len() ==> (#[trigger] inputs[i])@ == lenses[i].input_list(),
    ensures
        candidates(inputs, present, n) == dispatched(lenses, present, n),
        forall|k: int|
            0 <= k < dispatched(lenses, present, n).len() ==> (#[trigger] dispatched(
                lenses,
                present,
                n,
            )[k]) < n || n > usize::MAX,
    decreases n,
{
    if n > 0 {
        lemma_dispatched(lenses, inputs, present, (n - 1) as nat);
        assert(inputs[n - 1]@ == lenses[n - 1].input_list());
        let before = dispatched(lenses, present, (n - 1) as nat);
        let now = dispatched(lenses, present, n);
        assert forall|k: int| 0 <= k < now.len() implies (#[trigger] now[k]) < n || n
            > usize::MAX by {
            if k < before.len() {
                assert(before[k] < n - 1 || n - 1 > usize::MAX);
            }
        }
    }
}

fn find_duplicate(lenses: &[&dyn Lens]) -> (r: Option<&'static str>)
    ensures
        match r {
            Some(id) => duplicate_id(lenses@, lenses@.len()) == Some(id@),
            None => duplicate_id(lenses@, lenses@.len()) is None,
        },
{
    let mut n: usize = 0;
    while n < lenses.len()
        invariant
            n <= lenses.len(),
            duplicate_id(lenses@, n as nat) is None,
        decreases lenses.len() - n,
    {
        let id: &'static str = lenses[n].id();
        let mut i: usize = 0;
        while i < n
            invariant
                i <= n,
                n < lenses.len(),
                id@ == lenses@[n as int].id_text(),
                duplicate_id(lenses@, n as nat) is None,
                forall|j: int| 0 <= j < i ==> (#[trigger] lenses@[j]).id_text() != id@,
            decreases n - i,
        {
            if text_eq(lenses[i].id(), id) {
                proof {
                    assert(lenses@[i as int].id_text() == id@);
                    assert(duplicate_id(lenses@, (n + 1) as nat) == Some(id@));
                    lemma_duplicate_stays(lenses@, (n + 1) as nat, lenses@.len());
                }
                return Some(id);
            }
            i = i + 1;
        }
        n = n + 1;
    }
    None
}

proof fn lemma_duplicate_stays(lenses: Seq<&dyn Lens>, n: nat, m: nat)
    requires
        n <= m,
        duplicate_id(lenses, n) is Some,
    ensures
        duplicate_id(lenses, m) == duplicate_id(lenses, n),
    decreases m,
{
    if n < m {
        lemma_duplicate_stays(lenses, n, (m - 1) as nat);
    }
}

/// Clusters episodes into incidents and evaluates the lenses that read their
/// sections, within the limits of the request.
pub fn analyze(
    episodes: Vec<EnrichedEpisode>,
    series: &SeriesSet,
    typed: &TypedInputs,
    lenses: &[&dyn Lens],
    config: &IncidentConfig,
) -> (r: Result<EngineOutcome, AnalyzeError>)
    ensures
        analysis_view(r) == analysis(references(episodes@), series@, typed@, lenses@, config@),
{
    let ghost given = references(episodes@);
    let prepared: ClusterOutcome = match prepare_clusters(episodes, config) {
        Ok(prepared) => prepared,
        Err(error) => {
            return Err(error);
        },
    };
    if let Some(id) = find_duplicate(lenses) {
        return Err(AnalyzeError::DuplicateLensId(id));
    }
    let mut inputs: Vec<&[SectionColumn]> = Vec::new();
    let mut i: usize = 0;
    while i < lenses.len()
        invariant
            i <= lenses.len(),
            inputs.len() == i,
            forall|j: int| 0 <= j < i ==> (#[trigger] inputs@[j])@ == lenses@[j].input_list(),
        decreases lenses.len() - i,
    {
        inputs.push(lenses[i].inputs());
        i = i + 1;
    }
    let index = section_index(inputs.as_slice());
    let mut budget = WorkBudget::new(config.work_limit);
    let mut counts = OutputCounts::new();
    let limits = OutputLimits::bounded(
        config.max_findings,
        config.max_evidence_rows,
        config.max_output_bytes,
    );
    let mut evaluations: u64 = 0;
    let mut incidents: Vec<Incident> = Vec::new();
    let mut skipped: Vec<EngineSkip> = Vec::new();
    let mut stopped: bool = false;
    let mut key_bytes: usize = 0;
    let clusters: Vec<Cluster> = prepared.clusters;
    let ghost all = views(clusters@);
    let ghost goal = scan_all(fresh_scan(config@), all, lenses@, series@, typed@, config@);
    proof {
        assert(all.skip(0) =~= all);
        assert((Scan {
            incidents: views(incidents@),
            skipped: views(skipped@),
            budget: budget@,
            counts,
            evaluations,
            key_bytes,
            stopped,
        }) =~= fresh_scan(config@));
    }
    let mut c: usize = 0;
    while c < clusters.len() && !stopped
        invariant
            c <= clusters.len(),
            all == views(clusters@),
            given == references(episodes@),
            inputs.len() == lenses.len(),
            forall|j: int|
                0 <= j < lenses.len() ==> (#[trigger] inputs@[j])@ == lenses@[j].input_list(),
            forall|section: Seq<char>|
                ({
                    let expected = readers(inputs@, section, inputs@.len());
                    &&& #[trigger] index@.dom().contains(section) == (expected.len() > 0)
                    &&& expected.len() > 0 ==> index@[section] == expected
                }),
            limits == config@.limits,
            goal == scan_all(
                Scan {
                    incidents: views(incidents@),
                    skipped: views(skipped@),
                    budget: budget@,
                    counts,
                    evaluations,
                    key_bytes,
                    stopped,
                },
                all.skip(c as int),
                lenses@,
                series@,
                typed@,
                config@,
            ),
            match goal {
                Err(failure) => analysis(given, series@, typed@, lenses@, config@) == Err::<
                    OutcomeView,
                    FailureView,
                >(failure),
                Ok(_) => true,
            },
        decreases clusters.len() - c,
    {
        let cluster: &Cluster = &clusters[c];
        let ghost before = Scan {
            incidents: views(incidents@),
            skipped: views(skipped@),
            budget: budget@,
            counts,
            evaluations,
            key_bytes,
            stopped,
        };
        let ghost cv = cluster@;
        proof {
            assert(all.skip(c as int)[0] == cv);
            assert(all.skip(c as int).drop_first() =~= all.skip(c + 1));
        }
        let context = EvalContext {
            incident_start_us: cluster.start_us,
            incident_end_us: cluster.end_us,
            clock_relation: config.clock_relation,
        };
        let mut present: Vec<&'static str> = Vec::new();
        let mut m: usize = 0;
        while m < cluster.members.len()
            invariant
                m <= cluster.members.len(),
                cv == cluster@,
                present.len() == m,
                forall|j: int| 0 <= j < m ==> (#[trigger] present@[j])@ == sections(cv.members)[j],
            decreases cluster.members.len() - m,
        {
            present.push(cluster.members[m].logical_section);
            m = m + 1;
        }
        let order: Vec<usize> = candidate_lenses(&index, present.as_slice());
        proof {
            assert(texts(present@) =~= sections(cv.members));
            law_dispatch_reaches_every_reader_once(
                inputs@,
                index@,
                texts(present@),
                order@,
            );
            lemma_dispatched(lenses@, inputs@, sections(cv.members), lenses@.len());
        }
        let mut findings: Vec<Finding> = Vec::new();
        let mut skip: Option<EngineSkip> = None;
        let ghost pass_goal = cluster_pass(before, cv, lenses@, series@, typed@, config@);
        let mut k: usize = 0;
        proof {
            assert(order@.skip(0) =~= order@);
            assert((Pass {
                findings: views(findings@),
                budget: budget@,
                counts,
                evaluations,
                skip: skip_view(skip),
            }) =~= (Pass {
                findings: Seq::empty(),
                budget: before.budget,
                counts: before.counts,
                evaluations: before.evaluations,
                skip: None,
            }));
        }
        while k < order.len() && skip.is_none()
            invariant
                k <= order.len(),
                cv == cluster@,
                context == context_of(cv, config@),
                limits == config@.limits,
                forall|j: int| 0 <= j < order.len() ==> (#[trigger] order@[j]) < lenses.len(),
                pass_goal == pass_all(
                    Pass {
                        findings: views(findings@),
                        budget: budget@,
                        counts,
                        evaluations,
                        skip: skip_view(skip),
                    },
                    lenses@,
                    order@.skip(k as int),
                    cv,
                    series@,
                    typed@,
                    context,
                    config@,
                ),
            decreases order.len() - k,
        {
            let at: usize = order[k];
            let id: &'static str = lenses[at].id();
            let ghost held = Pass {
                findings: views(findings@),
                budget: budget@,
                counts,
                evaluations,
                skip: skip_view(skip),
            };
            proof {
                assert(order@.skip(k as int)[0] == order@[k as int]);
                assert(order@.skip(k as int).drop_first() =~= order@.skip(k + 1));
            }
            match admit_lens_evaluation(
                id,
                &mut evaluations,
                config.max_lens_evaluations,
                &mut budget,
            ) {
                Err(refused) => {
                    skip = Some(refused);
                },
                Ok(_) => {
                    let limit = evaluate_lens(
                        lenses,
                        at,
                        &mut findings,
                        &mut budget,
                        &mut counts,
                        limits,
                        cluster,
                        series,
                        typed,
                        &context,
                    );
                    if let Some(limit) = limit {
                        skip = Some(EngineSkip { lens_id: Some(id), limit });
                    }
                },
            }
            proof {
                let now = Pass {
                    findings: views(findings@),
                    budget: budget@,
                    counts,
                    evaluations,
                    skip: skip_view(skip),
                };
                assert(now =~= passed(
                    held,
                    lenses@,
                    at as int,
                    cv,
                    series@,
                    typed@,
                    context,
                    config@,
                ));
            }
            k = k + 1;
        }
        proof {
            if skip.is_none() {
                assert(order@.skip(k as int) =~= Seq::empty());
            }
        }
        let findings: Vec<Finding> = sort_ranked(findings);
        let key = match IncidentKeyV1::bounded(
            config.node_self_id.as_str(),
            cluster.start_us,
            cluster.end_us,
            &cluster.members,
            config.max_key_bytes,
        ) {
            Ok(key) => key,
            Err(error) => {
                return Err(AnalyzeError::Key(error));
            },
        };
        key_bytes = match charge_key_bytes(key_bytes, &key, config.max_total_key_bytes) {
            Ok(observed) => observed,
            Err(error) => {
                return Err(error);
            },
        };
        let complete: bool = skip.is_none();
        let ghost old_incidents = incidents@;
        let ghost old_skipped = skipped@;
        incidents.push(
            Incident {
                key,
                start_us: cluster.start_us,
                end_us: cluster.end_us,
                members: clone_references(&cluster.members),
                findings,
                evaluation_complete: complete,
            },
        );
        if let Some(refused) = skip {
            skipped.push(refused);
            proof {
                assert(views(skipped@) =~= views(old_skipped).push(refused@));
            }
        }
        stopped = !complete;
        proof {
            assert(views(incidents@) =~= views(old_incidents).push(incidents@.last()@));
            let now = Scan {
                incidents: views(incidents@),
                skipped: views(skipped@),
                budget: budget@,
                counts,
                evaluations,
                key_bytes,
                stopped,
            };
            let next = scanned(before, cv, lenses@, series@, typed@, config@);
            assert(next is Ok);
            assert(now =~= next->Ok_0);
        }
        c = c + 1;
    }
    proof {
        if !stopped {
            assert(all.skip(c as int) =~= Seq::empty());
        }
    }
    Ok(EngineOutcome { incidents, span_splits: prepared.span_splits, complete: !stopped, skipped })
}

pub open spec fn skip_view(skip: Option<EngineSkip>) -> Option<SkipView> {
    match skip {
        Some(found) => Some(found@),
        None => None,
    }
}

// Laws of the analysis.

/// The order in which episodes are given does not change the analysis.
pub proof fn law_episode_order_does_not_matter(
    a: Seq<EpisodeView>,
    b: Seq<EpisodeView>,
    series: SeriesSetView,
    typed: TypedView,
    lenses: Seq<&dyn Lens>,
    config: ConfigView,
)
    requires
        a.to_multiset() == b.to_multiset(),
    ensures
        analysis(a, series, typed, lenses, config) == analysis(b, series, typed, lenses, config),
{
    law_input_order_does_not_matter(a, b, config.epsilon_us, config.max_cluster_span_us);
    a.to_multiset_ensures();
    b.to_multiset_ensures();
}

/// Whether the incidents of a scan tell of the clusters from the first one on.
pub open spec fn tells_of(scan: Scan, clusters: Seq<ClusterView>, n: nat) -> bool {
    &&& scan.incidents.len() == n <= clusters.len()
    &&& forall|i: int|
        0 <= i < n ==> {
            let incident = #[trigger] scan.incidents[i];
            &&& incident.start_us == clusters[i].start_us
            &&& incident.end_us == clusters[i].end_us
            &&& incident.members == clusters[i].members
            &&& incident.evaluation_complete == (i < n - 1 || !scan.stopped)
        }
    &&& scan.stopped ==> scan.skipped.len() == 1
    &&& !scan.stopped ==> scan.skipped.len() == 0
}

proof fn lemma_scan_tells(
    scan: Scan,
    clusters: Seq<ClusterView>,
    n: nat,
    lenses: Seq<&dyn Lens>,
    series: SeriesSetView,
    typed: TypedView,
    config: ConfigView,
)
    requires
        tells_of(scan, clusters, n),
        scan_all(scan, clusters.skip(n as int), lenses, series, typed, config) is Ok,
    ensures
        ({
            let end = scan_all(scan, clusters.skip(n as int), lenses, series, typed, config)->Ok_0;
            &&& tells_of(end, clusters, end.incidents.len())
            &&& !end.stopped ==> end.incidents.len() == clusters.len()
        }),
    decreases clusters.len() - n,
{
    if n < clusters.len() && !scan.stopped {
        let rest = clusters.skip(n as int);
        assert(rest.drop_first() =~= clusters.skip((n + 1) as int));
        let next = scanned(scan, rest[0], lenses, series, typed, config)->Ok_0;
        assert(tells_of(next, clusters, n + 1)) by {
            assert forall|i: int| 0 <= i < n + 1 implies {
                let incident = #[trigger] next.incidents[i];
                &&& incident.start_us == clusters[i].start_us
                &&& incident.end_us == clusters[i].end_us
                &&& incident.members == clusters[i].members
                &&& incident.evaluation_complete == (i < n || !next.stopped)
            } by {
                if i < n {
                    assert(next.incidents[i] == scan.incidents[i]);
                }
            }
        }
        lemma_scan_tells(next, clusters, n + 1, lenses, series, typed, config);
    }
}

/// Every incident tells of one cluster, in order. A complete response tells of
/// all of them; an incomplete one ends at the first incident that was not
/// evaluated in full and names the one lens that was skipped.
pub proof fn law_incidents_follow_the_clusters(
    episodes: Seq<EpisodeView>,
    series: SeriesSetView,
    typed: TypedView,
    lenses: Seq<&dyn Lens>,
    config: ConfigView,
)
    requires
        analysis(episodes, series, typed, lenses, config) is Ok,
    ensures
        ({
            let out = analysis(episodes, series, typed, lenses, config)->Ok_0;
            let found = clustered(episodes, config.epsilon_us, config.max_cluster_span_us).clusters;
            &&& out.incidents.len() <= found.len()
            &&& out.complete ==> out.incidents.len() == found.len() && out.skipped.len() == 0
            &&& !out.complete ==> out.skipped.len() == 1
            &&& forall|i: int|
                0 <= i < out.incidents.len() ==> {
                    let incident = #[trigger] out.incidents[i];
                    &&& incident.start_us == found[i].start_us
                    &&& incident.end_us == found[i].end_us
                    &&& incident.members == found[i].members
                    &&& incident.evaluation_complete == (i < out.incidents.len() - 1
                        || out.complete)
                }
        }),
{
    let found = clustered(episodes, config.epsilon_us, config.max_cluster_span_us).clusters;
    assert(found.skip(0) =~= found);
    lemma_scan_tells(fresh_scan(config), found, 0, lenses, series, typed, config);
}

/// Whether a finding comes from one of some lenses, graded within its cap.
pub open spec fn attributed(
    finding: FindingView,
    lenses: Seq<&dyn Lens>,
    order: Seq<usize>,
) -> bool {
    exists|k: int|
        0 <= k < order.len() && came_from(finding, lenses, #[trigger] order[k] as int)
}

/// Whether a finding comes from a lens, graded within its cap.
pub open spec fn came_from(finding: FindingView, lenses: Seq<&dyn Lens>, at: int) -> bool {
    finding.lens_id == lenses[at].id_text() && finding.confidence.level()
        <= lenses[at].cap().ceiling().level()
}

/// Whether a pass holds only findings of some lenses and has counted them.
pub open spec fn accountable(
    pass: Pass,
    lenses: Seq<&dyn Lens>,
    order: Seq<usize>,
    limits: OutputLimits,
    base: nat,
) -> bool {
    &&& forall|i: int|
        0 <= i < pass.findings.len() ==> attributed(#[trigger] pass.findings[i], lenses, order)
    &&& limits.findings < u64::MAX ==> pass.counts.findings == base + pass.findings.len()
    &&& within(pass.counts, limits)
    &&& pass.budget.spent <= pass.budget.limit
}

proof fn lemma_passed_is_accountable(
    pass: Pass,
    lenses: Seq<&dyn Lens>,
    order: Seq<usize>,
    k: int,
    cluster: ClusterView,
    series: SeriesSetView,
    typed: TypedView,
    context: EvalContext,
    config: ConfigView,
    base: nat,
)
    requires
        accountable(pass, lenses, order, config.limits, base),
        0 <= k < order.len(),
    ensures
        accountable(
            passed(pass, lenses, order[k] as int, cluster, series, typed, context, config),
            lenses,
            order,
            config.limits,
            base,
        ),
        passed(pass, lenses, order[k] as int, cluster, series, typed, context, config).budget.limit
            == pass.budget.limit,
{
    let at = order[k] as int;
    let next = passed(pass, lenses, at, cluster, series, typed, context, config);
    if admission(pass.evaluations, config.max_lens_evaluations, pass.budget) is None {
        let state = SinkState {
            findings: pass.findings,
            budget: budget_after_admission(
                pass.evaluations,
                config.max_lens_evaluations,
                pass.budget,
            ),
            counts: pass.counts,
            hit: None,
        };
        let rules = SinkRules {
            limits: config.limits,
            lens_id: lenses[at].id_text(),
            cap: lenses[at].cap(),
        };
        let steps = lenses[at].steps(cluster, series, typed, context);
        law_output_stays_within_its_limits(state, rules, steps);
        law_findings_only_grow(state, rules, steps);
        if rules.limits.findings < u64::MAX {
            law_findings_are_counted(state, rules, steps);
        }
        let end = run(state, rules, steps);
        assert forall|i: int| 0 <= i < end.findings.len() implies attributed(
            #[trigger] end.findings[i],
            lenses,
            order,
        ) by {
            if i < pass.findings.len() {
                assert(end.findings.take(pass.findings.len() as int)[i] == end.findings[i]);
            } else {
                assert(graded_by(end.findings[i], rules));
                let draft = choose|draft: DraftView|
                    end.findings[i] == #[trigger] draft.graded(rules.lens_id, rules.cap);
                law_confidence_never_exceeds_the_cap(draft, rules.lens_id, rules.cap);
                assert(came_from(end.findings[i], lenses, order[k] as int));
            }
        }
    }
}

proof fn lemma_pass_is_accountable(
    pass: Pass,
    lenses: Seq<&dyn Lens>,
    order: Seq<usize>,
    n: int,
    cluster: ClusterView,
    series: SeriesSetView,
    typed: TypedView,
    context: EvalContext,
    config: ConfigView,
    base: nat,
)
    requires
        accountable(pass, lenses, order, config.limits, base),
        0 <= n <= order.len(),
    ensures
        ({
            let end = pass_all(
                pass,
                lenses,
                order.skip(n),
                cluster,
                series,
                typed,
                context,
                config,
            );
            accountable(end, lenses, order, config.limits, base) && end.budget.limit
                == pass.budget.limit
        }),
    decreases order.len() - n,
{
    if n < order.len() && pass.skip is None {
        assert(order.skip(n).drop_first() =~= order.skip(n + 1));
        assert(order.skip(n)[0] == order[n]);
        lemma_passed_is_accountable(
            pass,
            lenses,
            order,
            n,
            cluster,
            series,
            typed,
            context,
            config,
            base,
        );
        lemma_pass_is_accountable(
            passed(pass, lenses, order[n] as int, cluster, series, typed, context, config),
            lenses,
            order,
            n + 1,
            cluster,
            series,
            typed,
            context,
            config,
            base,
        );
    } else {
        assert(pass_all(pass, lenses, order.skip(n), cluster, series, typed, context, config)
            == pass);
    }
}

/// Findings of some incidents together.
pub open spec fn total_findings(incidents: Seq<IncidentView>) -> nat
    decreases incidents.len(),
{
    if incidents.len() == 0 {
        0
    } else {
        total_findings(incidents.drop_last()) + incidents.last().findings.len()
    }
}

/// Whether the findings of an incident come from the lenses that read its
/// sections.
pub open spec fn explained(incident: IncidentView, lenses: Seq<&dyn Lens>) -> bool {
    forall|i: int|
        0 <= i < incident.findings.len() ==> attributed(
            #[trigger] incident.findings[i],
            lenses,
            dispatched(lenses, sections(incident.members), lenses.len()),
        )
}

/// Whether a scan holds only explained incidents and has counted its findings.
pub open spec fn scan_accountable(scan: Scan, lenses: Seq<&dyn Lens>, config: ConfigView) -> bool {
    &&& forall|i: int|
        0 <= i < scan.incidents.len() ==> explained(#[trigger] scan.incidents[i], lenses)
    &&& config.limits.findings < u64::MAX ==> scan.counts.findings == total_findings(
        scan.incidents,
    )
    &&& within(scan.counts, config.limits)
    &&& scan.budget.spent <= scan.budget.limit == config.work_limit
}

proof fn lemma_scan_is_accountable(
    scan: Scan,
    clusters: Seq<ClusterView>,
    lenses: Seq<&dyn Lens>,
    series: SeriesSetView,
    typed: TypedView,
    config: ConfigView,
)
    requires
        scan_accountable(scan, lenses, config),
        scan_all(scan, clusters, lenses, series, typed, config) is Ok,
    ensures
        scan_accountable(
            scan_all(scan, clusters, lenses, series, typed, config)->Ok_0,
            lenses,
            config,
        ),
    decreases clusters.len(),
{
    if clusters.len() > 0 && !scan.stopped {
        let cluster = clusters[0];
        let next = scanned(scan, cluster, lenses, series, typed, config)->Ok_0;
        let order = dispatched(lenses, sections(cluster.members), lenses.len());
        let fresh = Pass {
            findings: Seq::empty(),
            budget: scan.budget,
            counts: scan.counts,
            evaluations: scan.evaluations,
            skip: None,
        };
        let base = total_findings(scan.incidents);
        assert(order.skip(0) =~= order);
        lemma_pass_is_accountable(
            fresh,
            lenses,
            order,
            0,
            cluster,
            series,
            typed,
            context_of(cluster, config),
            config,
            base,
        );
        let pass = cluster_pass(scan, cluster, lenses, series, typed, config);
        let sorted = ranked_sort(pass.findings);
        lemma_ranked_sort(pass.findings);
        let incident = next.incidents.last();
        assert(next.incidents.drop_last() =~= scan.incidents);
        assert forall|i: int| 0 <= i < sorted.len() implies attributed(
            #[trigger] sorted[i],
            lenses,
            order,
        ) by {
            broadcast use vstd::seq_lib::group_to_multiset_ensures;

            assert(sorted.contains(sorted[i]));
            assert(sorted.to_multiset().contains(sorted[i]));
            assert(pass.findings.contains(sorted[i]));
            let k = pass.findings.index_of(sorted[i]);
            assert(attributed(pass.findings[k], lenses, order));
        }
        assert(explained(incident, lenses));
        assert forall|i: int| 0 <= i < next.incidents.len() implies explained(
            #[trigger] next.incidents[i],
            lenses,
        ) by {
            if i < scan.incidents.len() {
                assert(next.incidents[i] == scan.incidents[i]);
            }
        }
        lemma_scan_is_accountable(next, clusters.drop_first(), lenses, series, typed, config);
    }
}

/// Every finding of a response comes from a lens that reads a section of its
/// incident and is no more confident than that lens may be.
pub proof fn law_findings_come_from_their_lenses(
    episodes: Seq<EpisodeView>,
    series: SeriesSetView,
    typed: TypedView,
    lenses: Seq<&dyn Lens>,
    config: ConfigView,
)
    requires
        analysis(episodes, series, typed, lenses, config) is Ok,
    ensures
        forall|i: int|
            0 <= i < analysis(
                episodes,
                series,
                typed,
                lenses,
                config,
            )->Ok_0.incidents.len() ==> explained(
                #[trigger] analysis(episodes, series, typed, lenses, config)->Ok_0.incidents[i],
                lenses,
            ),
{
    let found = clustered(episodes, config.epsilon_us, config.max_cluster_span_us).clusters;
    lemma_scan_is_accountable(fresh_scan(config), found, lenses, series, typed, config);
}

/// A response holds no more findings than the request allows.
pub proof fn law_responses_stay_within_the_finding_limit(
    episodes: Seq<EpisodeView>,
    series: SeriesSetView,
    typed: TypedView,
    lenses: Seq<&dyn Lens>,
    config: ConfigView,
)
    requires
        analysis(episodes, series, typed, lenses, config) is Ok,
        config.limits.findings < u64::MAX,
    ensures
        total_findings(analysis(episodes, series, typed, lenses, config)->Ok_0.incidents)
            <= config.limits.findings,
{
    let found = clustered(episodes, config.epsilon_us, config.max_cluster_span_us).clusters;
    lemma_scan_is_accountable(fresh_scan(config), found, lenses, series, typed, config);
}

/// Whether the findings of every incident of a scan are in order.
pub open spec fn all_ordered(scan: Scan) -> bool {
    forall|i: int|
        0 <= i < scan.incidents.len() ==> sorted_by(
            (#[trigger] scan.incidents[i]).findings,
            rank_order::<FindingView>(),
        )
}

proof fn lemma_scan_is_ordered(
    scan: Scan,
    clusters: Seq<ClusterView>,
    lenses: Seq<&dyn Lens>,
    series: SeriesSetView,
    typed: TypedView,
    config: ConfigView,
)
    requires
        all_ordered(scan),
        scan_all(scan, clusters, lenses, series, typed, config) is Ok,
    ensures
        all_ordered(scan_all(scan, clusters, lenses, series, typed, config)->Ok_0),
    decreases clusters.len(),
{
    if clusters.len() > 0 && !scan.stopped {
        let next = scanned(scan, clusters[0], lenses, series, typed, config)->Ok_0;
        lemma_ranked_sort(
            cluster_pass(scan, clusters[0], lenses, series, typed, config).findings,
        );
        assert forall|i: int| 0 <= i < next.incidents.len() implies sorted_by(
            (#[trigger] next.incidents[i]).findings,
            rank_order::<FindingView>(),
        ) by {
            if i < scan.incidents.len() {
                assert(next.incidents[i] == scan.incidents[i]);
            }
        }
        lemma_scan_is_ordered(next, clusters.drop_first(), lenses, series, typed, config);
    }
}

/// The findings of an incident come in the order of their ranks.
pub proof fn law_findings_are_ordered(
    episodes: Seq<EpisodeView>,
    series: SeriesSetView,
    typed: TypedView,
    lenses: Seq<&dyn Lens>,
    config: ConfigView,
    i: int,
)
    requires
        analysis(episodes, series, typed, lenses, config) is Ok,
        0 <= i < analysis(episodes, series, typed, lenses, config)->Ok_0.incidents.len(),
    ensures
        sorted_by(
            analysis(episodes, series, typed, lenses, config)->Ok_0.incidents[i].findings,
            rank_order::<FindingView>(),
        ),
{
    let found = clustered(episodes, config.epsilon_us, config.max_cluster_span_us).clusters;
    lemma_scan_is_ordered(fresh_scan(config), found, lenses, series, typed, config);
}

/// Two lenses with one id are never evaluated together.
pub proof fn law_duplicate_lens_ids_are_rejected(
    episodes: Seq<EpisodeView>,
    series: SeriesSetView,
    typed: TypedView,
    lenses: Seq<&dyn Lens>,
    config: ConfigView,
    i: int,
    j: int,
)
    requires
        0 <= i < j < lenses.len(),
        lenses[i].id_text() == lenses[j].id_text(),
    ensures
        analysis(episodes, series, typed, lenses, config) is Err,
{
    lemma_duplicate_found(lenses, i, j, lenses.len());
}

pub proof fn lemma_duplicate_found(lenses: Seq<&dyn Lens>, i: int, j: int, n: nat)
    requires
        0 <= i < j < n <= lenses.len(),
        lenses[i].id_text() == lenses[j].id_text(),
    ensures
        duplicate_id(lenses, n) is Some,
    decreases n,
{
    if j < n - 1 {
        lemma_duplicate_found(lenses, i, j, (n - 1) as nat);
    } else {
        assert(lenses[i].id_text() == lenses[n - 1].id_text());
    }
}

} // verus!
