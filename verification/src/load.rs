//! What the lenses of a request ask for in all, and that it does not depend on
//! the order in which they are registered.

use crate::cluster::{clustered, ClusterView};
use crate::dispatch::{present_reads, BudgetView};
use crate::engine::{
    admission, analysis, cluster_pass, context_of, dispatched, duplicate_id, fresh_scan,
    lemma_duplicate_found, pass_all, passed, scan_all, scanned, sections, ConfigView, EvalContext,
    Pass, Scan,
};
use crate::events::{
    duplicate_event_id, event_analysis, event_passed, event_passes, fresh_event_pass,
    lemma_duplicate_event_found, EventConfig, EventLens, EventsView,
};
use crate::evidence::finding::{sat, FindingView};
use crate::evidence::sink::{
    lemma_stopped, run, step, within, OutputCounts, OutputLimits, SinkRules, SinkState, Step,
};
use crate::lens::Lens;
use crate::model::EpisodeView;
use crate::order::lemma_ranked_sort_order_free;
use crate::series::SeriesSetView;
use crate::typed::inputs::TypedView;
use vstd::multiset::Multiset;
use vstd::prelude::*;

verus! {

/// What some reports ask for, in whatever order they are made.
#[verifier::ext_equal]
pub struct Load {
    pub work: nat,
    pub evaluations: nat,
    pub count: nat,
    pub rows: nat,
    pub bytes: nat,
    pub findings: Multiset<FindingView>,
}

impl Load {
    pub open spec fn zero() -> Load {
        Load {
            work: 0,
            evaluations: 0,
            count: 0,
            rows: 0,
            bytes: 0,
            findings: Multiset::empty(),
        }
    }

    pub open spec fn plus(self, other: Load) -> Load {
        Load {
            work: self.work + other.work,
            evaluations: self.evaluations + other.evaluations,
            count: self.count + other.count,
            rows: self.rows + other.rows,
            bytes: self.bytes + other.bytes,
            findings: self.findings.add(other.findings),
        }
    }
}

/// What one report asks for.
pub open spec fn report_load(rules: SinkRules, report: Step) -> Load {
    match report {
        Step::Charge(points) => Load { work: points as nat, ..Load::zero() },
        Step::Emit(draft) => Load {
            work: sat(draft.evidence.len()) as nat,
            evaluations: 0,
            count: 1,
            rows: sat(draft.evidence.len()) as nat,
            bytes: sat(draft.output_bytes(rules.lens_id)) as nat,
            findings: Multiset::singleton(draft.graded(rules.lens_id, rules.cap)),
        },
    }
}

/// What a run of reports asks for.
pub open spec fn run_load(rules: SinkRules, steps: Seq<Step>) -> Load
    decreases steps.len(),
{
    if steps.len() == 0 {
        Load::zero()
    } else {
        report_load(rules, steps[0]).plus(run_load(rules, steps.drop_first()))
    }
}

/// The budget once a load has been paid for.
pub open spec fn spent_on(budget: BudgetView, load: Load) -> BudgetView {
    BudgetView { spent: (budget.spent + load.work) as u64, ..budget }
}

/// The counts once the output of a load has been retained.
pub open spec fn counted(counts: OutputCounts, load: Load) -> OutputCounts {
    OutputCounts {
        findings: sat((counts.findings + load.count) as nat),
        evidence_rows: sat((counts.evidence_rows + load.rows) as nat),
        output_bytes: sat((counts.output_bytes + load.bytes) as nat),
    }
}

/// Whether a budget and the output limits bear a load.
pub open spec fn bears(
    budget: BudgetView,
    counts: OutputCounts,
    limits: OutputLimits,
    load: Load,
) -> bool {
    budget.spent + load.work <= budget.limit && within(counted(counts, load), limits)
}

/// A run of reports is taken in full exactly if its load is borne, and then its
/// effect is that of its load.
pub proof fn lemma_run_load(state: SinkState, rules: SinkRules, steps: Seq<Step>)
    requires
        state.hit is None,
        !state.budget.exhausted,
        state.budget.spent <= state.budget.limit,
        within(state.counts, rules.limits),
    ensures
        ({
            let end = run(state, rules, steps);
            let load = run_load(rules, steps);
            &&& end.hit is None <==> bears(state.budget, state.counts, rules.limits, load)
            &&& end.hit is None ==> {
                &&& end.budget == spent_on(state.budget, load)
                &&& end.counts == counted(state.counts, load)
                &&& end.findings.to_multiset() == state.findings.to_multiset().add(load.findings)
            }
        }),
        run_load(rules, steps).evaluations == 0,
    decreases steps.len(),
{
    if steps.len() == 0 {
        assert(state.findings.to_multiset().add(Multiset::empty())
            =~= state.findings.to_multiset());
    } else {
        let next = step(state, rules, steps[0]);
        let rest = steps.drop_first();
        let first = report_load(rules, steps[0]);
        lemma_later_load(rules, rest);
        if next.hit is Some {
            lemma_stopped(next, rules, rest);
        } else {
            lemma_run_load(next, rules, rest);
            assert(next.findings.to_multiset() =~= state.findings.to_multiset().add(
                first.findings,
            )) by {
                state.findings.to_multiset_ensures();
            }
            assert(state.findings.to_multiset().add(first.findings).add(
                run_load(rules, rest).findings,
            ) =~= state.findings.to_multiset().add(
                first.findings.add(run_load(rules, rest).findings),
            ));
        }
    }
}

proof fn lemma_later_load(rules: SinkRules, steps: Seq<Step>)
    ensures
        run_load(rules, steps).evaluations == 0,
    decreases steps.len(),
{
    if steps.len() > 0 {
        lemma_later_load(rules, steps.drop_first());
    }
}

/// What a lens is evaluated on.
pub struct Scene {
    pub cluster: ClusterView,
    pub series: SeriesSetView,
    pub typed: TypedView,
    pub context: EvalContext,
}

/// What a lens asks for, its admission included.
pub open spec fn lens_load(
    lenses: Seq<&dyn Lens>,
    at: int,
    scene: Scene,
    limits: OutputLimits,
) -> Load {
    run_load(
        SinkRules { limits, lens_id: lenses[at].id_text(), cap: lenses[at].cap() },
        lenses[at].steps(scene.cluster, scene.series, scene.typed, scene.context),
    ).plus(Load { work: 1, evaluations: 1, ..Load::zero() })
}

/// What a list of lenses asks for.
pub open spec fn list_load(
    lenses: Seq<&dyn Lens>,
    order: Seq<usize>,
    scene: Scene,
    limits: OutputLimits,
) -> Load
    decreases order.len(),
{
    if order.len() == 0 {
        Load::zero()
    } else {
        list_load(lenses, order.drop_last(), scene, limits).plus(
            lens_load(lenses, order.last() as int, scene, limits),
        )
    }
}

/// Whether no limit has been reached yet.
pub open spec fn unhindered(pass: Pass, limits: OutputLimits, max_evaluations: u64) -> bool {
    &&& pass.skip is None
    &&& !pass.budget.exhausted
    &&& pass.budget.spent <= pass.budget.limit
    &&& within(pass.counts, limits)
    &&& pass.evaluations <= max_evaluations
}

/// Whether the limits of a request bear a load on top of a pass.
pub open spec fn pass_bears(
    pass: Pass,
    limits: OutputLimits,
    max_evaluations: u64,
    load: Load,
) -> bool {
    bears(pass.budget, pass.counts, limits, load) && sat(
        (pass.evaluations + load.evaluations) as nat,
    ) <= max_evaluations
}

/// Whether a pass is another one with a load on top.
pub open spec fn carries(end: Pass, pass: Pass, load: Load) -> bool {
    &&& end.skip is None
    &&& end.budget == spent_on(pass.budget, load)
    &&& end.counts == counted(pass.counts, load)
    &&& end.evaluations == sat((pass.evaluations + load.evaluations) as nat)
    &&& end.findings.to_multiset() == pass.findings.to_multiset().add(load.findings)
}

proof fn lemma_passed_load(
    pass: Pass,
    lenses: Seq<&dyn Lens>,
    at: int,
    scene: Scene,
    config: ConfigView,
)
    requires
        unhindered(pass, config.limits, config.max_lens_evaluations),
    ensures
        ({
            let end = passed(
                pass,
                lenses,
                at,
                scene.cluster,
                scene.series,
                scene.typed,
                scene.context,
                config,
            );
            let load = lens_load(lenses, at, scene, config.limits);
            &&& end.skip is None <==> pass_bears(
                pass,
                config.limits,
                config.max_lens_evaluations,
                load,
            )
            &&& end.skip is None ==> carries(end, pass, load) && unhindered(
                end,
                config.limits,
                config.max_lens_evaluations,
            )
        }),
{
    let rules = SinkRules {
        limits: config.limits,
        lens_id: lenses[at].id_text(),
        cap: lenses[at].cap(),
    };
    let steps = lenses[at].steps(scene.cluster, scene.series, scene.typed, scene.context);
    let asked = run_load(rules, steps);
    assert(asked.findings.add(Multiset::empty()) =~= asked.findings);
    lemma_later_load(rules, steps);
    if admission(pass.evaluations, config.max_lens_evaluations, pass.budget) is None {
        let state = SinkState {
            findings: pass.findings,
            budget: pass.budget.charged(1),
            counts: pass.counts,
            hit: None,
        };
        lemma_run_load(state, rules, steps);
    }
}

/// A pass over some lenses is completed exactly if their load is borne, and
/// then it carries that load.
pub proof fn lemma_pass_load(
    pass: Pass,
    lenses: Seq<&dyn Lens>,
    order: Seq<usize>,
    scene: Scene,
    config: ConfigView,
)
    requires
        unhindered(pass, config.limits, config.max_lens_evaluations),
    ensures
        ({
            let end = pass_all(
                pass,
                lenses,
                order,
                scene.cluster,
                scene.series,
                scene.typed,
                scene.context,
                config,
            );
            let load = list_load(lenses, order, scene, config.limits);
            &&& end.skip is None <==> pass_bears(
                pass,
                config.limits,
                config.max_lens_evaluations,
                load,
            )
            &&& end.skip is None ==> carries(end, pass, load) && unhindered(
                end,
                config.limits,
                config.max_lens_evaluations,
            )
        }),
    decreases order.len(),
{
    if order.len() == 0 {
        assert(pass.findings.to_multiset().add(Multiset::empty())
            =~= pass.findings.to_multiset());
    } else {
        let before = order.drop_last();
        let last = order.last() as int;
        let earlier = list_load(lenses, before, scene, config.limits);
        let own = lens_load(lenses, last, scene, config.limits);
        let middle = pass_all(
            pass,
            lenses,
            before,
            scene.cluster,
            scene.series,
            scene.typed,
            scene.context,
            config,
        );
        lemma_pass_load(pass, lenses, before, scene, config);
        lemma_pass_last(pass, lenses, order, scene, config);
        if middle.skip is None {
            lemma_passed_load(middle, lenses, last, scene, config);
            assert(pass.findings.to_multiset().add(earlier.findings).add(own.findings)
                =~= pass.findings.to_multiset().add(earlier.findings.add(own.findings)));
        }
    }
}

proof fn lemma_pass_last(
    pass: Pass,
    lenses: Seq<&dyn Lens>,
    order: Seq<usize>,
    scene: Scene,
    config: ConfigView,
)
    requires
        order.len() > 0,
    ensures
        ({
            let before = pass_all(
                pass,
                lenses,
                order.drop_last(),
                scene.cluster,
                scene.series,
                scene.typed,
                scene.context,
                config,
            );
            pass_all(
                pass,
                lenses,
                order,
                scene.cluster,
                scene.series,
                scene.typed,
                scene.context,
                config,
            ) == if before.skip is Some {
                before
            } else {
                passed(
                    before,
                    lenses,
                    order.last() as int,
                    scene.cluster,
                    scene.series,
                    scene.typed,
                    scene.context,
                    config,
                )
            }
        }),
    decreases order.len(),
{
    reveal_with_fuel(pass_all, 2);
    if order.len() > 1 && pass.skip is None {
        let next = passed(
            pass,
            lenses,
            order[0] as int,
            scene.cluster,
            scene.series,
            scene.typed,
            scene.context,
            config,
        );
        assert(order.drop_first().drop_last() =~= order.drop_last().drop_first());
        lemma_pass_last(next, lenses, order.drop_first(), scene, config);
    }
}

/// What a lens asks for on a cluster: nothing, unless it reads a section of it.
pub open spec fn share(
    lenses: Seq<&dyn Lens>,
    at: int,
    scene: Scene,
    limits: OutputLimits,
) -> Load {
    if present_reads(lenses[at].input_list(), sections(scene.cluster.members)) {
        lens_load(lenses, at, scene, limits)
    } else {
        Load::zero()
    }
}

/// What all lenses ask for on a cluster.
pub open spec fn shares(lenses: Seq<&dyn Lens>, scene: Scene, limits: OutputLimits) -> Load
    decreases lenses.len(),
{
    if lenses.len() == 0 {
        Load::zero()
    } else {
        shares(lenses.drop_last(), scene, limits).plus(
            share(lenses, lenses.len() - 1, scene, limits),
        )
    }
}

proof fn lemma_dispatched_prefix(lenses: Seq<&dyn Lens>, present: Seq<Seq<char>>, n: nat)
    requires
        n < lenses.len(),
    ensures
        dispatched(lenses.drop_last(), present, n) == dispatched(lenses, present, n),
    decreases n,
{
    if n > 0 {
        lemma_dispatched_prefix(lenses, present, (n - 1) as nat);
        assert(lenses.drop_last()[n - 1] == lenses[n - 1]);
    }
}

proof fn lemma_dispatched_bounded(lenses: Seq<&dyn Lens>, present: Seq<Seq<char>>, n: nat)
    requires
        n <= lenses.len() <= usize::MAX,
    ensures
        forall|i: int|
            0 <= i < dispatched(lenses, present, n).len() ==> (#[trigger] dispatched(
                lenses,
                present,
                n,
            )[i]) < n,
    decreases n,
{
    if n > 0 {
        let before = dispatched(lenses, present, (n - 1) as nat);
        let all = dispatched(lenses, present, n);
        lemma_dispatched_bounded(lenses, present, (n - 1) as nat);
        assert forall|i: int| 0 <= i < all.len() implies (#[trigger] all[i]) < n by {
            if i < before.len() {
                assert(all[i] == before[i]);
            }
        }
    }
}

proof fn lemma_list_prefix(
    lenses: Seq<&dyn Lens>,
    order: Seq<usize>,
    scene: Scene,
    limits: OutputLimits,
)
    requires
        lenses.len() > 0,
        forall|i: int| 0 <= i < order.len() ==> (#[trigger] order[i]) < lenses.len() - 1,
    ensures
        list_load(lenses.drop_last(), order, scene, limits) == list_load(
            lenses,
            order,
            scene,
            limits,
        ),
    decreases order.len(),
{
    if order.len() > 0 {
        let before = order.drop_last();
        assert forall|i: int| 0 <= i < before.len() implies (#[trigger] before[i]) < lenses.len()
            - 1 by {
            assert(before[i] == order[i]);
        }
        lemma_list_prefix(lenses, before, scene, limits);
        let last = order.last() as int;
        assert(order[order.len() - 1] < lenses.len() - 1);
        assert(lenses.drop_last()[last] == lenses[last]);
    }
}

/// The lenses that are dispatched ask for the shares of all.
pub proof fn lemma_dispatched_load(lenses: Seq<&dyn Lens>, scene: Scene, limits: OutputLimits)
    requires
        lenses.len() <= usize::MAX,
    ensures
        list_load(
            lenses,
            dispatched(lenses, sections(scene.cluster.members), lenses.len()),
            scene,
            limits,
        ) == shares(lenses, scene, limits),
    decreases lenses.len(),
{
    if lenses.len() > 0 {
        let present = sections(scene.cluster.members);
        let n = (lenses.len() - 1) as nat;
        let before = dispatched(lenses, present, n);
        lemma_dispatched_load(lenses.drop_last(), scene, limits);
        lemma_dispatched_prefix(lenses, present, n);
        lemma_dispatched_bounded(lenses, present, n);
        lemma_list_prefix(lenses, before, scene, limits);
        let earlier = shares(lenses.drop_last(), scene, limits);
        if present_reads(lenses[n as int].input_list(), present) {
            let all = before.push(n as usize);
            assert(all.drop_last() =~= before);
            assert(all.last() == n);
        } else {
            assert(earlier.findings.add(Multiset::empty()) =~= earlier.findings);
        }
    }
}

/// The shares without one lens, and the share of that lens.
pub proof fn lemma_shares_without(
    lenses: Seq<&dyn Lens>,
    k: int,
    scene: Scene,
    limits: OutputLimits,
)
    requires
        0 <= k < lenses.len(),
    ensures
        shares(lenses, scene, limits) == shares(lenses.remove(k), scene, limits).plus(
            share(lenses, k, scene, limits),
        ),
    decreases lenses.len(),
{
    let n = lenses.len() - 1;
    if k == n {
        assert(lenses.remove(k) =~= lenses.drop_last());
    } else {
        let shorter = lenses.drop_last();
        let without = lenses.remove(k);
        lemma_shares_without(shorter, k, scene, limits);
        assert(without.drop_last() =~= shorter.remove(k));
        assert(without[n - 1] == lenses[n]);
        assert(shorter[k] == lenses[k]);
        let rest = shares(shorter.remove(k), scene, limits);
        let mine = share(lenses, k, scene, limits);
        let last = share(lenses, n, scene, limits);
        assert(share(shorter, k, scene, limits) == mine);
        assert(share(without, n - 1, scene, limits) == last);
        assert(rest.plus(mine).plus(last) =~= rest.plus(last).plus(mine)) by {
            assert(rest.findings.add(mine.findings).add(last.findings) =~= rest.findings.add(
                last.findings,
            ).add(mine.findings));
        }
    }
}

/// Whether the lenses `b` are the lenses `a` in another order.
pub open spec fn reordered(a: Seq<&dyn Lens>, b: Seq<&dyn Lens>, order: Seq<int>) -> bool {
    &&& a.len() == b.len() == order.len()
    &&& order.no_duplicates()
    &&& forall|i: int|
        0 <= i < order.len() ==> 0 <= #[trigger] order[i] < a.len() && b[i] == a[order[i]]
}

/// Reordered lenses ask for the same.
proof fn lemma_shares_reordered(
    a: Seq<&dyn Lens>,
    b: Seq<&dyn Lens>,
    order: Seq<int>,
    scene: Scene,
    limits: OutputLimits,
)
    requires
        reordered(a, b, order),
    ensures
        shares(a, scene, limits) == shares(b, scene, limits),
    decreases b.len(),
{
    if b.len() > 0 {
        let last = b.len() - 1;
        let k = order[last];
        let fewer = a.remove(k);
        let shorter = b.drop_last();
        let shifted = Seq::new(
            last as nat,
            |i: int|
                if order[i] > k {
                    order[i] - 1
                } else {
                    order[i]
                },
        );
        assert forall|i: int| 0 <= i < last implies order[i] != k by {}
        assert(shifted.no_duplicates());
        assert forall|i: int| 0 <= i < shifted.len() implies 0 <= #[trigger] shifted[i]
            < fewer.len() && shorter[i] == fewer[shifted[i]] by {
            assert(order[i] != k);
            assert(b[i] == a[order[i]]);
        }
        lemma_shares_without(a, k, scene, limits);
        lemma_shares_reordered(fewer, shorter, shifted, scene, limits);
        assert(b[last] == a[k]);
    }
}

/// Whether a scan has reached no limit yet.
pub open spec fn scan_unhindered(scan: Scan, config: ConfigView) -> bool {
    &&& !scan.stopped
    &&& !scan.budget.exhausted
    &&& scan.budget.spent <= scan.budget.limit
    &&& within(scan.counts, config.limits)
    &&& scan.evaluations <= config.max_lens_evaluations
}

pub proof fn lemma_scanned_reordered(
    scan: Scan,
    cluster: ClusterView,
    a: Seq<&dyn Lens>,
    b: Seq<&dyn Lens>,
    order: Seq<int>,
    series: SeriesSetView,
    typed: TypedView,
    config: ConfigView,
)
    requires
        reordered(a, b, order),
        a.len() <= usize::MAX,
        scan_unhindered(scan, config),
        cluster_pass(scan, cluster, a, series, typed, config).skip is None,
    ensures
        scanned(scan, cluster, a, series, typed, config) == scanned(
            scan,
            cluster,
            b,
            series,
            typed,
            config,
        ),
        scanned(scan, cluster, a, series, typed, config) matches Ok(next) ==> scan_unhindered(
            next,
            config,
        ),
{
    let scene = Scene { cluster, series, typed, context: context_of(cluster, config) };
    let present = sections(cluster.members);
    let fresh = Pass {
        findings: Seq::empty(),
        budget: scan.budget,
        counts: scan.counts,
        evaluations: scan.evaluations,
        skip: None,
    };
    lemma_dispatched_load(a, scene, config.limits);
    lemma_dispatched_load(b, scene, config.limits);
    lemma_shares_reordered(a, b, order, scene, config.limits);
    lemma_pass_load(fresh, a, dispatched(a, present, a.len()), scene, config);
    lemma_pass_load(fresh, b, dispatched(b, present, b.len()), scene, config);
    lemma_ranked_sort_order_free(
        cluster_pass(scan, cluster, a, series, typed, config).findings,
        cluster_pass(scan, cluster, b, series, typed, config).findings,
    );
}

proof fn lemma_scan_reordered(
    scan: Scan,
    clusters: Seq<ClusterView>,
    a: Seq<&dyn Lens>,
    b: Seq<&dyn Lens>,
    order: Seq<int>,
    series: SeriesSetView,
    typed: TypedView,
    config: ConfigView,
)
    requires
        reordered(a, b, order),
        a.len() <= usize::MAX,
        scan_unhindered(scan, config),
        scan_all(scan, clusters, a, series, typed, config) matches Ok(end) ==> !end.stopped,
    ensures
        scan_all(scan, clusters, a, series, typed, config) == scan_all(
            scan,
            clusters,
            b,
            series,
            typed,
            config,
        ),
    decreases clusters.len(),
{
    if clusters.len() > 0 {
        let first = clusters[0];
        let pass = cluster_pass(scan, first, a, series, typed, config);
        if scanned(scan, first, a, series, typed, config) is Ok {
            let next = scanned(scan, first, a, series, typed, config)->Ok_0;
            if pass.skip is Some {
                assert(scan_all(next, clusters.drop_first(), a, series, typed, config) is Ok);
            }
            lemma_scanned_reordered(scan, first, a, b, order, series, typed, config);
            lemma_scan_reordered(next, clusters.drop_first(), a, b, order, series, typed, config);
        }
    }
}

proof fn lemma_duplicate_shown(lenses: Seq<&dyn Lens>, n: nat) -> (found: (int, int))
    requires
        n <= lenses.len(),
        duplicate_id(lenses, n) is Some,
    ensures
        0 <= found.0 < found.1 < n,
        lenses[found.0].id_text() == lenses[found.1].id_text(),
    decreases n,
{
    if duplicate_id(lenses, (n - 1) as nat) is Some {
        lemma_duplicate_shown(lenses, (n - 1) as nat)
    } else {
        let i = choose|i: int|
            0 <= i < n - 1 && (#[trigger] lenses[i]).id_text() == lenses[n - 1].id_text();
        (i, n - 1)
    }
}

proof fn lemma_duplicate_reordered(a: Seq<&dyn Lens>, b: Seq<&dyn Lens>, order: Seq<int>)
    requires
        reordered(a, b, order),
        duplicate_id(b, b.len()) is Some,
    ensures
        duplicate_id(a, a.len()) is Some,
{
    let (i, j) = lemma_duplicate_shown(b, b.len());
    assert(b[i] == a[order[i]]);
    assert(b[j] == a[order[j]]);
    if order[i] < order[j] {
        lemma_duplicate_found(a, order[i], order[j], a.len());
    } else {
        lemma_duplicate_found(a, order[j], order[i], a.len());
    }
}

/// The order in which lenses are registered does not matter to a request that
/// its limits bear: reordered lenses give the same response.
pub proof fn law_registration_order_does_not_matter(
    episodes: Seq<EpisodeView>,
    series: SeriesSetView,
    typed: TypedView,
    a: Seq<&dyn Lens>,
    b: Seq<&dyn Lens>,
    order: Seq<int>,
    config: ConfigView,
)
    requires
        reordered(a, b, order),
        a.len() <= usize::MAX,
        analysis(episodes, series, typed, a, config) matches Ok(outcome) && outcome.complete,
    ensures
        analysis(episodes, series, typed, a, config) == analysis(
            episodes,
            series,
            typed,
            b,
            config,
        ),
{
    if duplicate_id(b, b.len()) is Some {
        lemma_duplicate_reordered(a, b, order);
    }
    let found = clustered(episodes, config.epsilon_us, config.max_cluster_span_us).clusters;
    lemma_scan_reordered(fresh_scan(config), found, a, b, order, series, typed, config);
}

/// What an event lens asks for, its admission included.
pub open spec fn event_load(
    lenses: Seq<&dyn EventLens>,
    at: int,
    events: EventsView,
    limits: OutputLimits,
) -> Load {
    run_load(
        SinkRules { limits, lens_id: lenses[at].id_text(), cap: lenses[at].cap() },
        lenses[at].event_steps(events),
    ).plus(Load { work: 1, evaluations: 1, ..Load::zero() })
}

/// What the event lenses from `at` on ask for.
pub open spec fn event_loads(
    lenses: Seq<&dyn EventLens>,
    at: nat,
    events: EventsView,
    limits: OutputLimits,
) -> Load
    decreases lenses.len() - at,
{
    if at >= lenses.len() {
        Load::zero()
    } else {
        event_load(lenses, at as int, events, limits).plus(
            event_loads(lenses, at + 1, events, limits),
        )
    }
}

/// A pass over event lenses is completed exactly if their load is borne, and
/// then it carries that load.
pub proof fn lemma_event_pass_load(
    pass: Pass,
    lenses: Seq<&dyn EventLens>,
    at: nat,
    events: EventsView,
    config: EventConfig,
)
    requires
        unhindered(pass, config.limits(), config.max_lens_evaluations),
    ensures
        ({
            let end = event_passes(pass, lenses, at, events, config);
            let load = event_loads(lenses, at, events, config.limits());
            &&& end.skip is None <==> pass_bears(
                pass,
                config.limits(),
                config.max_lens_evaluations,
                load,
            )
            &&& end.skip is None ==> carries(end, pass, load)
        }),
    decreases lenses.len() - at,
{
    if at >= lenses.len() {
        assert(pass.findings.to_multiset().add(Multiset::empty())
            =~= pass.findings.to_multiset());
    } else {
        let limits = config.limits();
        let rules = SinkRules {
            limits,
            lens_id: lenses[at as int].id_text(),
            cap: lenses[at as int].cap(),
        };
        let steps = lenses[at as int].event_steps(events);
        let next = event_passed(pass, lenses, at as int, events, config);
        let own = event_load(lenses, at as int, events, limits);
        let later = event_loads(lenses, at + 1, events, limits);
        let asked = run_load(rules, steps);
        assert(asked.findings.add(Multiset::empty()) =~= asked.findings);
        lemma_later_load(rules, steps);
        if admission(pass.evaluations, config.max_lens_evaluations, pass.budget) is None {
            let state = SinkState {
                findings: pass.findings,
                budget: pass.budget.charged(1),
                counts: pass.counts,
                hit: None,
            };
            lemma_run_load(state, rules, steps);
        }
        assert(next.skip is None <==> pass_bears(pass, limits, config.max_lens_evaluations, own));
        if next.skip is None {
            assert(carries(next, pass, own));
            lemma_event_pass_load(next, lenses, at + 1, events, config);
            assert(pass.findings.to_multiset().add(own.findings).add(later.findings)
                =~= pass.findings.to_multiset().add(own.findings.add(later.findings)));
        } else {
            assert(event_passes(next, lenses, at + 1, events, config) == next);
        }
    }
}

proof fn lemma_event_loads_shifted(
    lenses: Seq<&dyn EventLens>,
    k: int,
    at: nat,
    events: EventsView,
    limits: OutputLimits,
)
    requires
        0 <= k <= at,
        k < lenses.len(),
    ensures
        event_loads(lenses.remove(k), at, events, limits) == event_loads(
            lenses,
            at + 1,
            events,
            limits,
        ),
    decreases lenses.len() - at,
{
    if at + 1 < lenses.len() {
        lemma_event_loads_shifted(lenses, k, at + 1, events, limits);
        assert(lenses.remove(k)[at as int] == lenses[at as int + 1]);
    }
}

/// The load without one event lens, and the load of that lens.
proof fn lemma_event_loads_without(
    lenses: Seq<&dyn EventLens>,
    k: int,
    at: nat,
    events: EventsView,
    limits: OutputLimits,
)
    requires
        at <= k < lenses.len(),
    ensures
        event_loads(lenses, at, events, limits) == event_loads(
            lenses.remove(k),
            at,
            events,
            limits,
        ).plus(event_load(lenses, k, events, limits)),
    decreases lenses.len() - at,
{
    let mine = event_load(lenses, k, events, limits);
    if at == k {
        let later = event_loads(lenses, at + 1, events, limits);
        lemma_event_loads_shifted(lenses, k, at, events, limits);
        assert(mine.findings.add(later.findings) =~= later.findings.add(mine.findings));
    } else {
        lemma_event_loads_without(lenses, k, at + 1, events, limits);
        assert(lenses.remove(k)[at as int] == lenses[at as int]);
        let first = event_load(lenses, at as int, events, limits);
        let rest = event_loads(lenses.remove(k), at + 1, events, limits);
        assert(first.findings.add(rest.findings.add(mine.findings)) =~= first.findings.add(
            rest.findings,
        ).add(mine.findings));
    }
}

/// Whether the event lenses `b` are the event lenses `a` in another order.
pub open spec fn events_reordered(
    a: Seq<&dyn EventLens>,
    b: Seq<&dyn EventLens>,
    order: Seq<int>,
) -> bool {
    &&& a.len() == b.len() == order.len()
    &&& order.no_duplicates()
    &&& forall|i: int|
        0 <= i < order.len() ==> 0 <= #[trigger] order[i] < a.len() && b[i] == a[order[i]]
}

proof fn lemma_event_loads_reordered(
    a: Seq<&dyn EventLens>,
    b: Seq<&dyn EventLens>,
    order: Seq<int>,
    events: EventsView,
    limits: OutputLimits,
)
    requires
        events_reordered(a, b, order),
    ensures
        event_loads(a, 0, events, limits) == event_loads(b, 0, events, limits),
    decreases b.len(),
{
    if b.len() > 0 {
        let last = b.len() - 1;
        let k = order[last];
        let fewer = a.remove(k);
        let shorter = b.remove(last);
        let shifted = Seq::new(
            last as nat,
            |i: int|
                if order[i] > k {
                    order[i] - 1
                } else {
                    order[i]
                },
        );
        assert(shifted.no_duplicates());
        assert forall|i: int| 0 <= i < shifted.len() implies 0 <= #[trigger] shifted[i]
            < fewer.len() && shorter[i] == fewer[shifted[i]] by {
            assert(order[i] != k);
            assert(b[i] == a[order[i]]);
        }
        lemma_event_loads_without(a, k, 0, events, limits);
        lemma_event_loads_without(b, last, 0, events, limits);
        lemma_event_loads_reordered(fewer, shorter, shifted, events, limits);
        assert(b[last] == a[k]);
    }
}

proof fn lemma_duplicate_event_shown(lenses: Seq<&dyn EventLens>, n: nat) -> (found: (int, int))
    requires
        n <= lenses.len(),
        duplicate_event_id(lenses, n) is Some,
    ensures
        0 <= found.0 < found.1 < n,
        lenses[found.0].id_text() == lenses[found.1].id_text(),
    decreases n,
{
    if duplicate_event_id(lenses, (n - 1) as nat) is Some {
        lemma_duplicate_event_shown(lenses, (n - 1) as nat)
    } else {
        let i = choose|i: int|
            0 <= i < n - 1 && (#[trigger] lenses[i]).id_text() == lenses[n - 1].id_text();
        (i, n - 1)
    }
}

/// The order in which event lenses are registered does not matter to a request
/// that its limits bear.
pub proof fn law_event_registration_order_does_not_matter(
    events: EventsView,
    a: Seq<&dyn EventLens>,
    b: Seq<&dyn EventLens>,
    order: Seq<int>,
    config: EventConfig,
)
    requires
        events_reordered(a, b, order),
        event_analysis(events, a, config) matches Ok(outcome) && outcome.skipped.len() == 0,
    ensures
        event_analysis(events, a, config) == event_analysis(events, b, config),
{
    if duplicate_event_id(b, b.len()) is Some {
        let (i, j) = lemma_duplicate_event_shown(b, b.len());
        assert(b[i] == a[order[i]]);
        assert(b[j] == a[order[j]]);
        if order[i] < order[j] {
            lemma_duplicate_event_found(a, order[i], order[j], a.len());
        } else {
            lemma_duplicate_event_found(a, order[j], order[i], a.len());
        }
    }
    let fresh = fresh_event_pass(config);
    lemma_event_loads_reordered(a, b, order, events, config.limits());
    lemma_event_pass_load(fresh, a, 0, events, config);
    lemma_event_pass_load(fresh, b, 0, events, config);
    lemma_ranked_sort_order_free(
        event_passes(fresh, a, 0, events, config).findings,
        event_passes(fresh, b, 0, events, config).findings,
    );
}

} // verus!
