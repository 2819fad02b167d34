//! When block devices are reported, and which one.

use crate::cluster::ClusterView;
use crate::engine::EvalContext;
use crate::evidence::confidence::Role;
use crate::evidence::finding::EvidenceView;
use crate::evidence::sink::Step;
use crate::float64::{
    law_small_integers_add_exactly, law_small_integers_keep_their_order, lemma_rounded, magnitude,
    nearest, rounded, Float64, UNIT,
};
use crate::inspect::{emitted, MemberLens};
use crate::laws::counters::lemma_whole_seconds;
use crate::laws::host::are_sums;
use crate::laws::integers::lemma_one_thousand;
use crate::laws::ratio::{
    law_ratio_reaches_one, law_ratio_reaches_twenty, lemma_nearest_exists, lemma_ratio_finite,
    lemma_small,
};
use crate::laws::steps::{
    drafts, lemma_drafts_after_charge, lemma_drafts_charge, lemma_drafts_concat,
    lemma_drafts_emitted,
};
use crate::laws::subject::{is_about, is_first_of, lemma_first_member, shows_ratio};
use crate::lens::Lens;
use crate::model::IdentityView;
use crate::os_lenses::{
    best_block, block_candidate, block_columns, block_evidence, block_measures, block_search,
    counter_charges, device_identity, device_steps, evidence_draft, progress_evidence,
    progress_points, window_charge, window_max, with_evidence, BlockDeviceLens, BlockView,
};
use crate::series::SeriesSetView;
use crate::typed::counter::AlignedView;
use crate::typed::inputs::TypedView;
use vstd::arithmetic::power2::{lemma_pow2_pos, pow2};
use vstd::prelude::*;

verus! {

/// Small integers multiply exactly.
pub proof fn law_small_integers_multiply_exactly(a: int, b: int)
    requires
        0 <= a <= 0x20_0000_0000_0000,
        0 <= b <= 0x20_0000_0000_0000,
        a * b <= 0x20_0000_0000_0000,
    ensures
        Float64::of_int(a).product_with(Float64::of_int(b)) == Float64::of_int(a * b),
{
    let unit = pow2(UNIT as nat);
    lemma_pow2_pos(UNIT as nat);
    assert(0 <= a * b) by (nonlinear_arith)
        requires
            0 <= a,
            0 <= b,
    ;
    lemma_small(a);
    lemma_small(b);
    let num = (a * b * unit) as nat;
    assert(num == a * b * unit && 0 <= a * b * unit) by (nonlinear_arith)
        requires
            0 <= a * b,
            unit > 0,
            num == (a * b * unit) as nat,
    ;
    lemma_nearest_exists(num, 1);
    let n = rounded(num, 1);
    let both = magnitude(Float64::of_int(a).ordinal()) * magnitude(Float64::of_int(b).ordinal());
    assert(both == num * unit) by (nonlinear_arith)
        requires
            both == (a * unit) * (b * unit),
            num == a * b * unit,
    ;
    if n > 0 {
        let low = magnitude((n - 1) as nat) + magnitude(n);
        assert((low * 1 < 2 * num ==> low * unit < 2 * (num * unit)) && (low * 1 == 2 * num
            ==> low * unit == 2 * (num * unit))) by (nonlinear_arith)
            requires
                unit > 0,
        ;
    }
    let high = magnitude(n) + magnitude(n + 1);
    assert((2 * num < high * 1 ==> 2 * (num * unit) < high * unit) && (2 * num == high * 1 ==> 2
        * (num * unit) == high * unit)) by (nonlinear_arith)
        requires
            unit > 0,
    ;
    assert(nearest(n, num * unit, unit));
    lemma_rounded(n, num * unit, unit);
}

/// A block device over an incident: its counters of reads, their time, writes,
/// their time and weighted time, and the whole seconds they cover.
pub struct DeviceLoad {
    pub identity: Seq<IdentityView>,
    pub sums: AlignedView,
    pub counts: Seq<int>,
    pub seconds: int,
}

impl DeviceLoad {
    pub open spec fn operations(self) -> int {
        self.counts[0] + self.counts[2]
    }

    pub open spec fn time_ms(self) -> int {
        self.counts[1] + self.counts[3]
    }

    pub open spec fn weighted_ms(self) -> int {
        self.counts[4]
    }

    pub open spec fn elapsed_ms(self) -> int {
        1000 * self.seconds
    }

    /// Whether its operations took twenty milliseconds each, or one was always
    /// in flight.
    pub open spec fn is_slow(self) -> bool {
        self.sums.intervals >= 3 && self.operations() > 0 && (self.time_ms() >= 20
            * self.operations() || self.weighted_ms() >= self.elapsed_ms())
    }

    /// The longer of the time per operation and twenty milliseconds for each in
    /// flight.
    pub open spec fn slowness(self) -> Float64 {
        Float64::of_int(self.time_ms()).quotient_by(Float64::of_int(self.operations())).larger(
            Float64::of_int(self.weighted_ms()).quotient_by(
                Float64::of_int(self.elapsed_ms()),
            ).product_with(Float64 { bits: 0x4034_0000_0000_0000 }),
        )
    }

    pub open spec fn is_read(self, typed: TypedView, context: EvalContext) -> bool {
        &&& self.identity.len() == 2
        &&& self.identity[0] is I64
        &&& self.identity[1] is I64
        &&& self.identity[0]->I64_0 > 0
        &&& self.identity[1]->I64_0 >= 0
        &&& self.counts.len() == 5
        &&& are_sums(self.sums, self.counts)
        &&& 0 < self.seconds <= 0x1000_0000
        &&& self.sums.elapsed_us == 1_000_000 * self.seconds
        &&& typed.aligned_sums(
            "os_diskstats"@,
            self.identity,
            seq![
                "reads"@,
                "read_time_ms"@,
                "writes"@,
                "write_time_ms"@,
                "io_weighted_time_ms"@,
            ],
            context.incident_start_us,
            context.incident_end_us,
        ) == Some(self.sums)
    }
}

proof fn lemma_candidate(load: DeviceLoad, typed: TypedView, context: EvalContext)
    requires
        load.is_read(typed, context),
    ensures
        block_candidate(typed, load.identity, context) is Some <==> load.is_slow(),
        block_candidate(typed, load.identity, context) matches Some(found) ==> {
            &&& found.identity == load.identity
            &&& found.sums == load.sums
            &&& found.operations == Float64::of_int(load.operations())
            &&& found.operation_time_ms == Float64::of_int(load.time_ms())
            &&& found.elapsed_ms == Float64::of_int(load.elapsed_ms())
            &&& found.score == load.slowness()
            &&& !found.score.nan()
        },
{
    reveal(block_columns);
    let c = load.counts;
    assert(0 <= c[0] && 0 <= c[1] && 0 <= c[2] && 0 <= c[3] && 0 <= c[4]);
    assert(load.sums.sums[0] == Float64::of_int(c[0]) && load.sums.sums[1] == Float64::of_int(c[1])
        && load.sums.sums[2] == Float64::of_int(c[2]) && load.sums.sums[3] == Float64::of_int(c[3])
        && load.sums.sums[4] == Float64::of_int(c[4]));
    law_small_integers_add_exactly(c[0], c[2]);
    law_small_integers_add_exactly(c[1], c[3]);
    lemma_whole_seconds(load.sums.elapsed_us, load.seconds);
    lemma_one_thousand();
    law_small_integers_multiply_exactly(load.seconds, 1000);
    lemma_small(load.operations());
    lemma_small(load.time_ms());
    lemma_small(load.elapsed_ms());
    lemma_small(c[4]);
    if load.operations() > 0 {
        law_ratio_reaches_twenty(load.time_ms(), load.operations());
    }
    law_ratio_reaches_one(c[4], load.elapsed_ms());
    let found = block_measures(load.identity, load.sums);
    assert(found.elapsed_ms == Float64::of_int(load.elapsed_ms()));
}

/// Whether devices are listed in order.
pub open spec fn are_devices(
    ids: Seq<Seq<IdentityView>>,
    loads: Seq<DeviceLoad>,
    typed: TypedView,
    context: EvalContext,
) -> bool {
    &&& ids.len() == loads.len()
    &&& forall|i: int|
        0 <= i < ids.len() ==> (#[trigger] loads[i]).identity == ids[i] && loads[i].is_read(
            typed,
            context,
        )
}

/// Whether no slow device is slower than one of them.
pub open spec fn is_slowest(loads: Seq<DeviceLoad>, i: int) -> bool {
    &&& 0 <= i < loads.len()
    &&& loads[i].is_slow()
    &&& forall|j: int|
        0 <= j < loads.len() && (#[trigger] loads[j]).is_slow() ==> !loads[i].slowness().below(
            loads[j].slowness(),
        )
}

spec fn top(found: Seq<Option<BlockView>>) -> Option<BlockView>
    decreases found.len(),
{
    if found.len() == 0 {
        None
    } else {
        match (top(found.drop_last()), found.last()) {
            (Some(other), Some(next)) => if other.score.below(next.score) {
                Some(next)
            } else {
                Some(other)
            },
            (None, next) => next,
            (earlier, None) => earlier,
        }
    }
}

spec fn is_top(found: Seq<Option<BlockView>>, i: int) -> bool {
    &&& 0 <= i < found.len()
    &&& found[i] is Some
    &&& forall|j: int|
        0 <= j < found.len() && #[trigger] found[j] is Some
            ==> !found[i]->Some_0.score.below(found[j]->Some_0.score)
}

proof fn lemma_top(found: Seq<Option<BlockView>>)
    requires
        forall|i: int|
            0 <= i < found.len() && #[trigger] found[i] is Some ==> !found[i]->Some_0.score.nan(),
    ensures
        match top(found) {
            Some(best) => exists|i: int| #[trigger] is_top(found, i) && found[i] == Some(best),
            None => forall|i: int| 0 <= i < found.len() ==> #[trigger] found[i] is None,
        },
    decreases found.len(),
{
    if found.len() > 0 {
        let front = found.drop_last();
        let n = found.len() - 1;
        assert(found[n] == found.last());
        assert forall|i: int| 0 <= i < front.len() implies #[trigger] found[i] == front[i] by {}
        assert forall|i: int| 0 <= i < front.len() && #[trigger] front[i] is Some
            implies !front[i]->Some_0.score.nan() by {
            assert(found[i] == front[i]);
        }
        lemma_top(front);
        match top(front) {
            Some(other) => {
                let i = choose|i: int| #[trigger] is_top(front, i) && front[i] == Some(other);
                assert(found[i] == front[i]);
                if found[n] is Some && other.score.below(found[n]->Some_0.score) {
                    assert forall|j: int| 0 <= j < found.len()
                        && #[trigger] found[j] is Some implies !found[n]->Some_0.score.below(
                        found[j]->Some_0.score,
                    ) by {
                        if j < n {
                            assert(front[j] is Some);
                        }
                    }
                    assert(is_top(found, n));
                } else {
                    assert forall|j: int| 0 <= j < found.len()
                        && #[trigger] found[j] is Some implies !found[i]->Some_0.score.below(
                        found[j]->Some_0.score,
                    ) by {
                        if j < n {
                            assert(front[j] is Some);
                        }
                    }
                    assert(is_top(found, i));
                }
            },
            None => {
                if found[n] is Some {
                    assert(is_top(found, n));
                }
            },
        }
    }
}

spec fn candidates(
    typed: TypedView,
    ids: Seq<Seq<IdentityView>>,
    context: EvalContext,
) -> Seq<Option<BlockView>> {
    Seq::new(ids.len(), |i: int| block_candidate(typed, ids[i], context))
}

proof fn lemma_best_is_top(typed: TypedView, ids: Seq<Seq<IdentityView>>, context: EvalContext)
    ensures
        best_block(typed, ids, context) == top(candidates(typed, ids, context)),
    decreases ids.len(),
{
    if ids.len() > 0 {
        lemma_best_is_top(typed, ids.drop_last(), context);
        assert(candidates(typed, ids, context).drop_last() =~= candidates(
            typed,
            ids.drop_last(),
            context,
        ));
    }
}

proof fn lemma_best_block(
    typed: TypedView,
    ids: Seq<Seq<IdentityView>>,
    loads: Seq<DeviceLoad>,
    context: EvalContext,
)
    requires
        are_devices(ids, loads, typed, context),
    ensures
        match best_block(typed, ids, context) {
            Some(best) => exists|i: int| #[trigger]
                is_slowest(loads, i) && Some(best) == block_candidate(
                    typed,
                    loads[i].identity,
                    context,
                ),
            None => forall|i: int| 0 <= i < loads.len() ==> !(#[trigger] loads[i]).is_slow(),
        },
{
    let found = candidates(typed, ids, context);
    assert forall|i: int| 0 <= i < loads.len() implies ({
        let load = #[trigger] loads[i];
        &&& found[i] is Some <==> load.is_slow()
        &&& found[i] is Some ==> found[i]->Some_0.score == load.slowness()
            && !found[i]->Some_0.score.nan()
    }) by {
        lemma_candidate(loads[i], typed, context);
    }
    lemma_best_is_top(typed, ids, context);
    lemma_slowest(found, loads);
    assert forall|i: int| 0 <= i < loads.len() implies #[trigger] found[i] == block_candidate(
        typed,
        loads[i].identity,
        context,
    ) by {
        assert(loads[i].identity == ids[i]);
    }
    if let Some(best) = top(found) {
        let i = choose|i: int| #[trigger] is_slowest(loads, i) && found[i] == Some(best);
        assert(is_slowest(loads, i));
    }
}

proof fn lemma_slowest(found: Seq<Option<BlockView>>, loads: Seq<DeviceLoad>)
    requires
        found.len() == loads.len(),
        forall|i: int|
            0 <= i < loads.len() ==> {
                let load = #[trigger] loads[i];
                &&& found[i] is Some <==> load.is_slow()
                &&& found[i] is Some ==> found[i]->Some_0.score == load.slowness()
                    && !found[i]->Some_0.score.nan()
            },
    ensures
        match top(found) {
            Some(best) => exists|i: int| #[trigger]
                is_slowest(loads, i) && found[i] == Some(best),
            None => forall|i: int| 0 <= i < loads.len() ==> !(#[trigger] loads[i]).is_slow(),
        },
{
    assert forall|i: int| 0 <= i < found.len() && #[trigger] found[i] is Some
        implies !found[i]->Some_0.score.nan() by {
        let load = loads[i];
    }
    lemma_top(found);
    match top(found) {
        Some(best) => {
            let i = choose|i: int| #[trigger] is_top(found, i) && found[i] == Some(best);
            let load = loads[i];
            assert forall|j: int| 0 <= j < loads.len() && (#[trigger] loads[j]).is_slow()
                implies !loads[i].slowness().below(
                loads[j].slowness(),
            ) by {
                assert(found[j] is Some);
            }
            assert(is_slowest(loads, i));
        },
        None => {
            assert forall|i: int| 0 <= i < loads.len() implies !(#[trigger] loads[i]).is_slow() by {
                assert(found[i] is None);
            }
        },
    }
}

/// Whether the first evidence of a draft is about a device, and says whether it
/// is known to hold the storage of the database.
pub open spec fn names_device(
    draft: crate::evidence::finding::DraftView,
    typed: TypedView,
    major: i64,
    minor: i64,
) -> bool {
    draft.evidence.len() > 0 && match draft.evidence[0] {
        EvidenceView::GaugeObservation(gauge) => gauge.entity.identity == seq![
            IdentityView::Text(
                if typed.storage_devices.contains((major, minor)) {
                    "postgres_storage_exact"@
                } else {
                    "postgres_storage_unproven"@
                },
            ),
            IdentityView::I64(major),
            IdentityView::I64(minor),
        ],
        _ => false,
    }
}

/// A slow device is reported exactly if there is one; it is one that no other is
/// slower than.
pub proof fn law_the_slowest_device_is_reported(
    cluster: ClusterView,
    series: SeriesSetView,
    typed: TypedView,
    context: EvalContext,
    at: int,
    loads: Seq<DeviceLoad>,
)
    requires
        is_first_of(cluster.members, "os_diskstats"@, at),
        are_devices(typed.identities("os_diskstats"@, "reads"@), loads, typed, context),
    ensures
        ({
            let out = drafts(BlockDeviceLens.steps(cluster, series, typed, context));
            &&& out.len() <= 1
            &&& out.len() == 1 <==> exists|i: int|
                0 <= i < loads.len() && (#[trigger] loads[i]).is_slow()
            &&& out.len() == 1 ==> out[0].requested_role == Role::Coincident && is_about(
                out[0],
                cluster.members[at],
            ) && exists|i: int| #[trigger]
                is_slowest(loads, i) && names_device(
                    out[0],
                    typed,
                    loads[i].identity[0]->I64_0,
                    loads[i].identity[1]->I64_0,
                ) && shows_ratio(
                    out[0],
                    0,
                    "operation_time_ms"@,
                    Float64::of_int(loads[i].time_ms()),
                    "operations"@,
                    Float64::of_int(loads[i].operations()),
                ) && shows_ratio(
                    out[0],
                    1,
                    "io_weighted_time_ms"@,
                    Float64::of_int(loads[i].weighted_ms()),
                    "elapsed_ms"@,
                    Float64::of_int(loads[i].elapsed_ms()),
                )
        }),
{
    let ids = typed.identities("os_diskstats"@, "reads"@);
    let member = cluster.members[at];
    lemma_first_member(&BlockDeviceLens, "os_diskstats"@, cluster, typed, context, at);
    let best = best_block(typed, ids, context);
    let last = device_steps(member, best, typed, context);
    let search = block_search(typed);
    lemma_drafts_concat(search, last);
    let charges = counter_charges(typed, "os_diskstats"@, ids, block_columns());
    lemma_charges_draft_nothing(charges);
    lemma_drafts_after_charge(ids.len() as usize, charges);
    assert(drafts(search).len() == 0);
    assert(drafts(BlockDeviceLens.member_steps(member, typed, context)) =~= drafts(last));
    lemma_best_block(typed, ids, loads, context);
    if let Some(found) = best {
        let i = choose|i: int| #[trigger]
            is_slowest(loads, i) && Some(found) == block_candidate(
                typed,
                loads[i].identity,
                context,
            );
        lemma_candidate(loads[i], typed, context);
        lemma_device(member, loads[i], found, typed, context);
    }
}

pub proof fn lemma_charges_draft_nothing(charges: Seq<Step>)
    requires
        forall|i: int| 0 <= i < charges.len() ==> #[trigger] charges[i] is Charge,
    ensures
        drafts(charges).len() == 0,
    decreases charges.len(),
{
    if charges.len() > 0 {
        let rest = charges.drop_last();
        assert forall|i: int| 0 <= i < rest.len() implies #[trigger] rest[i] is Charge by {
            assert(rest[i] == charges[i]);
        }
        lemma_charges_draft_nothing(rest);
        assert(charges[charges.len() - 1] is Charge);
    }
}

proof fn lemma_device(
    member: crate::model::EpisodeView,
    load: DeviceLoad,
    found: BlockView,
    typed: TypedView,
    context: EvalContext,
)
    requires
        load.is_read(typed, context),
        load.is_slow(),
        Some(found) == block_candidate(typed, load.identity, context),
    ensures
        ({
            let out = drafts(device_steps(member, Some(found), typed, context));
            &&& out.len() == 1
            &&& out[0].requested_role == Role::Coincident
            &&& is_about(out[0], member)
            &&& names_device(
                out[0],
                typed,
                load.identity[0]->I64_0,
                load.identity[1]->I64_0,
            )
            &&& shows_ratio(
                out[0],
                0,
                "operation_time_ms"@,
                Float64::of_int(load.time_ms()),
                "operations"@,
                Float64::of_int(load.operations()),
            )
            &&& shows_ratio(
                out[0],
                1,
                "io_weighted_time_ms"@,
                Float64::of_int(load.weighted_ms()),
                "elapsed_ms"@,
                Float64::of_int(load.elapsed_ms()),
            )
        }),
{
    lemma_candidate(load, typed, context);
    let numbers = (load.identity[0]->I64_0, load.identity[1]->I64_0);
    let about = crate::active::observe::entity_of(
        "os_diskstats"@,
        device_identity(typed, numbers),
    );
    let points = progress_points(typed, found.identity, context);
    let c = load.counts;
    assert(0 <= c[0] && 0 <= c[1] && 0 <= c[2] && 0 <= c[3] && 0 <= c[4]);
    assert(load.sums.sums[4] == Float64::of_int(c[4]));
    lemma_small(0);
    lemma_small(load.operations());
    lemma_small(load.time_ms());
    lemma_small(load.elapsed_ms());
    lemma_small(c[4]);
    lemma_ratio_finite(load.time_ms(), load.operations());
    lemma_ratio_finite(c[4], load.elapsed_ms());
    law_small_integers_keep_their_order(0, load.operations());
    law_small_integers_keep_their_order(0, load.elapsed_ms());
    reveal_strlit("operation_time_ms");
    reveal_strlit("operations");
    reveal_strlit("io_weighted_time_ms");
    reveal_strlit("elapsed_ms");
    reveal_strlit("os_diskstats");
    let shown = block_evidence(found, about);
    assert(shown.len() == 2);
    let list = with_evidence(shown, progress_evidence(window_max(points, context), about));
    assert(list[0] == shown[0] && list[1] == shown[1]);
    let draft = evidence_draft(member, list);
    lemma_drafts_concat(window_charge(points), emitted(draft));
    if let Some(read) = points {
        lemma_drafts_charge(read.len() as usize);
    }
    lemma_drafts_emitted(draft);
    assert(drafts(window_charge(points)) =~= Seq::empty());
    assert(drafts(device_steps(member, Some(found), typed, context)) =~= seq![draft->Some_0]);
}

} // verus!
