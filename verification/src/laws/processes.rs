//! Which processes are shown for their traffic.

use crate::cluster::ClusterView;
use crate::engine::EvalContext;
use crate::evidence::confidence::Role;
use crate::evidence::finding::{DraftView, EvidenceView};
use crate::evidence::gauge::{GaugeEvidenceView, MeasurementView};
use crate::float64::{law_small_integers_add_exactly, law_small_integers_keep_their_order, Float64};
use crate::inspect::{emitted, MemberLens};
use crate::laws::integers::lemma_one;
use crate::laws::ratio::{law_small_integers_subtract_exactly, lemma_small};
use crate::laws::steps::{
    drafts, lemma_drafts_after_charge, lemma_drafts_concat, lemma_drafts_emitted,
};
use crate::laws::subject::{is_about, is_first_of, lemma_first_member};
use crate::lens::Lens;
use crate::model::IdentityView;
use crate::order::{lemma_ranked_sort, lex_le, rank_order, ranked_sort};
use crate::os_lenses::{
    contributors, evidence_draft, process_bytes, process_candidate, process_candidates,
    process_columns, process_numbers, process_steps, processes_steps, traffic, traffic_evidence,
    ProcessIoView, ProcessIoWhoLens,
};
use crate::series::SeriesSetView;
use crate::typed::counter::AlignedView;
use crate::typed::inputs::TypedView;
use vstd::prelude::*;

verus! {

/// A process over an incident: the bytes that it read and wrote, and those of
/// its writes that were cancelled, where they are known.
pub struct ProcessLoad {
    pub pid: i64,
    pub starttime: i64,
    pub sums: AlignedView,
    pub read: int,
    pub written: int,
    pub cancelled: Option<int>,
}

impl ProcessLoad {
    pub open spec fn identity(self) -> Seq<IdentityView> {
        seq![IdentityView::I64(self.pid), IdentityView::I64(self.starttime)]
    }

    /// Bytes that reached a device: what was read, and what was written and not
    /// cancelled.
    pub open spec fn bytes(self) -> int {
        let cancelled = match self.cancelled {
            Some(n) => n,
            None => 0,
        };
        self.read + if self.written > cancelled {
            self.written - cancelled
        } else {
            0
        }
    }

    pub open spec fn moves(self) -> bool {
        self.sums.intervals >= 2 && self.bytes() > 0
    }

    pub open spec fn is_read(self, typed: TypedView, context: EvalContext) -> bool {
        &&& self.pid > 0
        &&& self.starttime > 0
        &&& 0 <= self.read <= 0x8_0000_0000
        &&& 0 <= self.written <= 0x8_0000_0000
        &&& self.cancelled matches Some(n) ==> 0 <= n <= 0x8_0000_0000
        &&& typed.counter("os_process"@, "cancelled_write_bytes"@, self.identity()) is Some
            <==> self.cancelled is Some
        &&& self.sums.sums == match self.cancelled {
            Some(n) => seq![
                Float64::of_int(self.read),
                Float64::of_int(self.written),
                Float64::of_int(n),
            ],
            None => seq![Float64::of_int(self.read), Float64::of_int(self.written)],
        }
        &&& typed.aligned_sums(
            "os_process"@,
            self.identity(),
            match self.cancelled {
                Some(_) => seq!["read_bytes"@, "write_bytes"@, "cancelled_write_bytes"@],
                None => seq!["read_bytes"@, "write_bytes"@],
            },
            context.incident_start_us,
            context.incident_end_us,
        ) == Some(self.sums)
    }
}

pub open spec fn are_processes(
    ids: Seq<Seq<IdentityView>>,
    loads: Seq<ProcessLoad>,
    typed: TypedView,
    context: EvalContext,
) -> bool {
    &&& ids.len() == loads.len()
    &&& forall|i: int|
        0 <= i < ids.len() ==> (#[trigger] loads[i]).identity() == ids[i] && loads[i].is_read(
            typed,
            context,
        )
}

/// Whether evidence tells the traffic of a process, and as that of a backend
/// exactly if it is known as one.
pub open spec fn tells(
    shown: GaugeEvidenceView,
    load: ProcessLoad,
    typed: TypedView,
    context: EvalContext,
) -> bool {
    &&& shown.measurement == (MeasurementView::Value {
        operand: "io_bytes"@,
        value: Float64::of_int(load.bytes()),
    })
    &&& shown.observed_at_us == load.sums.last_end_us
    &&& shown.entity.section == "os_process"@
    &&& shown.entity.identity.len() >= 2
    &&& shown.entity.identity[0] == IdentityView::Text("postgres_backend"@) <==> typed.is_backend(
        load.pid,
        load.starttime,
        context.incident_start_us,
        context.incident_end_us,
    )
}

/// Whether evidence of a draft shows the traffic of a process.
pub open spec fn shows_process(
    draft: DraftView,
    k: int,
    load: ProcessLoad,
    typed: TypedView,
    context: EvalContext,
) -> bool {
    0 <= k < draft.evidence.len() && match draft.evidence[k] {
        EvidenceView::GaugeObservation(shown) => tells(shown, load, typed, context),
        _ => false,
    }
}

proof fn lemma_process(load: ProcessLoad, typed: TypedView, context: EvalContext)
    requires
        load.is_read(typed, context),
    ensures
        process_candidate(typed, load.identity(), context) is Some <==> load.moves(),
        process_candidate(typed, load.identity(), context) matches Some(found) ==> {
            &&& found.identity == load.identity()
            &&& found.bytes == Float64::of_int(load.bytes())
            &&& found.intervals == load.sums.intervals
            &&& found.observed_at_us == load.sums.last_end_us
            &&& found.postgres_backend == typed.is_backend(
                load.pid,
                load.starttime,
                context.incident_start_us,
                context.incident_end_us,
            )
        },
{
    let cancelled = match load.cancelled {
        Some(n) => n,
        None => 0,
    };
    lemma_small(0);
    lemma_small(cancelled);
    law_small_integers_keep_their_order(cancelled, 0);
    assert(Float64::of_int(cancelled).larger(Float64 { bits: 0 }) == Float64::of_int(cancelled));
    law_small_integers_subtract_exactly(load.written, cancelled);
    law_small_integers_keep_their_order(load.written - cancelled, 0);
    crate::float64::law_small_integers_are_exact(load.written - cancelled);
    let kept = if load.written > cancelled {
        load.written - cancelled
    } else {
        0
    };
    assert(Float64::of_int(load.written - cancelled).larger(Float64 { bits: 0 })
        == Float64::of_int(kept));
    law_small_integers_add_exactly(load.read, kept);
    lemma_small(load.bytes());
    assert(process_bytes(load.sums.sums) == Float64::of_int(load.bytes()));
    assert(process_columns(typed, load.identity()) =~= match load.cancelled {
        Some(_) => seq!["read_bytes"@, "write_bytes"@, "cancelled_write_bytes"@],
        None => seq!["read_bytes"@, "write_bytes"@],
    });
}

proof fn lemma_steps_draft_nothing(
    typed: TypedView,
    ids: Seq<Seq<IdentityView>>,
    context: EvalContext,
)
    ensures
        drafts(processes_steps(typed, ids, context)).len() == 0,
    decreases ids.len(),
{
    if ids.len() > 0 {
        lemma_steps_draft_nothing(typed, ids.drop_first(), context);
        let first = process_steps(typed, ids[0], context);
        lemma_drafts_concat(first, processes_steps(typed, ids.drop_first(), context));
        assert(forall|i: int| 0 <= i < first.len() ==> #[trigger] first[i] is Charge);
        crate::laws::devices::lemma_charges_draft_nothing(first);
    }
}

proof fn lemma_candidates_found(
    typed: TypedView,
    ids: Seq<Seq<IdentityView>>,
    context: EvalContext,
    one: ProcessIoView,
)
    ensures
        process_candidates(typed, ids, context).contains(one) <==> exists|i: int|
            0 <= i < ids.len() && process_candidate(typed, #[trigger] ids[i], context) == Some(one),
    decreases ids.len(),
{
    if ids.len() > 0 {
        let front = ids.drop_last();
        lemma_candidates_found(typed, front, context, one);
        let earlier = process_candidates(typed, front, context);
        let all = process_candidates(typed, ids, context);
        let last = process_candidate(typed, ids.last(), context);
        assert(ids[ids.len() - 1] == ids.last());
        if earlier.contains(one) {
            let k = earlier.index_of(one);
            assert(all[k] == one);
            let i = choose|i: int|
                0 <= i < front.len() && process_candidate(typed, #[trigger] front[i], context)
                    == Some(one);
            assert(ids[i] == front[i]);
        }
        if last == Some(one) {
            assert(all[earlier.len() as int] == one);
        }
        if all.contains(one) {
            let k = all.index_of(one);
            if k < earlier.len() {
                assert(earlier[k] == one);
            } else {
                assert(last == Some(one));
            }
        }
        if exists|i: int|
            0 <= i < ids.len() && process_candidate(typed, #[trigger] ids[i], context) == Some(
                one,
            ) {
            let i = choose|i: int|
                0 <= i < ids.len() && process_candidate(typed, #[trigger] ids[i], context) == Some(
                    one,
                );
            if i < front.len() {
                assert(front[i] == ids[i]);
            }
        }
    } else {
        assert(!process_candidates(typed, ids, context).contains(one));
    }
}

proof fn lemma_traffic_shows(chosen: Seq<ProcessIoView>)
    requires
        forall|k: int|
            0 <= k < chosen.len() ==> process_numbers((#[trigger] chosen[k]).identity) is Some
                && traffic_evidence(chosen[k]) is Some,
    ensures
        traffic(chosen).len() == chosen.len(),
        forall|k: int|
            0 <= k < chosen.len() ==> #[trigger] traffic(chosen)[k] == traffic_evidence(
                chosen[k],
            )->Some_0,
    decreases chosen.len(),
{
    if chosen.len() > 0 {
        let front = chosen.drop_last();
        assert forall|k: int| 0 <= k < front.len() implies process_numbers(
            (#[trigger] front[k]).identity,
        ) is Some && traffic_evidence(front[k]) is Some by {
            assert(front[k] == chosen[k]);
        }
        lemma_traffic_shows(front);
        assert(chosen[chosen.len() - 1] == chosen.last());
        assert forall|k: int| 0 <= k < chosen.len() implies #[trigger] traffic(chosen)[k]
            == traffic_evidence(chosen[k])->Some_0 by {
            if k < front.len() {
                assert(traffic(chosen)[k] == traffic(front)[k]);
                assert(front[k] == chosen[k]);
            }
        }
    }
}

/// Whether a candidate is that of one of some processes.
spec fn is_of(one: ProcessIoView, load: ProcessLoad, typed: TypedView, context: EvalContext) -> bool {
    load.moves() && process_candidate(typed, load.identity(), context) == Some(one)
}

spec fn is_of_one(
    one: ProcessIoView,
    loads: Seq<ProcessLoad>,
    typed: TypedView,
    context: EvalContext,
) -> bool {
    exists|i: int| 0 <= i < loads.len() && is_of(one, #[trigger] loads[i], typed, context)
}

spec fn is_listed(
    sorted: Seq<ProcessIoView>,
    load: ProcessLoad,
    typed: TypedView,
    context: EvalContext,
) -> bool {
    exists|k: int| 0 <= k < sorted.len() && is_of(#[trigger] sorted[k], load, typed, context)
}

proof fn lemma_sorted(
    typed: TypedView,
    ids: Seq<Seq<IdentityView>>,
    loads: Seq<ProcessLoad>,
    context: EvalContext,
)
    requires
        are_processes(ids, loads, typed, context),
    ensures
        ({
            let sorted = ranked_sort(process_candidates(typed, ids, context));
            &&& forall|k: int|
                0 <= k < sorted.len() ==> is_of_one(#[trigger] sorted[k], loads, typed, context)
            &&& forall|i: int|
                0 <= i < loads.len() && (#[trigger] loads[i]).moves() ==> is_listed(
                    sorted,
                    loads[i],
                    typed,
                    context,
                )
        }),
{
    let found = process_candidates(typed, ids, context);
    let sorted = ranked_sort(found);
    lemma_ranked_sort(found);
    assert forall|one: ProcessIoView| #[trigger] sorted.contains(one) <==> found.contains(one) by {
        sorted.to_multiset_ensures();
        found.to_multiset_ensures();
        assert(sorted.to_multiset().count(one) == found.to_multiset().count(one));
    }
    assert forall|k: int| 0 <= k < sorted.len() implies is_of_one(
        #[trigger] sorted[k],
        loads,
        typed,
        context,
    ) by {
        let one = sorted[k];
        assert(sorted.contains(one));
        lemma_candidates_found(typed, ids, context, one);
        let i = choose|i: int|
            0 <= i < ids.len() && process_candidate(typed, #[trigger] ids[i], context) == Some(one);
        assert(loads[i].identity() == ids[i]);
        lemma_process(loads[i], typed, context);
        assert(is_of(sorted[k], loads[i], typed, context));
    }
    assert forall|i: int| 0 <= i < loads.len() && (#[trigger] loads[i]).moves() implies is_listed(
        sorted,
        loads[i],
        typed,
        context,
    ) by {
        lemma_process(loads[i], typed, context);
        assert(loads[i].identity() == ids[i]);
        let one = process_candidate(typed, ids[i], context)->Some_0;
        lemma_candidates_found(typed, ids, context, one);
        assert(sorted.contains(one));
        let k = sorted.index_of(one);
        assert(is_of(sorted[k], loads[i], typed, context));
    }
}

proof fn lemma_traffic_of(
    one: ProcessIoView,
    load: ProcessLoad,
    typed: TypedView,
    context: EvalContext,
)
    requires
        load.is_read(typed, context),
        is_of(one, load, typed, context),
    ensures
        one.bytes == Float64::of_int(load.bytes()),
        0 < load.bytes() <= 0x10_0000_0000,
        process_numbers(one.identity) is Some,
        traffic_evidence(one) matches Some(shown) && tells(shown, load, typed, context),
{
    lemma_process(load, typed, context);
    lemma_small(load.bytes());
    lemma_one();
    lemma_small(1);
    reveal_strlit("io_bytes");
    reveal_strlit("os_process");
    reveal_strlit("postgres_backend");
    reveal_strlit("cgroup_device_association");
    reveal_strlit("process_association");
    assert(process_numbers(one.identity) == Some((load.pid, load.starttime)));
    assert("postgres_backend"@.len() != "cgroup_device_association"@.len()
        && "postgres_backend"@.len() != "process_association"@.len());
}

/// What is shown of the chosen processes.
spec fn shows_all(
    chosen: Seq<ProcessIoView>,
    loads: Seq<ProcessLoad>,
    typed: TypedView,
    context: EvalContext,
) -> bool {
    &&& traffic(chosen).len() == chosen.len()
    &&& forall|k: int, i: int|
        0 <= k < chosen.len() && 0 <= i < loads.len() && is_of(
            #[trigger] chosen[k],
            #[trigger] loads[i],
            typed,
            context,
        ) ==> tells(traffic(chosen)[k], loads[i], typed, context)
}

proof fn lemma_shows_all(
    chosen: Seq<ProcessIoView>,
    ids: Seq<Seq<IdentityView>>,
    loads: Seq<ProcessLoad>,
    typed: TypedView,
    context: EvalContext,
)
    requires
        are_processes(ids, loads, typed, context),
        forall|k: int|
            0 <= k < chosen.len() ==> is_of_one(#[trigger] chosen[k], loads, typed, context),
    ensures
        shows_all(chosen, loads, typed, context),
{
    assert forall|k: int| 0 <= k < chosen.len() implies process_numbers(
        (#[trigger] chosen[k]).identity,
    ) is Some && traffic_evidence(chosen[k]) is Some by {
        let i = choose|i: int|
            0 <= i < loads.len() && is_of(chosen[k], #[trigger] loads[i], typed, context);
        assert(loads[i].identity() == ids[i]);
        lemma_traffic_of(chosen[k], loads[i], typed, context);
    }
    lemma_traffic_shows(chosen);
    assert forall|k: int, i: int|
        0 <= k < chosen.len() && 0 <= i < loads.len() && is_of(
            #[trigger] chosen[k],
            #[trigger] loads[i],
            typed,
            context,
        ) implies tells(traffic(chosen)[k], loads[i], typed, context) by {
        assert(loads[i].identity() == ids[i]);
        lemma_traffic_of(chosen[k], loads[i], typed, context);
        assert(traffic(chosen)[k] == traffic_evidence(chosen[k])->Some_0);
    }
}

proof fn lemma_told(
    shown: DraftView,
    sorted: Seq<ProcessIoView>,
    chosen: Seq<ProcessIoView>,
    ids: Seq<Seq<IdentityView>>,
    loads: Seq<ProcessLoad>,
    typed: TypedView,
    context: EvalContext,
)
    requires
        are_processes(ids, loads, typed, context),
        vstd::relations::sorted_by(sorted, rank_order::<ProcessIoView>()),
        chosen == if sorted.len() > 8 {
            sorted.take(8)
        } else {
            sorted
        },
        shows_all(chosen, loads, typed, context),
        forall|k: int|
            0 <= k < sorted.len() ==> is_of_one(#[trigger] sorted[k], loads, typed, context),
        forall|i: int|
            0 <= i < loads.len() && (#[trigger] loads[i]).moves() ==> is_listed(
                sorted,
                loads[i],
                typed,
                context,
            ),
        shown.evidence.len() == chosen.len(),
        forall|k: int|
            0 <= k < chosen.len() ==> #[trigger] shown.evidence[k]
                == EvidenceView::GaugeObservation(traffic(chosen)[k]),
    ensures
        forall|k: int|
            0 <= k < shown.evidence.len() ==> #[trigger] shows_mover(
                shown,
                k,
                loads,
                1,
                typed,
                context,
            ),
        forall|i: int|
            0 <= i < loads.len() && (#[trigger] loads[i]).moves() ==> shown_or_outdone(
                shown,
                loads[i],
                loads,
                typed,
                context,
            ),
{
    assert forall|k: int| 0 <= k < shown.evidence.len() implies #[trigger] shows_mover(
        shown,
        k,
        loads,
        1,
        typed,
        context,
    ) by {
        assert(chosen[k] == sorted[k]);
        let i = choose|i: int|
            0 <= i < loads.len() && is_of(sorted[k], #[trigger] loads[i], typed, context);
        assert(is_of(chosen[k], loads[i], typed, context));
        assert(shown.evidence[k] == EvidenceView::GaugeObservation(traffic(chosen)[k]));
        assert(shows_process(shown, k, loads[i], typed, context));
    }
    assert forall|i: int| 0 <= i < loads.len() && (#[trigger] loads[i]).moves()
        implies shown_or_outdone(
        shown,
        loads[i],
        loads,
        typed,
        context,
    ) by {
        let k = choose|k: int|
            0 <= k < sorted.len() && is_of(#[trigger] sorted[k], loads[i], typed, context);
        assert(loads[i].identity() == ids[i]);
        lemma_traffic_of(sorted[k], loads[i], typed, context);
        if k < chosen.len() {
            assert(chosen[k] == sorted[k]);
            assert(shown.evidence[k] == EvidenceView::GaugeObservation(traffic(chosen)[k]));
            assert(shows_process(shown, k, loads[i], typed, context));
        } else {
            assert forall|e: int| 0 <= e < shown.evidence.len() implies #[trigger] shows_mover(
                shown,
                e,
                loads,
                loads[i].bytes(),
                typed,
                context,
            ) by {
                assert(chosen[e] == sorted[e]);
                let j = choose|j: int|
                    0 <= j < loads.len() && is_of(sorted[e], #[trigger] loads[j], typed, context);
                assert(is_of(chosen[e], loads[j], typed, context));
                assert(loads[j].identity() == ids[j]);
                lemma_traffic_of(sorted[e], loads[j], typed, context);
                lemma_rank_of_bytes(sorted, e, k, loads[j].bytes(), loads[i].bytes());
                assert(shown.evidence[e] == EvidenceView::GaugeObservation(traffic(chosen)[e]));
                assert(shows_process(shown, e, loads[j], typed, context));
            }
        }
    }
}

/// Processes are reported exactly if some moved bytes over at least two
/// intervals: at most eight, those that moved most, the busiest first.
pub proof fn law_the_busiest_processes_are_reported(
    cluster: ClusterView,
    series: SeriesSetView,
    typed: TypedView,
    context: EvalContext,
    at: int,
    loads: Seq<ProcessLoad>,
)
    requires
        is_first_of(cluster.members, "os_process"@, at),
        are_processes(typed.identities("os_process"@, "read_bytes"@), loads, typed, context),
    ensures
        ({
            let out = drafts(ProcessIoWhoLens.steps(cluster, series, typed, context));
            &&& out.len() <= 1
            &&& out.len() == 1 <==> exists|i: int|
                0 <= i < loads.len() && (#[trigger] loads[i]).moves()
            &&& out.len() == 1 ==> {
                &&& out[0].requested_role == Role::Coincident
                &&& is_about(out[0], cluster.members[at])
                &&& 1 <= out[0].evidence.len() <= 8
                &&& forall|k: int|
                    0 <= k < out[0].evidence.len() ==> #[trigger] shows_mover(
                        out[0],
                        k,
                        loads,
                        1,
                        typed,
                        context,
                    )
                &&& forall|i: int|
                    0 <= i < loads.len() && (#[trigger] loads[i]).moves() ==> shown_or_outdone(
                        out[0],
                        loads[i],
                        loads,
                        typed,
                        context,
                    )
            }
        }),
{
    let ids = typed.identities("os_process"@, "read_bytes"@);
    let member = cluster.members[at];
    lemma_first_member(&ProcessIoWhoLens, "os_process"@, cluster, typed, context, at);
    let found = process_candidates(typed, ids, context);
    let chosen = contributors(found);
    let sorted = ranked_sort(found);
    lemma_ranked_sort(found);
    lemma_sorted(typed, ids, loads, context);
    assert forall|k: int| 0 <= k < chosen.len() implies is_of_one(
        #[trigger] chosen[k],
        loads,
        typed,
        context,
    ) by {
        assert(chosen[k] == sorted[k]);
    }
    lemma_shows_all(chosen, ids, loads, typed, context);
    let list = traffic(chosen);
    let draft = evidence_draft(member, list);
    let looks = processes_steps(typed, ids, context);
    lemma_steps_draft_nothing(typed, ids, context);
    lemma_drafts_concat(looks, emitted(draft));
    lemma_drafts_emitted(draft);
    lemma_drafts_after_charge(ids.len() as usize, looks + emitted(draft));
    assert(drafts(looks + emitted(draft)) =~= drafts(emitted(draft)));
    if list.len() > 0 {
        lemma_told(draft->Some_0, sorted, chosen, ids, loads, typed, context);
        assert(is_of_one(sorted[0], loads, typed, context));
    }
}

/// Whether evidence shows the traffic of a process that moved so many bytes.
pub open spec fn shows_mover(
    draft: DraftView,
    k: int,
    loads: Seq<ProcessLoad>,
    least: int,
    typed: TypedView,
    context: EvalContext,
) -> bool {
    exists|i: int|
        0 <= i < loads.len() && loads[i].moves() && loads[i].bytes() >= least
            && #[trigger] shows_process(draft, k, loads[i], typed, context)
}

/// Whether a process is shown, or eight that moved at least as much are.
pub open spec fn shown_or_outdone(
    draft: DraftView,
    load: ProcessLoad,
    loads: Seq<ProcessLoad>,
    typed: TypedView,
    context: EvalContext,
) -> bool {
    ||| exists|k: int|
        0 <= k < draft.evidence.len() && #[trigger] shows_process(draft, k, load, typed, context)
    ||| draft.evidence.len() == 8 && forall|e: int|
        0 <= e < draft.evidence.len() ==> #[trigger] shows_mover(
            draft,
            e,
            loads,
            load.bytes(),
            typed,
            context,
        )
}

proof fn lemma_rank_of_bytes(sorted: Seq<ProcessIoView>, e: int, k: int, a: int, b: int)
    requires
        vstd::relations::sorted_by(sorted, rank_order::<ProcessIoView>()),
        0 <= e < k < sorted.len(),
        0 <= a <= 0x20_0000_0000_0000,
        0 <= b <= 0x20_0000_0000_0000,
        sorted[e].bytes == Float64::of_int(a),
        sorted[k].bytes == Float64::of_int(b),
    ensures
        a >= b,
{
    let leq = rank_order::<ProcessIoView>();
    assert(leq(sorted[e], sorted[k]));
    let x = crate::order::Ranked::rank(sorted[e]);
    let y = crate::order::Ranked::rank(sorted[k]);
    assert(x[0] == -sorted[e].bytes.total_rank() && y[0] == -sorted[k].bytes.total_rank());
    assert(lex_le(x, y));
    assert(x[0] <= y[0]);
    lemma_small(a);
    lemma_small(b);
    law_small_integers_keep_their_order(a, b);
}

} // verus!
