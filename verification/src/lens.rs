//! Lens contract.

use crate::cluster::{Cluster, ClusterView};
use crate::dispatch::{LimitHit, SectionColumn};
use crate::engine::EvalContext;
use crate::evidence::confidence::ConfidenceCap;
use crate::evidence::sink::{run, FindingSink, SinkView, Step};
use crate::series::{SeriesSet, SeriesSetView};
use crate::typed::inputs::{TypedInputs, TypedView};
use vstd::prelude::*;

verus! {

/// Whether a sink has taken exactly the given reports, up to the first one
/// that a limit refused, and the result says whether one was refused.
pub open spec fn reported(
    before: SinkView,
    after: SinkView,
    steps: Seq<Step>,
    r: Result<(), LimitHit>,
) -> bool {
    &&& after.state == run(before.state, before.rules, steps)
    &&& after.rules == before.rules
    &&& match r {
        Ok(_) => after.state.hit == before.state.hit,
        Err(hit) => after.state.hit == Some(hit),
    }
}

/// A pure lens over preloaded evidence. Output and inspected points pass
/// through the sink. A lens that states nothing else reads nothing, reports
/// nothing and has no name.
pub trait Lens {
    open spec fn id_text(&self) -> Seq<char> {
        Seq::empty()
    }

    open spec fn input_list(&self) -> Seq<SectionColumn> {
        Seq::empty()
    }

    open spec fn cap(&self) -> ConfidenceCap {
        ConfidenceCap::Low
    }

    /// What the lens reports, in order.
    open spec fn steps(
        &self,
        cluster: ClusterView,
        series: SeriesSetView,
        typed: TypedView,
        context: EvalContext,
    ) -> Seq<Step> {
        Seq::empty()
    }

    fn id(&self) -> (r: &'static str)
        ensures
            r@ == self.id_text(),
    ;

    fn inputs(&self) -> (r: &'static [SectionColumn])
        ensures
            r@ == self.input_list(),
    ;

    fn confidence_cap(&self) -> (r: ConfidenceCap)
        ensures
            r == self.cap(),
    ;

    fn evaluate(
        &self,
        cluster: &Cluster,
        series: &SeriesSet,
        typed: &TypedInputs,
        context: &EvalContext,
        sink: &mut FindingSink<'_>,
    ) -> (r: Result<(), LimitHit>)
        ensures
            reported(
                old(sink)@,
                final(sink)@,
                self.steps(cluster@, series@, typed@, *context),
                r,
            ),
            *final(final(sink).findings) == *final(old(sink).findings),
            *final(final(sink).budget) == *final(old(sink).budget),
            *final(final(sink).counts) == *final(old(sink).counts),
    ;
}

} // verus!
