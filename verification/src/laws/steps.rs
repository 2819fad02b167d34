//! The drafts among the reports of a lens.

use crate::evidence::finding::DraftView;
use crate::evidence::sink::Step;
use crate::inspect::{emits, emitted};
use vstd::prelude::*;

verus! {

/// The drafts among some reports, in order.
pub open spec fn drafts(steps: Seq<Step>) -> Seq<DraftView>
    decreases steps.len(),
{
    if steps.len() == 0 {
        Seq::empty()
    } else {
        match steps.last() {
            Step::Emit(draft) => drafts(steps.drop_last()).push(draft),
            Step::Charge(_) => drafts(steps.drop_last()),
        }
    }
}

pub proof fn lemma_drafts_concat(a: Seq<Step>, b: Seq<Step>)
    ensures
        drafts(a + b) == drafts(a) + drafts(b),
    decreases b.len(),
{
    if b.len() == 0 {
        assert(a + b =~= a);
        assert(drafts(a) + drafts(b) =~= drafts(a));
    } else {
        assert((a + b).drop_last() =~= a + b.drop_last());
        assert((a + b).last() == b.last());
        lemma_drafts_concat(a, b.drop_last());
        if let Step::Emit(draft) = b.last() {
            assert(drafts(a) + drafts(b) =~= (drafts(a) + drafts(b.drop_last())).push(draft));
        }
    }
}

pub proof fn lemma_drafts_charge(points: usize)
    ensures
        drafts(seq![Step::Charge(points)]) == Seq::<DraftView>::empty(),
{
    reveal_with_fuel(drafts, 2);
    let steps = seq![Step::Charge(points)];
    assert(steps.drop_last() =~= Seq::empty());
    assert(steps.last() == Step::Charge(points));
}

pub proof fn lemma_drafts_emitted(draft: Option<DraftView>)
    ensures
        drafts(emitted(draft)) == match draft {
            Some(found) => seq![found],
            None => Seq::empty(),
        },
{
    reveal_with_fuel(drafts, 2);
    if let Some(found) = draft {
        let steps = seq![Step::Emit(found)];
        assert(emitted(draft) =~= steps);
        assert(steps.drop_last() =~= Seq::empty());
        assert(steps.last() == Step::Emit(found));
        assert(drafts(steps) =~= seq![found]);
    }
}

pub proof fn lemma_drafts_emits(list: Seq<DraftView>)
    ensures
        drafts(emits(list)) == list,
    decreases list.len(),
{
    if list.len() > 0 {
        lemma_drafts_emitted(Some(list[0]));
        lemma_drafts_emits(list.drop_first());
        lemma_drafts_concat(emitted(Some(list[0])), emits(list.drop_first()));
        assert(list =~= seq![list[0]] + list.drop_first());
    } else {
        assert(drafts(emits(list)) =~= list);
    }
}

/// A charge followed by other reports drafts what those draft.
pub proof fn lemma_drafts_after_charge(points: usize, rest: Seq<Step>)
    ensures
        drafts(seq![Step::Charge(points)] + rest) == drafts(rest),
{
    lemma_drafts_charge(points);
    lemma_drafts_concat(seq![Step::Charge(points)], rest);
    assert(Seq::<DraftView>::empty() + drafts(rest) =~= drafts(rest));
}

} // verus!
