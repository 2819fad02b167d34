//! Bounded accounting for the registered incident evaluator catalog.

use crate::active::{active_catalog_ids, core_ids, id_texts};
use crate::dispatch::texts;
use crate::events::{event_catalog_ids, event_ids};
use crate::lenses::{core_catalog, design_entries, join_contract, DormantLens, DormantView};
use crate::order::views;
use crate::ordered::{
    contents, is_listing, lemma_listing, lemma_named, listing, names, well_formed, OrderedMap,
};
use crate::text::{text_eq, StaticText};
use vstd::prelude::*;

verus! {

/// Exact scopes published with the incident catalog.
#[derive(Debug, Clone, Copy, PartialEq, Eq, Structural)]
pub struct IncidentCatalogCounts {
    pub core_lenses: usize,
    pub event_branches: usize,
    pub evaluator_branches: usize,
    pub unique_lens_ids: usize,
    pub active_lens_ids: usize,
    pub inactive_lens_ids: usize,
    pub entity_join_requirements: usize,
}

/// Whether an id is registered by either evaluator family.
pub open spec fn registered() -> spec_fn(Seq<char>) -> bool {
    |id: Seq<char>| design_ids().contains(id) || event_ids().contains(id)
}

/// The ids of the design entries.
pub open spec fn design_ids() -> Seq<Seq<char>> {
    Seq::new(design_entries().len(), |i: int| design_entries()[i].lens_id)
}

/// The unique stable ids registered by either evaluator family, in order.
pub fn registered_lens_ids() -> (r: Vec<&'static str>)
    ensures
        is_listing(texts(r@), registered()),
        texts(r@) == listing(registered()),
{
    let core: &'static [DormantLens] = core_catalog();
    let events: Vec<&'static str> = event_catalog_ids();
    let mut known: OrderedMap<StaticText, ()> = OrderedMap::new::<Seq<char>>();
    let ghost core_list = design_ids();
    let ghost event_list = event_ids();
    let mut i: usize = 0;
    while i < core.len()
        invariant
            i <= core.len(),
            views(core@) == design_entries(),
            core_list == design_ids(),
            well_formed::<Seq<char>, StaticText, ()>(known.entries@),
            forall|id: Seq<char>| #[trigger]
                contents::<Seq<char>, StaticText, ()>(known.entries@).dom().contains(id)
                    <==> core_list.take(i as int).contains(id),
        decreases core.len() - i,
    {
        let id: &'static str = core[i].lens_id();
        let ghost before = contents::<Seq<char>, StaticText, ()>(known.entries@);
        proof {
            assert(views(core@)[i as int] == core@[i as int]@);
            assert(core_list[i as int] == id@);
        }
        known.insert::<Seq<char>>(StaticText { text: id }, ());
        proof {
            assert(core_list.take(i + 1) =~= core_list.take(i as int).push(id@));
            assert forall|w: Seq<char>| #[trigger] contents::<Seq<char>, StaticText, ()>(
                known.entries@,
            ).dom().contains(w) <==> core_list.take(i + 1).contains(w) by {
                assert(before.dom().contains(w) <==> core_list.take(i as int).contains(w));
                lemma_push_contains(core_list.take(i as int), id@, w);
            }
        }
        i = i + 1;
    }
    proof {
        assert(core_list.take(i as int) =~= core_list);
        assert forall|id: Seq<char>| #[trigger] contents::<Seq<char>, StaticText, ()>(
            known.entries@,
        ).dom().contains(id) <==> core_list.contains(id) || event_list.take(0).contains(id) by {}
    }
    i = 0;
    while i < events.len()
        invariant
            i <= events.len(),
            texts(events@) == event_list,
            well_formed::<Seq<char>, StaticText, ()>(known.entries@),
            forall|id: Seq<char>| #[trigger]
                contents::<Seq<char>, StaticText, ()>(known.entries@).dom().contains(id)
                    <==> core_list.contains(id) || event_list.take(i as int).contains(id),
        decreases events.len() - i,
    {
        let id: &'static str = events[i];
        let ghost before = contents::<Seq<char>, StaticText, ()>(known.entries@);
        proof {
            assert(event_list[i as int] == id@);
        }
        known.insert::<Seq<char>>(StaticText { text: id }, ());
        proof {
            assert(event_list.take(i + 1) =~= event_list.take(i as int).push(id@));
            assert forall|w: Seq<char>| #[trigger] contents::<Seq<char>, StaticText, ()>(
                known.entries@,
            ).dom().contains(w) <==> core_list.contains(w) || event_list.take(i + 1).contains(
                w,
            ) by {
                assert(before.dom().contains(w) <==> core_list.contains(w) || event_list.take(
                    i as int,
                ).contains(w));
                lemma_push_contains(event_list.take(i as int), id@, w);
            }
        }
        i = i + 1;
    }
    let mut r: Vec<&'static str> = Vec::new();
    let mut j: usize = 0;
    while j < known.entries.len()
        invariant
            j <= known.entries.len(),
            r.len() == j,
            forall|k: int| 0 <= k < j ==> (#[trigger] r@[k])@ == known.entries@[k].name@,
        decreases known.entries.len() - j,
    {
        r.push(known.entries[j].name.text);
        j = j + 1;
    }
    proof {
        let all = names::<Seq<char>, StaticText, ()>(known.entries@);
        assert(event_list.take(i as int) =~= event_list);
        assert(texts(r@) =~= all);
        assert forall|id: Seq<char>| #[trigger] all.contains(id) <==> registered()(id) by {
            lemma_named::<Seq<char>, StaticText, ()>(known.entries@, id);
            assert(contents::<Seq<char>, StaticText, ()>(known.entries@).dom().contains(id)
                <==> core_list.contains(id) || event_list.contains(id));
        }
        lemma_listing(all, registered());
    }
    r
}

proof fn lemma_push_contains<A>(s: Seq<A>, x: A, w: A)
    ensures
        s.push(x).contains(w) <==> s.contains(w) || w == x,
{
    if s.contains(w) {
        let k = s.index_of(w);
        assert(s.push(x)[k] == w);
    }
    assert(s.push(x)[s.len() as int] == x);
    if s.push(x).contains(w) && w != x {
        let k = s.push(x).index_of(w);
        assert(s[k] == w);
    }
}

/// The entries of the first `n` that no lens evaluates.
pub open spec fn inactive_entries(entries: Seq<DormantView>) -> Seq<DormantView>
    decreases entries.len(),
{
    if entries.len() == 0 {
        Seq::empty()
    } else if core_ids().contains(entries.last().lens_id) {
        inactive_entries(entries.drop_last())
    } else {
        inactive_entries(entries.drop_last()).push(entries.last())
    }
}

fn is_active(id: &str, active: &Vec<&'static str>) -> (r: bool)
    ensures
        r == id_texts(active@).contains(id@),
{
    let ghost all = id_texts(active@);
    let mut i: usize = 0;
    while i < active.len()
        invariant
            i <= active.len(),
            all == id_texts(active@),
            forall|j: int| 0 <= j < i ==> #[trigger] all[j] != id@,
        decreases active.len() - i,
    {
        assert(all[i as int] == active@[i as int]@);
        if text_eq(active[i], id) {
            return true;
        }
        i = i + 1;
    }
    false
}

/// The design entries that no lens evaluates.
pub fn inactive_catalog() -> (r: Vec<DormantLens>)
    ensures
        views(r@) == inactive_entries(design_entries()),
        r.len() == 0,
{
    let core: &'static [DormantLens] = core_catalog();
    let active: Vec<&'static str> = active_catalog_ids();
    let ghost all = design_entries();
    let mut r: Vec<DormantLens> = Vec::new();
    let mut i: usize = 0;
    proof {
        assert(all.take(0) =~= Seq::empty());
        assert(views(r@) =~= Seq::empty());
    }
    while i < core.len()
        invariant
            i <= core.len(),
            all == views(core@),
            id_texts(active@) == core_ids(),
            views(r@) == inactive_entries(all.take(i as int)),
        decreases core.len() - i,
    {
        let entry: DormantLens = core[i];
        proof {
            assert(all.take(i + 1).drop_last() =~= all.take(i as int));
            assert(all.take(i + 1).last() == entry@);
        }
        if !is_active(entry.lens_id(), &active) {
            let ghost before = r@;
            r.push(entry);
            proof {
                assert(views(r@) =~= views(before).push(entry@));
            }
        }
        i = i + 1;
    }
    proof {
        assert(all.take(i as int) =~= all);
        law_every_design_entry_is_evaluated();
        lemma_none_inactive(all);
    }
    r
}

proof fn lemma_none_inactive(entries: Seq<DormantView>)
    requires
        forall|i: int|
            0 <= i < entries.len() ==> core_ids().contains((#[trigger] entries[i]).lens_id),
    ensures
        inactive_entries(entries).len() == 0,
    decreases entries.len(),
{
    if entries.len() > 0 {
        assert(core_ids().contains(entries[entries.len() - 1].lens_id));
        lemma_none_inactive(entries.drop_last());
    }
}

/// Every design entry is evaluated by exactly the lens with its id.
pub proof fn law_every_design_entry_is_evaluated()
    ensures
        design_entries().len() == core_ids().len(),
        forall|i: int|
            0 <= i < design_entries().len() ==> core_ids().contains(
                (#[trigger] design_entries()[i]).lens_id,
            ),
        forall|i: int|
            0 <= i < core_ids().len() ==> design_ids().contains(#[trigger] core_ids()[i]),
{
    reveal(design_entries);
    reveal(core_ids);
    let entries = design_entries();
    let ids = core_ids();
    assert(ids[19] == entries[0].lens_id && design_ids()[0] == entries[0].lens_id);
    assert(ids[20] == entries[1].lens_id && design_ids()[1] == entries[1].lens_id);
    assert(ids[2] == entries[2].lens_id && design_ids()[2] == entries[2].lens_id);
    assert(ids[9] == entries[3].lens_id && design_ids()[3] == entries[3].lens_id);
    assert(ids[13] == entries[4].lens_id && design_ids()[4] == entries[4].lens_id);
    assert(ids[14] == entries[5].lens_id && design_ids()[5] == entries[5].lens_id);
    assert(ids[5] == entries[6].lens_id && design_ids()[6] == entries[6].lens_id);
    assert(ids[3] == entries[7].lens_id && design_ids()[7] == entries[7].lens_id);
    assert(ids[1] == entries[8].lens_id && design_ids()[8] == entries[8].lens_id);
    assert(ids[0] == entries[9].lens_id && design_ids()[9] == entries[9].lens_id);
    assert(ids[4] == entries[10].lens_id && design_ids()[10] == entries[10].lens_id);
    assert(ids[27] == entries[11].lens_id && design_ids()[11] == entries[11].lens_id);
    assert(ids[24] == entries[12].lens_id && design_ids()[12] == entries[12].lens_id);
    assert(ids[10] == entries[13].lens_id && design_ids()[13] == entries[13].lens_id);
    assert(ids[15] == entries[14].lens_id && design_ids()[14] == entries[14].lens_id);
    assert(ids[16] == entries[15].lens_id && design_ids()[15] == entries[15].lens_id);
    assert(ids[6] == entries[16].lens_id && design_ids()[16] == entries[16].lens_id);
    assert(ids[25] == entries[17].lens_id && design_ids()[17] == entries[17].lens_id);
    assert(ids[26] == entries[18].lens_id && design_ids()[18] == entries[18].lens_id);
    assert(ids[21] == entries[19].lens_id && design_ids()[19] == entries[19].lens_id);
    assert(ids[8] == entries[20].lens_id && design_ids()[20] == entries[20].lens_id);
    assert(ids[11] == entries[21].lens_id && design_ids()[21] == entries[21].lens_id);
    assert(ids[17] == entries[22].lens_id && design_ids()[22] == entries[22].lens_id);
    assert(ids[22] == entries[23].lens_id && design_ids()[23] == entries[23].lens_id);
    assert(ids[12] == entries[24].lens_id && design_ids()[24] == entries[24].lens_id);
    assert(ids[23] == entries[25].lens_id && design_ids()[25] == entries[25].lens_id);
    assert(ids[18] == entries[26].lens_id && design_ids()[26] == entries[26].lens_id);
    assert(ids[7] == entries[27].lens_id && design_ids()[27] == entries[27].lens_id);
}

/// Entries that must have a join contract before they can claim a relation.
pub open spec fn join_requirements(entries: Seq<DormantView>) -> nat
    decreases entries.len(),
{
    if entries.len() == 0 {
        0
    } else {
        join_requirements(entries.drop_last()) + if join_contract(entries.last().lens_id) is Some {
            1nat
        } else {
            0
        }
    }
}

/// Derives every count from the executable catalogs and the metadata.
pub fn catalog_counts() -> (r: IncidentCatalogCounts)
    ensures
        r.core_lenses == design_entries().len(),
        r.event_branches == event_ids().len(),
        r.evaluator_branches == design_entries().len() + event_ids().len(),
        r.unique_lens_ids == listing(registered()).len(),
        r.active_lens_ids == r.unique_lens_ids,
        r.inactive_lens_ids == inactive_entries(design_entries()).len(),
        r.entity_join_requirements == join_requirements(design_entries()),
{
    let core: &'static [DormantLens] = core_catalog();
    let ghost all = design_entries();
    let event_branches: usize = event_catalog_ids().len();
    let unique_lens_ids: usize = registered_lens_ids().len();
    let inactive_lens_ids: usize = inactive_catalog().len();
    let mut joins: usize = 0;
    let mut i: usize = 0;
    proof {
        assert(all.take(0) =~= Seq::empty());
    }
    while i < core.len()
        invariant
            i <= core.len(),
            joins <= i,
            all == views(core@),
            joins == join_requirements(all.take(i as int)),
        decreases core.len() - i,
    {
        proof {
            assert(all.take(i + 1).drop_last() =~= all.take(i as int));
            assert(all.take(i + 1).last() == core@[i as int]@);
        }
        if core[i].entity_join_contract().is_some() {
            joins = joins + 1;
        }
        i = i + 1;
    }
    proof {
        assert(all.take(i as int) =~= all);
        lemma_few_lenses();
    }
    IncidentCatalogCounts {
        core_lenses: core.len(),
        event_branches,
        evaluator_branches: core.len() + event_branches,
        unique_lens_ids,
        active_lens_ids: unique_lens_ids,
        inactive_lens_ids,
        entity_join_requirements: joins,
    }
}

proof fn lemma_few_lenses()
    ensures
        design_entries().len() == 28,
        event_ids().len() == 8,
{
    reveal(design_entries);
    reveal(event_ids);
}

} // verus!
