//! Catalog dispatch and request work limits.

use crate::text::text_eq;
use vstd::prelude::*;

verus! {

/// One input a lens reads: a logical section and one of its columns.
#[derive(Debug, Clone, Copy, PartialEq, Eq)]
pub struct SectionColumn {
    pub section: &'static str,
    pub column: &'static str,
}

/// Work units that a request may still spend.
pub struct WorkBudget {
    limit: u64,
    remaining: u64,
    exhausted: bool,
}

/// The mathematical value of a work budget.
pub struct BudgetView {
    pub limit: u64,
    pub spent: u64,
    pub exhausted: bool,
}

impl BudgetView {
    /// Whether a charge of `units` is granted.
    pub open spec fn grants(self, units: u64) -> bool {
        !self.exhausted && self.spent + units <= self.limit
    }

    /// The budget after a charge of `units`.
    pub open spec fn charged(self, units: u64) -> BudgetView {
        if self.grants(units) {
            BudgetView { spent: (self.spent + units) as u64, ..self }
        } else {
            BudgetView { exhausted: true, ..self }
        }
    }
}

impl View for WorkBudget {
    type V = BudgetView;

    closed spec fn view(&self) -> BudgetView {
        BudgetView {
            limit: self.limit,
            spent: (self.limit - self.remaining) as u64,
            exhausted: self.exhausted,
        }
    }
}

impl WorkBudget {
    #[verifier::type_invariant]
    spec fn within_limit(self) -> bool {
        self.remaining <= self.limit
    }

    pub fn new(limit: u64) -> (r: Self)
        ensures
            r@ == (BudgetView { limit, spent: 0, exhausted: false }),
    {
        WorkBudget { limit, remaining: limit, exhausted: false }
    }

    /// Spends `units` if they fit. A charge that does not fit spends nothing
    /// and exhausts the budget for good.
    pub fn charge(&mut self, units: u64) -> (r: bool)
        ensures
            r == old(self)@.grants(units),
            final(self)@ == old(self)@.charged(units),
            final(self)@.spent <= final(self)@.limit,
    {
        proof {
            use_type_invariant(&*self);
        }
        if self.exhausted {
            return false;
        }
        if units <= self.remaining {
            self.remaining = self.remaining - units;
            true
        } else {
            self.exhausted = true;
            false
        }
    }

    pub fn is_exhausted(&self) -> (r: bool)
        ensures
            r == self@.exhausted,
    {
        self.exhausted
    }

    pub fn spent(&self) -> (r: u64)
        ensures
            r == self@.spent,
            r <= self@.limit,
    {
        proof {
            use_type_invariant(&*self);
        }
        self.limit - self.remaining
    }

    pub fn limit(&self) -> (r: u64)
        ensures
            r == self@.limit,
    {
        self.limit
    }
}

/// The budget after a run of charges.
pub open spec fn charged_all(budget: BudgetView, units: Seq<u64>) -> BudgetView
    decreases units.len(),
{
    if units.len() == 0 {
        budget
    } else {
        charged_all(budget, units.drop_last()).charged(units.last())
    }
}

/// No run of charges spends more than the limit.
pub proof fn law_spending_stays_within_the_limit(budget: BudgetView, units: Seq<u64>)
    requires
        budget.spent <= budget.limit,
    ensures
        charged_all(budget, units).spent <= budget.limit,
        charged_all(budget, units).limit == budget.limit,
        charged_all(budget, units).spent >= budget.spent,
    decreases units.len(),
{
    if units.len() > 0 {
        law_spending_stays_within_the_limit(budget, units.drop_last());
    }
}

/// An exhausted budget refuses every later charge and keeps what it spent.
pub proof fn law_exhaustion_is_sticky(budget: BudgetView, units: Seq<u64>, last: u64)
    requires
        budget.exhausted,
    ensures
        charged_all(budget, units) == budget,
        !charged_all(budget, units).grants(last),
    decreases units.len(),
{
    if units.len() > 0 {
        law_exhaustion_is_sticky(budget, units.drop_last(), last);
    }
}

/// A charge of nothing changes no budget that is still available.
pub proof fn law_zero_charge_changes_nothing(budget: BudgetView)
    requires
        budget.spent <= budget.limit,
        !budget.exhausted,
    ensures
        budget.grants(0),
        budget.charged(0) == budget,
{
}

/// What a request may run out of.
#[derive(Debug, Clone, Copy, PartialEq, Eq, Structural)]
pub enum LimitAxis {
    Work,
    LensEvaluations,
    Findings,
    EvidenceRows,
    OutputBytes,
}

/// A limit that was reached.
#[derive(Debug, Clone, Copy, PartialEq, Eq, Structural)]
pub struct LimitHit {
    pub axis: LimitAxis,
    pub observed: u64,
    pub limit: u64,
}

/// Whether some input of a lens reads `section`.
pub open spec fn reads(inputs: Seq<SectionColumn>, section: Seq<char>) -> bool {
    exists|i: int| 0 <= i < inputs.len() && #[trigger] inputs[i].section@ == section
}

/// The lenses among the first `n` that read `section`, in ascending order.
pub open spec fn readers(lens_inputs: Seq<&[SectionColumn]>, section: Seq<char>, n: nat) -> Seq<
    usize,
>
    decreases n,
{
    if n == 0 {
        Seq::empty()
    } else {
        let before = readers(lens_inputs, section, (n - 1) as nat);
        if reads(lens_inputs[n - 1]@, section) {
            before.push((n - 1) as usize)
        } else {
            before
        }
    }
}

/// The lenses of one section.
pub struct SectionEntry {
    pub section: &'static str,
    pub lenses: Vec<usize>,
}

/// The lenses that read each logical section.
pub struct SectionIndex {
    entries: Vec<SectionEntry>,
}

impl View for SectionIndex {
    type V = Map<Seq<char>, Seq<usize>>;

    closed spec fn view(&self) -> Map<Seq<char>, Seq<usize>> {
        entry_map(self.entries@)
    }
}

spec fn entry_at(entries: Seq<SectionEntry>, section: Seq<char>, i: int) -> bool {
    0 <= i < entries.len() && entries[i].section@ == section
}

spec fn entry_map(entries: Seq<SectionEntry>) -> Map<Seq<char>, Seq<usize>> {
    Map::new(
        |section: Seq<char>| exists|i: int| entry_at(entries, section, i),
        |section: Seq<char>| entries[choose|i: int| entry_at(entries, section, i)].lenses@,
    )
}

spec fn distinct(entries: Seq<SectionEntry>) -> bool {
    forall|i: int, j: int|
        0 <= i < j < entries.len() ==> #[trigger] entries[i].section@
            != #[trigger] entries[j].section@
}

impl SectionIndex {
    #[verifier::type_invariant]
    spec fn sections_are_distinct(self) -> bool {
        distinct(self.entries@)
    }

    /// Whether no section is indexed.
    pub fn is_empty(&self) -> (r: bool)
        ensures
            r == (self@ =~= Map::empty()),
    {
        proof {
            if self.entries.len() > 0 {
                assert(entry_at(self.entries@, self.entries@[0].section@, 0));
                assert(self@.dom().contains(self.entries@[0].section@));
            }
        }
        self.entries.len() == 0
    }

    /// The lenses that read `section`.
    pub fn get(&self, section: &str) -> (r: Option<&Vec<usize>>)
        ensures
            match r {
                Some(lenses) => self@.dom().contains(section@) && lenses@ == self@[section@],
                None => !self@.dom().contains(section@),
            },
    {
        proof {
            use_type_invariant(&*self);
        }
        let mut i: usize = 0;
        while i < self.entries.len()
            invariant
                i <= self.entries.len(),
                distinct(self.entries@),
                forall|j: int| 0 <= j < i ==> #[trigger] self.entries@[j].section@ != section@,
            decreases self.entries.len() - i,
        {
            if text_eq(self.entries[i].section, section) {
                proof {
                    assert(entry_at(self.entries@, section@, i as int));
                    let k = choose|k: int| entry_at(self.entries@, section@, k);
                    assert(k == i);
                }
                return Some(&self.entries[i].lenses);
            }
            i = i + 1;
        }
        None
    }
}

/// Adds lens `lens` to the entry of `section` unless it stands there already.
fn add_lens(entries: &mut Vec<SectionEntry>, section: &'static str, lens: usize)
    requires
        distinct(old(entries)@),
    ensures
        distinct(final(entries)@),
        forall|s: Seq<char>|
            s != section@ ==> (#[trigger] entry_map(final(entries)@).dom().contains(s) == entry_map(
                old(entries)@,
            ).dom().contains(s)),
        forall|s: Seq<char>|
            s != section@ && entry_map(old(entries)@).dom().contains(s)
                ==> #[trigger] entry_map(final(entries)@)[s] == entry_map(old(entries)@)[s],
        entry_map(final(entries)@).dom().contains(section@),
        ({
            let before = if entry_map(old(entries)@).dom().contains(section@) {
                entry_map(old(entries)@)[section@]
            } else {
                Seq::empty()
            };
            entry_map(final(entries)@)[section@] == if before.len() > 0 && before.last() == lens {
                before
            } else {
                before.push(lens)
            }
        }),
{
    let ghost start = entries@;
    let mut i: usize = 0;
    while i < entries.len()
        invariant
            i <= entries.len(),
            entries@ == start,
            start == old(entries)@,
            distinct(start),
            forall|j: int| 0 <= j < i ==> #[trigger] entries@[j].section@ != section@,
        decreases entries.len() - i,
    {
        if text_eq(entries[i].section, section) {
            let n: usize = entries[i].lenses.len();
            let present: bool = n > 0 && entries[i].lenses[n - 1] == lens;
            proof {
                lemma_entry(start, i as int);
            }
            if !present {
                let mut lenses: Vec<usize> = entries[i].lenses.clone();
                proof {
                    assert(lenses@ =~= start[i as int].lenses@);
                }
                lenses.push(lens);
                let entry = SectionEntry { section, lenses };
                entries.set(i, entry);
                proof {
                    assert forall|s: Seq<char>| s != section@ implies #[trigger] entry_map(
                        entries@,
                    ).dom().contains(s) == entry_map(start).dom().contains(s) && (entry_map(
                        start,
                    ).dom().contains(s) ==> entry_map(entries@)[s] == entry_map(start)[s]) by {
                        if exists|k: int| entry_at(start, s, k) {
                            let k = choose|k: int| entry_at(start, s, k);
                            assert(entry_at(entries@, s, k));
                            lemma_entry(start, k);
                            lemma_entry(entries@, k);
                        }
                        if exists|k: int| entry_at(entries@, s, k) {
                            let k = choose|k: int| entry_at(entries@, s, k);
                            assert(entry_at(start, s, k));
                        }
                    }
                    lemma_entry(entries@, i as int);
                }
            }
            return;
        }
        i = i + 1;
    }
    let mut lenses: Vec<usize> = Vec::new();
    lenses.push(lens);
    let entry = SectionEntry { section, lenses };
    entries.push(entry);
    proof {
        assert forall|s: Seq<char>| s != section@ implies #[trigger] entry_map(
            entries@,
        ).dom().contains(s) == entry_map(start).dom().contains(s) && (entry_map(
            start,
        ).dom().contains(s) ==> entry_map(entries@)[s] == entry_map(start)[s]) by {
            if exists|k: int| entry_at(start, s, k) {
                let k = choose|k: int| entry_at(start, s, k);
                assert(entry_at(entries@, s, k));
                lemma_entry(start, k);
                lemma_entry(entries@, k);
            }
            if exists|k: int| entry_at(entries@, s, k) {
                let k = choose|k: int| entry_at(entries@, s, k);
                assert(entry_at(start, s, k));
            }
        }
        lemma_entry(entries@, start.len() as int);
        assert(Seq::<usize>::empty().push(lens) =~= lenses@);
    }
}

proof fn lemma_entry(entries: Seq<SectionEntry>, i: int)
    requires
        distinct(entries),
        0 <= i < entries.len(),
    ensures
        entry_map(entries).dom().contains(entries[i].section@),
        entry_map(entries)[entries[i].section@] == entries[i].lenses@,
{
    assert(entry_at(entries, entries[i].section@, i));
    let k = choose|k: int| entry_at(entries, entries[i].section@, k);
    if k != i {
        assert(entries[k].section@ == entries[i].section@);
    }
}

/// The readers of `section` once `m` inputs of lens `n` have been taken in.
spec fn partial_readers(
    lens_inputs: Seq<&[SectionColumn]>,
    section: Seq<char>,
    n: nat,
    m: int,
) -> Seq<usize> {
    let before = readers(lens_inputs, section, n);
    if reads(lens_inputs[n as int]@.take(m), section) {
        before.push(n as usize)
    } else {
        before
    }
}

proof fn lemma_readers_below(lens_inputs: Seq<&[SectionColumn]>, section: Seq<char>, n: nat)
    requires
        n <= usize::MAX,
    ensures
        forall|i: int| 0 <= i < readers(lens_inputs, section, n).len() ==> #[trigger] readers(
            lens_inputs,
            section,
            n,
        )[i] < n,
    decreases n,
{
    if n > 0 {
        lemma_readers_below(lens_inputs, section, (n - 1) as nat);
        let before = readers(lens_inputs, section, (n - 1) as nat);
        let now = readers(lens_inputs, section, n);
        assert forall|i: int| 0 <= i < now.len() implies #[trigger] now[i] < n by {
            if i < before.len() {
                assert(before[i] < n - 1);
            }
        }
    }
}

/// Indexes the lenses by the sections that they read.
pub fn section_index(lens_inputs: &[&[SectionColumn]]) -> (r: SectionIndex)
    ensures
        forall|section: Seq<char>|
            ({
                let expected = readers(lens_inputs@, section, lens_inputs@.len());
                &&& #[trigger] r@.dom().contains(section) == (expected.len() > 0)
                &&& expected.len() > 0 ==> r@[section] == expected
            }),
{
    let mut entries: Vec<SectionEntry> = Vec::new();
    let ghost all = lens_inputs@;
    let mut n: usize = 0;
    while n < lens_inputs.len()
        invariant
            n <= lens_inputs.len(),
            all == lens_inputs@,
            distinct(entries@),
            forall|s: Seq<char>|
                ({
                    let expected = readers(all, s, n as nat);
                    &&& #[trigger] entry_map(entries@).dom().contains(s) == (expected.len() > 0)
                    &&& expected.len() > 0 ==> entry_map(entries@)[s] == expected
                }),
        decreases lens_inputs.len() - n,
    {
        let inputs: &[SectionColumn] = lens_inputs[n];
        let mut m: usize = 0;
        proof {
            assert forall|s: Seq<char>| partial_readers(all, s, n as nat, 0) == #[trigger] readers(
                all,
                s,
                n as nat,
            ) by {
                assert(inputs@.take(0) =~= Seq::empty());
            }
        }
        while m < inputs.len()
            invariant
                m <= inputs.len(),
                n < lens_inputs.len(),
                all == lens_inputs@,
                inputs@ == all[n as int]@,
                distinct(entries@),
                forall|s: Seq<char>|
                    ({
                        let expected = partial_readers(all, s, n as nat, m as int);
                        &&& #[trigger] entry_map(entries@).dom().contains(s) == (expected.len() > 0)
                        &&& expected.len() > 0 ==> entry_map(entries@)[s] == expected
                    }),
            decreases inputs.len() - m,
        {
            let ghost before = entries@;
            let section: &'static str = inputs[m].section;
            add_lens(&mut entries, section, n);
            proof {
                let t0 = inputs@.take(m as int);
                let t1 = inputs@.take(m + 1);
                assert(t1 =~= t0.push(inputs@[m as int]));
                assert forall|s: Seq<char>| ({
                    let expected = partial_readers(all, s, n as nat, m + 1);
                    &&& #[trigger] entry_map(entries@).dom().contains(s) == (expected.len() > 0)
                    &&& expected.len() > 0 ==> entry_map(entries@)[s] == expected
                }) by {
                    lemma_readers_below(all, s, n as nat);
                    let was = entry_map(before).dom().contains(s);
                    if s == section@ {
                        assert(t1[m as int].section@ == s);
                        assert(reads(t1, s));
                    } else {
                        if reads(t1, s) {
                            let i = choose|i: int|
                                0 <= i < t1.len() && #[trigger] t1[i].section@ == s;
                            assert(t0[i].section@ == s);
                        }
                        if reads(t0, s) {
                            let i = choose|i: int|
                                0 <= i < t0.len() && #[trigger] t0[i].section@ == s;
                            assert(t1[i].section@ == s);
                        }
                    }
                }
            }
            m = m + 1;
        }
        proof {
            assert(inputs@.take(m as int) =~= inputs@);
            assert forall|s: Seq<char>| partial_readers(all, s, n as nat, m as int)
                == #[trigger] readers(all, s, (n + 1) as nat) by {}
        }
        n = n + 1;
    }
    SectionIndex { entries }
}

/// Whether some present section is read by a lens.
pub open spec fn present_reads(inputs: Seq<SectionColumn>, present: Seq<Seq<char>>) -> bool {
    exists|i: int| 0 <= i < present.len() && reads(inputs, #[trigger] present[i])
}

/// The lenses among the first `n` that read a present section, in ascending
/// order.
pub open spec fn candidates(
    lens_inputs: Seq<&[SectionColumn]>,
    present: Seq<Seq<char>>,
    n: nat,
) -> Seq<usize>
    decreases n,
{
    if n == 0 {
        Seq::empty()
    } else {
        let before = candidates(lens_inputs, present, (n - 1) as nat);
        if present_reads(lens_inputs[n - 1]@, present) {
            before.push((n - 1) as usize)
        } else {
            before
        }
    }
}

pub open spec fn ascending(s: Seq<usize>) -> bool {
    forall|i: int, j: int| 0 <= i < j < s.len() ==> s[i] < s[j]
}

/// Whether `lens` reads one of the sections according to the index.
pub open spec fn indexed(
    index: Map<Seq<char>, Seq<usize>>,
    sections: Seq<Seq<char>>,
    lens: usize,
) -> bool {
    exists|i: int|
        0 <= i < sections.len() && index.dom().contains(#[trigger] sections[i])
            && index[sections[i]].contains(lens)
}

/// The texts of a list of sections.
pub open spec fn texts(sections: Seq<&'static str>) -> Seq<Seq<char>> {
    Seq::new(sections.len(), |i: int| sections[i]@)
}

fn insert_ascending(out: &mut Vec<usize>, value: usize)
    requires
        ascending(old(out)@),
    ensures
        ascending(final(out)@),
        forall|x: usize| #[trigger]
            final(out)@.contains(x) <==> old(out)@.contains(x) || x == value,
{
    let ghost start = out@;
    let mut at: usize = 0;
    while at < out.len() && out[at] < value
        invariant
            at <= out.len(),
            out@ == start,
            forall|j: int| 0 <= j < at ==> start[j] < value,
        decreases out.len() - at,
    {
        at = at + 1;
    }
    if at < out.len() && out[at] == value {
        proof {
            assert(start[at as int] == value);
        }
        return;
    }
    out.insert(at, value);
    proof {
        assert(out@ =~= start.insert(at as int, value));
        assert forall|x: usize| #[trigger] out@.contains(x) <==> start.contains(x) || x == value by {
            if start.contains(x) {
                let i = choose|i: int| 0 <= i < start.len() && start[i] == x;
                assert(out@[if i < at { i } else { i + 1 }] == x);
            }
            if x == value {
                assert(out@[at as int] == x);
            }
            if out@.contains(x) {
                let i = choose|i: int| 0 <= i < out@.len() && out@[i] == x;
                if i < at {
                    assert(start[i] == x);
                } else if i > at {
                    assert(start[i - 1] == x);
                }
            }
        }
    }
}

/// The lenses whose input sections appear among `sections`, in ascending order.
pub fn candidate_lenses(index: &SectionIndex, sections: &[&'static str]) -> (out: Vec<usize>)
    ensures
        ascending(out@),
        forall|x: usize| #[trigger]
            out@.contains(x) <==> indexed(index@, texts(sections@), x),
{
    let mut out: Vec<usize> = Vec::new();
    let ghost all = texts(sections@);
    let mut i: usize = 0;
    proof {
        assert(all.take(0) =~= Seq::empty());
    }
    while i < sections.len()
        invariant
            i <= sections.len(),
            all == texts(sections@),
            ascending(out@),
            forall|x: usize| #[trigger]
                out@.contains(x) <==> indexed(index@, all.take(i as int), x),
        decreases sections.len() - i,
    {
        let ghost t0 = all.take(i as int);
        let ghost t1 = all.take(i + 1);
        proof {
            assert(t1 =~= t0.push(all[i as int]));
        }
        let ghost o0 = out@;
        if let Some(lenses) = index.get(sections[i]) {
            let mut k: usize = 0;
            while k < lenses.len()
                invariant
                    k <= lenses.len(),
                    ascending(out@),
                    forall|x: usize| #[trigger]
                        out@.contains(x) <==> o0.contains(x) || lenses@.take(k as int).contains(x),
                decreases lenses.len() - k,
            {
                let ghost before = out@;
                insert_ascending(&mut out, lenses[k]);
                proof {
                    let l0 = lenses@.take(k as int);
                    let l1 = lenses@.take(k + 1);
                    assert(l1 =~= l0.push(lenses@[k as int]));
                    assert forall|x: usize| #[trigger] l1.contains(x) <==> l0.contains(x) || x
                        == lenses@[k as int] by {
                        if l0.contains(x) {
                            let j = choose|j: int| 0 <= j < l0.len() && l0[j] == x;
                            assert(l1[j] == x);
                        }
                        if x == lenses@[k as int] {
                            assert(l1[k as int] == x);
                        }
                        if l1.contains(x) {
                            let j = choose|j: int| 0 <= j < l1.len() && l1[j] == x;
                            if j < k {
                                assert(l0[j] == x);
                            }
                        }
                    }
                }
                k = k + 1;
            }
            proof {
                assert(lenses@.take(k as int) =~= lenses@);
            }
        }
        proof {
            assert forall|x: usize| #[trigger] out@.contains(x) <==> indexed(index@, t1, x) by {
                if indexed(index@, t0, x) {
                    let j = choose|j: int|
                        0 <= j < t0.len() && index@.dom().contains(#[trigger] t0[j])
                            && index@[t0[j]].contains(x);
                    assert(t1[j] == t0[j]);
                }
                if indexed(index@, t1, x) {
                    let j = choose|j: int|
                        0 <= j < t1.len() && index@.dom().contains(#[trigger] t1[j])
                            && index@[t1[j]].contains(x);
                    if j < i {
                        assert(t0[j] == t1[j]);
                    }
                }
                assert(t1[i as int] == all[i as int]);
            }
        }
        i = i + 1;
    }
    proof {
        assert(all.take(i as int) =~= all);
    }
    out
}

proof fn lemma_readers_contain(lens_inputs: Seq<&[SectionColumn]>, section: Seq<char>, n: nat, x: usize)
    requires
        n <= usize::MAX,
    ensures
        readers(lens_inputs, section, n).contains(x) <==> x < n && reads(
            lens_inputs[x as int]@,
            section,
        ),
    decreases n,
{
    if n > 0 {
        lemma_readers_contain(lens_inputs, section, (n - 1) as nat, x);
        let before = readers(lens_inputs, section, (n - 1) as nat);
        let now = readers(lens_inputs, section, n);
        if before.contains(x) {
            let i = choose|i: int| 0 <= i < before.len() && before[i] == x;
            assert(now[i] == x);
        }
        if reads(lens_inputs[n - 1]@, section) {
            assert(now[before.len() as int] == (n - 1) as usize);
            if now.contains(x) && x != n - 1 {
                let i = choose|i: int| 0 <= i < now.len() && now[i] == x;
                assert(before[i] == x);
            }
        }
    }
}

proof fn lemma_candidates(lens_inputs: Seq<&[SectionColumn]>, present: Seq<Seq<char>>, n: nat)
    requires
        n <= usize::MAX,
    ensures
        ascending(candidates(lens_inputs, present, n)),
        forall|x: usize| #[trigger]
            candidates(lens_inputs, present, n).contains(x) <==> x < n && present_reads(
                lens_inputs[x as int]@,
                present,
            ),
    decreases n,
{
    if n > 0 {
        lemma_candidates(lens_inputs, present, (n - 1) as nat);
        let before = candidates(lens_inputs, present, (n - 1) as nat);
        let now = candidates(lens_inputs, present, n);
        assert forall|x: usize| #[trigger] now.contains(x) <==> x < n && present_reads(
            lens_inputs[x as int]@,
            present,
        ) by {
            if before.contains(x) {
                let i = choose|i: int| 0 <= i < before.len() && before[i] == x;
                assert(now[i] == x);
            }
            if present_reads(lens_inputs[n - 1]@, present) {
                assert(now[before.len() as int] == (n - 1) as usize);
                if now.contains(x) && x != n - 1 {
                    let i = choose|i: int| 0 <= i < now.len() && now[i] == x;
                    assert(before[i] == x);
                }
            }
        }
        assert forall|i: int, j: int| 0 <= i < j < now.len() implies now[i] < now[j] by {
            if j == before.len() {
                assert(before.contains(before[i]));
            }
        }
    } else {
        assert(candidates(lens_inputs, present, n) =~= Seq::empty());
    }
}

proof fn lemma_ascending_unique(a: Seq<usize>, b: Seq<usize>)
    requires
        ascending(a),
        ascending(b),
        forall|x: usize| #[trigger] a.contains(x) <==> b.contains(x),
    ensures
        a == b,
    decreases a.len(),
{
    if a.len() == 0 {
        if b.len() > 0 {
            assert(b.contains(b[0]) && !a.contains(b[0]));
        }
        assert(a =~= b);
    } else {
        assert(a.contains(a.last()));
        let k = choose|k: int| 0 <= k < b.len() && b[k] == a.last();
        assert(b.contains(b.last()) && a.contains(b.last()));
        let l = choose|l: int| 0 <= l < a.len() && a[l] == b.last();
        assert(a.last() == b.last());
        let ra = a.drop_last();
        let rb = b.drop_last();
        assert forall|x: usize| #[trigger] ra.contains(x) <==> rb.contains(x) by {
            if ra.contains(x) {
                let i = choose|i: int| 0 <= i < ra.len() && ra[i] == x;
                assert(a[i] == x);
                assert(a.contains(x) && b.contains(x));
                let j = choose|j: int| 0 <= j < b.len() && b[j] == x;
                assert(rb[j] == x);
            }
            if rb.contains(x) {
                let i = choose|i: int| 0 <= i < rb.len() && rb[i] == x;
                assert(b[i] == x);
                assert(b.contains(x) && a.contains(x));
                let j = choose|j: int| 0 <= j < a.len() && a[j] == x;
                assert(ra[j] == x);
            }
        }
        lemma_ascending_unique(ra, rb);
        assert(a =~= ra.push(a.last()));
        assert(b =~= rb.push(b.last()));
    }
}

/// Dispatch through the index reaches exactly the lenses that read a present
/// section, each once and in catalog order.
pub proof fn law_dispatch_reaches_every_reader_once(
    lens_inputs: Seq<&[SectionColumn]>,
    index: Map<Seq<char>, Seq<usize>>,
    present: Seq<Seq<char>>,
    out: Seq<usize>,
)
    requires
        lens_inputs.len() <= usize::MAX,
        forall|section: Seq<char>|
            ({
                let expected = readers(lens_inputs, section, lens_inputs.len());
                &&& #[trigger] index.dom().contains(section) == (expected.len() > 0)
                &&& expected.len() > 0 ==> index[section] == expected
            }),
        ascending(out),
        forall|x: usize| #[trigger] out.contains(x) <==> indexed(index, present, x),
    ensures
        out == candidates(lens_inputs, present, lens_inputs.len()),
{
    let n = lens_inputs.len();
    lemma_candidates(lens_inputs, present, n);
    let expected = candidates(lens_inputs, present, n);
    assert forall|x: usize| #[trigger] out.contains(x) <==> expected.contains(x) by {
        assert(out.contains(x) <==> indexed(index, present, x));
        if indexed(index, present, x) {
            let i = choose|i: int|
                0 <= i < present.len() && index.dom().contains(#[trigger] present[i])
                    && index[present[i]].contains(x);
            lemma_readers_contain(lens_inputs, present[i], n, x);
            assert(present_reads(lens_inputs[x as int]@, present));
        }
        if expected.contains(x) {
            assert(x < n && present_reads(lens_inputs[x as int]@, present));
            let i = choose|i: int|
                0 <= i < present.len() && reads(lens_inputs[x as int]@, #[trigger] present[i]);
            lemma_readers_contain(lens_inputs, present[i], n, x);
            assert(index.dom().contains(present[i]));
        }
    }
    lemma_ascending_unique(out, expected);
}

} // verus!
