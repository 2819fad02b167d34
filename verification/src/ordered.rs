//! A map whose keys stand in ascending rank.

use crate::order::{
    compare_keys, ints, key_of, lemma_lex_total, lemma_lex_transitive, lemma_rank_injective,
    lemma_ranked_sort, lex_less, rank_order, ranked_sort, Keyed, Rank, Ranked,
};
use vstd::prelude::*;

verus! {

/// A name with its key and its value.
pub struct MapEntry<T, V> {
    pub key: Vec<i128>,
    pub name: T,
    pub value: V,
}

/// Values by name, in ascending rank of the names.
pub struct OrderedMap<T, V> {
    pub entries: Vec<MapEntry<T, V>>,
}

/// The names in order.
pub open spec fn names<W: Ranked, T: Keyed<W>, V>(entries: Seq<MapEntry<T, V>>) -> Seq<W> {
    Seq::new(entries.len(), |i: int| entries[i].name@)
}

/// Whether the ranks of some values ascend strictly.
pub open spec fn ranks_ascend<W: Ranked>(s: Seq<W>) -> bool {
    forall|i: int, j: int|
        0 <= i < j < s.len() ==> lex_less((#[trigger] s[i]).rank(), (#[trigger] s[j]).rank())
}

/// Whether the entries are keyed by their names and ascend.
pub open spec fn well_formed<W: Ranked, T: Keyed<W>, V>(entries: Seq<MapEntry<T, V>>) -> bool {
    &&& ranks_ascend(names::<W, T, V>(entries))
    &&& forall|i: int|
        0 <= i < entries.len() ==> ints((#[trigger] entries[i]).key@) == entries[i].name@.rank()
}

/// Whether entry `i` has the given name.
pub open spec fn entry_at<W: Ranked, T: Keyed<W>, V>(
    entries: Seq<MapEntry<T, V>>,
    name: W,
    i: int,
) -> bool {
    0 <= i < entries.len() && entries[i].name@ == name
}

/// The values by name.
pub open spec fn contents<W: Ranked, T: Keyed<W>, V>(entries: Seq<MapEntry<T, V>>) -> Map<W, V> {
    Map::new(
        |name: W| exists|i: int| entry_at::<W, T, V>(entries, name, i),
        |name: W| entries[choose|i: int| entry_at::<W, T, V>(entries, name, i)].value,
    )
}

proof fn lemma_ascend_unique<W: Ranked>(s: Seq<W>, i: int, j: int)
    requires
        ranks_ascend(s),
        0 <= i < s.len(),
        0 <= j < s.len(),
        s[i] == s[j],
    ensures
        i == j,
{
    lemma_lex_total(s[i].rank(), s[j].rank());
}

/// An entry holds the value of its name.
pub proof fn lemma_entry<W: Ranked, T: Keyed<W>, V>(entries: Seq<MapEntry<T, V>>, i: int)
    requires
        well_formed::<W, T, V>(entries),
        0 <= i < entries.len(),
    ensures
        contents::<W, T, V>(entries).dom().contains(entries[i].name@),
        contents::<W, T, V>(entries)[entries[i].name@] == entries[i].value,
{
    let name = entries[i].name@;
    assert(entry_at::<W, T, V>(entries, name, i));
    let k = choose|k: int| entry_at::<W, T, V>(entries, name, k);
    lemma_ascend_unique(names::<W, T, V>(entries), i, k);
}

/// Two ascending listings of the same values are equal.
pub proof fn lemma_listing_unique<W: Ranked>(a: Seq<W>, b: Seq<W>)
    requires
        ranks_ascend(a),
        ranks_ascend(b),
        forall|w: W| #[trigger] a.contains(w) <==> b.contains(w),
    ensures
        a == b,
    decreases a.len(),
{
    if a.len() == 0 {
        if b.len() > 0 {
            assert(b.contains(b[0]) && !a.contains(b[0]));
        }
        assert(a =~= b);
    } else {
        assert(a[a.len() - 1] == a.last());
        assert(a.contains(a.last()));
        assert(b.contains(a.last()));
        let k = choose|k: int| 0 <= k < b.len() && b[k] == a.last();
        assert(b[b.len() - 1] == b.last());
        assert(b.contains(b.last()));
        assert(a.contains(b.last()));
        let l = choose|l: int| 0 <= l < a.len() && a[l] == b.last();
        if a.last() != b.last() {
            assert(lex_less(b[k].rank(), b[b.len() - 1].rank()));
            assert(lex_less(a[l].rank(), a[a.len() - 1].rank()));
            lemma_lex_total(a.last().rank(), b.last().rank());
        }
        let ra = a.drop_last();
        let rb = b.drop_last();
        assert forall|w: W| #[trigger] ra.contains(w) <==> rb.contains(w) by {
            if ra.contains(w) {
                let i = choose|i: int| 0 <= i < ra.len() && ra[i] == w;
                assert(a[i] == w);
                assert(a.contains(w));
                assert(b.contains(w));
                let j = choose|j: int| 0 <= j < b.len() && b[j] == w;
                if j == b.len() - 1 {
                    lemma_ascend_unique(a, i, a.len() - 1);
                }
                assert(rb[j] == w);
            }
            if rb.contains(w) {
                let i = choose|i: int| 0 <= i < rb.len() && rb[i] == w;
                assert(b[i] == w);
                assert(b.contains(w));
                assert(a.contains(w));
                let j = choose|j: int| 0 <= j < a.len() && a[j] == w;
                if j == a.len() - 1 {
                    lemma_ascend_unique(b, i, b.len() - 1);
                }
                assert(ra[j] == w);
            }
        }
        assert(ranks_ascend(ra)) by {
            assert forall|i: int, j: int| 0 <= i < j < ra.len() implies lex_less(
                (#[trigger] ra[i]).rank(),
                (#[trigger] ra[j]).rank(),
            ) by {
                assert(lex_less(a[i].rank(), a[j].rank()));
            }
        }
        assert(ranks_ascend(rb)) by {
            assert forall|i: int, j: int| 0 <= i < j < rb.len() implies lex_less(
                (#[trigger] rb[i]).rank(),
                (#[trigger] rb[j]).rank(),
            ) by {
                assert(lex_less(b[i].rank(), b[j].rank()));
            }
        }
        lemma_listing_unique(ra, rb);
        assert(a =~= ra.push(a.last()));
        assert(b =~= rb.push(b.last()));
    }
}

/// The first position whose key is not before `key`.
fn find<W: Ranked, T: Keyed<W>, V>(entries: &Vec<MapEntry<T, V>>, key: &Vec<i128>) -> (r: usize)
    requires
        well_formed::<W, T, V>(entries@),
    ensures
        r <= entries.len(),
        forall|i: int|
            0 <= i < r ==> lex_less((#[trigger] entries@[i]).name@.rank(), ints(key@)),
        forall|i: int|
            r <= i < entries.len() ==> !lex_less((#[trigger] entries@[i]).name@.rank(), ints(key@)),
{
    let ghost target = ints(key@);
    let mut low: usize = 0;
    let mut high: usize = entries.len();
    while low < high
        invariant
            low <= high <= entries.len(),
            target == ints(key@),
            well_formed::<W, T, V>(entries@),
            forall|i: int|
                0 <= i < low ==> lex_less((#[trigger] entries@[i]).name@.rank(), target),
            forall|i: int|
                high <= i < entries.len() ==> !lex_less(
                    (#[trigger] entries@[i]).name@.rank(),
                    target,
                ),
        decreases high - low,
    {
        let middle: usize = low + (high - low) / 2;
        let ghost all = names::<W, T, V>(entries@);
        let order: Rank = compare_keys(&entries[middle].key, key);
        assert(ints(entries@[middle as int].key@) == entries@[middle as int].name@.rank());
        proof {
            lemma_lex_total(all[middle as int].rank(), target);
        }
        match order {
            Rank::Less => {
                proof {
                    assert forall|i: int| 0 <= i <= middle implies lex_less(
                        (#[trigger] entries@[i]).name@.rank(),
                        target,
                    ) by {
                        if i < middle {
                            assert(lex_less(all[i].rank(), all[middle as int].rank()));
                            lemma_lex_transitive(all[i].rank(), all[middle as int].rank(), target);
                        }
                    }
                }
                low = middle + 1;
            },
            _ => {
                proof {
                    assert forall|i: int| middle <= i < entries.len() implies !lex_less(
                        (#[trigger] entries@[i]).name@.rank(),
                        target,
                    ) by {
                        if middle < i {
                            assert(lex_less(all[middle as int].rank(), all[i].rank()));
                            if lex_less(all[i].rank(), target) {
                                lemma_lex_transitive(
                                    all[middle as int].rank(),
                                    all[i].rank(),
                                    target,
                                );
                            }
                        }
                    }
                }
                high = middle;
            },
        }
    }
    low
}

impl<T, V> OrderedMap<T, V> {
    pub fn new<W: Ranked>() -> (r: Self) where T: Keyed<W>
        ensures
            well_formed::<W, T, V>(r.entries@),
            contents::<W, T, V>(r.entries@) == Map::<W, V>::empty(),
            r.entries@.len() == 0,
    {
        let r = OrderedMap { entries: Vec::new() };
        proof {
            assert(contents::<W, T, V>(r.entries@) =~= Map::<W, V>::empty());
        }
        r
    }

    /// The value whose name has the given rank.
    pub fn get_by_key<W: Ranked>(&self, key: &Vec<i128>) -> (r: Option<&V>) where T: Keyed<W>
        requires
            well_formed::<W, T, V>(self.entries@),
        ensures
            forall|name: W|
                name.rank() == ints(key@) ==> match r {
                    Some(value) => (#[trigger] contents::<W, T, V>(
                        self.entries@,
                    ).dom().contains(name)) && *value == contents::<W, T, V>(self.entries@)[name],
                    None => !contents::<W, T, V>(self.entries@).dom().contains(name),
                },
    {
        let at: usize = find::<W, T, V>(&self.entries, key);
        if at < self.entries.len() {
            assert(ints(self.entries@[at as int].key@) == self.entries@[at as int].name@.rank());
            match compare_keys(&self.entries[at].key, key) {
                Rank::Equal => {
                    proof {
                        lemma_entry::<W, T, V>(self.entries@, at as int);
                        assert forall|name: W| name.rank() == ints(key@) implies name
                            == self.entries@[at as int].name@ by {
                            lemma_rank_injective(name, self.entries@[at as int].name@);
                        }
                    }
                    return Some(&self.entries[at].value);
                },
                _ => {},
            }
        }
        proof {
            assert forall|name: W| name.rank() == ints(key@) implies !(#[trigger] contents::<
                W,
                T,
                V,
            >(self.entries@).dom().contains(name)) by {
                if contents::<W, T, V>(self.entries@).dom().contains(name) {
                    let k = choose|k: int| entry_at::<W, T, V>(self.entries@, name, k);
                    lemma_lex_total(name.rank(), name.rank());
                    let all = names::<W, T, V>(self.entries@);
                    if k < at {
                        assert(lex_less(self.entries@[k].name@.rank(), ints(key@)));
                    } else if k > at {
                        assert(lex_less(all[at as int].rank(), all[k].rank()));
                        assert(!lex_less(self.entries@[at as int].name@.rank(), ints(key@)));
                    }
                }
            }
        }
        None
    }

    /// The first position whose name has no lower rank than the given one.
    pub fn lower_bound<W: Ranked>(&self, key: &Vec<i128>) -> (r: usize) where T: Keyed<W>
        requires
            well_formed::<W, T, V>(self.entries@),
        ensures
            r <= self.entries@.len(),
            forall|i: int|
                0 <= i < r ==> lex_less((#[trigger] self.entries@[i]).name@.rank(), ints(key@)),
            forall|i: int|
                r <= i < self.entries@.len() ==> !lex_less(
                    (#[trigger] self.entries@[i]).name@.rank(),
                    ints(key@),
                ),
    {
        find::<W, T, V>(&self.entries, key)
    }

    /// Sets the value of a name.
    pub fn insert<W: Ranked>(&mut self, name: T, value: V) where T: Keyed<W>
        requires
            well_formed::<W, T, V>(old(self).entries@),
        ensures
            well_formed::<W, T, V>(final(self).entries@),
            contents::<W, T, V>(final(self).entries@) == contents::<W, T, V>(
                old(self).entries@,
            ).insert(name@, value),
            final(self).entries@.len() == old(self).entries@.len() + if contents::<W, T, V>(
                old(self).entries@,
            ).dom().contains(name@) {
                0int
            } else {
                1
            },
    {
        let ghost before = self.entries@;
        let ghost w = name@;
        let key: Vec<i128> = key_of(&name);
        let at: usize = find::<W, T, V>(&self.entries, &key);
        let found: bool = if at < self.entries.len() {
            assert(ints(before[at as int].key@) == before[at as int].name@.rank());
            match compare_keys(&self.entries[at].key, &key) {
                Rank::Equal => true,
                _ => false,
            }
        } else {
            false
        };
        let ghost all = names::<W, T, V>(before);
        if found {
            proof {
                lemma_rank_injective(before[at as int].name@, w);
            }
            self.entries.set(at, MapEntry { key, name, value });
            proof {
                assert(names::<W, T, V>(self.entries@) =~= all);
                assert forall|i: int| 0 <= i < self.entries@.len() implies ints(
                    (#[trigger] self.entries@[i]).key@,
                ) == self.entries@[i].name@.rank() by {
                    if i != at {
                        assert(self.entries@[i] == before[i]);
                    }
                }
            }
        } else {
            self.entries.insert(at, MapEntry { key, name, value });
            proof {
                let next = names::<W, T, V>(self.entries@);
                assert(self.entries@ =~= before.insert(at as int, self.entries@[at as int]));
                assert forall|i: int, j: int| 0 <= i < j < next.len() implies lex_less(
                    (#[trigger] next[i]).rank(),
                    (#[trigger] next[j]).rank(),
                ) by {
                    if j < at {
                        assert(next[i] == all[i] && next[j] == all[j]);
                    } else if j == at {
                        assert(next[i] == all[i]);
                        assert(lex_less(before[i].name@.rank(), w.rank()));
                    } else if i == at {
                        assert(next[j] == all[j - 1]);
                        lemma_lex_total(before[j - 1].name@.rank(), w.rank());
                        assert(!lex_less(before[j - 1].name@.rank(), w.rank()));
                        if before[j - 1].name@.rank() == w.rank() {
                            lemma_lex_total(w.rank(), w.rank());
                            if j - 1 > at {
                                assert(lex_less(all[at as int].rank(), all[j - 1].rank()));
                                assert(!lex_less(before[at as int].name@.rank(), w.rank()));
                            }
                        }
                    } else if i < at {
                        assert(next[i] == all[i] && next[j] == all[j - 1]);
                    } else {
                        assert(next[i] == all[i - 1] && next[j] == all[j - 1]);
                    }
                }
                assert forall|i: int| 0 <= i < self.entries@.len() implies ints(
                    (#[trigger] self.entries@[i]).key@,
                ) == self.entries@[i].name@.rank() by {
                    if i < at {
                        assert(self.entries@[i] == before[i]);
                    } else if i > at {
                        assert(self.entries@[i] == before[i - 1]);
                    }
                }
            }
        }
        proof {
            let now = self.entries@;
            assert(well_formed::<W, T, V>(now));
            lemma_entry::<W, T, V>(now, at as int);
            let old_map = contents::<W, T, V>(before);
            let new_map = contents::<W, T, V>(now);
            assert forall|n: W| #[trigger] new_map.dom().contains(n) <==> old_map.insert(
                w,
                value,
            ).dom().contains(n) by {
                if old_map.dom().contains(n) {
                    let k = choose|k: int| entry_at::<W, T, V>(before, n, k);
                    if found {
                        if k != at {
                            assert(entry_at::<W, T, V>(now, n, k));
                        } else {
                            assert(entry_at::<W, T, V>(now, n, at as int));
                        }
                    } else if k < at {
                        assert(entry_at::<W, T, V>(now, n, k));
                    } else {
                        assert(entry_at::<W, T, V>(now, n, k + 1));
                    }
                }
                if new_map.dom().contains(n) && n != w {
                    let k = choose|k: int| entry_at::<W, T, V>(now, n, k);
                    if found || k < at {
                        assert(entry_at::<W, T, V>(before, n, k));
                    } else {
                        assert(entry_at::<W, T, V>(before, n, k - 1));
                    }
                }
            }
            assert forall|n: W| new_map.dom().contains(n) implies #[trigger] new_map[n]
                == old_map.insert(w, value)[n] by {
                if n != w {
                    let k = choose|k: int| entry_at::<W, T, V>(now, n, k);
                    lemma_entry::<W, T, V>(now, k);
                    if found || k < at {
                        lemma_entry::<W, T, V>(before, k);
                    } else {
                        lemma_entry::<W, T, V>(before, k - 1);
                    }
                }
            }
            assert(new_map =~= old_map.insert(w, value));
            if found {
                lemma_entry::<W, T, V>(before, at as int);
            } else if old_map.dom().contains(w) {
                let k = choose|k: int| entry_at::<W, T, V>(before, w, k);
                lemma_lex_total(w.rank(), w.rank());
                if k < at {
                    assert(lex_less(before[k].name@.rank(), w.rank()));
                } else if k > at {
                    assert(lex_less(all[at as int].rank(), all[k].rank()));
                    assert(!lex_less(before[at as int].name@.rank(), w.rank()));
                }
            }
        }
    }
}

/// Entries with the same names, keys and values hold the same.
pub proof fn lemma_same_entries<W: Ranked, T: Keyed<W>, V>(
    a: Seq<MapEntry<T, V>>,
    b: Seq<MapEntry<T, V>>,
)
    requires
        well_formed::<W, T, V>(a),
        a.len() == b.len(),
        forall|i: int|
            0 <= i < a.len() ==> (#[trigger] b[i]).name@ == a[i].name@ && b[i].key@ == a[i].key@
                && b[i].value == a[i].value,
    ensures
        well_formed::<W, T, V>(b),
        contents::<W, T, V>(b) == contents::<W, T, V>(a),
{
    assert(names::<W, T, V>(b) =~= names::<W, T, V>(a));
    assert forall|i: int| 0 <= i < b.len() implies ints((#[trigger] b[i]).key@)
        == b[i].name@.rank() by {
        assert(ints(a[i].key@) == a[i].name@.rank());
    }
    let x = contents::<W, T, V>(a);
    let y = contents::<W, T, V>(b);
    assert forall|n: W| #[trigger] x.dom().contains(n) <==> y.dom().contains(n) by {
        if x.dom().contains(n) {
            let k = choose|k: int| entry_at::<W, T, V>(a, n, k);
            assert(b[k].name@ == n);
            assert(entry_at::<W, T, V>(b, n, k));
        }
        if y.dom().contains(n) {
            let k = choose|k: int| entry_at::<W, T, V>(b, n, k);
            assert(b[k].name@ == a[k].name@);
            assert(entry_at::<W, T, V>(a, n, k));
        }
    }
    assert forall|n: W| x.dom().contains(n) implies #[trigger] x[n] == y[n] by {
        let k = choose|k: int| entry_at::<W, T, V>(a, n, k);
        lemma_entry::<W, T, V>(a, k);
        assert(b[k].name@ == a[k].name@);
        lemma_entry::<W, T, V>(b, k);
    }
    assert(x =~= y);
}

/// A map names what it holds.
pub proof fn lemma_named<W: Ranked, T: Keyed<W>, V>(entries: Seq<MapEntry<T, V>>, name: W)
    ensures
        names::<W, T, V>(entries).contains(name) <==> contents::<W, T, V>(entries).dom().contains(
            name,
        ),
{
    let all = names::<W, T, V>(entries);
    if all.contains(name) {
        let k = choose|k: int| 0 <= k < all.len() && all[k] == name;
        assert(entry_at::<W, T, V>(entries, name, k));
    }
    if contents::<W, T, V>(entries).dom().contains(name) {
        let k = choose|k: int| entry_at::<W, T, V>(entries, name, k);
        assert(all[k] == name);
    }
}

/// Whether a list names every value with a property, in order.
pub open spec fn is_listing<W: Ranked>(list: Seq<W>, all: spec_fn(W) -> bool) -> bool {
    ranks_ascend(list) && forall|w: W| #[trigger] list.contains(w) <==> all(w)
}

/// Every value with a property, in order.
pub open spec fn listing<W: Ranked>(all: spec_fn(W) -> bool) -> Seq<W> {
    choose|list: Seq<W>| is_listing(list, all)
}

/// Only one list names every value with a property in order.
pub proof fn lemma_listing<W: Ranked>(list: Seq<W>, all: spec_fn(W) -> bool)
    requires
        is_listing(list, all),
    ensures
        listing(all) == list,
{
    let chosen = listing(all);
    assert(is_listing(chosen, all));
    assert forall|w: W| #[trigger] list.contains(w) <==> chosen.contains(w) by {
        assert(chosen.contains(w) <==> all(w));
    }
    lemma_listing_unique(list, chosen);
}

/// A listing can be extended by one value.
pub proof fn lemma_listing_extended<W: Ranked>(list: Seq<W>, all: spec_fn(W) -> bool, x: W)
    requires
        is_listing(list, all),
        !all(x),
    ensures
        is_listing(ranked_sort(list.push(x)), extended(all, x)),
{
    broadcast use vstd::seq_lib::group_to_multiset_ensures;

    let grown = list.push(x);
    let sorted = ranked_sort(grown);
    lemma_ranked_sort(grown);
    assert(!list.contains(x));
    assert forall|i: int, j: int| 0 <= i < j < grown.len() implies grown[i] != grown[j] by {
        if j < list.len() {
            assert(lex_less(list[i].rank(), list[j].rank()));
            lemma_lex_total(list[i].rank(), list[j].rank());
        } else {
            assert(list.contains(list[i]));
        }
    }
    grown.lemma_multiset_has_no_duplicates();
    sorted.lemma_multiset_has_no_duplicates_conv();
    let leq = rank_order::<W>();
    assert forall|i: int, j: int| 0 <= i < j < sorted.len() implies lex_less(
        (#[trigger] sorted[i]).rank(),
        (#[trigger] sorted[j]).rank(),
    ) by {
        assert(leq(sorted[i], sorted[j]));
        if sorted[i].rank() == sorted[j].rank() {
            lemma_rank_injective(sorted[i], sorted[j]);
        }
    }
    assert forall|w: W| #[trigger] sorted.contains(w) <==> extended(all, x)(w) by {
        assert(sorted.contains(w) <==> sorted.to_multiset().contains(w));
        assert(grown.contains(w) <==> grown.to_multiset().contains(w));
        if grown.contains(w) {
            let k = choose|k: int| 0 <= k < grown.len() && grown[k] == w;
            if k < list.len() {
                assert(list.contains(list[k]));
            }
        }
        if list.contains(w) {
            let k = choose|k: int| 0 <= k < list.len() && list[k] == w;
            assert(grown[k] == w);
        }
        assert(grown[list.len() as int] == x);
    }
}

/// Whether a list holds the `limit` values of lowest rank, in order.
pub open spec fn is_lowest<W: Ranked>(list: Seq<W>, all: spec_fn(W) -> bool, limit: nat) -> bool {
    &&& ranks_ascend(list)
    &&& list.len() <= limit
    &&& forall|i: int| 0 <= i < list.len() ==> all(#[trigger] list[i])
    &&& forall|w: W| #[trigger]
        all(w) ==> list.contains(w) || (list.len() == limit && follows(list, w))
}

/// Whether a value comes after every value of a list.
pub open spec fn follows<W: Ranked>(list: Seq<W>, w: W) -> bool {
    forall|i: int| 0 <= i < list.len() ==> lex_less((#[trigger] list[i]).rank(), w.rank())
}

/// A property extended by one value.
pub open spec fn extended<W>(all: spec_fn(W) -> bool, x: W) -> spec_fn(W) -> bool {
    |w: W| all(w) || w == x
}

/// The `limit` values of lowest rank, in order.
pub open spec fn lowest<W: Ranked>(all: spec_fn(W) -> bool, limit: nat) -> Seq<W> {
    choose|list: Seq<W>| is_lowest(list, all, limit)
}

/// Only one list holds the values of lowest rank.
pub proof fn lemma_lowest<W: Ranked>(list: Seq<W>, all: spec_fn(W) -> bool, limit: nat)
    requires
        is_lowest(list, all, limit),
    ensures
        lowest(all, limit) == list,
{
    lemma_lowest_unique(list, lowest(all, limit), all, limit);
}

proof fn lemma_first_is_first<W: Ranked>(
    a: Seq<W>,
    b: Seq<W>,
    all: spec_fn(W) -> bool,
    limit: nat,
)
    requires
        is_lowest(a, all, limit),
        is_lowest(b, all, limit),
        a.len() > 0,
    ensures
        b.len() > 0,
        !lex_less(a[0].rank(), b[0].rank()),
{
    assert(all(a[0]));
    if b.contains(a[0]) {
        let k = choose|k: int| 0 <= k < b.len() && b[k] == a[0];
        if k > 0 {
            assert(lex_less(b[0].rank(), b[k].rank()));
        }
        lemma_lex_total(a[0].rank(), b[0].rank());
    } else {
        assert(follows(b, a[0]));
        assert(b.len() == limit);
        assert(lex_less(b[0].rank(), a[0].rank()));
        lemma_lex_total(a[0].rank(), b[0].rank());
    }
}

proof fn lemma_lowest_tail<W: Ranked>(list: Seq<W>, all: spec_fn(W) -> bool, limit: nat)
    requires
        is_lowest(list, all, limit),
        list.len() > 0,
    ensures
        is_lowest(list.drop_first(), |w: W| all(w) && w != list[0], (limit - 1) as nat),
{
    let tail = list.drop_first();
    let rest = |w: W| all(w) && w != list[0];
    assert forall|i: int, j: int| 0 <= i < j < tail.len() implies lex_less(
        (#[trigger] tail[i]).rank(),
        (#[trigger] tail[j]).rank(),
    ) by {
        assert(tail[i] == list[i + 1] && tail[j] == list[j + 1]);
    }
    assert forall|i: int| 0 <= i < tail.len() implies rest(#[trigger] tail[i]) by {
        assert(tail[i] == list[i + 1]);
        assert(lex_less(list[0].rank(), list[i + 1].rank()));
        lemma_lex_total(list[0].rank(), list[i + 1].rank());
    }
    assert forall|w: W| #[trigger] rest(w) implies tail.contains(w) || (tail.len() == limit - 1
        && follows(tail, w)) by {
        assert(all(w));
        if list.contains(w) {
            let k = choose|k: int| 0 <= k < list.len() && list[k] == w;
            assert(tail[k - 1] == w);
        } else {
            assert forall|i: int| 0 <= i < tail.len() implies lex_less(
                (#[trigger] tail[i]).rank(),
                w.rank(),
            ) by {
                assert(tail[i] == list[i + 1]);
            }
        }
    }
}

proof fn lemma_lowest_unique<W: Ranked>(
    a: Seq<W>,
    b: Seq<W>,
    all: spec_fn(W) -> bool,
    limit: nat,
)
    requires
        is_lowest(a, all, limit),
        is_lowest(b, all, limit),
    ensures
        a == b,
    decreases a.len(),
{
    if a.len() == 0 {
        if b.len() > 0 {
            lemma_first_is_first(b, a, all, limit);
        }
        assert(a =~= b);
    } else {
        lemma_first_is_first(a, b, all, limit);
        lemma_first_is_first(b, a, all, limit);
        lemma_lex_total(a[0].rank(), b[0].rank());
        lemma_rank_injective(a[0], b[0]);
        lemma_lowest_tail(a, all, limit);
        lemma_lowest_tail(b, all, limit);
        lemma_lowest_unique(
            a.drop_first(),
            b.drop_first(),
            |w: W| all(w) && w != a[0],
            (limit - 1) as nat,
        );
        assert(a =~= seq![a[0]] + a.drop_first());
        assert(b =~= seq![b[0]] + b.drop_first());
    }
}

impl<T> OrderedMap<T, ()> {
    /// Adds a name and keeps no more than `limit` of them, those of lowest
    /// rank.
    pub fn keep_lowest<W: Ranked>(&mut self, name: T, limit: usize) where T: Keyed<W>
        requires
            well_formed::<W, T, ()>(old(self).entries@),
        ensures
            well_formed::<W, T, ()>(final(self).entries@),
            forall|all: spec_fn(W) -> bool| #[trigger]
                is_lowest(names::<W, T, ()>(old(self).entries@), all, limit as nat) ==> is_lowest(
                    names::<W, T, ()>(final(self).entries@),
                    extended(all, name@),
                    limit as nat,
                ),
    {
        let ghost held = self.entries@;
        let ghost x = name@;
        self.insert::<W>(name, ());
        let ghost grown = self.entries@;
        if self.entries.len() > limit {
            let _ = self.entries.pop();
        }
        proof {
            let now = self.entries@;
            let h = names::<W, T, ()>(held);
            let g = names::<W, T, ()>(grown);
            let n = names::<W, T, ()>(now);
            assert forall|i: int| 0 <= i < now.len() implies n[i] == #[trigger] g[i] by {}
            assert(ranks_ascend(n)) by {
                assert forall|i: int, j: int| 0 <= i < j < n.len() implies lex_less(
                    (#[trigger] n[i]).rank(),
                    (#[trigger] n[j]).rank(),
                ) by {
                    assert(n[i] == g[i] && n[j] == g[j]);
                }
            }
            assert(well_formed::<W, T, ()>(now)) by {
                assert forall|i: int| 0 <= i < now.len() implies ints((#[trigger] now[i]).key@)
                    == now[i].name@.rank() by {
                    assert(now[i] == grown[i]);
                }
            }
            assert forall|w: W| g.contains(w) <==> h.contains(w) || w == x by {
                lemma_named::<W, T, ()>(held, w);
                lemma_named::<W, T, ()>(grown, w);
            }
            lemma_named::<W, T, ()>(held, x);
            assert(n =~= if g.len() > limit {
                g.drop_last()
            } else {
                g
            });
            assert forall|all: spec_fn(W) -> bool| #[trigger]
                is_lowest(h, all, limit as nat) implies is_lowest(
                n,
                extended(all, x),
                limit as nat,
            ) by {
                lemma_keep_lowest(h, g, n, x, all, limit as nat);
            }
        }
    }
}

proof fn lemma_keep_lowest<W: Ranked>(
    h: Seq<W>,
    g: Seq<W>,
    n: Seq<W>,
    x: W,
    all: spec_fn(W) -> bool,
    limit: nat,
)
    requires
        is_lowest(h, all, limit),
        ranks_ascend(g),
        forall|w: W| #[trigger] g.contains(w) <==> h.contains(w) || w == x,
        g.len() == h.len() + if h.contains(x) {
            0int
        } else {
            1
        },
        n == if g.len() > limit {
            g.drop_last()
        } else {
            g
        },
    ensures
        is_lowest(n, extended(all, x), limit),
{
    let more = extended(all, x);
    assert forall|i: int, j: int| 0 <= i < j < n.len() implies lex_less(
        (#[trigger] n[i]).rank(),
        (#[trigger] n[j]).rank(),
    ) by {
        assert(n[i] == g[i] && n[j] == g[j]);
    }
    assert forall|i: int| 0 <= i < n.len() implies more(#[trigger] n[i]) by {
        assert(n[i] == g[i]);
        assert(g.contains(g[i]));
        if h.contains(g[i]) {
            let k = choose|k: int| 0 <= k < h.len() && h[k] == g[i];
            assert(all(h[k]));
        }
    }
    assert forall|w: W| #[trigger] more(w) implies n.contains(w) || (n.len() == limit && follows(
        n,
        w,
    )) by {
        if g.contains(w) {
            let k = choose|k: int| 0 <= k < g.len() && g[k] == w;
            if k < n.len() {
                assert(n[k] == w);
            } else {
                assert forall|i: int| 0 <= i < n.len() implies lex_less(
                    (#[trigger] n[i]).rank(),
                    w.rank(),
                ) by {
                    assert(n[i] == g[i]);
                }
            }
        } else {
            assert(all(w) && !h.contains(w));
            assert(follows(h, w));
            assert forall|i: int| 0 <= i < n.len() implies lex_less(
                (#[trigger] n[i]).rank(),
                w.rank(),
            ) by {
                assert(n[i] == g[i]);
                assert(g.contains(g[i]));
                if h.contains(g[i]) {
                    let k = choose|k: int| 0 <= k < h.len() && h[k] == g[i];
                    assert(lex_less(h[k].rank(), w.rank()));
                } else {
                    let last = g.last();
                    assert(g.contains(last));
                    assert(lex_less(g[i].rank(), g[g.len() - 1].rank()));
                    lemma_lex_total(x.rank(), x.rank());
                    assert(h.contains(last));
                    let k = choose|k: int| 0 <= k < h.len() && h[k] == last;
                    assert(lex_less(h[k].rank(), w.rank()));
                    lemma_lex_transitive(g[i].rank(), last.rank(), w.rank());
                }
            }
        }
    }
}

} // verus!
