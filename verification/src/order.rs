//! Lexicographic ranks, a merge sort over them, and text helpers.
//!
//! A rank is a sequence of integers. Ranks are compared position by position,
//! and a proper prefix comes first. Every ranked type encodes itself so that
//! no rank is a proper prefix of another, which makes concatenated ranks order
//! like a comparison of the fields in turn.

use vstd::prelude::*;
use vstd::relations::{
    antisymmetric, reflexive, sorted_by, strongly_connected, total_ordering, transitive,
};
use vstd::seq_lib::{lemma_multiset_commutative, lemma_sorted_unique};
use vstd::string::StringExecFns;

verus! {

/// Whether `a` comes strictly before `b`.
pub open spec fn lex_less(a: Seq<int>, b: Seq<int>) -> bool
    decreases a.len(),
{
    if b.len() == 0 {
        false
    } else if a.len() == 0 {
        true
    } else if a[0] == b[0] {
        lex_less(a.drop_first(), b.drop_first())
    } else {
        a[0] < b[0]
    }
}

/// Whether `a` comes before `b` or equals it.
pub open spec fn lex_le(a: Seq<int>, b: Seq<int>) -> bool {
    a == b || lex_less(a, b)
}

/// Lexicographic order relates every two ranks in exactly one way.
pub proof fn lemma_lex_total(a: Seq<int>, b: Seq<int>)
    ensures
        a != b ==> lex_less(a, b) != lex_less(b, a),
        a == b ==> !lex_less(a, b),
    decreases a.len(),
{
    if a.len() == 0 || b.len() == 0 {
        if a.len() == 0 && b.len() == 0 {
            assert(a =~= b);
        }
    } else if a[0] == b[0] {
        lemma_lex_total(a.drop_first(), b.drop_first());
        if a.drop_first() == b.drop_first() {
            assert(a =~= seq![a[0]] + a.drop_first());
            assert(b =~= seq![b[0]] + b.drop_first());
        }
    }
}

/// Lexicographic order is transitive.
pub proof fn lemma_lex_transitive(a: Seq<int>, b: Seq<int>, c: Seq<int>)
    requires
        lex_less(a, b),
        lex_less(b, c),
    ensures
        lex_less(a, c),
    decreases a.len(),
{
    if a.len() > 0 && a[0] == b[0] && b[0] == c[0] {
        lemma_lex_transitive(a.drop_first(), b.drop_first(), c.drop_first());
    }
}

/// A common prefix does not affect the order.
pub proof fn lemma_lex_prefix(p: Seq<int>, a: Seq<int>, b: Seq<int>)
    ensures
        lex_less(p + a, p + b) == lex_less(a, b),
    decreases p.len(),
{
    if p.len() == 0 {
        assert(p + a =~= a);
        assert(p + b =~= b);
    } else {
        assert((p + a).drop_first() =~= p.drop_first() + a);
        assert((p + b).drop_first() =~= p.drop_first() + b);
        lemma_lex_prefix(p.drop_first(), a, b);
    }
}

/// A mathematical value with a rank that determines it.
pub trait Ranked: Sized {
    spec fn rank(self) -> Seq<int>;

    /// Ranked values can be read back from the front of a longer rank.
    proof fn rank_splits(a: Self, b: Self, x: Seq<int>, y: Seq<int>)
        requires
            a.rank() + x == b.rank() + y,
        ensures
            a == b,
            x == y,
    ;
}

/// A value whose rank can be computed.
pub trait Keyed<V: Ranked>: View<V = V> {
    fn key_into(&self, out: &mut Vec<i128>)
        ensures
            ints(final(out)@) == ints(old(out)@) + self@.rank(),
    ;
}

/// Machine integers as mathematical ones.
pub open spec fn ints(s: Seq<i128>) -> Seq<int> {
    Seq::new(s.len(), |i: int| s[i] as int)
}

/// The order of ranked values.
pub open spec fn rank_order<V: Ranked>() -> spec_fn(V, V) -> bool {
    |a: V, b: V| lex_le(a.rank(), b.rank())
}

/// The values of `s` from the lowest rank to the highest.
pub open spec fn ranked_sort<V: Ranked>(s: Seq<V>) -> Seq<V> {
    s.sort_by(rank_order::<V>())
}

/// The views of a sequence of values.
pub open spec fn views<T: View>(s: Seq<T>) -> Seq<T::V> {
    Seq::new(s.len(), |i: int| s[i]@)
}

/// Equal ranks belong to equal values.
pub proof fn lemma_rank_injective<V: Ranked>(a: V, b: V)
    requires
        a.rank() == b.rank(),
    ensures
        a == b,
{
    V::rank_splits(a, b, Seq::empty(), Seq::empty());
}

/// The order of ranked values is total.
pub proof fn lemma_rank_order_total<V: Ranked>()
    ensures
        total_ordering(rank_order::<V>()),
{
    let leq = rank_order::<V>();
    assert(reflexive(leq));
    assert(antisymmetric(leq)) by {
        assert forall|a: V, b: V| #[trigger] leq(a, b) && #[trigger] leq(b, a) implies a == b by {
            lemma_lex_total(a.rank(), b.rank());
            lemma_rank_injective(a, b);
        }
    }
    assert(transitive(leq)) by {
        assert forall|a: V, b: V, c: V| #[trigger]
            leq(a, b) && #[trigger] leq(b, c) implies leq(a, c) by {
            if a.rank() != b.rank() && b.rank() != c.rank() {
                lemma_lex_transitive(a.rank(), b.rank(), c.rank());
            }
        }
    }
    assert(strongly_connected(leq)) by {
        assert forall|a: V, b: V| #[trigger] leq(a, b) || #[trigger] leq(b, a) by {
            lemma_lex_total(a.rank(), b.rank());
        }
    }
}

/// A sorted arrangement of some values is their ranked sort.
pub proof fn lemma_ranked_sort_unique<V: Ranked>(s: Seq<V>, sorted: Seq<V>)
    requires
        sorted_by(sorted, rank_order::<V>()),
        s.to_multiset() == sorted.to_multiset(),
    ensures
        sorted == ranked_sort(s),
{
    lemma_rank_order_total::<V>();
    s.lemma_sort_by_ensures(rank_order::<V>());
    lemma_sorted_unique(sorted, ranked_sort(s), rank_order::<V>());
}

/// The ranked sort depends only on which values occur, not on their order.
pub proof fn lemma_ranked_sort_order_free<V: Ranked>(a: Seq<V>, b: Seq<V>)
    requires
        a.to_multiset() == b.to_multiset(),
    ensures
        ranked_sort(a) == ranked_sort(b),
{
    lemma_rank_order_total::<V>();
    a.lemma_sort_by_ensures(rank_order::<V>());
    lemma_ranked_sort_unique(b, ranked_sort(a));
}

/// The ranked sort is sorted and keeps exactly the given values.
pub proof fn lemma_ranked_sort<V: Ranked>(s: Seq<V>)
    ensures
        sorted_by(ranked_sort(s), rank_order::<V>()),
        ranked_sort(s).to_multiset() == s.to_multiset(),
        ranked_sort(s).len() == s.len(),
{
    lemma_rank_order_total::<V>();
    s.lemma_sort_by_ensures(rank_order::<V>());
    s.to_multiset_ensures();
    ranked_sort(s).to_multiset_ensures();
}

/// How two values compare.
#[derive(Clone, Copy, PartialEq, Eq, Debug, Structural)]
pub enum Rank {
    Less,
    Equal,
    Greater,
}

/// The comparison of two ranks.
pub open spec fn lex_rank(a: Seq<int>, b: Seq<int>) -> Rank {
    if a == b {
        Rank::Equal
    } else if lex_less(a, b) {
        Rank::Less
    } else {
        Rank::Greater
    }
}

/// Compares two keys.
pub fn compare_keys(a: &Vec<i128>, b: &Vec<i128>) -> (r: Rank)
    ensures
        r == lex_rank(ints(a@), ints(b@)),
{
    let ghost x = ints(a@);
    let ghost y = ints(b@);
    let mut i: usize = 0;
    proof {
        assert(x.skip(0) =~= x);
        assert(y.skip(0) =~= y);
    }
    while i < a.len() && i < b.len()
        invariant
            i <= a.len(),
            i <= b.len(),
            x == ints(a@),
            y == ints(b@),
            x.take(i as int) == y.take(i as int),
            lex_less(x, y) == lex_less(x.skip(i as int), y.skip(i as int)),
        decreases a.len() - i,
    {
        proof {
            assert(x.skip(i as int).drop_first() =~= x.skip(i + 1));
            assert(y.skip(i as int).drop_first() =~= y.skip(i + 1));
        }
        if a[i] < b[i] {
            assert(x[i as int] != y[i as int]);
            return Rank::Less;
        }
        if a[i] > b[i] {
            assert(x[i as int] != y[i as int]);
            return Rank::Greater;
        }
        proof {
            assert(x.take(i + 1) =~= x.take(i as int).push(x[i as int]));
            assert(y.take(i + 1) =~= y.take(i as int).push(y[i as int]));
        }
        i = i + 1;
    }
    if a.len() == b.len() {
        proof {
            assert(x.take(i as int) =~= x);
            assert(y.take(i as int) =~= y);
        }
        Rank::Equal
    } else if a.len() < b.len() {
        Rank::Less
    } else {
        Rank::Greater
    }
}

/// The key of a value.
pub fn key_of<V: Ranked, T: Keyed<V>>(value: &T) -> (key: Vec<i128>)
    ensures
        ints(key@) == value@.rank(),
{
    let mut key: Vec<i128> = Vec::new();
    value.key_into(&mut key);
    proof {
        assert(ints(Seq::<i128>::empty()) + value@.rank() =~= value@.rank());
    }
    key
}

/// Compares two ranked values.
pub fn compare<V: Ranked, T: Keyed<V>>(a: &T, b: &T) -> (r: Rank)
    ensures
        r == lex_rank(a@.rank(), b@.rank()),
{
    let x: Vec<i128> = key_of(a);
    let y: Vec<i128> = key_of(b);
    compare_keys(&x, &y)
}

/// A value next to its key.
pub struct Entry<T> {
    pub key: Vec<i128>,
    pub item: T,
}

spec fn keyed<V: Ranked, T: Keyed<V>>(s: Seq<Entry<T>>) -> bool {
    forall|i: int| 0 <= i < s.len() ==> ints(#[trigger] s[i].key@) == s[i].item@.rank()
}

spec fn items<V: Ranked, T: Keyed<V>>(s: Seq<Entry<T>>) -> Seq<V> {
    Seq::new(s.len(), |i: int| s[i].item@)
}

proof fn lemma_sorted_push<V: Ranked>(s: Seq<V>, v: V)
    requires
        sorted_by(s, rank_order::<V>()),
        s.len() > 0 ==> rank_order::<V>()(s.last(), v),
    ensures
        sorted_by(s.push(v), rank_order::<V>()),
{
    lemma_rank_order_total::<V>();
    let leq = rank_order::<V>();
    let t = s.push(v);
    assert forall|i: int, j: int| 0 <= i < j < t.len() implies #[trigger] leq(t[i], t[j]) by {
        if j == s.len() {
            if i < s.len() - 1 {
                assert(leq(s[i], s[s.len() - 1]));
            }
        } else {
            assert(leq(s[i], s[j]));
        }
    }
}

/// Merges two sorted runs.
fn merge<V: Ranked, T: Keyed<V>>(left: Vec<Entry<T>>, right: Vec<Entry<T>>) -> (out: Vec<Entry<T>>)
    requires
        keyed::<V, T>(left@),
        keyed::<V, T>(right@),
        sorted_by(items::<V, T>(left@), rank_order::<V>()),
        sorted_by(items::<V, T>(right@), rank_order::<V>()),
        left.len() + right.len() <= usize::MAX,
    ensures
        keyed::<V, T>(out@),
        sorted_by(items::<V, T>(out@), rank_order::<V>()),
        items::<V, T>(out@).to_multiset() == items::<V, T>(left@).to_multiset().add(
            items::<V, T>(right@).to_multiset(),
        ),
        out.len() == left.len() + right.len(),
{
    let ghost leq = rank_order::<V>();
    let ghost total = items::<V, T>(left@).to_multiset().add(items::<V, T>(right@).to_multiset());
    let ghost size: nat = left.len() as nat + right.len() as nat;
    let mut left: Vec<Entry<T>> = left;
    let mut right: Vec<Entry<T>> = right;
    // Collected from the highest rank down.
    let mut down: Vec<Entry<T>> = Vec::new();
    proof {
        lemma_rank_order_total::<V>();
        items::<V, T>(down@).to_multiset_ensures();
        assert(items::<V, T>(down@).reverse() =~= Seq::empty());
    }
    while left.len() > 0 || right.len() > 0
        invariant
            leq == rank_order::<V>(),
            total_ordering(leq),
            keyed::<V, T>(left@),
            keyed::<V, T>(right@),
            keyed::<V, T>(down@),
            sorted_by(items::<V, T>(left@), leq),
            sorted_by(items::<V, T>(right@), leq),
            forall|i: int, j: int|
                0 <= i < j < down.len() ==> leq(#[trigger] down@[j].item@, #[trigger] down@[i].item@),
            forall|i: int, j: int|
                0 <= i < left.len() && 0 <= j < down.len() ==> leq(
                    #[trigger] left@[i].item@,
                    #[trigger] down@[j].item@,
                ),
            forall|i: int, j: int|
                0 <= i < right.len() && 0 <= j < down.len() ==> leq(
                    #[trigger] right@[i].item@,
                    #[trigger] down@[j].item@,
                ),
            total == items::<V, T>(left@).to_multiset().add(
                items::<V, T>(right@).to_multiset(),
            ).add(items::<V, T>(down@).to_multiset()),
            left.len() + right.len() + down.len() == size,
        decreases left.len() + right.len(),
    {
        let take_left: bool = if left.len() == 0 {
            false
        } else if right.len() == 0 {
            true
        } else {
            match compare_keys(&left[left.len() - 1].key, &right[right.len() - 1].key) {
                Rank::Greater => true,
                _ => false,
            }
        };
        let ghost l0 = left@;
        let ghost r0 = right@;
        let ghost d0 = down@;
        proof {
            if l0.len() > 0 && r0.len() > 0 {
                lemma_lex_total(l0.last().item@.rank(), r0.last().item@.rank());
                assert(ints(l0[l0.len() - 1].key@) == l0[l0.len() - 1].item@.rank());
                assert(ints(r0[r0.len() - 1].key@) == r0[r0.len() - 1].item@.rank());
            }
            assert forall|i: int| 0 <= i < l0.len() implies leq(
                #[trigger] l0[i].item@,
                l0.last().item@,
            ) by {
                let s = items::<V, T>(l0);
                if i < l0.len() - 1 {
                    assert(leq(s[i], s[l0.len() - 1]));
                }
            }
            assert forall|i: int| 0 <= i < r0.len() implies leq(
                #[trigger] r0[i].item@,
                r0.last().item@,
            ) by {
                let s = items::<V, T>(r0);
                if i < r0.len() - 1 {
                    assert(leq(s[i], s[r0.len() - 1]));
                }
            }
        }
        let next: Entry<T> = if take_left {
            proof {
                lemma_pop_run::<V, T>(l0);
            }
            left.pop().unwrap()
        } else {
            proof {
                lemma_pop_run::<V, T>(r0);
            }
            right.pop().unwrap()
        };
        let ghost v = next.item@;
        down.push(next);
        proof {
            assert forall|i: int| 0 <= i < left.len() implies leq(#[trigger] left@[i].item@, v) by {
                assert(leq(l0[i].item@, l0.last().item@));
                if !take_left {
                    assert(leq(l0.last().item@, v));
                }
            }
            assert forall|i: int| 0 <= i < right.len() implies leq(
                #[trigger] right@[i].item@,
                v,
            ) by {
                assert(leq(r0[i].item@, r0.last().item@));
                if take_left {
                    assert(leq(r0.last().item@, v));
                }
            }
            assert(items::<V, T>(down@) =~= items::<V, T>(d0).push(v));
            items::<V, T>(d0).to_multiset_ensures();
            assert(items::<V, T>(d0).push(v).to_multiset() =~= items::<V, T>(
                d0,
            ).to_multiset().insert(v));
            if take_left {
                assert(left@ == l0.drop_last());
            } else {
                assert(right@ == r0.drop_last());
            }
            assert(total =~= items::<V, T>(left@).to_multiset().add(
                items::<V, T>(right@).to_multiset(),
            ).add(items::<V, T>(down@).to_multiset()));
        }
    }
    let mut out: Vec<Entry<T>> = Vec::new();
    proof {
        items::<V, T>(left@).to_multiset_ensures();
        items::<V, T>(right@).to_multiset_ensures();
        items::<V, T>(out@).to_multiset_ensures();
        assert(items::<V, T>(left@) =~= Seq::empty());
        assert(items::<V, T>(right@) =~= Seq::empty());
        assert(items::<V, T>(out@) =~= Seq::empty());
        assert(total =~= items::<V, T>(down@).to_multiset().add(
            items::<V, T>(out@).to_multiset(),
        ));
    }
    while down.len() > 0
        invariant
            leq == rank_order::<V>(),
            total_ordering(leq),
            keyed::<V, T>(down@),
            keyed::<V, T>(out@),
            sorted_by(items::<V, T>(out@), leq),
            forall|i: int, j: int|
                0 <= i < j < down.len() ==> leq(#[trigger] down@[j].item@, #[trigger] down@[i].item@),
            forall|i: int, j: int|
                0 <= i < down.len() && 0 <= j < out.len() ==> leq(
                    #[trigger] out@[j].item@,
                    #[trigger] down@[i].item@,
                ),
            total == items::<V, T>(down@).to_multiset().add(items::<V, T>(out@).to_multiset()),
            down.len() + out.len() == size,
        decreases down.len(),
    {
        let ghost d0 = down@;
        let ghost o0 = out@;
        proof {
            lemma_pop_items::<V, T>(d0);
            lemma_sorted_push(items::<V, T>(o0), d0.last().item@);
            assert forall|i: int| 0 <= i < d0.len() implies leq(
                d0.last().item@,
                #[trigger] d0[i].item@,
            ) by {
                if i < d0.len() - 1 {
                    assert(leq(d0[d0.len() - 1].item@, d0[i].item@));
                }
            }
        }
        let next: Entry<T> = down.pop().unwrap();
        let ghost v = next.item@;
        out.push(next);
        proof {
            assert(items::<V, T>(out@) =~= items::<V, T>(o0).push(v));
            items::<V, T>(o0).to_multiset_ensures();
            assert(items::<V, T>(o0).push(v).to_multiset() =~= items::<V, T>(
                o0,
            ).to_multiset().insert(v));
            assert(down@ == d0.drop_last());
            assert(total =~= items::<V, T>(down@).to_multiset().add(
                items::<V, T>(out@).to_multiset(),
            ));
        }
    }
    proof {
        items::<V, T>(down@).to_multiset_ensures();
        assert(items::<V, T>(down@) =~= Seq::empty());
        assert(total =~= items::<V, T>(out@).to_multiset());
    }
    out
}

proof fn lemma_pop_items<V: Ranked, T: Keyed<V>>(s: Seq<Entry<T>>)
    requires
        s.len() > 0,
    ensures
        items::<V, T>(s).to_multiset() == items::<V, T>(s.drop_last()).to_multiset().insert(
            s.last().item@,
        ),
        items::<V, T>(s.drop_last()) == items::<V, T>(s).drop_last(),
{
    let rest = items::<V, T>(s.drop_last());
    assert(items::<V, T>(s) =~= rest.push(s.last().item@));
    assert(rest =~= items::<V, T>(s).drop_last());
    rest.to_multiset_ensures();
    assert(rest.push(s.last().item@).to_multiset() =~= rest.to_multiset().insert(s.last().item@));
}

proof fn lemma_pop_run<V: Ranked, T: Keyed<V>>(s: Seq<Entry<T>>)
    requires
        s.len() > 0,
        keyed::<V, T>(s),
        sorted_by(items::<V, T>(s), rank_order::<V>()),
    ensures
        items::<V, T>(s).to_multiset() == items::<V, T>(s.drop_last()).to_multiset().insert(
            s.last().item@,
        ),
        sorted_by(items::<V, T>(s.drop_last()), rank_order::<V>()),
        keyed::<V, T>(s.drop_last()),
{
    lemma_pop_items::<V, T>(s);
    let leq = rank_order::<V>();
    let rest = items::<V, T>(s.drop_last());
    assert forall|i: int, j: int| 0 <= i < j < rest.len() implies #[trigger] leq(
        rest[i],
        rest[j],
    ) by {
        assert(leq(items::<V, T>(s)[i], items::<V, T>(s)[j]));
    }
}

fn sort_entries<V: Ranked, T: Keyed<V>>(entries: Vec<Entry<T>>) -> (out: Vec<Entry<T>>)
    requires
        keyed::<V, T>(entries@),
    ensures
        keyed::<V, T>(out@),
        sorted_by(items::<V, T>(out@), rank_order::<V>()),
        items::<V, T>(out@).to_multiset() == items::<V, T>(entries@).to_multiset(),
        out.len() == entries.len(),
    decreases entries.len(),
{
    if entries.len() <= 1 {
        return entries;
    }
    let ghost all = items::<V, T>(entries@);
    let mut entries: Vec<Entry<T>> = entries;
    let half: usize = entries.len() / 2;
    let right: Vec<Entry<T>> = entries.split_off(half);
    proof {
        assert(all =~= items::<V, T>(entries@) + items::<V, T>(right@));
        lemma_multiset_commutative(items::<V, T>(entries@), items::<V, T>(right@));
    }
    let low: Vec<Entry<T>> = sort_entries::<V, T>(entries);
    let high: Vec<Entry<T>> = sort_entries::<V, T>(right);
    merge::<V, T>(low, high)
}

/// Sorts values by rank.
pub fn sort_ranked<V: Ranked, T: Keyed<V>>(values: Vec<T>) -> (out: Vec<T>)
    ensures
        views(out@) == ranked_sort(views(values@)),
        out.len() == values.len(),
{
    let ghost all = views(values@);
    let ghost given = values@;
    let mut values: Vec<T> = values;
    let mut entries: Vec<Entry<T>> = Vec::new();
    proof {
        items::<V, T>(entries@).to_multiset_ensures();
        assert(items::<V, T>(entries@) =~= Seq::empty());
        assert(items::<V, T>(entries@).to_multiset().add(all.to_multiset()) =~= all.to_multiset());
    }
    while values.len() > 0
        invariant
            keyed::<V, T>(entries@),
            items::<V, T>(entries@).to_multiset().add(views(values@).to_multiset())
                == all.to_multiset(),
            entries.len() + values.len() == all.len(),
        decreases values.len(),
    {
        let ghost v0 = values@;
        let ghost e0 = entries@;
        let item: T = values.pop().unwrap();
        let key: Vec<i128> = key_of(&item);
        let ghost v = item@;
        entries.push(Entry { key, item });
        proof {
            let rest = views(values@);
            assert(views(v0) =~= rest.push(v));
            rest.to_multiset_ensures();
            assert(rest.push(v).to_multiset() =~= rest.to_multiset().insert(v));
            assert(items::<V, T>(entries@) =~= items::<V, T>(e0).push(v));
            items::<V, T>(e0).to_multiset_ensures();
            assert(items::<V, T>(e0).push(v).to_multiset() =~= items::<V, T>(
                e0,
            ).to_multiset().insert(v));
            assert(items::<V, T>(entries@).to_multiset().add(rest.to_multiset())
                =~= items::<V, T>(e0).to_multiset().add(views(v0).to_multiset()));
        }
    }
    proof {
        views(values@).to_multiset_ensures();
        assert(views(values@) =~= Seq::empty());
        assert(items::<V, T>(entries@).to_multiset() =~= all.to_multiset());
    }
    let sorted: Vec<Entry<T>> = sort_entries::<V, T>(entries);
    let ghost order = items::<V, T>(sorted@);
    proof {
        lemma_ranked_sort_unique(all, order);
    }
    let mut sorted: Vec<Entry<T>> = sorted;
    let mut down: Vec<T> = Vec::new();
    while sorted.len() > 0
        invariant
            sorted.len() + down.len() == order.len(),
            order.len() == all.len(),
            forall|i: int| 0 <= i < sorted.len() ==> #[trigger] sorted@[i].item@ == order[i],
            forall|i: int|
                0 <= i < down.len() ==> #[trigger] down@[i]@ == order[order.len() - 1 - i],
        decreases sorted.len(),
    {
        let entry: Entry<T> = sorted.pop().unwrap();
        down.push(entry.item);
    }
    let mut out: Vec<T> = Vec::new();
    while down.len() > 0
        invariant
            down.len() + out.len() == order.len(),
            forall|i: int|
                0 <= i < down.len() ==> #[trigger] down@[i]@ == order[order.len() - 1 - i],
            forall|i: int| 0 <= i < out.len() ==> #[trigger] out@[i]@ == order[i],
        decreases down.len(),
    {
        let item: T = down.pop().unwrap();
        out.push(item);
    }
    proof {
        assert(views(out@) =~= order);
    }
    out
}

} // verus!
