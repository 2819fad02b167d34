//! Text, sequences and machine integers as ranks, and text equality.

use crate::order::{ints, views, Keyed, Ranked};
use vstd::prelude::*;
use vstd::utf8::{encode_utf8, encode_utf8_decode_utf8};

verus! {

/// Bytes shifted past zero, closed by a zero.
pub open spec fn terminated(bytes: Seq<u8>) -> Seq<int> {
    Seq::new(bytes.len(), |i: int| bytes[i] + 1).push(0)
}

proof fn lemma_terminated_splits(p: Seq<u8>, q: Seq<u8>, x: Seq<int>, y: Seq<int>)
    requires
        terminated(p) + x == terminated(q) + y,
    ensures
        p == q,
        x == y,
{
    let left = terminated(p) + x;
    let right = terminated(q) + y;
    if p.len() < q.len() {
        assert(left[p.len() as int] == 0);
        assert(right[p.len() as int] == q[p.len() as int] + 1);
    } else if q.len() < p.len() {
        assert(right[q.len() as int] == 0);
        assert(left[q.len() as int] == p[q.len() as int] + 1);
    }
    assert forall|i: int| 0 <= i < p.len() implies p[i] == q[i] by {
        assert(left[i] == p[i] + 1);
        assert(right[i] == q[i] + 1);
    }
    assert(p =~= q);
    let n = terminated(p).len() as int;
    assert(x =~= left.skip(n));
    assert(y =~= right.skip(n));
}

/// Text is ordered by its UTF-8 bytes.
impl Ranked for Seq<char> {
    open spec fn rank(self) -> Seq<int> {
        terminated(encode_utf8(self))
    }

    proof fn rank_splits(a: Self, b: Self, x: Seq<int>, y: Seq<int>) {
        lemma_terminated_splits(encode_utf8(a), encode_utf8(b), x, y);
        encode_utf8_decode_utf8(a);
        encode_utf8_decode_utf8(b);
    }
}

/// Elements in turn, each led by a one, closed by a zero.
pub open spec fn seq_rank<V: Ranked>(s: Seq<V>) -> Seq<int>
    decreases s.len(),
{
    if s.len() == 0 {
        seq![0int]
    } else {
        seq![1int] + (s[0].rank() + seq_rank(s.drop_first()))
    }
}

/// A sequence can be read back from the front of a longer rank.
pub proof fn lemma_seq_rank_splits<V: Ranked>(a: Seq<V>, b: Seq<V>, x: Seq<int>, y: Seq<int>)
    requires
        seq_rank(a) + x == seq_rank(b) + y,
    ensures
        a == b,
        x == y,
    decreases a.len(),
{
    let left = seq_rank(a) + x;
    let right = seq_rank(b) + y;
    assert(left[0] == if a.len() == 0 { 0int } else { 1 });
    assert(right[0] == if b.len() == 0 { 0int } else { 1 });
    if a.len() == 0 {
        assert(a =~= b);
        assert(x =~= left.skip(1));
        assert(y =~= right.skip(1));
    } else {
        let ra = a.drop_first();
        let rb = b.drop_first();
        assert(left.skip(1) =~= a[0].rank() + (seq_rank(ra) + x));
        assert(right.skip(1) =~= b[0].rank() + (seq_rank(rb) + y));
        V::rank_splits(a[0], b[0], seq_rank(ra) + x, seq_rank(rb) + y);
        lemma_seq_rank_splits(ra, rb, x, y);
        assert(a =~= seq![a[0]] + ra);
        assert(b =~= seq![b[0]] + rb);
    }
}

/// Reads `a` and `b` off two equal ranks that start with integers.
pub proof fn lemma_int_splits(a: int, b: int, x: Seq<int>, y: Seq<int>)
    requires
        seq![a] + x == seq![b] + y,
    ensures
        a == b,
        x == y,
{
    let left = seq![a] + x;
    let right = seq![b] + y;
    assert(left[0] == a && right[0] == b);
    assert(x =~= left.skip(1));
    assert(y =~= right.skip(1));
}

impl Ranked for int {
    open spec fn rank(self) -> Seq<int> {
        seq![self]
    }

    proof fn rank_splits(a: Self, b: Self, x: Seq<int>, y: Seq<int>) {
        lemma_int_splits(a, b, x, y);
    }
}

impl Ranked for i64 {
    open spec fn rank(self) -> Seq<int> {
        seq![self as int]
    }

    proof fn rank_splits(a: Self, b: Self, x: Seq<int>, y: Seq<int>) {
        lemma_int_splits(a as int, b as int, x, y);
    }
}

impl Ranked for u64 {
    open spec fn rank(self) -> Seq<int> {
        seq![self as int]
    }

    proof fn rank_splits(a: Self, b: Self, x: Seq<int>, y: Seq<int>) {
        lemma_int_splits(a as int, b as int, x, y);
    }
}

/// An absent value comes before every present one.
impl<V: Ranked> Ranked for Option<V> {
    open spec fn rank(self) -> Seq<int> {
        match self {
            None => seq![0int],
            Some(v) => seq![1int] + v.rank(),
        }
    }

    proof fn rank_splits(a: Self, b: Self, x: Seq<int>, y: Seq<int>) {
        let left = a.rank() + x;
        let right = b.rank() + y;
        assert(left[0] == a.rank()[0] && right[0] == b.rank()[0]);
        match (a, b) {
            (Some(v), Some(w)) => {
                assert(left.skip(1) =~= v.rank() + x);
                assert(right.skip(1) =~= w.rank() + y);
                V::rank_splits(v, w, x, y);
            },
            _ => {
                assert(x =~= left.skip(1));
                assert(y =~= right.skip(1));
            },
        }
    }
}

/// Pairs order by their first part, then by their second.
impl<A: Ranked, B: Ranked> Ranked for (A, B) {
    open spec fn rank(self) -> Seq<int> {
        self.0.rank() + self.1.rank()
    }

    proof fn rank_splits(a: Self, b: Self, x: Seq<int>, y: Seq<int>) {
        assert(a.rank() + x =~= a.0.rank() + (a.1.rank() + x));
        assert(b.rank() + y =~= b.0.rank() + (b.1.rank() + y));
        A::rank_splits(a.0, b.0, a.1.rank() + x, b.1.rank() + y);
        B::rank_splits(a.1, b.1, x, y);
    }
}

impl<V: Ranked> Ranked for Seq<V> {
    open spec fn rank(self) -> Seq<int> {
        seq_rank(self)
    }

    proof fn rank_splits(a: Self, b: Self, x: Seq<int>, y: Seq<int>) {
        lemma_seq_rank_splits(a, b, x, y);
    }
}

/// Appends one integer to a key.
pub fn push_int(out: &mut Vec<i128>, value: i128)
    ensures
        ints(final(out)@) == ints(old(out)@) + seq![value as int],
{
    out.push(value);
    proof {
        assert(ints(out@) =~= ints(old(out)@) + seq![value as int]);
    }
}

/// Appends the rank of a text to a key.
pub fn push_text(out: &mut Vec<i128>, text: &str)
    ensures
        ints(final(out)@) == ints(old(out)@) + text@.rank(),
{
    let bytes: &[u8] = text.as_bytes();
    let ghost start = ints(out@);
    let mut i: usize = 0;
    proof {
        assert(start + terminated(bytes@).take(0) =~= start);
    }
    while i < bytes.len()
        invariant
            i <= bytes.len(),
            ints(out@) == start + terminated(bytes@).take(i as int),
        decreases bytes.len() - i,
    {
        push_int(out, bytes[i] as i128 + 1);
        proof {
            assert(start + terminated(bytes@).take(i + 1) =~= start + terminated(bytes@).take(
                i as int,
            ) + seq![bytes[i as int] + 1int]);
        }
        i = i + 1;
    }
    push_int(out, 0);
    proof {
        assert(start + terminated(bytes@).take(i as int) + seq![0int] =~= start + terminated(
            bytes@,
        ));
    }
}

/// Appends the rank of a sequence to a key.
pub fn push_seq<V: Ranked, T: Keyed<V>>(out: &mut Vec<i128>, values: &[T])
    ensures
        ints(final(out)@) == ints(old(out)@) + seq_rank(views(values@)),
{
    let ghost start = ints(out@);
    let ghost all = views(values@);
    let mut i: usize = 0;
    proof {
        assert(all.skip(0) =~= all);
    }
    while i < values.len()
        invariant
            i <= values.len(),
            all == views(values@),
            ints(out@) + seq_rank(all.skip(i as int)) == start + seq_rank(all),
        decreases values.len() - i,
    {
        let ghost before = ints(out@);
        push_int(out, 1);
        values[i].key_into(out);
        proof {
            let rest = all.skip(i as int);
            assert(rest.drop_first() =~= all.skip(i + 1));
            assert(rest[0] == values[i as int]@);
            assert(ints(out@) + seq_rank(all.skip(i + 1)) =~= before + seq_rank(rest));
        }
        i = i + 1;
    }
    push_int(out, 0);
    proof {
        assert(seq_rank(all.skip(i as int)) =~= seq![0int]);
    }
}

/// Whether two texts are equal.
pub fn text_eq(a: &str, b: &str) -> (r: bool)
    ensures
        r == (a@ == b@),
{
    let x: &[u8] = a.as_bytes();
    let y: &[u8] = b.as_bytes();
    proof {
        encode_utf8_decode_utf8(a@);
        encode_utf8_decode_utf8(b@);
    }
    if x.len() != y.len() {
        return false;
    }
    let mut i: usize = 0;
    while i < x.len()
        invariant
            i <= x.len(),
            x.len() == y.len(),
            x@ == encode_utf8(a@),
            y@ == encode_utf8(b@),
            forall|j: int| 0 <= j < i ==> x@[j] == y@[j],
        decreases x.len() - i,
    {
        if x[i] != y[i] {
            return false;
        }
        i = i + 1;
    }
    proof {
        assert(x@ =~= y@);
    }
    true
}

/// Whether the bytes of a text end with those of another.
pub open spec fn has_suffix(text: Seq<char>, suffix: Seq<char>) -> bool {
    let bytes = encode_utf8(text);
    let tail = encode_utf8(suffix);
    bytes.len() >= tail.len() && bytes.skip(bytes.len() - tail.len()) == tail
}

pub fn ends_with(text: &str, suffix: &str) -> (r: bool)
    ensures
        r == has_suffix(text@, suffix@),
{
    let bytes: &[u8] = text.as_bytes();
    let tail: &[u8] = suffix.as_bytes();
    if bytes.len() < tail.len() {
        return false;
    }
    let start: usize = bytes.len() - tail.len();
    let ghost end = bytes@.skip(start as int);
    let mut i: usize = 0;
    while i < tail.len()
        invariant
            i <= tail.len(),
            start == bytes.len() - tail.len(),
            end == bytes@.skip(start as int),
            bytes@ == encode_utf8(text@),
            tail@ == encode_utf8(suffix@),
            forall|j: int| 0 <= j < i ==> end[j] == tail@[j],
        decreases tail.len() - i,
    {
        if bytes[start + i] != tail[i] {
            assert(end[i as int] != tail@[i as int]);
            return false;
        }
        i = i + 1;
    }
    proof {
        assert(end =~= tail@);
    }
    true
}

/// Number of UTF-8 bytes of a text.
pub fn byte_len(text: &str) -> (r: u64)
    ensures
        r == encode_utf8(text@).len(),
{
    text.as_bytes().len() as u64
}

/// The views of a concatenation.
pub proof fn lemma_views_push<T: View>(s: Seq<T>, v: T)
    ensures
        views(s.push(v)) == views(s).push(v@),
{
    assert(views(s.push(v)) =~= views(s).push(v@));
}

/// A text that lives as long as the program.
#[derive(Clone, Copy)]
pub struct StaticText {
    pub text: &'static str,
}

impl View for StaticText {
    type V = Seq<char>;

    open spec fn view(&self) -> Seq<char> {
        self.text@
    }
}

impl Keyed<Seq<char>> for StaticText {
    fn key_into(&self, out: &mut Vec<i128>) {
        push_text(out, self.text);
    }
}

} // verus!
