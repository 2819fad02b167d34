//! Series identity, the canonical episode key, and its byte encoding.

use crate::float64::Float64;
use crate::order::{
    compare, ints, lemma_ranked_sort_order_free, lex_rank, ranked_sort, sort_ranked, views, Keyed,
    Rank, Ranked,
};
use crate::text::{
    lemma_int_splits, lemma_seq_rank_splits, push_int, push_seq, push_text, seq_rank, text_eq,
};
use vstd::arithmetic::div_mod::lemma_div_denominator;
use vstd::prelude::*;
use vstd::utf8::{encode_utf8, encode_utf8_decode_utf8};

verus! {

/// Encoding version of [`IncidentKeyV1`].
pub const KEY_VERSION: u8 = 1;

/// One column value as the reader delivers it.
#[derive(Debug, PartialEq)]
pub enum Value {
    Null,
    I64(i64),
    U64(u64),
    Bool(bool),
    F64(Float64),
    Ts(i64),
    Str(String),
    Blob(Vec<u8>),
    List(Vec<i64>),
}

/// A scalar allowed in a series identity.
#[derive(Debug, PartialEq, Eq, PartialOrd, Ord, Hash)]
pub enum IdentityValue {
    I64(i64),
    U64(u64),
    Bool(bool),
    Text(String),
}

/// The mathematical value of an identity scalar.
#[verifier::ext_equal]
pub enum IdentityView {
    I64(i64),
    U64(u64),
    Bool(bool),
    Text(Seq<char>),
}

impl View for IdentityValue {
    type V = IdentityView;

    open spec fn view(&self) -> IdentityView {
        match self {
            IdentityValue::I64(v) => IdentityView::I64(*v),
            IdentityValue::U64(v) => IdentityView::U64(*v),
            IdentityValue::Bool(v) => IdentityView::Bool(*v),
            IdentityValue::Text(v) => IdentityView::Text(v@),
        }
    }
}

impl Clone for IdentityValue {
    fn clone(&self) -> (r: Self)
        ensures
            r@ == self@,
    {
        match self {
            IdentityValue::I64(v) => IdentityValue::I64(*v),
            IdentityValue::U64(v) => IdentityValue::U64(*v),
            IdentityValue::Bool(v) => IdentityValue::Bool(*v),
            IdentityValue::Text(v) => IdentityValue::Text(v.clone()),
        }
    }
}

/// Clones an identity.
pub fn clone_identity(identity: &Vec<IdentityValue>) -> (r: Vec<IdentityValue>)
    ensures
        views(r@) == views(identity@),
{
    let r: Vec<IdentityValue> = identity.clone();
    proof {
        assert forall|i: int| 0 <= i < r.len() implies #[trigger] r@[i]@ == identity@[i]@ by {
            assert(cloned(identity@[i], r@[i]));
        }
        assert(views(r@) =~= views(identity@));
    }
    r
}

/// Identity scalars order by variant, then by value.
impl Ranked for IdentityView {
    open spec fn rank(self) -> Seq<int> {
        match self {
            IdentityView::I64(v) => seq![0int] + seq![v as int],
            IdentityView::U64(v) => seq![1int] + seq![v as int],
            IdentityView::Bool(v) => seq![2int] + seq![if v { 1int } else { 0 }],
            IdentityView::Text(v) => seq![3int] + v.rank(),
        }
    }

    proof fn rank_splits(a: Self, b: Self, x: Seq<int>, y: Seq<int>) {
        let left = a.rank() + x;
        let right = b.rank() + y;
        assert(left[0] == a.rank()[0] && right[0] == b.rank()[0]);
        if a is Text {
            assert(b is Text);
            assert(left.skip(1) =~= a->Text_0.rank() + x);
            assert(right.skip(1) =~= b->Text_0.rank() + y);
            <Seq<char>>::rank_splits(a->Text_0, b->Text_0, x, y);
        } else {
            assert(b !is Text);
            assert(left[1] == a.rank()[1] && right[1] == b.rank()[1]);
            assert(x =~= left.skip(2));
            assert(y =~= right.skip(2));
        }
    }
}

impl Keyed<IdentityView> for IdentityValue {
    fn key_into(&self, out: &mut Vec<i128>) {
        let ghost start = ints(out@);
        match self {
            IdentityValue::I64(v) => {
                push_int(out, 0);
                push_int(out, *v as i128);
            },
            IdentityValue::U64(v) => {
                push_int(out, 1);
                push_int(out, *v as i128);
            },
            IdentityValue::Bool(v) => {
                push_int(out, 2);
                push_int(
                    out,
                    if *v {
                        1
                    } else {
                        0
                    },
                );
            },
            IdentityValue::Text(v) => {
                push_int(out, 3);
                push_text(out, v.as_str());
            },
        }
        proof {
            assert(ints(out@) =~= start + self@.rank());
        }
    }
}

/// Why a reader value cannot stand in an incident identity.
#[derive(Debug, Clone, Copy, PartialEq, Eq, Structural)]
pub enum IdentityReject {
    /// The entity cannot be named.
    NullOrUnresolved,
    /// A float, timestamp, blob or list.
    NonScalar,
}

impl IdentityValue {
    /// Converts one reader value, rejecting anything that is not an identity
    /// scalar.
    pub fn from_value(value: &Value) -> (r: Result<Self, IdentityReject>)
        ensures
            match value {
                Value::Null => r == Err::<Self, _>(IdentityReject::NullOrUnresolved),
                Value::I64(v) => r is Ok && r->Ok_0@ == IdentityView::I64(*v),
                Value::U64(v) => r is Ok && r->Ok_0@ == IdentityView::U64(*v),
                Value::Bool(v) => r is Ok && r->Ok_0@ == IdentityView::Bool(*v),
                Value::Str(v) => r is Ok && r->Ok_0@ == IdentityView::Text(v@),
                _ => r == Err::<Self, _>(IdentityReject::NonScalar),
            },
    {
        match value {
            Value::Null => Err(IdentityReject::NullOrUnresolved),
            Value::I64(v) => Ok(IdentityValue::I64(*v)),
            Value::U64(v) => Ok(IdentityValue::U64(*v)),
            Value::Bool(v) => Ok(IdentityValue::Bool(*v)),
            Value::Str(v) => Ok(IdentityValue::Text(v.clone())),
            _ => Err(IdentityReject::NonScalar),
        }
    }

    /// Whether two scalars are equal.
    pub fn same(&self, other: &Self) -> (r: bool)
        ensures
            r == (self@ == other@),
    {
        match (self, other) {
            (IdentityValue::I64(a), IdentityValue::I64(b)) => *a == *b,
            (IdentityValue::U64(a), IdentityValue::U64(b)) => *a == *b,
            (IdentityValue::Bool(a), IdentityValue::Bool(b)) => *a == *b,
            (IdentityValue::Text(a), IdentityValue::Text(b)) => text_eq(
                a.as_str(),
                b.as_str(),
            ),
            _ => false,
        }
    }

    /// Compares two scalars.
    pub fn order(&self, other: &Self) -> (r: Rank)
        ensures
            r == lex_rank(self@.rank(), other@.rank()),
    {
        compare(self, other)
    }

    /// Appends the tagged encoding of this scalar.
    pub fn encode(&self, out: &mut Vec<u8>)
        ensures
            final(out)@ == old(out)@ + encoded_scalar(self@),
    {
        let ghost start = out@;
        match self {
            IdentityValue::I64(v) => {
                out.push(0x01);
                push_be(out, twos_complement(*v));
            },
            IdentityValue::U64(v) => {
                out.push(0x02);
                push_be(out, *v);
            },
            IdentityValue::Bool(v) => {
                out.push(0x03);
                out.push(
                    if *v {
                        1
                    } else {
                        0
                    },
                );
            },
            IdentityValue::Text(v) => {
                out.push(0x04);
                encode_bytes(out, v.as_str().as_bytes());
            },
        }
        proof {
            assert(out@ =~= start + encoded_scalar(self@));
        }
    }
}

/// Whether two identities are equal.
pub fn same_identity(a: &[IdentityValue], b: &[IdentityValue]) -> (r: bool)
    ensures
        r == (views(a@) == views(b@)),
{
    if a.len() != b.len() {
        proof {
            assert(views(a@).len() != views(b@).len());
        }
        return false;
    }
    let mut i: usize = 0;
    while i < a.len()
        invariant
            i <= a.len(),
            a.len() == b.len(),
            forall|j: int| 0 <= j < i ==> #[trigger] a@[j]@ == b@[j]@,
        decreases a.len() - i,
    {
        if !a[i].same(&b[i]) {
            proof {
                assert(views(a@)[i as int] != views(b@)[i as int]);
            }
            return false;
        }
        i = i + 1;
    }
    proof {
        assert(views(a@) =~= views(b@));
    }
    true
}

// Byte encoding.

/// The eight bytes of an integer below `2^64`, most significant first.
#[verifier::opaque]
pub open spec fn be(value: nat) -> Seq<u8> {
    seq![
        ((value / 0x100_0000_0000_0000) % 256) as u8,
        ((value / 0x1_0000_0000_0000) % 256) as u8,
        ((value / 0x100_0000_0000) % 256) as u8,
        ((value / 0x1_0000_0000) % 256) as u8,
        ((value / 0x100_0000) % 256) as u8,
        ((value / 0x1_0000) % 256) as u8,
        ((value / 0x100) % 256) as u8,
        (value % 256) as u8,
    ]
}

/// A signed integer modulo `2^64`.
pub open spec fn wrapped(value: i64) -> nat {
    if value < 0 {
        (value + 0x1_0000_0000_0000_0000) as nat
    } else {
        value as nat
    }
}

pub(crate) fn twos_complement(value: i64) -> (r: u64)
    ensures
        r == wrapped(value),
{
    if value < 0 {
        (value as i128 + 0x1_0000_0000_0000_0000) as u64
    } else {
        value as u64
    }
}

pub(crate) fn push_be(out: &mut Vec<u8>, value: u64)
    ensures
        final(out)@ == old(out)@ + be(value as nat),
{
    let ghost start = out@;
    out.push(((value / 0x100_0000_0000_0000) % 256) as u8);
    out.push(((value / 0x1_0000_0000_0000) % 256) as u8);
    out.push(((value / 0x100_0000_0000) % 256) as u8);
    out.push(((value / 0x1_0000_0000) % 256) as u8);
    out.push(((value / 0x100_0000) % 256) as u8);
    out.push(((value / 0x1_0000) % 256) as u8);
    out.push(((value / 0x100) % 256) as u8);
    out.push((value % 256) as u8);
    proof {
        reveal(be);
        assert(out@ =~= start + be(value as nat));
    }
}

/// A length followed by that many bytes.
pub open spec fn delimited(bytes: Seq<u8>) -> Seq<u8> {
    be(bytes.len()) + bytes
}

pub open spec fn encoded_scalar(value: IdentityView) -> Seq<u8> {
    match value {
        IdentityView::I64(v) => seq![0x01u8] + be(wrapped(v)),
        IdentityView::U64(v) => seq![0x02u8] + be(v as nat),
        IdentityView::Bool(v) => seq![0x03u8] + seq![if v { 1u8 } else { 0 }],
        IdentityView::Text(v) => seq![0x04u8] + delimited(encode_utf8(v)),
    }
}

/// The scalars of an identity one after another.
pub open spec fn encoded_scalars(identity: Seq<IdentityView>) -> Seq<u8>
    decreases identity.len(),
{
    if identity.len() == 0 {
        Seq::empty()
    } else {
        encoded_scalar(identity[0]) + encoded_scalars(identity.drop_first())
    }
}

/// Appends a length followed by the bytes.
pub fn encode_bytes(out: &mut Vec<u8>, bytes: &[u8])
    ensures
        final(out)@ == old(out)@ + delimited(bytes@),
{
    let ghost start = out@;
    push_be(out, bytes.len() as u64);
    out.extend_from_slice(bytes);
    proof {
        assert(out@ =~= start + delimited(bytes@));
    }
}

/// How strongly one episode deviates.
#[derive(Debug, Clone, Copy, PartialEq, Eq, Structural)]
pub enum Direction {
    Up,
    Down,
    Flat,
}

/// The robust score of an episode's peak.
#[derive(Debug, Clone, Copy, PartialEq, Eq, Structural)]
pub struct Evaluated {
    pub m: Float64,
    pub dir: Direction,
    pub med_cur: Float64,
    pub med_ref: Float64,
    pub mad_ref: Float64,
    pub sigma_used: Float64,
    pub n_cur: usize,
    pub n_ref: usize,
}

/// A scored anomaly episode of one series.
#[derive(Debug, Clone, Copy, PartialEq, Eq, Structural)]
pub struct Episode {
    pub start: i64,
    pub end: i64,
    pub peak_ts: i64,
    pub peak: Evaluated,
}

/// A scored anomaly episode and the identity of its series.
pub struct EnrichedEpisode {
    pub episode: Episode,
    pub reference: EpisodeRefV1,
}

/// Stable reference to one series' anomaly episode.
#[derive(Debug, PartialEq, Eq, PartialOrd, Ord)]
pub struct EpisodeRefV1 {
    pub start_us: i64,
    pub end_us: i64,
    pub logical_section: &'static str,
    pub column: &'static str,
    pub identity: Vec<IdentityValue>,
}

/// The mathematical value of an episode reference.
#[verifier::ext_equal]
pub struct EpisodeView {
    pub start_us: i64,
    pub end_us: i64,
    pub logical_section: Seq<char>,
    pub column: Seq<char>,
    pub identity: Seq<IdentityView>,
}

impl View for EpisodeRefV1 {
    type V = EpisodeView;

    open spec fn view(&self) -> EpisodeView {
        EpisodeView {
            start_us: self.start_us,
            end_us: self.end_us,
            logical_section: self.logical_section@,
            column: self.column@,
            identity: views(self.identity@),
        }
    }
}

impl Clone for EpisodeRefV1 {
    fn clone(&self) -> (r: Self)
        ensures
            r@ == self@,
    {
        EpisodeRefV1 {
            start_us: self.start_us,
            end_us: self.end_us,
            logical_section: self.logical_section,
            column: self.column,
            identity: clone_identity(&self.identity),
        }
    }
}

/// References order by interval, section, column and identity.
impl Ranked for EpisodeView {
    open spec fn rank(self) -> Seq<int> {
        seq![self.start_us as int] + (seq![self.end_us as int] + (self.logical_section.rank() + (
        self.column.rank() + seq_rank(self.identity))))
    }

    proof fn rank_splits(a: Self, b: Self, x: Seq<int>, y: Seq<int>) {
        let a4 = seq_rank(a.identity);
        let b4 = seq_rank(b.identity);
        let a3 = a.column.rank() + a4;
        let b3 = b.column.rank() + b4;
        let a2 = a.logical_section.rank() + a3;
        let b2 = b.logical_section.rank() + b3;
        let a1 = seq![a.end_us as int] + a2;
        let b1 = seq![b.end_us as int] + b2;
        assert(a.rank() + x =~= seq![a.start_us as int] + (a1 + x));
        assert(b.rank() + y =~= seq![b.start_us as int] + (b1 + y));
        lemma_int_splits(a.start_us as int, b.start_us as int, a1 + x, b1 + y);
        assert(a1 + x =~= seq![a.end_us as int] + (a2 + x));
        assert(b1 + y =~= seq![b.end_us as int] + (b2 + y));
        lemma_int_splits(a.end_us as int, b.end_us as int, a2 + x, b2 + y);
        assert(a2 + x =~= a.logical_section.rank() + (a3 + x));
        assert(b2 + y =~= b.logical_section.rank() + (b3 + y));
        <Seq<char>>::rank_splits(a.logical_section, b.logical_section, a3 + x, b3 + y);
        assert(a3 + x =~= a.column.rank() + (a4 + x));
        assert(b3 + y =~= b.column.rank() + (b4 + y));
        <Seq<char>>::rank_splits(a.column, b.column, a4 + x, b4 + y);
        lemma_seq_rank_splits(a.identity, b.identity, x, y);
    }
}

impl Keyed<EpisodeView> for EpisodeRefV1 {
    fn key_into(&self, out: &mut Vec<i128>) {
        let ghost start = ints(out@);
        push_int(out, self.start_us as i128);
        push_int(out, self.end_us as i128);
        push_text(out, self.logical_section);
        push_text(out, self.column);
        push_seq(out, self.identity.as_slice());
        proof {
            assert(ints(out@) =~= start + self@.rank());
        }
    }
}

pub open spec fn encoded_reference(value: EpisodeView) -> Seq<u8> {
    delimited(encode_utf8(value.logical_section)) + (delimited(encode_utf8(value.column)) + (be(
        value.identity.len(),
    ) + (encoded_scalars(value.identity) + (be(wrapped(value.start_us)) + be(
        wrapped(value.end_us),
    )))))
}

/// References one after another.
pub open spec fn encoded_references(members: Seq<EpisodeView>) -> Seq<u8>
    decreases members.len(),
{
    if members.len() == 0 {
        Seq::empty()
    } else {
        encoded_reference(members[0]) + encoded_references(members.drop_first())
    }
}

impl EpisodeRefV1 {
    /// Appends the canonical encoding of this reference.
    pub fn encode(&self, out: &mut Vec<u8>)
        ensures
            final(out)@ == old(out)@ + encoded_reference(self@),
    {
        let ghost start = out@;
        encode_bytes(out, self.logical_section.as_bytes());
        encode_bytes(out, self.column.as_bytes());
        push_be(out, self.identity.len() as u64);
        let ghost head = out@;
        let ghost all = views(self.identity@);
        let mut i: usize = 0;
        proof {
            assert(all.skip(0) =~= all);
        }
        while i < self.identity.len()
            invariant
                i <= self.identity.len(),
                all == views(self.identity@),
                out@ + encoded_scalars(all.skip(i as int)) == head + encoded_scalars(all),
            decreases self.identity.len() - i,
        {
            let ghost before = out@;
            self.identity[i].encode(out);
            proof {
                let rest = all.skip(i as int);
                assert(rest.drop_first() =~= all.skip(i + 1));
                assert(out@ + encoded_scalars(all.skip(i + 1)) =~= before + encoded_scalars(rest));
            }
            i = i + 1;
        }
        proof {
            assert(all.skip(i as int) =~= Seq::empty());
            assert(out@ + Seq::<u8>::empty() =~= out@);
        }
        push_be(out, twos_complement(self.start_us));
        push_be(out, twos_complement(self.end_us));
        proof {
            assert(out@ =~= start + encoded_reference(self@));
        }
    }

    /// The parts that order references before their identities do.
    pub fn order_key(&self) -> (r: (i64, i64, &'static str, &'static str))
        ensures
            r.0 == self.start_us,
            r.1 == self.end_us,
            r.2@ == self.logical_section@,
            r.3@ == self.column@,
    {
        (self.start_us, self.end_us, self.logical_section, self.column)
    }

    /// Compares two references.
    pub fn order(&self, other: &Self) -> (r: Rank)
        ensures
            r == lex_rank(self@.rank(), other@.rank()),
    {
        compare(self, other)
    }
}

/// Clones a list of references.
pub fn clone_references(members: &Vec<EpisodeRefV1>) -> (r: Vec<EpisodeRefV1>)
    ensures
        views(r@) == views(members@),
{
    let r: Vec<EpisodeRefV1> = members.clone();
    proof {
        assert forall|i: int| 0 <= i < r.len() implies #[trigger] r@[i]@ == members@[i]@ by {
            assert(cloned(members@[i], r@[i]));
        }
        assert(views(r@) =~= views(members@));
    }
    r
}

/// Identity of one incident.
pub struct IncidentKeyV1 {
    node_self_id: String,
    start_us: i64,
    end_us: i64,
    members: Vec<EpisodeRefV1>,
}

/// The mathematical value of an incident key.
#[verifier::ext_equal]
pub struct KeyView {
    pub node_self_id: Seq<char>,
    pub start_us: i64,
    pub end_us: i64,
    pub members: Seq<EpisodeView>,
}

impl View for IncidentKeyV1 {
    type V = KeyView;

    closed spec fn view(&self) -> KeyView {
        KeyView {
            node_self_id: self.node_self_id@,
            start_us: self.start_us,
            end_us: self.end_us,
            members: views(self.members@),
        }
    }
}

impl KeyView {
    /// The version-tagged, length-delimited encoding.
    pub open spec fn encoded(self) -> Seq<u8> {
        seq![KEY_VERSION] + (delimited(encode_utf8(self.node_self_id)) + (be(wrapped(self.start_us))
            + (be(wrapped(self.end_us)) + (be(self.members.len()) + encoded_references(
            self.members,
        )))))
    }

    /// Whether every length in the encoding fits its prefix.
    pub open spec fn lengths_fit(self) -> bool {
        &&& encode_utf8(self.node_self_id).len() <= u64::MAX
        &&& self.members.len() <= u64::MAX
        &&& forall|i: int| 0 <= i < self.members.len() ==> #[trigger] reference_fits(self.members[i])
    }
}

pub open spec fn reference_fits(value: EpisodeView) -> bool {
    &&& encode_utf8(value.logical_section).len() <= u64::MAX
    &&& encode_utf8(value.column).len() <= u64::MAX
    &&& value.identity.len() <= u64::MAX
    &&& forall|i: int| 0 <= i < value.identity.len() ==> #[trigger] scalar_fits(value.identity[i])
}

pub open spec fn scalar_fits(value: IdentityView) -> bool {
    value matches IdentityView::Text(text) ==> encode_utf8(text).len() <= u64::MAX
}

/// A key whose encoding exceeds its limit.
#[derive(Debug, Clone, Copy, PartialEq, Eq, Structural)]
pub struct KeyTooLarge {
    pub observed: usize,
    pub limit: usize,
}

impl IncidentKeyV1 {
    /// Builds a key with its members in canonical order.
    pub fn new(
        node_self_id: String,
        start_us: i64,
        end_us: i64,
        members: Vec<EpisodeRefV1>,
    ) -> (r: Self)
        ensures
            r@ == (KeyView {
                node_self_id: node_self_id@,
                start_us,
                end_us,
                members: ranked_sort(views(members@)),
            }),
    {
        let members: Vec<EpisodeRefV1> = sort_ranked(members);
        IncidentKeyV1 { node_self_id, start_us, end_us, members }
    }

    /// Builds a key and rejects one whose encoding exceeds `max_key_bytes`.
    pub fn bounded(
        node_self_id: &str,
        start_us: i64,
        end_us: i64,
        members: &Vec<EpisodeRefV1>,
        max_key_bytes: usize,
    ) -> (r: Result<Self, KeyTooLarge>)
        ensures
            ({
                let key = KeyView {
                    node_self_id: node_self_id@,
                    start_us,
                    end_us,
                    members: ranked_sort(views(members@)),
                };
                let size = key.encoded().len();
                match r {
                    Ok(built) => size <= max_key_bytes && built@ == key,
                    Err(error) => size > max_key_bytes && error == (KeyTooLarge {
                        observed: size as usize,
                        limit: max_key_bytes,
                    }),
                }
            }),
    {
        let key = IncidentKeyV1::new(
            node_self_id.to_owned(),
            start_us,
            end_us,
            clone_references(members),
        );
        let observed: usize = key.canonical_bytes().len();
        if observed > max_key_bytes {
            Err(KeyTooLarge { observed, limit: max_key_bytes })
        } else {
            Ok(key)
        }
    }

    /// The version-tagged, length-delimited byte encoding of this key.
    pub fn canonical_bytes(&self) -> (out: Vec<u8>)
        ensures
            out@ == self@.encoded(),
    {
        let mut out: Vec<u8> = Vec::new();
        out.push(KEY_VERSION);
        encode_bytes(&mut out, self.node_self_id.as_str().as_bytes());
        push_be(&mut out, twos_complement(self.start_us));
        push_be(&mut out, twos_complement(self.end_us));
        push_be(&mut out, self.members.len() as u64);
        let ghost head = out@;
        let ghost all = views(self.members@);
        let mut i: usize = 0;
        proof {
            assert(all.skip(0) =~= all);
        }
        while i < self.members.len()
            invariant
                i <= self.members.len(),
                all == views(self.members@),
                out@ + encoded_references(all.skip(i as int)) == head + encoded_references(all),
            decreases self.members.len() - i,
        {
            let ghost before = out@;
            self.members[i].encode(&mut out);
            proof {
                let rest = all.skip(i as int);
                assert(rest.drop_first() =~= all.skip(i + 1));
                assert(out@ + encoded_references(all.skip(i + 1)) =~= before + encoded_references(
                    rest,
                ));
            }
            i = i + 1;
        }
        proof {
            assert(all.skip(i as int) =~= Seq::empty());
            assert(out@ + Seq::<u8>::empty() =~= out@);
            assert(out@ =~= self@.encoded());
        }
        out
    }
}

// Laws of the encoding.

proof fn lemma_be_injective(a: nat, b: nat)
    requires
        a <= u64::MAX,
        b <= u64::MAX,
        be(a) == be(b),
    ensures
        a == b,
{
    lemma_be_value(a);
    lemma_be_value(b);
}

/// The value that eight bytes stand for.
spec fn be_value(s: Seq<u8>) -> int {
    ((((((s[0] * 256 + s[1]) * 256 + s[2]) * 256 + s[3]) * 256 + s[4]) * 256 + s[5]) * 256 + s[6])
        * 256 + s[7]
}

proof fn lemma_be_value(a: nat)
    requires
        a <= u64::MAX,
    ensures
        be_value(be(a)) == a,
        be(a).len() == 8,
{
    reveal(be);
    let v = a as int;
    lemma_div_denominator(v, 0x100, 256);
    lemma_div_denominator(v, 0x1_0000, 256);
    lemma_div_denominator(v, 0x100_0000, 256);
    lemma_div_denominator(v, 0x1_0000_0000, 256);
    lemma_div_denominator(v, 0x100_0000_0000, 256);
    lemma_div_denominator(v, 0x1_0000_0000_0000, 256);
    let q1 = v / 0x100;
    let q2 = v / 0x1_0000;
    let q3 = v / 0x100_0000;
    let q4 = v / 0x1_0000_0000;
    let q5 = v / 0x100_0000_0000;
    let q6 = v / 0x1_0000_0000_0000;
    let q7 = v / 0x100_0000_0000_0000;
    assert(q7 < 256);
    assert(q6 == q7 * 256 + q6 % 256);
    assert(q5 == q6 * 256 + q5 % 256);
    assert(q4 == q5 * 256 + q4 % 256);
    assert(q3 == q4 * 256 + q3 % 256);
    assert(q2 == q3 * 256 + q2 % 256);
    assert(q1 == q2 * 256 + q1 % 256);
    assert(v == q1 * 256 + v % 256);
}

proof fn lemma_be_splits(a: nat, b: nat, x: Seq<u8>, y: Seq<u8>)
    requires
        a <= u64::MAX,
        b <= u64::MAX,
        be(a) + x == be(b) + y,
    ensures
        a == b,
        x == y,
{
    let left = be(a) + x;
    let right = be(b) + y;
    lemma_be_value(a);
    lemma_be_value(b);
    assert(be(a) =~= left.take(8));
    assert(be(b) =~= right.take(8));
    assert(x =~= left.skip(8));
    assert(y =~= right.skip(8));
    lemma_be_injective(a, b);
}

proof fn lemma_delimited_splits(p: Seq<u8>, q: Seq<u8>, x: Seq<u8>, y: Seq<u8>)
    requires
        p.len() <= u64::MAX,
        q.len() <= u64::MAX,
        delimited(p) + x == delimited(q) + y,
    ensures
        p == q,
        x == y,
{
    assert(delimited(p) + x =~= be(p.len()) + (p + x));
    assert(delimited(q) + y =~= be(q.len()) + (q + y));
    lemma_be_splits(p.len(), q.len(), p + x, q + y);
    assert(p =~= (p + x).take(p.len() as int));
    assert(q =~= (q + y).take(p.len() as int));
    assert(x =~= (p + x).skip(p.len() as int));
    assert(y =~= (q + y).skip(p.len() as int));
}

proof fn lemma_text_splits(p: Seq<char>, q: Seq<char>, x: Seq<u8>, y: Seq<u8>)
    requires
        encode_utf8(p).len() <= u64::MAX,
        encode_utf8(q).len() <= u64::MAX,
        delimited(encode_utf8(p)) + x == delimited(encode_utf8(q)) + y,
    ensures
        p == q,
        x == y,
{
    lemma_delimited_splits(encode_utf8(p), encode_utf8(q), x, y);
    encode_utf8_decode_utf8(p);
    encode_utf8_decode_utf8(q);
}

proof fn lemma_scalar_splits(a: IdentityView, b: IdentityView, x: Seq<u8>, y: Seq<u8>)
    requires
        scalar_fits(a),
        scalar_fits(b),
        encoded_scalar(a) + x == encoded_scalar(b) + y,
    ensures
        a == b,
        x == y,
{
    let left = encoded_scalar(a) + x;
    let right = encoded_scalar(b) + y;
    assert(left[0] == encoded_scalar(a)[0] && right[0] == encoded_scalar(b)[0]);
    match a {
        IdentityView::I64(v) => {
            assert(left.skip(1) =~= be(wrapped(v)) + x);
            assert(right.skip(1) =~= be(wrapped(b->I64_0)) + y);
            lemma_be_splits(wrapped(v), wrapped(b->I64_0), x, y);
        },
        IdentityView::U64(v) => {
            assert(left.skip(1) =~= be(v as nat) + x);
            assert(right.skip(1) =~= be(b->U64_0 as nat) + y);
            lemma_be_splits(v as nat, b->U64_0 as nat, x, y);
        },
        IdentityView::Bool(v) => {
            assert(left[1] == encoded_scalar(a)[1] && right[1] == encoded_scalar(b)[1]);
            assert(x =~= left.skip(2));
            assert(y =~= right.skip(2));
        },
        IdentityView::Text(v) => {
            assert(left.skip(1) =~= delimited(encode_utf8(v)) + x);
            assert(right.skip(1) =~= delimited(encode_utf8(b->Text_0)) + y);
            lemma_text_splits(v, b->Text_0, x, y);
        },
    }
}

proof fn lemma_scalars_split(a: Seq<IdentityView>, b: Seq<IdentityView>, x: Seq<u8>, y: Seq<u8>)
    requires
        a.len() == b.len(),
        forall|i: int| 0 <= i < a.len() ==> #[trigger] scalar_fits(a[i]),
        forall|i: int| 0 <= i < b.len() ==> #[trigger] scalar_fits(b[i]),
        encoded_scalars(a) + x == encoded_scalars(b) + y,
    ensures
        a == b,
        x == y,
    decreases a.len(),
{
    if a.len() == 0 {
        assert(a =~= b);
        assert(encoded_scalars(a) + x =~= x);
        assert(encoded_scalars(b) + y =~= y);
    } else {
        let ra = a.drop_first();
        let rb = b.drop_first();
        assert(encoded_scalars(a) + x =~= encoded_scalar(a[0]) + (encoded_scalars(ra) + x));
        assert(encoded_scalars(b) + y =~= encoded_scalar(b[0]) + (encoded_scalars(rb) + y));
        lemma_scalar_splits(a[0], b[0], encoded_scalars(ra) + x, encoded_scalars(rb) + y);
        assert forall|i: int| 0 <= i < ra.len() implies #[trigger] scalar_fits(ra[i]) by {
            assert(scalar_fits(a[i + 1]));
        }
        assert forall|i: int| 0 <= i < rb.len() implies #[trigger] scalar_fits(rb[i]) by {
            assert(scalar_fits(b[i + 1]));
        }
        lemma_scalars_split(ra, rb, x, y);
        assert(a =~= seq![a[0]] + ra);
        assert(b =~= seq![b[0]] + rb);
    }
}

proof fn lemma_reference_splits(a: EpisodeView, b: EpisodeView, x: Seq<u8>, y: Seq<u8>)
    requires
        reference_fits(a),
        reference_fits(b),
        encoded_reference(a) + x == encoded_reference(b) + y,
    ensures
        a == b,
        x == y,
{
    let a5 = be(wrapped(a.end_us));
    let b5 = be(wrapped(b.end_us));
    let a4 = be(wrapped(a.start_us)) + a5;
    let b4 = be(wrapped(b.start_us)) + b5;
    let a3 = encoded_scalars(a.identity) + a4;
    let b3 = encoded_scalars(b.identity) + b4;
    let a2 = be(a.identity.len()) + a3;
    let b2 = be(b.identity.len()) + b3;
    let a1 = delimited(encode_utf8(a.column)) + a2;
    let b1 = delimited(encode_utf8(b.column)) + b2;
    assert(encoded_reference(a) + x =~= delimited(encode_utf8(a.logical_section)) + (a1 + x));
    assert(encoded_reference(b) + y =~= delimited(encode_utf8(b.logical_section)) + (b1 + y));
    lemma_text_splits(a.logical_section, b.logical_section, a1 + x, b1 + y);
    assert(a1 + x =~= delimited(encode_utf8(a.column)) + (a2 + x));
    assert(b1 + y =~= delimited(encode_utf8(b.column)) + (b2 + y));
    lemma_text_splits(a.column, b.column, a2 + x, b2 + y);
    assert(a2 + x =~= be(a.identity.len()) + (a3 + x));
    assert(b2 + y =~= be(b.identity.len()) + (b3 + y));
    lemma_be_splits(a.identity.len(), b.identity.len(), a3 + x, b3 + y);
    assert(a3 + x =~= encoded_scalars(a.identity) + (a4 + x));
    assert(b3 + y =~= encoded_scalars(b.identity) + (b4 + y));
    lemma_scalars_split(a.identity, b.identity, a4 + x, b4 + y);
    assert(a4 + x =~= be(wrapped(a.start_us)) + (a5 + x));
    assert(b4 + y =~= be(wrapped(b.start_us)) + (b5 + y));
    lemma_be_splits(wrapped(a.start_us), wrapped(b.start_us), a5 + x, b5 + y);
    lemma_be_splits(wrapped(a.end_us), wrapped(b.end_us), x, y);
}

proof fn lemma_references_split(a: Seq<EpisodeView>, b: Seq<EpisodeView>)
    requires
        a.len() == b.len(),
        forall|i: int| 0 <= i < a.len() ==> #[trigger] reference_fits(a[i]),
        forall|i: int| 0 <= i < b.len() ==> #[trigger] reference_fits(b[i]),
        encoded_references(a) == encoded_references(b),
    ensures
        a == b,
    decreases a.len(),
{
    if a.len() == 0 {
        assert(a =~= b);
    } else {
        let ra = a.drop_first();
        let rb = b.drop_first();
        lemma_reference_splits(a[0], b[0], encoded_references(ra), encoded_references(rb));
        assert forall|i: int| 0 <= i < ra.len() implies #[trigger] reference_fits(ra[i]) by {
            assert(reference_fits(a[i + 1]));
        }
        assert forall|i: int| 0 <= i < rb.len() implies #[trigger] reference_fits(rb[i]) by {
            assert(reference_fits(b[i + 1]));
        }
        lemma_references_split(ra, rb);
        assert(a =~= seq![a[0]] + ra);
        assert(b =~= seq![b[0]] + rb);
    }
}

/// Keys with equal encodings are equal: node, interval and every member take
/// part, and no boundary between texts is lost.
pub proof fn law_key_encoding_is_injective(a: KeyView, b: KeyView)
    requires
        a.lengths_fit(),
        b.lengths_fit(),
        a.encoded() == b.encoded(),
    ensures
        a == b,
{
    let a4 = encoded_references(a.members);
    let b4 = encoded_references(b.members);
    let a3 = be(a.members.len()) + a4;
    let b3 = be(b.members.len()) + b4;
    let a2 = be(wrapped(a.end_us)) + a3;
    let b2 = be(wrapped(b.end_us)) + b3;
    let a1 = be(wrapped(a.start_us)) + a2;
    let b1 = be(wrapped(b.start_us)) + b2;
    assert(a.encoded().skip(1) =~= delimited(encode_utf8(a.node_self_id)) + a1);
    assert(b.encoded().skip(1) =~= delimited(encode_utf8(b.node_self_id)) + b1);
    lemma_text_splits(a.node_self_id, b.node_self_id, a1, b1);
    lemma_be_splits(wrapped(a.start_us), wrapped(b.start_us), a2, b2);
    lemma_be_splits(wrapped(a.end_us), wrapped(b.end_us), a3, b3);
    lemma_be_splits(a.members.len(), b.members.len(), a4, b4);
    lemma_references_split(a.members, b.members);
}

/// The first byte of every encoding is the version.
pub proof fn law_key_carries_its_version(key: KeyView)
    ensures
        key.encoded().len() > 0,
        key.encoded()[0] == KEY_VERSION,
{
}

/// Two member lists that hold the same references in different orders give
/// keys with the same bytes.
pub proof fn law_member_order_does_not_change_the_key(
    node_self_id: Seq<char>,
    start_us: i64,
    end_us: i64,
    a: Seq<EpisodeView>,
    b: Seq<EpisodeView>,
)
    requires
        a.to_multiset() == b.to_multiset(),
    ensures
        (KeyView { node_self_id, start_us, end_us, members: ranked_sort(a) }).encoded() == (
        KeyView { node_self_id, start_us, end_us, members: ranked_sort(b) }).encoded(),
{
    lemma_ranked_sort_order_free(a, b);
}

} // verus!
