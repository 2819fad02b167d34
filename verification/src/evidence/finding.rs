//! Findings, their drafts and scopes, and the grading that joins them.

use super::confidence::{Confidence, ConfidenceCap, Role};
use super::counter::{CounterEvidence, CounterEvidenceView, OperandView};
use super::direct::DirectEvidence;
use super::gauge::{GaugeEvidence, GaugeEvidenceView};
use crate::engine::TemporalDirectionPermit;
use crate::model::{clone_identity, EpisodeRefV1, EpisodeView, IdentityValue, IdentityView};
use crate::order::{compare, ints, lex_rank, views, Keyed, Rank, Ranked};
use crate::text::{byte_len, push_int, push_seq, push_text};
use vstd::prelude::*;
use vstd::utf8::encode_utf8;

verus! {

/// A number of bytes, capped at the largest 64-bit integer.
pub open spec fn sat(n: nat) -> u64 {
    if n <= u64::MAX {
        n as u64
    } else {
        u64::MAX
    }
}

/// A sum capped at the largest 64-bit integer.
pub fn sat_sum(a: u64, b: u64) -> (r: u64)
    ensures
        r == sat((a + b) as nat),
{
    if a <= u64::MAX - b {
        a + b
    } else {
        u64::MAX
    }
}

/// One observation behind a finding.
#[derive(Debug, PartialEq, Eq)]
pub enum Evidence {
    Direct(DirectEvidence),
    Ratio,
    GaugeObservation(GaugeEvidence),
    CounterAggregate(CounterEvidence),
    Gauge,
    Counter,
    Event,
}

/// The mathematical value of evidence.
#[verifier::ext_equal]
pub enum EvidenceView {
    Direct(DirectEvidence),
    Ratio,
    GaugeObservation(GaugeEvidenceView),
    CounterAggregate(CounterEvidenceView),
    Gauge,
    Counter,
    Event,
}

impl View for Evidence {
    type V = EvidenceView;

    open spec fn view(&self) -> EvidenceView {
        match self {
            Evidence::Direct(direct) => EvidenceView::Direct(*direct),
            Evidence::Ratio => EvidenceView::Ratio,
            Evidence::GaugeObservation(gauge) => EvidenceView::GaugeObservation(gauge@),
            Evidence::CounterAggregate(counter) => EvidenceView::CounterAggregate(counter@),
            Evidence::Gauge => EvidenceView::Gauge,
            Evidence::Counter => EvidenceView::Counter,
            Evidence::Event => EvidenceView::Event,
        }
    }
}

impl EvidenceView {
    /// Whether the evidence shows the requested direction.
    pub open spec fn shows(self, requested_role: Role) -> bool {
        self matches EvidenceView::Direct(direct) && direct.shows(requested_role)
    }

    /// Whether the evidence is a sampled lock edge.
    pub open spec fn is_lock_edge(self) -> bool {
        self matches EvidenceView::Direct(direct) && direct.kind is SampledLockEdge
    }

    /// Upper bound of the bytes that the evidence takes in a response.
    pub open spec fn output_bytes(self) -> nat {
        match self {
            EvidenceView::GaugeObservation(gauge) => 512 + gauge.measurement.name_bytes()
                + encode_utf8(gauge.entity.section).len() + identity_bytes(gauge.entity.identity),
            EvidenceView::CounterAggregate(counter) => 1_024 + encode_utf8(counter.formula).len()
                + operand_bytes(counter.operands) + encode_utf8(counter.entity.section).len()
                + identity_bytes(counter.entity.identity),
            EvidenceView::Direct(_) => 512,
            _ => 32,
        }
    }
}

pub open spec fn operand_bytes(operands: Seq<OperandView>) -> nat
    decreases operands.len(),
{
    if operands.len() == 0 {
        0
    } else {
        operand_bytes(operands.drop_last()) + encode_utf8(operands.last().name).len()
    }
}

pub open spec fn evidence_bytes(evidence: Seq<EvidenceView>) -> nat
    decreases evidence.len(),
{
    if evidence.len() == 0 {
        0
    } else {
        evidence_bytes(evidence.drop_last()) + evidence.last().output_bytes()
    }
}

/// Upper bound of the bytes of one identity scalar.
pub open spec fn scalar_bytes(value: IdentityView) -> nat {
    match value {
        IdentityView::I64(_) => 21,
        IdentityView::U64(_) => 21,
        IdentityView::Bool(_) => 5,
        IdentityView::Text(text) => 6 * encode_utf8(text).len() + 2,
    }
}

/// Upper bound of the bytes of an identity.
pub open spec fn identity_bytes(identity: Seq<IdentityView>) -> nat
    decreases identity.len(),
{
    if identity.len() == 0 {
        2
    } else {
        identity_bytes(identity.drop_last()) + scalar_bytes(identity.last()) + 1
    }
}

impl Ranked for EvidenceView {
    open spec fn rank(self) -> Seq<int> {
        match self {
            EvidenceView::Direct(direct) => seq![0int] + direct.rank(),
            EvidenceView::Ratio => seq![1int],
            EvidenceView::GaugeObservation(gauge) => seq![2int] + gauge.rank(),
            EvidenceView::CounterAggregate(counter) => seq![3int] + counter.rank(),
            EvidenceView::Gauge => seq![4int],
            EvidenceView::Counter => seq![5int],
            EvidenceView::Event => seq![6int],
        }
    }

    proof fn rank_splits(a: Self, b: Self, x: Seq<int>, y: Seq<int>) {
        let left = a.rank() + x;
        let right = b.rank() + y;
        assert(left[0] == a.rank()[0] && right[0] == b.rank()[0]);
        match (a, b) {
            (EvidenceView::Direct(v), EvidenceView::Direct(w)) => {
                assert(left.skip(1) =~= v.rank() + x);
                assert(right.skip(1) =~= w.rank() + y);
                DirectEvidence::rank_splits(v, w, x, y);
            },
            (EvidenceView::GaugeObservation(v), EvidenceView::GaugeObservation(w)) => {
                assert(left.skip(1) =~= v.rank() + x);
                assert(right.skip(1) =~= w.rank() + y);
                GaugeEvidenceView::rank_splits(v, w, x, y);
            },
            (EvidenceView::CounterAggregate(v), EvidenceView::CounterAggregate(w)) => {
                assert(left.skip(1) =~= v.rank() + x);
                assert(right.skip(1) =~= w.rank() + y);
                CounterEvidenceView::rank_splits(v, w, x, y);
            },
            _ => {
                assert(x =~= left.skip(1));
                assert(y =~= right.skip(1));
            },
        }
    }
}

impl Keyed<EvidenceView> for Evidence {
    fn key_into(&self, out: &mut Vec<i128>) {
        let ghost start = ints(out@);
        match self {
            Evidence::Direct(direct) => {
                push_int(out, 0);
                direct.key_into(out);
            },
            Evidence::Ratio => {
                push_int(out, 1);
            },
            Evidence::GaugeObservation(gauge) => {
                push_int(out, 2);
                gauge.key_into(out);
            },
            Evidence::CounterAggregate(counter) => {
                push_int(out, 3);
                counter.key_into(out);
            },
            Evidence::Gauge => {
                push_int(out, 4);
            },
            Evidence::Counter => {
                push_int(out, 5);
            },
            Evidence::Event => {
                push_int(out, 6);
            },
        }
        proof {
            assert(ints(out@) =~= start + self@.rank());
        }
    }
}

impl Evidence {
    /// Whether the evidence admits high confidence.
    pub fn justifies_high(&self) -> (r: bool)
        ensures
            r == (self@ is Direct),
    {
        match self {
            Evidence::Direct(_) => true,
            _ => false,
        }
    }

    pub fn proves_structural_direction(&self, requested_role: Role) -> (r: bool)
        ensures
            r == self@.shows(requested_role),
    {
        match self {
            Evidence::Direct(direct) => direct.proves_structural_direction(requested_role),
            _ => false,
        }
    }

    pub fn is_sampled_lock_edge(&self) -> (r: bool)
        ensures
            r == self@.is_lock_edge(),
    {
        match self {
            Evidence::Direct(direct) => direct.lock_edge().is_some(),
            _ => false,
        }
    }

    pub fn label(&self) -> (r: &'static str)
        ensures
            r@ == match self {
                Evidence::Direct(_) => "direct"@,
                Evidence::Ratio => "ratio"@,
                Evidence::GaugeObservation(_) => "gauge"@,
                Evidence::Gauge => "gauge"@,
                Evidence::CounterAggregate(_) => "counter"@,
                Evidence::Counter => "counter"@,
                Evidence::Event => "event"@,
            },
    {
        match self {
            Evidence::Direct(_) => "direct",
            Evidence::Ratio => "ratio",
            Evidence::GaugeObservation(_) => "gauge",
            Evidence::Gauge => "gauge",
            Evidence::CounterAggregate(_) => "counter",
            Evidence::Counter => "counter",
            Evidence::Event => "event",
        }
    }

    /// Upper bound of the bytes that the evidence takes in a response.
    fn output_bytes_upper_bound(&self) -> (r: u64)
        ensures
            r == sat(self@.output_bytes()),
    {
        match self {
            Evidence::GaugeObservation(gauge) => sat_sum(
                sat_sum(
                    sat_sum(512, gauge.operand_name_bytes()),
                    byte_len(gauge.entity().section()),
                ),
                identity_json_upper_bound(gauge.entity().identity()),
            ),
            Evidence::CounterAggregate(counter) => {
                let operands = counter.operands();
                let ghost all = views(operands@);
                let mut names: u64 = 0;
                let mut i: usize = 0;
                proof {
                    assert(all.take(0) =~= Seq::empty());
                }
                while i < operands.len()
                    invariant
                        i <= operands.len(),
                        all == views(operands@),
                        names == sat(operand_bytes(all.take(i as int))),
                    decreases operands.len() - i,
                {
                    proof {
                        assert(all.take(i + 1).drop_last() =~= all.take(i as int));
                        assert(all[i as int] == operands@[i as int]@);
                    }
                    names = sat_sum(names, byte_len(operands[i].name()));
                    i = i + 1;
                }
                proof {
                    assert(all.take(i as int) =~= all);
                }
                sat_sum(
                    sat_sum(
                        sat_sum(sat_sum(1_024, byte_len(counter.formula())), names),
                        byte_len(counter.entity().section()),
                    ),
                    identity_json_upper_bound(counter.entity().identity()),
                )
            },
            Evidence::Direct(_) => 512,
            _ => 32,
        }
    }
}

/// The highest confidence that some evidence admits.
pub open spec fn ceiling(evidence: Seq<EvidenceView>) -> Confidence {
    if evidence.len() == 0 {
        Confidence::LOW
    } else if exists|i: int| 0 <= i < evidence.len() && #[trigger] evidence[i] is Direct {
        Confidence::HIGH
    } else {
        Confidence::MEDIUM
    }
}

pub fn evidence_ceiling(evidence: &[Evidence]) -> (r: Confidence)
    ensures
        r == ceiling(views(evidence@)),
{
    if evidence.len() == 0 {
        return Confidence::LOW;
    }
    let ghost all = views(evidence@);
    let mut i: usize = 0;
    while i < evidence.len()
        invariant
            i <= evidence.len(),
            all == views(evidence@),
            forall|j: int| 0 <= j < i ==> !(#[trigger] all[j] is Direct),
        decreases evidence.len() - i,
    {
        proof {
            assert(all[i as int] == evidence@[i as int]@);
        }
        if evidence[i].justifies_high() {
            return Confidence::HIGH;
        }
        i = i + 1;
    }
    Confidence::MEDIUM
}

/// Where a finding applies.
#[derive(Debug, PartialEq, Eq, PartialOrd, Ord)]
pub struct FindingScope {
    logical_section: &'static str,
    column: &'static str,
    identity: Vec<IdentityValue>,
}

/// The mathematical value of a scope.
#[verifier::ext_equal]
pub struct ScopeView {
    pub logical_section: Seq<char>,
    pub column: Seq<char>,
    pub identity: Seq<IdentityView>,
}

impl View for FindingScope {
    type V = ScopeView;

    closed spec fn view(&self) -> ScopeView {
        ScopeView {
            logical_section: self.logical_section@,
            column: self.column@,
            identity: views(self.identity@),
        }
    }
}

impl Clone for FindingScope {
    fn clone(&self) -> (r: Self)
        ensures
            r@ == self@,
    {
        FindingScope {
            logical_section: self.logical_section,
            column: self.column,
            identity: clone_identity(&self.identity),
        }
    }
}

impl ScopeView {
    /// The scope of an episode.
    pub open spec fn of_episode(reference: EpisodeView) -> ScopeView {
        ScopeView {
            logical_section: reference.logical_section,
            column: reference.column,
            identity: reference.identity,
        }
    }
}

impl Ranked for ScopeView {
    open spec fn rank(self) -> Seq<int> {
        (self.logical_section, (self.column, self.identity)).rank()
    }

    proof fn rank_splits(a: Self, b: Self, x: Seq<int>, y: Seq<int>) {
        <(Seq<char>, (Seq<char>, Seq<IdentityView>))>::rank_splits(
            (a.logical_section, (a.column, a.identity)),
            (b.logical_section, (b.column, b.identity)),
            x,
            y,
        );
    }
}

impl FindingScope {
    pub fn from_episode(reference: &EpisodeRefV1) -> (r: Self)
        ensures
            r@ == ScopeView::of_episode(reference@),
    {
        FindingScope {
            logical_section: reference.logical_section,
            column: reference.column,
            identity: clone_identity(&reference.identity),
        }
    }

    /// Scope built from an event's own typed fields. The identity must carry
    /// only non-sensitive fields, since it is serialized into the response.
    pub fn from_parts(
        logical_section: &'static str,
        column: &'static str,
        identity: Vec<IdentityValue>,
    ) -> (r: Self)
        ensures
            r@ == (ScopeView {
                logical_section: logical_section@,
                column: column@,
                identity: views(identity@),
            }),
    {
        FindingScope { logical_section, column, identity }
    }

    pub fn logical_section(&self) -> (r: &'static str)
        ensures
            r@ == self@.logical_section,
    {
        self.logical_section
    }

    pub fn column(&self) -> (r: &'static str)
        ensures
            r@ == self@.column,
    {
        self.column
    }

    pub fn identity(&self) -> (r: &[IdentityValue])
        ensures
            views(r@) == self@.identity,
    {
        self.identity.as_slice()
    }

    /// Appends the rank to a key.
    pub fn key_into(&self, out: &mut Vec<i128>)
        ensures
            ints(final(out)@) == ints(old(out)@) + self@.rank(),
    {
        let ghost start = ints(out@);
        push_text(out, self.logical_section);
        push_text(out, self.column);
        push_seq(out, self.identity.as_slice());
        proof {
            assert(ints(out@) =~= start + self@.rank());
        }
    }
}

/// A graded observation of one lens.
#[derive(Debug, PartialEq, Eq)]
pub struct Finding {
    lens_id: &'static str,
    role: Role,
    confidence: Confidence,
    scope: FindingScope,
    evidence: Vec<Evidence>,
}

/// The mathematical value of a finding.
#[verifier::ext_equal]
pub struct FindingView {
    pub lens_id: Seq<char>,
    pub role: Role,
    pub confidence: Confidence,
    pub scope: ScopeView,
    pub evidence: Seq<EvidenceView>,
}

impl View for Finding {
    type V = FindingView;

    closed spec fn view(&self) -> FindingView {
        FindingView {
            lens_id: self.lens_id@,
            role: self.role,
            confidence: self.confidence,
            scope: self.scope@,
            evidence: views(self.evidence@),
        }
    }
}

impl FindingView {
    /// The finding after the order of its observations suggested a role.
    pub open spec fn with_temporal_role(self, role: Role) -> FindingView {
        if self.role == Role::Coincident && role.is_directed() && forall|i: int|
            0 <= i < self.evidence.len() ==> !(#[trigger] self.evidence[i].is_lock_edge()) {
            FindingView { role, ..self }
        } else {
            self
        }
    }
}

/// Findings order by falling confidence, then by role, lens, scope and
/// evidence.
impl Ranked for FindingView {
    open spec fn rank(self) -> Seq<int> {
        (
            (2 - self.confidence.level(), self.role),
            (self.lens_id, (self.scope, self.evidence)),
        ).rank()
    }

    proof fn rank_splits(a: Self, b: Self, x: Seq<int>, y: Seq<int>) {
        <((int, Role), (Seq<char>, (ScopeView, Seq<EvidenceView>)))>::rank_splits(
            ((2 - a.confidence.level(), a.role), (a.lens_id, (a.scope, a.evidence))),
            ((2 - b.confidence.level(), b.role), (b.lens_id, (b.scope, b.evidence))),
            x,
            y,
        );
    }
}

impl Keyed<FindingView> for Finding {
    fn key_into(&self, out: &mut Vec<i128>) {
        let ghost start = ints(out@);
        push_int(out, 2 - self.confidence.number());
        push_int(out, self.role.number());
        push_text(out, self.lens_id);
        self.scope.key_into(out);
        push_seq(out, self.evidence.as_slice());
        proof {
            assert(ints(out@) =~= start + self@.rank());
        }
    }
}

/// A finding before it is graded.
pub struct FindingDraft {
    requested_role: Role,
    scope: FindingScope,
    evidence: Vec<Evidence>,
    temporal_direction: bool,
}

/// The mathematical value of a draft.
#[verifier::ext_equal]
pub struct DraftView {
    pub requested_role: Role,
    pub scope: ScopeView,
    pub evidence: Seq<EvidenceView>,
    /// Whether the observations may be ordered in time.
    pub temporal_direction: bool,
}

impl View for FindingDraft {
    type V = DraftView;

    closed spec fn view(&self) -> DraftView {
        DraftView {
            requested_role: self.requested_role,
            scope: self.scope@,
            evidence: views(self.evidence@),
            temporal_direction: self.temporal_direction,
        }
    }
}

impl DraftView {
    /// Upper bound of the bytes that the finding takes in a response.
    pub open spec fn output_bytes(self, lens_id: Seq<char>) -> nat {
        512 + encode_utf8(lens_id).len() + identity_bytes(self.scope.identity) + evidence_bytes(
            self.evidence,
        )
    }

    /// Whether some evidence shows the requested direction.
    pub open spec fn proven(self) -> bool {
        exists|i: int|
            0 <= i < self.evidence.len() && #[trigger] self.evidence[i].shows(self.requested_role)
    }

    /// The role that the draft admits. Observation timestamps do not authorize
    /// causal direction by themselves: a lead or downstream role must match
    /// explicit structural evidence, unless a permit orders the observations.
    pub open spec fn admitted_role(self) -> Role {
        if self.requested_role.is_directed() && !self.proven() && !self.temporal_direction {
            Role::Coincident
        } else {
            self.requested_role
        }
    }

    /// The finding that the draft becomes under a cap.
    pub open spec fn graded(self, lens_id: Seq<char>, cap: ConfidenceCap) -> FindingView {
        FindingView {
            lens_id,
            role: self.admitted_role(),
            confidence: cap.ceiling().lower(ceiling(self.evidence)),
            scope: self.scope,
            evidence: self.evidence,
        }
    }
}

impl FindingDraft {
    /// A draft whose direction only structural evidence can show.
    pub fn new(requested_role: Role, scope: FindingScope, evidence: Vec<Evidence>) -> (r: Self)
        ensures
            r@ == (DraftView {
                requested_role,
                scope: scope@,
                evidence: views(evidence@),
                temporal_direction: false,
            }),
    {
        FindingDraft { requested_role, scope, evidence, temporal_direction: false }
    }

    /// A draft whose direction may rest on the order of its observations, where
    /// the context permits it.
    pub fn with_temporal_direction(
        requested_role: Role,
        scope: FindingScope,
        evidence: Vec<Evidence>,
        permit: Option<&TemporalDirectionPermit<'_>>,
    ) -> (r: Self)
        ensures
            r@ == (DraftView {
                requested_role,
                scope: scope@,
                evidence: views(evidence@),
                temporal_direction: permit is Some,
            }),
    {
        FindingDraft {
            requested_role,
            scope,
            evidence,
            temporal_direction: permit.is_some(),
        }
    }

    pub fn evidence_len(&self) -> (r: usize)
        ensures
            r == self@.evidence.len(),
    {
        self.evidence.len()
    }

    pub fn output_bytes_upper_bound(&self, lens_id: &str) -> (r: u64)
        ensures
            r == sat(self@.output_bytes(lens_id@)),
    {
        let ghost all = views(self.evidence@);
        let mut evidence: u64 = 0;
        let mut i: usize = 0;
        proof {
            assert(all.take(0) =~= Seq::empty());
        }
        while i < self.evidence.len()
            invariant
                i <= self.evidence.len(),
                all == views(self.evidence@),
                evidence == sat(evidence_bytes(all.take(i as int))),
            decreases self.evidence.len() - i,
        {
            proof {
                assert(all.take(i + 1).drop_last() =~= all.take(i as int));
                assert(all[i as int] == self.evidence@[i as int]@);
            }
            evidence = sat_sum(evidence, self.evidence[i].output_bytes_upper_bound());
            i = i + 1;
        }
        proof {
            assert(all.take(i as int) =~= all);
        }
        sat_sum(
            sat_sum(
                sat_sum(512, byte_len(lens_id)),
                identity_json_upper_bound(self.scope.identity()),
            ),
            evidence,
        )
    }
}

/// Upper bound of the bytes of an identity in a response.
pub fn identity_json_upper_bound(identity: &[IdentityValue]) -> (r: u64)
    ensures
        r == sat(identity_bytes(views(identity@))),
{
    let ghost all = views(identity@);
    let mut total: u64 = 2;
    let mut i: usize = 0;
    proof {
        assert(all.take(0) =~= Seq::empty());
    }
    while i < identity.len()
        invariant
            i <= identity.len(),
            all == views(identity@),
            total == sat(identity_bytes(all.take(i as int))),
        decreases identity.len() - i,
    {
        proof {
            assert(all.take(i + 1).drop_last() =~= all.take(i as int));
            assert(all[i as int] == identity@[i as int]@);
        }
        let bytes: u64 = match &identity[i] {
            IdentityValue::I64(_) => 21,
            IdentityValue::U64(_) => 21,
            IdentityValue::Bool(_) => 5,
            IdentityValue::Text(text) => {
                let length: u64 = byte_len(text.as_str());
                if length <= (u64::MAX - 2) / 6 {
                    length * 6 + 2
                } else {
                    u64::MAX
                }
            },
        };
        total = sat_sum(sat_sum(total, bytes), 1);
        i = i + 1;
    }
    proof {
        assert(all.take(i as int) =~= all);
    }
    total
}

impl Finding {
    /// Grades a draft: the role that its evidence shows and the confidence
    /// that both the cap and the evidence admit.
    pub fn from_draft(lens_id: &'static str, cap: ConfidenceCap, draft: FindingDraft) -> (r: Self)
        ensures
            r@ == draft@.graded(lens_id@, cap),
    {
        let ghost all = views(draft.evidence@);
        let mut structural_direction: bool = false;
        let mut i: usize = 0;
        while i < draft.evidence.len() && !structural_direction
            invariant
                i <= draft.evidence.len(),
                all == views(draft.evidence@),
                !structural_direction ==> forall|j: int|
                    0 <= j < i ==> !(#[trigger] all[j].shows(draft.requested_role)),
                structural_direction ==> exists|j: int|
                    0 <= j < all.len() && #[trigger] all[j].shows(draft.requested_role),
            decreases draft.evidence.len() - i,
        {
            proof {
                assert(all[i as int] == draft.evidence@[i as int]@);
            }
            structural_direction = draft.evidence[i].proves_structural_direction(
                draft.requested_role,
            );
            i = i + 1;
        }
        let role: Role = if draft.requested_role.directed() && !structural_direction
            && !draft.temporal_direction {
            Role::Coincident
        } else {
            draft.requested_role
        };
        let confidence: Confidence = cap.confidence().min(
            evidence_ceiling(draft.evidence.as_slice()),
        );
        Finding { lens_id, role, confidence, scope: draft.scope, evidence: draft.evidence }
    }

    /// Applies observation-time ordering only as a fallback. A sampled lock edge
    /// owns its structural direction, including when a malformed draft was
    /// downgraded to coincident.
    pub fn apply_temporal_role(&mut self, role: Role)
        ensures
            final(self)@ == old(self)@.with_temporal_role(role),
    {
        if self.role != Role::Coincident || !role.directed() {
            return;
        }
        let ghost all = self@.evidence;
        let mut i: usize = 0;
        while i < self.evidence.len()
            invariant
                i <= self.evidence.len(),
                self@ == old(self)@,
                all == views(self.evidence@),
                all == self@.evidence,
                forall|j: int| 0 <= j < i ==> !(#[trigger] all[j].is_lock_edge()),
            decreases self.evidence.len() - i,
        {
            proof {
                assert(all[i as int] == self.evidence@[i as int]@);
            }
            if self.evidence[i].is_sampled_lock_edge() {
                assert(all[i as int].is_lock_edge());
                return;
            }
            i = i + 1;
        }
        self.role = role;
    }

    pub fn lens_id(&self) -> (r: &'static str)
        ensures
            r@ == self@.lens_id,
    {
        self.lens_id
    }

    pub fn role(&self) -> (r: Role)
        ensures
            r == self@.role,
    {
        self.role
    }

    pub fn confidence(&self) -> (r: Confidence)
        ensures
            r == self@.confidence,
    {
        self.confidence
    }

    pub fn scope(&self) -> (r: &FindingScope)
        ensures
            r@ == self@.scope,
    {
        &self.scope
    }

    pub fn evidence(&self) -> (r: &[Evidence])
        ensures
            views(r@) == self@.evidence,
    {
        self.evidence.as_slice()
    }
}

/// Compares two findings in the order of a response.
pub fn finding_order(a: &Finding, b: &Finding) -> (r: Rank)
    ensures
        r == lex_rank(a@.rank(), b@.rank()),
{
    compare(a, b)
}

// Laws of grading.

/// Only direct evidence admits high confidence, whatever the cap.
pub proof fn law_weak_evidence_is_never_high(
    draft: DraftView,
    lens_id: Seq<char>,
    cap: ConfidenceCap,
)
    requires
        forall|i: int| 0 <= i < draft.evidence.len() ==> !(#[trigger] draft.evidence[i] is Direct),
    ensures
        draft.graded(lens_id, cap).confidence != Confidence::HIGH,
{
}

/// No finding is more confident than its lens may be.
pub proof fn law_confidence_never_exceeds_the_cap(
    draft: DraftView,
    lens_id: Seq<char>,
    cap: ConfidenceCap,
)
    ensures
        draft.graded(lens_id, cap).confidence.level() <= cap.ceiling().level(),
{
}

/// A finding without evidence is low.
pub proof fn law_no_evidence_is_low(draft: DraftView, lens_id: Seq<char>, cap: ConfidenceCap)
    requires
        draft.evidence.len() == 0,
    ensures
        draft.graded(lens_id, cap).confidence == Confidence::LOW,
{
}

/// Unless a permit orders the observations of its draft, a lead or downstream
/// finding carries evidence that shows that direction.
pub proof fn law_direction_is_always_shown(draft: DraftView, lens_id: Seq<char>, cap: ConfidenceCap)
    requires
        !draft.temporal_direction,
        draft.graded(lens_id, cap).role.is_directed(),
    ensures
        exists|i: int|
            0 <= i < draft.evidence.len() && #[trigger] draft.evidence[i].shows(
                draft.graded(lens_id, cap).role,
            ),
{
}

/// The order of observations never overrides a direction, and never gives one
/// to a finding with a sampled lock edge.
pub proof fn law_observation_time_is_a_fallback(finding: FindingView, role: Role, edge: int)
    ensures
        finding.role != Role::Coincident ==> finding.with_temporal_role(role) == finding,
        0 <= edge < finding.evidence.len() && finding.evidence[edge].is_lock_edge()
            ==> finding.with_temporal_role(role) == finding,
        finding.with_temporal_role(role).confidence == finding.confidence,
        finding.with_temporal_role(role).evidence == finding.evidence,
{
}

} // verus!
