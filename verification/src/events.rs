//! Typed log-event input and the self-contained event-fact lenses.
//!
//! The event branch is separate from the numeric series path: a lens here reads
//! bounded, typed records the log source already grouped, never an anomaly
//! episode. Lenses report observed events, infer nothing from absence, and do
//! not restate a logged fact as a cause. SQLSTATE-like tokens are heuristic
//! evidence: the source cannot prove a structured server error code.

use crate::dispatch::{texts, BudgetView, LimitHit, WorkBudget};
use crate::engine::{
    admission, admit_lens_evaluation, budget_after_admission, skip_view, EngineSkip, Pass, SkipView,
};
use crate::evidence::confidence::{ConfidenceCap, Role};
use crate::evidence::finding::{
    sat, DraftView, Evidence, EvidenceView, Finding, FindingDraft, FindingScope, FindingView,
    ScopeView,
};
use crate::evidence::sink::{
    run, FindingSink, OutputCounts, OutputLimits, SinkRules, SinkState, Step,
};
use crate::inspect::{charge, emit_each, emits, lemma_first_part_refused, lemma_two_parts};
use crate::lens::reported;
use crate::model::{IdentityValue, IdentityView};
use crate::order::{ints, key_of, ranked_sort, sort_ranked, views, Keyed, Ranked};
use crate::ordered::{contents, lemma_same_entries, well_formed, MapEntry, OrderedMap};
use crate::text::{lemma_views_push, push_int, push_text, text_eq, StaticText};
use crate::typed::snapshot::{label_text, label_view, str_view};
use vstd::prelude::*;
use vstd::string::StrSliceExecFns;

verus! {

pub const PG_LOG_ERRORS: &'static str = "pg_log_errors";

pub const PG_LOG_LIFECYCLE: &'static str = "pg_log_lifecycle";

/// Severity of a panic in the source taxonomy.
pub const SEVERITY_PANIC: u8 = 2;

/// The signal that cannot be caught, so it is an external kill, not a fault.
pub const SIGKILL: i32 = 9;

pub const SQLSTATE_DISK_FULL: &'static str = "53100";

pub const SQLSTATE_OUT_OF_MEMORY: &'static str = "53200";

pub const SQLSTATE_TOO_MANY_CONNECTIONS: &'static str = "53300";

pub const SQLSTATE_DEADLOCK: &'static str = "40P01";

pub const SQLSTATE_DATA_CORRUPTED: &'static str = "XX001";

pub const SQLSTATE_INDEX_CORRUPTED: &'static str = "XX002";

/// How much of a log section the request actually saw.
///
/// There is no complete coverage: the effective logging configuration and the
/// full byte sequence are never proven from the stored rows, so absence of an
/// event can never be read as absence of the condition.
#[derive(Debug, Clone, Copy, PartialEq, Eq, Structural)]
pub enum LogCoverage {
    /// Read cleanly, but full coverage is unproven; absence means nothing.
    Unknown,
    /// A coverage gap intersects the window; absence never crosses it.
    Gap,
    /// Absent, disabled, unsupported, or skipped: no rows, not a measured zero.
    NotCollected,
}

impl LogCoverage {
    pub fn label(self) -> (r: &'static str)
        ensures
            r@ == match self {
                LogCoverage::Unknown => "unknown"@,
                LogCoverage::Gap => "gap"@,
                LogCoverage::NotCollected => "not_collected"@,
            },
    {
        match self {
            LogCoverage::Unknown => "unknown",
            LogCoverage::Gap => "gap",
            LogCoverage::NotCollected => "not_collected",
        }
    }
}

/// The coverage of log sections, in the order of their names.
pub struct CoverageMap {
    map: OrderedMap<StaticText, LogCoverage>,
}

impl View for CoverageMap {
    type V = Map<Seq<char>, LogCoverage>;

    closed spec fn view(&self) -> Map<Seq<char>, LogCoverage> {
        contents::<Seq<char>, StaticText, LogCoverage>(self.map.entries@)
    }
}

impl CoverageMap {
    #[verifier::type_invariant]
    spec fn is_ordered(self) -> bool {
        well_formed::<Seq<char>, StaticText, LogCoverage>(self.map.entries@)
    }

    pub fn new() -> (r: Self)
        ensures
            r@ == Map::<Seq<char>, LogCoverage>::empty(),
    {
        CoverageMap { map: OrderedMap::new::<Seq<char>>() }
    }

    pub fn insert(&mut self, section: &'static str, coverage: LogCoverage)
        ensures
            final(self)@ == old(self)@.insert(section@, coverage),
    {
        proof {
            use_type_invariant(&*self);
        }
        let mut held = OrderedMap { entries: Vec::new() };
        std::mem::swap(&mut self.map, &mut held);
        held.insert::<Seq<char>>(StaticText { text: section }, coverage);
        self.map = held;
    }

    pub fn get(&self, section: &str) -> (r: Option<&LogCoverage>)
        ensures
            match r {
                Some(coverage) => self@.dom().contains(section@) && *coverage == self@[section@],
                None => !self@.dom().contains(section@),
            },
    {
        proof {
            use_type_invariant(self);
        }
        let mut key: Vec<i128> = Vec::new();
        push_text(&mut key, section);
        proof {
            assert(ints(key@) =~= section@.rank());
        }
        let found = self.map.get_by_key::<Seq<char>>(&key);
        assert(self@.dom().contains(section@) || !self@.dom().contains(section@));
        found
    }

    /// A copy of the map.
    pub fn copy(&self) -> (r: Self)
        ensures
            r@ == self@,
    {
        proof {
            use_type_invariant(self);
        }
        let ghost all = self.map.entries@;
        let mut entries: Vec<MapEntry<StaticText, LogCoverage>> = Vec::new();
        let mut i: usize = 0;
        while i < self.map.entries.len()
            invariant
                i <= self.map.entries.len(),
                all == self.map.entries@,
                entries.len() == i,
                forall|j: int|
                    0 <= j < i ==> (#[trigger] entries@[j]).name@ == all[j].name@
                        && entries@[j].key@ == all[j].key@ && entries@[j].value == all[j].value,
            decreases self.map.entries.len() - i,
        {
            let entry: &MapEntry<StaticText, LogCoverage> = &self.map.entries[i];
            let key: Vec<i128> = copy_key(&entry.key);
            entries.push(MapEntry { key, name: entry.name, value: entry.value });
            i = i + 1;
        }
        proof {
            lemma_same_entries::<Seq<char>, StaticText, LogCoverage>(all, entries@);
        }
        CoverageMap { map: OrderedMap { entries } }
    }
}

fn copy_key(key: &Vec<i128>) -> (r: Vec<i128>)
    ensures
        r@ == key@,
{
    let mut r: Vec<i128> = Vec::new();
    let mut i: usize = 0;
    while i < key.len()
        invariant
            i <= key.len(),
            r@ == key@.take(i as int),
        decreases key.len() - i,
    {
        proof {
            assert(key@.take(i + 1) =~= key@.take(i as int).push(key@[i as int]));
        }
        r.push(key[i]);
        i = i + 1;
    }
    proof {
        assert(key@.take(i as int) =~= key@);
    }
    r
}

/// A grouped error row: a count of occurrences sharing one severity and code.
/// It is not a per-event entity, so per-backend identity and ordering cannot be
/// recovered from it.
#[derive(Debug, Clone, PartialEq, Eq)]
pub struct LogErrorGroup {
    observed_at_us: i64,
    severity: u8,
    sqlstate: Option<String>,
    count: u64,
}

/// The mathematical value of an error group.
#[verifier::ext_equal]
pub struct ErrorGroupView {
    pub observed_at_us: i64,
    pub severity: u8,
    pub sqlstate: Option<Seq<char>>,
    pub count: u64,
}

impl View for LogErrorGroup {
    type V = ErrorGroupView;

    closed spec fn view(&self) -> ErrorGroupView {
        ErrorGroupView {
            observed_at_us: self.observed_at_us,
            severity: self.severity,
            sqlstate: label_view(self.sqlstate),
            count: self.count,
        }
    }
}

/// Whether a character is an upper-case ASCII letter or a digit.
pub open spec fn code_char(c: char) -> bool {
    ('A' <= c && c <= 'Z') || ('0' <= c && c <= '9')
}

/// Whether a text has the shape of a code: five digits and upper-case letters.
pub open spec fn code_like(text: Seq<char>) -> bool {
    text.len() == 5 && forall|i: int| 0 <= i < text.len() ==> code_char(#[trigger] text[i])
}

/// A five-character code: digits and upper-case letters only.
pub fn is_sqlstate(code: &str) -> (r: bool)
    ensures
        r == code_like(code@),
{
    if code.unicode_len() != 5 {
        return false;
    }
    let mut i: usize = 0;
    while i < 5
        invariant
            i <= 5,
            code@.len() == 5,
            forall|j: int| 0 <= j < i ==> code_char(#[trigger] code@[j]),
        decreases 5 - i,
    {
        let c: char = code.get_char(i);
        let upper: bool = 'A' <= c && c <= 'Z';
        let digit: bool = '0' <= c && c <= '9';
        if !upper && !digit {
            assert(!code_char(code@[i as int]));
            return false;
        }
        i = i + 1;
    }
    true
}

impl LogErrorGroup {
    /// A non-conforming token is dropped. Syntax alone does not make the token
    /// a structured server error code.
    pub fn new(observed_at_us: i64, severity: u8, sqlstate: Option<String>, count: u64) -> (r: Self)
        ensures
            r@ == (ErrorGroupView {
                observed_at_us,
                severity,
                sqlstate: match label_view(sqlstate) {
                    Some(code) => if code_like(code) {
                        Some(code)
                    } else {
                        None
                    },
                    None => None,
                },
                count,
            }),
    {
        let kept: Option<String> = match sqlstate {
            Some(code) => if is_sqlstate(code.as_str()) {
                Some(code)
            } else {
                None
            },
            None => None,
        };
        LogErrorGroup { observed_at_us, severity, sqlstate: kept, count }
    }

    pub fn severity(&self) -> (r: u8)
        ensures
            r == self@.severity,
    {
        self.severity
    }

    pub fn sqlstate(&self) -> (r: Option<&str>)
        ensures
            str_view(r) == self@.sqlstate,
    {
        label_text(&self.sqlstate)
    }

    pub fn count(&self) -> (r: u64)
        ensures
            r == self@.count,
    {
        self.count
    }

    pub fn observed_at_us(&self) -> (r: i64)
        ensures
            r == self@.observed_at_us,
    {
        self.observed_at_us
    }
}

/// What a lifecycle record tells of.
#[derive(Debug, Clone, Copy, PartialEq, Eq, Structural)]
pub enum LifecycleKind {
    Crash,
    Shutdown,
    Ready,
}

/// A lifecycle record: a start, signal, or stop that was logged.
#[derive(Debug, Clone, Copy, PartialEq, Eq, Structural)]
pub struct LifecycleEvent {
    pub observed_at_us: i64,
    pub pid: Option<i64>,
    pub kind: LifecycleKind,
    pub signal: Option<i32>,
}

impl LifecycleEvent {
    pub fn new(
        observed_at_us: i64,
        pid: Option<i64>,
        kind: LifecycleKind,
        signal: Option<i32>,
    ) -> (r: Self)
        ensures
            r == (LifecycleEvent { observed_at_us, pid, kind, signal }),
    {
        LifecycleEvent { observed_at_us, pid, kind, signal }
    }

    pub fn kind(&self) -> (r: LifecycleKind)
        ensures
            r == self.kind,
    {
        self.kind
    }

    pub fn signal(&self) -> (r: Option<i32>)
        ensures
            r == self.signal,
    {
        self.signal
    }

    pub fn observed_at_us(&self) -> (r: i64)
        ensures
            r == self.observed_at_us,
    {
        self.observed_at_us
    }

    pub fn pid(&self) -> (r: Option<i64>)
        ensures
            r == self.pid,
    {
        self.pid
    }
}

/// Request ceilings for retained event rows.
#[derive(Debug, Clone, Copy, PartialEq, Eq, Structural)]
pub struct EventInputLimits {
    pub max_error_groups: usize,
    pub max_lifecycle_events: usize,
}

impl EventInputLimits {
    pub fn production() -> (r: Self)
        ensures
            r == (EventInputLimits { max_error_groups: 4_096, max_lifecycle_events: 4_096 }),
    {
        EventInputLimits { max_error_groups: 4_096, max_lifecycle_events: 4_096 }
    }

    pub fn with(max_error_groups: usize, max_lifecycle_events: usize) -> (r: Self)
        ensures
            r == (EventInputLimits { max_error_groups, max_lifecycle_events }),
    {
        EventInputLimits { max_error_groups, max_lifecycle_events }
    }
}

/// Bounded, typed log events for one request, with the coverage of each
/// section.
///
/// The overflow latches when a section reached its row ceiling: the event set
/// is then incomplete, and no consumer may treat it as exhaustive.
pub struct LogEventInputs {
    errors: Vec<LogErrorGroup>,
    lifecycle: Vec<LifecycleEvent>,
    coverage: CoverageMap,
    limits: EventInputLimits,
    overflow: bool,
}

/// The mathematical value of log events.
#[verifier::ext_equal]
pub struct EventsView {
    pub errors: Seq<ErrorGroupView>,
    pub lifecycle: Seq<LifecycleEvent>,
    pub coverage: Map<Seq<char>, LogCoverage>,
    pub limits: EventInputLimits,
    pub overflow: bool,
}

impl View for LogEventInputs {
    type V = EventsView;

    closed spec fn view(&self) -> EventsView {
        EventsView {
            errors: views(self.errors@),
            lifecycle: self.lifecycle@,
            coverage: self.coverage@,
            limits: self.limits,
            overflow: self.overflow,
        }
    }
}

impl EventsView {
    /// The events after one more error group.
    pub open spec fn with_error(self, group: ErrorGroupView) -> EventsView {
        if self.errors.len() >= self.limits.max_error_groups {
            EventsView { overflow: true, ..self }
        } else {
            EventsView { errors: self.errors.push(group), ..self }
        }
    }

    /// The events after one more lifecycle record.
    pub open spec fn with_lifecycle(self, event: LifecycleEvent) -> EventsView {
        if self.lifecycle.len() >= self.limits.max_lifecycle_events {
            EventsView { overflow: true, ..self }
        } else {
            EventsView { lifecycle: self.lifecycle.push(event), ..self }
        }
    }

    /// Whether the rows stay within their ceilings.
    pub open spec fn bounded(self) -> bool {
        self.errors.len() <= self.limits.max_error_groups && self.lifecycle.len()
            <= self.limits.max_lifecycle_events
    }
}

impl LogEventInputs {
    pub fn new(limits: EventInputLimits) -> (r: Self)
        ensures
            r@ == (EventsView {
                errors: Seq::empty(),
                lifecycle: Seq::empty(),
                coverage: Map::empty(),
                limits,
                overflow: false,
            }),
    {
        let r = LogEventInputs {
            errors: Vec::new(),
            lifecycle: Vec::new(),
            coverage: CoverageMap::new(),
            limits,
            overflow: false,
        };
        proof {
            assert(r@.errors =~= Seq::empty());
        }
        r
    }

    /// Records one grouped error, or drops it and latches the overflow at the
    /// ceiling.
    pub fn push_error(&mut self, group: LogErrorGroup) -> (r: bool)
        ensures
            final(self)@ == old(self)@.with_error(group@),
            r == (old(self)@.errors.len() < old(self)@.limits.max_error_groups),
    {
        if self.errors.len() >= self.limits.max_error_groups {
            self.overflow = true;
            return false;
        }
        proof {
            lemma_views_push(self.errors@, group);
        }
        self.errors.push(group);
        true
    }

    /// Records one lifecycle event, or drops it and latches the overflow at the
    /// ceiling.
    pub fn push_lifecycle(&mut self, event: LifecycleEvent) -> (r: bool)
        ensures
            final(self)@ == old(self)@.with_lifecycle(event),
            r == (old(self)@.lifecycle.len() < old(self)@.limits.max_lifecycle_events),
    {
        if self.lifecycle.len() >= self.limits.max_lifecycle_events {
            self.overflow = true;
            return false;
        }
        self.lifecycle.push(event);
        true
    }

    pub fn set_coverage(&mut self, section: &'static str, coverage: LogCoverage)
        ensures
            final(self)@ == (EventsView {
                coverage: old(self)@.coverage.insert(section@, coverage),
                ..old(self)@
            }),
    {
        self.coverage.insert(section, coverage);
    }

    pub fn errors(&self) -> (r: &[LogErrorGroup])
        ensures
            views(r@) == self@.errors,
    {
        self.errors.as_slice()
    }

    pub fn lifecycle(&self) -> (r: &[LifecycleEvent])
        ensures
            r@ == self@.lifecycle,
    {
        self.lifecycle.as_slice()
    }

    pub fn coverage(&self) -> (r: &CoverageMap)
        ensures
            r@ == self@.coverage,
    {
        &self.coverage
    }

    pub fn overflow(&self) -> (r: bool)
        ensures
            r == self@.overflow,
    {
        self.overflow
    }
}

/// A pure lens over bounded, typed log events. Output passes through the sink,
/// so the same evidence gate and work budget bound it as the numeric lenses.
pub trait EventLens {
    spec fn id_text(&self) -> Seq<char>;

    spec fn cap(&self) -> ConfidenceCap;

    /// What the lens reports, in order.
    spec fn event_steps(&self, events: EventsView) -> Seq<Step>;

    fn id(&self) -> (r: &'static str)
        ensures
            r@ == self.id_text(),
    ;

    fn confidence_cap(&self) -> (r: ConfidenceCap)
        ensures
            r == self.cap(),
    ;

    fn evaluate(&self, events: &LogEventInputs, sink: &mut FindingSink<'_>) -> (r: Result<
        (),
        LimitHit,
    >)
        ensures
            reported(old(sink)@, final(sink)@, self.event_steps(events@), r),
            *final(final(sink).findings) == *final(old(sink).findings),
            *final(final(sink).budget) == *final(old(sink).budget),
            *final(final(sink).counts) == *final(old(sink).counts),
    ;
}

/// The distinct facts among some, each where it first occurs.
pub open spec fn distinct<F>(facts: Seq<Option<F>>) -> Seq<F>
    decreases facts.len(),
{
    if facts.len() == 0 {
        Seq::empty()
    } else {
        let earlier = distinct(facts.drop_last());
        match facts.last() {
            Some(fact) => if earlier.contains(fact) {
                earlier
            } else {
                earlier.push(fact)
            },
            None => earlier,
        }
    }
}

pub open spec fn fact_views<T: View>(facts: Seq<Option<T>>) -> Seq<Option<T::V>> {
    Seq::new(
        facts.len(),
        |i: int|
            match facts[i] {
                Some(fact) => Some(fact@),
                None => None,
            },
    )
}

/// Keeps the distinct facts among some.
fn keep_distinct<F: Ranked, T: Keyed<F> + Copy>(facts: &Vec<Option<T>>) -> (r: Vec<T>)
    ensures
        views(r@) == distinct(fact_views(facts@)),
{
    let ghost all = fact_views(facts@);
    let mut kept: Vec<T> = Vec::new();
    let mut known: OrderedMap<T, ()> = OrderedMap::new::<F>();
    let mut i: usize = 0;
    proof {
        assert(all.take(0) =~= Seq::empty());
        assert(views(kept@) =~= Seq::empty());
    }
    while i < facts.len()
        invariant
            i <= facts.len(),
            all == fact_views(facts@),
            views(kept@) == distinct(all.take(i as int)),
            well_formed::<F, T, ()>(known.entries@),
            forall|fact: F| #[trigger]
                contents::<F, T, ()>(known.entries@).dom().contains(fact) <==> views(
                    kept@,
                ).contains(fact),
        decreases facts.len() - i,
    {
        proof {
            assert(all.take(i + 1).drop_last() =~= all.take(i as int));
            assert(all.take(i + 1).last() == all[i as int]);
        }
        if let Some(fact) = facts[i] {
            let ghost before = views(kept@);
            let ghost old_map = contents::<F, T, ()>(known.entries@);
            let key: Vec<i128> = key_of::<F, T>(&fact);
            let found: bool = known.get_by_key::<F>(&key).is_some();
            assert(found == old_map.dom().contains(fact@));
            if !found {
                proof {
                    lemma_views_push(kept@, fact);
                }
                kept.push(fact);
                known.insert::<F>(fact, ());
                proof {
                    assert forall|f: F| #[trigger] contents::<F, T, ()>(
                        known.entries@,
                    ).dom().contains(f) <==> views(kept@).contains(f) by {
                        assert(old_map.dom().contains(f) <==> before.contains(f));
                        if before.contains(f) {
                            let k = before.index_of(f);
                            assert(views(kept@)[k] == f);
                        }
                        assert(views(kept@)[before.len() as int] == fact@);
                        if views(kept@).contains(f) && f != fact@ {
                            let k = views(kept@).index_of(f);
                            assert(before[k] == f);
                        }
                    }
                }
            }
        }
        i = i + 1;
    }
    proof {
        assert(all.take(i as int) =~= all);
    }
    kept
}

/// Every fact is reported exactly once, whatever the order and the number of
/// the records that carry it.
pub proof fn law_facts_are_reported_once<F>(facts: Seq<Option<F>>)
    ensures
        distinct(facts).no_duplicates(),
        forall|fact: F| #[trigger]
            distinct(facts).contains(fact) <==> facts.contains(Some(fact)),
    decreases facts.len(),
{
    if facts.len() > 0 {
        let rest = facts.drop_last();
        let earlier = distinct(rest);
        law_facts_are_reported_once(rest);
        assert forall|fact: F| #[trigger] distinct(facts).contains(fact) <==> facts.contains(
            Some(fact),
        ) by {
            assert(earlier.contains(fact) <==> rest.contains(Some(fact)));
            if rest.contains(Some(fact)) {
                let k = rest.index_of(Some(fact));
                assert(facts[k] == Some(fact));
            }
            if facts.contains(Some(fact)) {
                let k = facts.index_of(Some(fact));
                if k < rest.len() {
                    assert(rest[k] == Some(fact));
                } else {
                    assert(facts.last() == Some(fact));
                }
            }
            if earlier.contains(fact) {
                let k = earlier.index_of(fact);
                assert(distinct(facts)[k] == fact);
            }
            if let Some(last) = facts.last() {
                assert(facts[facts.len() - 1] == Some(last));
                if !earlier.contains(last) {
                    assert(distinct(facts)[earlier.len() as int] == last);
                }
            }
            if distinct(facts).contains(fact) {
                let k = distinct(facts).index_of(fact);
                if k < earlier.len() {
                    assert(earlier[k] == fact);
                }
            }
        }
        if let Some(last) = facts.last() {
            if !earlier.contains(last) {
                assert forall|i: int, j: int|
                    0 <= i < j < distinct(facts).len() implies distinct(facts)[i] != distinct(
                    facts,
                )[j] by {
                    if j == earlier.len() {
                        assert(earlier.contains(earlier[i]));
                    }
                }
            }
        }
    }
}

/// The draft of a fact: a coincident occurrence. The record is parsed from
/// configurable text, so it is positive evidence that never grades as exact.
pub open spec fn fact_draft(
    section: Seq<char>,
    column: Seq<char>,
    identity: Seq<IdentityView>,
) -> DraftView {
    DraftView {
        requested_role: Role::Coincident,
        scope: ScopeView { logical_section: section, column, identity },
        evidence: seq![EvidenceView::Event],
        temporal_direction: false,
    }
}

fn draft_fact(section: &'static str, column: &'static str, identity: Vec<IdentityValue>) -> (r:
    FindingDraft)
    ensures
        r@ == fact_draft(section@, column@, views(identity@)),
{
    let mut evidence: Vec<Evidence> = Vec::new();
    evidence.push(Evidence::Event);
    proof {
        assert(views(evidence@) =~= seq![EvidenceView::Event]);
    }
    FindingDraft::new(
        Role::Coincident,
        FindingScope::from_parts(section, column, identity),
        evidence,
    )
}

/// Pays for some rows and emits the drafts about them.
fn report(rows: usize, drafts: Vec<FindingDraft>, sink: &mut FindingSink<'_>) -> (r: Result<
    (),
    LimitHit,
>)
    ensures
        reported(
            old(sink)@,
            final(sink)@,
            seq![Step::Charge(rows)] + emits(views(drafts@)),
            r,
        ),
        *final(final(sink).findings) == *final(old(sink).findings),
        *final(final(sink).budget) == *final(old(sink).budget),
        *final(final(sink).counts) == *final(old(sink).counts),
{
    let ghost before = sink@;
    let ghost first = seq![Step::Charge(rows)];
    let ghost rest = emits(views(drafts@));
    match charge(sink, rows) {
        Ok(_) => {},
        Err(hit) => {
            proof {
                lemma_first_part_refused(before, sink@, first, rest, Err(hit));
            }
            return Err(hit);
        },
    }
    let ghost paid = sink@;
    let r = emit_each(sink, drafts);
    proof {
        lemma_two_parts(before, paid, sink@, first, rest, r);
    }
    r
}

/// The code and the time of an error.
#[derive(Clone, Copy)]
pub struct ErrorFact<'a> {
    pub sqlstate: &'a str,
    pub observed_at_us: i64,
}

impl<'a> View for ErrorFact<'a> {
    type V = (Seq<char>, i64);

    open spec fn view(&self) -> (Seq<char>, i64) {
        (self.sqlstate@, self.observed_at_us)
    }
}

impl<'a> Keyed<(Seq<char>, i64)> for ErrorFact<'a> {
    fn key_into(&self, out: &mut Vec<i128>) {
        let ghost start = ints(out@);
        push_text(out, self.sqlstate);
        push_int(out, self.observed_at_us as i128);
        proof {
            assert(ints(out@) =~= start + self@.rank());
        }
    }
}

/// The fact of an error group with one of the codes.
pub open spec fn error_fact(group: ErrorGroupView, codes: Seq<Seq<char>>) -> Option<
    (Seq<char>, i64),
> {
    match group.sqlstate {
        Some(code) => if group.count > 0 && codes.contains(code) {
            Some((code, group.observed_at_us))
        } else {
            None
        },
        None => None,
    }
}

/// The facts of error groups with one of the codes. Groups with the same code
/// and observation time are one fact. Counts are left out because a batch
/// timestamp does not describe every grouped record.
pub open spec fn error_facts(errors: Seq<ErrorGroupView>, codes: Seq<Seq<char>>) -> Seq<
    (Seq<char>, i64),
> {
    distinct(Seq::new(errors.len(), |i: int| error_fact(errors[i], codes)))
}

pub open spec fn error_drafts(facts: Seq<(Seq<char>, i64)>) -> Seq<DraftView> {
    Seq::new(
        facts.len(),
        |i: int|
            fact_draft(
                PG_LOG_ERRORS@,
                "sqlstate"@,
                seq![IdentityView::Text(facts[i].0), IdentityView::I64(facts[i].1)],
            ),
    )
}

pub open spec fn error_steps(errors: Seq<ErrorGroupView>, codes: Seq<Seq<char>>) -> Seq<Step> {
    seq![Step::Charge(errors.len() as usize)] + emits(error_drafts(error_facts(errors, codes)))
}

fn among(code: &str, codes: &[&'static str]) -> (r: bool)
    ensures
        r == texts(codes@).contains(code@),
{
    let ghost all = texts(codes@);
    let mut i: usize = 0;
    while i < codes.len()
        invariant
            i <= codes.len(),
            all == texts(codes@),
            forall|j: int| 0 <= j < i ==> #[trigger] all[j] != code@,
        decreases codes.len() - i,
    {
        assert(all[i as int] == codes@[i as int]@);
        if text_eq(codes[i], code) {
            return true;
        }
        i = i + 1;
    }
    false
}

/// Emits coincident occurrence facts for the selected codes.
pub fn emit_error_sqlstate(
    events: &LogEventInputs,
    sink: &mut FindingSink<'_>,
    codes: &[&'static str],
) -> (r: Result<(), LimitHit>)
    ensures
        reported(
            old(sink)@,
            final(sink)@,
            error_steps(events@.errors, texts(codes@)),
            r,
        ),
        *final(final(sink).findings) == *final(old(sink).findings),
        *final(final(sink).budget) == *final(old(sink).budget),
        *final(final(sink).counts) == *final(old(sink).counts),
{
    let errors: &[LogErrorGroup] = events.errors();
    let ghost wanted = texts(codes@);
    let mut facts: Vec<Option<ErrorFact>> = Vec::new();
    let mut i: usize = 0;
    while i < errors.len()
        invariant
            i <= errors.len(),
            views(errors@) == events@.errors,
            wanted == texts(codes@),
            facts.len() == i,
            forall|j: int|
                0 <= j < i ==> fact_views(facts@)[j] == error_fact(
                    #[trigger] events@.errors[j],
                    wanted,
                ),
        decreases errors.len() - i,
    {
        let group: &LogErrorGroup = &errors[i];
        let ghost before = fact_views(facts@);
        proof {
            assert(views(errors@)[i as int] == group@);
        }
        let fact: Option<ErrorFact> = match group.sqlstate() {
            Some(code) => if group.count() > 0 && among(code, codes) {
                Some(ErrorFact { sqlstate: code, observed_at_us: group.observed_at_us() })
            } else {
                None
            },
            None => None,
        };
        facts.push(fact);
        proof {
            assert forall|j: int| 0 <= j < i + 1 implies fact_views(facts@)[j] == error_fact(
                #[trigger] events@.errors[j],
                wanted,
            ) by {
                if j < i {
                    assert(fact_views(facts@)[j] == before[j]);
                }
            }
        }
        i = i + 1;
    }
    proof {
        assert(fact_views(facts@) =~= Seq::new(
            events@.errors.len(),
            |j: int| error_fact(events@.errors[j], wanted),
        ));
    }
    let kept: Vec<ErrorFact> = keep_distinct::<(Seq<char>, i64), ErrorFact>(&facts);
    let ghost all = views(kept@);
    let mut drafts: Vec<FindingDraft> = Vec::new();
    i = 0;
    while i < kept.len()
        invariant
            i <= kept.len(),
            all == views(kept@),
            drafts.len() == i,
            forall|j: int| 0 <= j < i ==> (#[trigger] drafts@[j])@ == error_drafts(all)[j],
        decreases kept.len() - i,
    {
        let fact: ErrorFact = kept[i];
        let mut identity: Vec<IdentityValue> = Vec::new();
        identity.push(IdentityValue::Text(fact.sqlstate.to_string()));
        identity.push(IdentityValue::I64(fact.observed_at_us));
        proof {
            assert(views(identity@) =~= seq![
                IdentityView::Text(fact.sqlstate@),
                IdentityView::I64(fact.observed_at_us),
            ]);
        }
        drafts.push(draft_fact(PG_LOG_ERRORS, "sqlstate", identity));
        i = i + 1;
    }
    proof {
        assert(views(drafts@) =~= error_drafts(all));
    }
    report(errors.len(), drafts, sink)
}

/// The time, the process and the signal of a crash.
#[derive(Clone, Copy)]
pub struct CrashFact {
    pub observed_at_us: i64,
    pub pid: Option<i64>,
    pub signal: i64,
}

impl View for CrashFact {
    type V = (i64, (Option<i64>, i64));

    open spec fn view(&self) -> (i64, (Option<i64>, i64)) {
        (self.observed_at_us, (self.pid, self.signal))
    }
}

impl Keyed<(i64, (Option<i64>, i64))> for CrashFact {
    fn key_into(&self, out: &mut Vec<i128>) {
        let ghost start = ints(out@);
        push_int(out, self.observed_at_us as i128);
        match self.pid {
            Some(pid) => {
                push_int(out, 1);
                push_int(out, pid as i128);
            },
            None => {
                push_int(out, 0);
            },
        }
        push_int(out, self.signal as i128);
        proof {
            assert(ints(out@) =~= start + self@.rank());
        }
    }
}

/// The fact of a crash, either by the kill signal or by another one.
pub open spec fn crash_fact(event: LifecycleEvent, killed: bool) -> Option<
    (i64, (Option<i64>, i64)),
> {
    match event.signal {
        Some(signal) => if event.kind == LifecycleKind::Crash && (signal == SIGKILL) == killed {
            Some((event.observed_at_us, (event.pid, signal as i64)))
        } else {
            None
        },
        None => None,
    }
}

/// The facts of crashes. Records of the same time, process and signal are one
/// fact.
pub open spec fn crash_facts(lifecycle: Seq<LifecycleEvent>, killed: bool) -> Seq<
    (i64, (Option<i64>, i64)),
> {
    distinct(Seq::new(lifecycle.len(), |i: int| crash_fact(lifecycle[i], killed)))
}

pub open spec fn crash_identity(fact: (i64, (Option<i64>, i64))) -> Seq<IdentityView> {
    seq![
        IdentityView::I64(fact.0),
        match fact.1.0 {
            Some(pid) => IdentityView::I64(pid),
            None => IdentityView::Bool(false),
        },
        IdentityView::I64(fact.1.1),
    ]
}

pub open spec fn crash_drafts(facts: Seq<(i64, (Option<i64>, i64))>) -> Seq<DraftView> {
    Seq::new(
        facts.len(),
        |i: int| fact_draft(PG_LOG_LIFECYCLE@, "signal"@, crash_identity(facts[i])),
    )
}

pub open spec fn crash_steps(lifecycle: Seq<LifecycleEvent>, killed: bool) -> Seq<Step> {
    seq![Step::Charge(lifecycle.len() as usize)] + emits(
        crash_drafts(crash_facts(lifecycle, killed)),
    )
}

/// Emits one fact per distinct crash, either by the kill signal or by another
/// one.
pub fn emit_crash_signal(
    events: &LogEventInputs,
    sink: &mut FindingSink<'_>,
    killed: bool,
) -> (r: Result<(), LimitHit>)
    ensures
        reported(old(sink)@, final(sink)@, crash_steps(events@.lifecycle, killed), r),
        *final(final(sink).findings) == *final(old(sink).findings),
        *final(final(sink).budget) == *final(old(sink).budget),
        *final(final(sink).counts) == *final(old(sink).counts),
{
    let lifecycle: &[LifecycleEvent] = events.lifecycle();
    let mut facts: Vec<Option<CrashFact>> = Vec::new();
    let mut i: usize = 0;
    while i < lifecycle.len()
        invariant
            i <= lifecycle.len(),
            lifecycle@ == events@.lifecycle,
            facts.len() == i,
            forall|j: int|
                0 <= j < i ==> fact_views(facts@)[j] == crash_fact(
                    #[trigger] lifecycle@[j],
                    killed,
                ),
        decreases lifecycle.len() - i,
    {
        let event: &LifecycleEvent = &lifecycle[i];
        let ghost before = fact_views(facts@);
        let fact: Option<CrashFact> = match (event.kind(), event.signal()) {
            (LifecycleKind::Crash, Some(signal)) => if (signal == SIGKILL) == killed {
                Some(
                    CrashFact {
                        observed_at_us: event.observed_at_us(),
                        pid: event.pid(),
                        signal: signal as i64,
                    },
                )
            } else {
                None
            },
            _ => None,
        };
        facts.push(fact);
        proof {
            assert forall|j: int| 0 <= j < i + 1 implies fact_views(facts@)[j] == crash_fact(
                #[trigger] lifecycle@[j],
                killed,
            ) by {
                if j < i {
                    assert(fact_views(facts@)[j] == before[j]);
                }
            }
        }
        i = i + 1;
    }
    proof {
        assert(fact_views(facts@) =~= Seq::new(
            lifecycle@.len(),
            |j: int| crash_fact(lifecycle@[j], killed),
        ));
    }
    let kept: Vec<CrashFact> = keep_distinct::<(i64, (Option<i64>, i64)), CrashFact>(&facts);
    let ghost all = views(kept@);
    let mut drafts: Vec<FindingDraft> = Vec::new();
    i = 0;
    while i < kept.len()
        invariant
            i <= kept.len(),
            all == views(kept@),
            drafts.len() == i,
            forall|j: int| 0 <= j < i ==> (#[trigger] drafts@[j])@ == crash_drafts(all)[j],
        decreases kept.len() - i,
    {
        let fact: CrashFact = kept[i];
        let mut identity: Vec<IdentityValue> = Vec::new();
        identity.push(IdentityValue::I64(fact.observed_at_us));
        match fact.pid {
            Some(pid) => {
                identity.push(IdentityValue::I64(pid));
            },
            None => {
                identity.push(IdentityValue::Bool(false));
            },
        }
        identity.push(IdentityValue::I64(fact.signal));
        proof {
            assert(views(identity@) =~= crash_identity(fact@));
        }
        drafts.push(draft_fact(PG_LOG_LIFECYCLE, "signal", identity));
        i = i + 1;
    }
    proof {
        assert(views(drafts@) =~= crash_drafts(all));
    }
    report(lifecycle.len(), drafts, sink)
}

/// Every crash by a signal is a fact of exactly one of the two crash lenses.
pub proof fn law_signals_are_partitioned(event: LifecycleEvent)
    ensures
        !(crash_fact(event, true) is Some && crash_fact(event, false) is Some),
        event.kind == LifecycleKind::Crash && event.signal is Some ==> crash_fact(event, true)
            is Some || crash_fact(event, false) is Some,
        event.kind != LifecycleKind::Crash || event.signal is None ==> crash_fact(event, true)
            is None && crash_fact(event, false) is None,
{
}

/// The time of a panic.
#[derive(Clone, Copy)]
pub struct PanicFact {
    pub observed_at_us: i64,
}

impl View for PanicFact {
    type V = i64;

    open spec fn view(&self) -> i64 {
        self.observed_at_us
    }
}

impl Keyed<i64> for PanicFact {
    fn key_into(&self, out: &mut Vec<i128>) {
        push_int(out, self.observed_at_us as i128);
    }
}

pub open spec fn panic_fact(group: ErrorGroupView) -> Option<i64> {
    if group.severity == SEVERITY_PANIC && group.count > 0 {
        Some(group.observed_at_us)
    } else {
        None
    }
}

/// The times at which a panic was seen.
pub open spec fn panic_facts(errors: Seq<ErrorGroupView>) -> Seq<i64> {
    distinct(Seq::new(errors.len(), |i: int| panic_fact(errors[i])))
}

pub open spec fn panic_drafts(facts: Seq<i64>) -> Seq<DraftView> {
    Seq::new(
        facts.len(),
        |i: int|
            fact_draft(PG_LOG_ERRORS@, "severity_panic"@, seq![IdentityView::I64(facts[i])]),
    )
}

pub open spec fn panic_steps(errors: Seq<ErrorGroupView>) -> Seq<Step> {
    seq![Step::Charge(errors.len() as usize)] + emits(panic_drafts(panic_facts(errors)))
}

fn emit_panics(events: &LogEventInputs, sink: &mut FindingSink<'_>) -> (r: Result<(), LimitHit>)
    ensures
        reported(old(sink)@, final(sink)@, panic_steps(events@.errors), r),
        *final(final(sink).findings) == *final(old(sink).findings),
        *final(final(sink).budget) == *final(old(sink).budget),
        *final(final(sink).counts) == *final(old(sink).counts),
{
    let errors: &[LogErrorGroup] = events.errors();
    let mut facts: Vec<Option<PanicFact>> = Vec::new();
    let mut i: usize = 0;
    while i < errors.len()
        invariant
            i <= errors.len(),
            views(errors@) == events@.errors,
            facts.len() == i,
            forall|j: int|
                0 <= j < i ==> fact_views(facts@)[j] == panic_fact(#[trigger] events@.errors[j]),
        decreases errors.len() - i,
    {
        let group: &LogErrorGroup = &errors[i];
        let ghost before = fact_views(facts@);
        proof {
            assert(views(errors@)[i as int] == group@);
        }
        let fact: Option<PanicFact> = if group.severity() == SEVERITY_PANIC && group.count() > 0 {
            Some(PanicFact { observed_at_us: group.observed_at_us() })
        } else {
            None
        };
        facts.push(fact);
        proof {
            assert forall|j: int| 0 <= j < i + 1 implies fact_views(facts@)[j] == panic_fact(
                #[trigger] events@.errors[j],
            ) by {
                if j < i {
                    assert(fact_views(facts@)[j] == before[j]);
                }
            }
        }
        i = i + 1;
    }
    proof {
        assert(fact_views(facts@) =~= Seq::new(
            events@.errors.len(),
            |j: int| panic_fact(events@.errors[j]),
        ));
    }
    let kept: Vec<PanicFact> = keep_distinct::<i64, PanicFact>(&facts);
    let ghost all = views(kept@);
    let mut drafts: Vec<FindingDraft> = Vec::new();
    i = 0;
    while i < kept.len()
        invariant
            i <= kept.len(),
            all == views(kept@),
            drafts.len() == i,
            forall|j: int| 0 <= j < i ==> (#[trigger] drafts@[j])@ == panic_drafts(all)[j],
        decreases kept.len() - i,
    {
        let mut identity: Vec<IdentityValue> = Vec::new();
        identity.push(IdentityValue::I64(kept[i].observed_at_us));
        proof {
            assert(views(identity@) =~= seq![IdentityView::I64(all[i as int])]);
        }
        drafts.push(draft_fact(PG_LOG_ERRORS, "severity_panic", identity));
        i = i + 1;
    }
    proof {
        assert(views(drafts@) =~= panic_drafts(all));
    }
    report(errors.len(), drafts, sink)
}

/// `PG-EVT-001`: a process ended by signal 9. It does not prove a kernel
/// out-of-memory kill, which needs a victim record this source does not carry; a
/// manual kill, a watchdog, or a container runtime look identical here.
pub struct BackendSigkillLens;

impl EventLens for BackendSigkillLens {
    open spec fn id_text(&self) -> Seq<char> {
        "PG-EVT-001"@
    }

    open spec fn cap(&self) -> ConfidenceCap {
        ConfidenceCap::High
    }

    open spec fn event_steps(&self, events: EventsView) -> Seq<Step> {
        crash_steps(events.lifecycle, true)
    }

    fn id(&self) -> (r: &'static str) {
        "PG-EVT-001"
    }

    fn confidence_cap(&self) -> (r: ConfidenceCap) {
        ConfidenceCap::High
    }

    fn evaluate(&self, events: &LogEventInputs, sink: &mut FindingSink<'_>) -> (r: Result<
        (),
        LimitHit,
    >) {
        emit_crash_signal(events, sink, true)
    }
}

/// `PG-EVT-002`: a process ended by a signal other than the kill signal. It does
/// not identify the cause: an extension bug, assertion, hardware fault, or admin
/// signal all reach here, and the process is not necessarily a client backend.
pub struct BackendCrashLens;

impl EventLens for BackendCrashLens {
    open spec fn id_text(&self) -> Seq<char> {
        "PG-EVT-002"@
    }

    open spec fn cap(&self) -> ConfidenceCap {
        ConfidenceCap::High
    }

    open spec fn event_steps(&self, events: EventsView) -> Seq<Step> {
        crash_steps(events.lifecycle, false)
    }

    fn id(&self) -> (r: &'static str) {
        "PG-EVT-002"
    }

    fn confidence_cap(&self) -> (r: ConfidenceCap) {
        ConfidenceCap::High
    }

    fn evaluate(&self, events: &LogEventInputs, sink: &mut FindingSink<'_>) -> (r: Result<
        (),
        LimitHit,
    >) {
        emit_crash_signal(events, sink, false)
    }
}

/// `PG-EVT-003`: a record with panic severity. This does not prove data corruption
/// or a completed outage: its cause ranges over I/O, shared-memory, and
/// internal-invariant failures.
pub struct PanicShutdownLens;

impl EventLens for PanicShutdownLens {
    open spec fn id_text(&self) -> Seq<char> {
        "PG-EVT-003"@
    }

    open spec fn cap(&self) -> ConfidenceCap {
        ConfidenceCap::High
    }

    open spec fn event_steps(&self, events: EventsView) -> Seq<Step> {
        panic_steps(events.errors)
    }

    fn id(&self) -> (r: &'static str) {
        "PG-EVT-003"
    }

    fn confidence_cap(&self) -> (r: ConfidenceCap) {
        ConfidenceCap::High
    }

    fn evaluate(&self, events: &LogEventInputs, sink: &mut FindingSink<'_>) -> (r: Result<
        (),
        LimitHit,
    >) {
        emit_panics(events, sink)
    }
}

/// Log branch of `OS-FS-027`: a token resembles `53100`. It does not identify a
/// mount or distinguish space, inode, quota, or shared-memory exhaustion.
pub struct DiskFullLogLens;

impl EventLens for DiskFullLogLens {
    open spec fn id_text(&self) -> Seq<char> {
        "OS-FS-027"@
    }

    open spec fn cap(&self) -> ConfidenceCap {
        ConfidenceCap::High
    }

    open spec fn event_steps(&self, events: EventsView) -> Seq<Step> {
        error_steps(events.errors, seq![SQLSTATE_DISK_FULL@])
    }

    fn id(&self) -> (r: &'static str) {
        "OS-FS-027"
    }

    fn confidence_cap(&self) -> (r: ConfidenceCap) {
        ConfidenceCap::High
    }

    fn evaluate(&self, events: &LogEventInputs, sink: &mut FindingSink<'_>) -> (r: Result<
        (),
        LimitHit,
    >) {
        let codes: [&'static str; 1] = [SQLSTATE_DISK_FULL];
        proof {
            assert(texts(codes@) =~= seq![SQLSTATE_DISK_FULL@]);
        }
        emit_error_sqlstate(events, sink, &codes)
    }
}

/// `PG-EVT-005`: a token resembles `53200`. This does not prove physical memory
/// exhaustion: the same code covers allocator, lock-table, and shared-memory
/// limits.
pub struct OutOfMemoryLogLens;

impl EventLens for OutOfMemoryLogLens {
    open spec fn id_text(&self) -> Seq<char> {
        "PG-EVT-005"@
    }

    open spec fn cap(&self) -> ConfidenceCap {
        ConfidenceCap::High
    }

    open spec fn event_steps(&self, events: EventsView) -> Seq<Step> {
        error_steps(events.errors, seq![SQLSTATE_OUT_OF_MEMORY@])
    }

    fn id(&self) -> (r: &'static str) {
        "PG-EVT-005"
    }

    fn confidence_cap(&self) -> (r: ConfidenceCap) {
        ConfidenceCap::High
    }

    fn evaluate(&self, events: &LogEventInputs, sink: &mut FindingSink<'_>) -> (r: Result<
        (),
        LimitHit,
    >) {
        let codes: [&'static str; 1] = [SQLSTATE_OUT_OF_MEMORY];
        proof {
            assert(texts(codes@) =~= seq![SQLSTATE_OUT_OF_MEMORY@]);
        }
        emit_error_sqlstate(events, sink, &codes)
    }
}

/// Log branch of `PG-CONN-014`: a token resembles `53300`. It is compatible with a
/// rejected connection, not proof of sustained slot saturation or its cause.
pub struct ConnectionSlotsExhaustedLens;

impl EventLens for ConnectionSlotsExhaustedLens {
    open spec fn id_text(&self) -> Seq<char> {
        "PG-CONN-014"@
    }

    open spec fn cap(&self) -> ConfidenceCap {
        ConfidenceCap::High
    }

    open spec fn event_steps(&self, events: EventsView) -> Seq<Step> {
        error_steps(events.errors, seq![SQLSTATE_TOO_MANY_CONNECTIONS@])
    }

    fn id(&self) -> (r: &'static str) {
        "PG-CONN-014"
    }

    fn confidence_cap(&self) -> (r: ConfidenceCap) {
        ConfidenceCap::High
    }

    fn evaluate(&self, events: &LogEventInputs, sink: &mut FindingSink<'_>) -> (r: Result<
        (),
        LimitHit,
    >) {
        let codes: [&'static str; 1] = [SQLSTATE_TOO_MANY_CONNECTIONS];
        proof {
            assert(texts(codes@) =~= seq![SQLSTATE_TOO_MANY_CONNECTIONS@]);
        }
        emit_error_sqlstate(events, sink, &codes)
    }
}

/// `PG-EVT-007`: a token resembles `40P01`. It does not identify the cause or the
/// cycle: the row is a count by code, so the participating transactions and their
/// order are not recoverable, and the victim is not necessarily the initiator.
pub struct DeadlockLens;

impl EventLens for DeadlockLens {
    open spec fn id_text(&self) -> Seq<char> {
        "PG-EVT-007"@
    }

    open spec fn cap(&self) -> ConfidenceCap {
        ConfidenceCap::High
    }

    open spec fn event_steps(&self, events: EventsView) -> Seq<Step> {
        error_steps(events.errors, seq![SQLSTATE_DEADLOCK@])
    }

    fn id(&self) -> (r: &'static str) {
        "PG-EVT-007"
    }

    fn confidence_cap(&self) -> (r: ConfidenceCap) {
        ConfidenceCap::High
    }

    fn evaluate(&self, events: &LogEventInputs, sink: &mut FindingSink<'_>) -> (r: Result<
        (),
        LimitHit,
    >) {
        let codes: [&'static str; 1] = [SQLSTATE_DEADLOCK];
        proof {
            assert(texts(codes@) =~= seq![SQLSTATE_DEADLOCK@]);
        }
        emit_error_sqlstate(events, sink, &codes)
    }
}

/// `PG-EVT-008`: a token resembles `XX001` or `XX002`. It is not proof of
/// cluster-wide corruption, and panics, generic I/O text, and invalid record
/// lengths do not match this lens.
pub struct DataCorruptionLogLens;

impl EventLens for DataCorruptionLogLens {
    open spec fn id_text(&self) -> Seq<char> {
        "PG-EVT-008"@
    }

    open spec fn cap(&self) -> ConfidenceCap {
        ConfidenceCap::High
    }

    open spec fn event_steps(&self, events: EventsView) -> Seq<Step> {
        error_steps(events.errors, seq![SQLSTATE_DATA_CORRUPTED@, SQLSTATE_INDEX_CORRUPTED@])
    }

    fn id(&self) -> (r: &'static str) {
        "PG-EVT-008"
    }

    fn confidence_cap(&self) -> (r: ConfidenceCap) {
        ConfidenceCap::High
    }

    fn evaluate(&self, events: &LogEventInputs, sink: &mut FindingSink<'_>) -> (r: Result<
        (),
        LimitHit,
    >) {
        let codes: [&'static str; 2] = [SQLSTATE_DATA_CORRUPTED, SQLSTATE_INDEX_CORRUPTED];
        proof {
            assert(texts(codes@) =~= seq![SQLSTATE_DATA_CORRUPTED@, SQLSTATE_INDEX_CORRUPTED@]);
        }
        emit_error_sqlstate(events, sink, &codes)
    }
}

/// A lens of the event catalog.
pub struct CatalogEventLens {
    pub lens: Box<dyn EventLens>,
}

impl CatalogEventLens {
    fn entry(self) -> (r: Self)
        ensures
            r == self,
    {
        self
    }
}

/// Whether a catalog entry reports exactly as a lens does.
#[verifier::opaque]
pub open spec fn event_reports_as<L: EventLens>(entry: CatalogEventLens, lens: L) -> bool {
    &&& entry.lens.id_text() == lens.id_text()
    &&& entry.lens.cap() == lens.cap()
    &&& forall|events: EventsView| #[trigger]
        entry.lens.event_steps(events) == lens.event_steps(events)
}

/// The ids of the event lenses, in catalog order.
#[verifier::opaque]
pub open spec fn event_ids() -> Seq<Seq<char>> {
    seq![
        "PG-EVT-001"@,
        "PG-EVT-002"@,
        "PG-EVT-003"@,
        "OS-FS-027"@,
        "PG-EVT-005"@,
        "PG-CONN-014"@,
        "PG-EVT-007"@,
        "PG-EVT-008"@,
    ]
}

/// The self-contained log-event lenses, applied to every request.
pub fn event_catalog() -> (r: Vec<CatalogEventLens>)
    ensures
        r@.len() == event_ids().len(),
        forall|i: int| 0 <= i < r@.len() ==> (#[trigger] r@[i]).lens.id_text() == event_ids()[i],
        event_reports_as(r@[0], BackendSigkillLens),
        event_reports_as(r@[1], BackendCrashLens),
        event_reports_as(r@[2], PanicShutdownLens),
        event_reports_as(r@[3], DiskFullLogLens),
        event_reports_as(r@[4], OutOfMemoryLogLens),
        event_reports_as(r@[5], ConnectionSlotsExhaustedLens),
        event_reports_as(r@[6], DeadlockLens),
        event_reports_as(r@[7], DataCorruptionLogLens),
{
    proof {
        reveal(event_ids);
    }
    let mut catalog: Vec<CatalogEventLens> = Vec::new();
    let lens0: CatalogEventLens = CatalogEventLens { lens: Box::new(BackendSigkillLens) }.entry();
    assert(event_reports_as(lens0, BackendSigkillLens) && lens0.lens.id_text() == event_ids()[0]) by {
        reveal(event_reports_as);
    }
    catalog.push(lens0);
    let lens1: CatalogEventLens = CatalogEventLens { lens: Box::new(BackendCrashLens) }.entry();
    assert(event_reports_as(lens1, BackendCrashLens) && lens1.lens.id_text() == event_ids()[1]) by {
        reveal(event_reports_as);
    }
    catalog.push(lens1);
    let lens2: CatalogEventLens = CatalogEventLens { lens: Box::new(PanicShutdownLens) }.entry();
    assert(event_reports_as(lens2, PanicShutdownLens) && lens2.lens.id_text() == event_ids()[2]) by {
        reveal(event_reports_as);
    }
    catalog.push(lens2);
    let lens3: CatalogEventLens = CatalogEventLens { lens: Box::new(DiskFullLogLens) }.entry();
    assert(event_reports_as(lens3, DiskFullLogLens) && lens3.lens.id_text() == event_ids()[3]) by {
        reveal(event_reports_as);
    }
    catalog.push(lens3);
    let lens4: CatalogEventLens = CatalogEventLens { lens: Box::new(OutOfMemoryLogLens) }.entry();
    assert(event_reports_as(lens4, OutOfMemoryLogLens) && lens4.lens.id_text() == event_ids()[4]) by {
        reveal(event_reports_as);
    }
    catalog.push(lens4);
    let lens5: CatalogEventLens = CatalogEventLens { lens: Box::new(ConnectionSlotsExhaustedLens) }.entry();
    assert(event_reports_as(lens5, ConnectionSlotsExhaustedLens) && lens5.lens.id_text() == event_ids()[5]) by {
        reveal(event_reports_as);
    }
    catalog.push(lens5);
    let lens6: CatalogEventLens = CatalogEventLens { lens: Box::new(DeadlockLens) }.entry();
    assert(event_reports_as(lens6, DeadlockLens) && lens6.lens.id_text() == event_ids()[6]) by {
        reveal(event_reports_as);
    }
    catalog.push(lens6);
    let lens7: CatalogEventLens = CatalogEventLens { lens: Box::new(DataCorruptionLogLens) }.entry();
    assert(event_reports_as(lens7, DataCorruptionLogLens) && lens7.lens.id_text() == event_ids()[7]) by {
        reveal(event_reports_as);
    }
    catalog.push(lens7);
    catalog
}

/// The ids of the event lenses, in catalog order.
pub fn event_catalog_ids() -> (r: Vec<&'static str>)
    ensures
        texts(r@) == event_ids(),
{
    let catalog: Vec<CatalogEventLens> = event_catalog();
    let mut ids: Vec<&'static str> = Vec::new();
    let mut i: usize = 0;
    while i < catalog.len()
        invariant
            i <= catalog.len(),
            catalog@.len() == event_ids().len(),
            forall|j: int|
                0 <= j < catalog@.len() ==> (#[trigger] catalog@[j]).lens.id_text()
                    == event_ids()[j],
            ids.len() == i,
            forall|j: int| 0 <= j < i ==> (#[trigger] ids@[j])@ == event_ids()[j],
        decreases catalog.len() - i,
    {
        let id: &'static str = catalog[i].lens.id();
        ids.push(id);
        i = i + 1;
    }
    proof {
        assert(texts(ids@) =~= event_ids());
    }
    ids
}

/// Public metadata of one bounded log-evidence branch.
#[derive(Debug, Clone, Copy, PartialEq, Eq)]
pub struct EventCatalogEntry {
    pub lens_id: &'static str,
    pub slug: &'static str,
    pub question: &'static str,
}

/// The mathematical value of a metadata entry.
#[verifier::ext_equal]
pub struct EventEntryView {
    pub lens_id: Seq<char>,
    pub slug: Seq<char>,
    pub question: Seq<char>,
}

impl View for EventCatalogEntry {
    type V = EventEntryView;

    open spec fn view(&self) -> EventEntryView {
        EventEntryView {
            lens_id: self.lens_id@,
            slug: self.slug@,
            question: self.question@,
        }
    }
}

/// The metadata of the event lenses, in catalog order.
#[verifier::opaque]
pub open spec fn event_entries() -> Seq<EventEntryView> {
    seq![
        EventEntryView {
            lens_id: "PG-EVT-001"@,
            slug: "server_child_sigkill"@,
            question: "Зафиксировал ли stderr завершение процесса PostgreSQL сигналом 9?"@,
        },
        EventEntryView {
            lens_id: "PG-EVT-002"@,
            slug: "server_child_signal_termination"@,
            question: "Зафиксировал ли stderr аварийное завершение процесса PostgreSQL сигналом?"@,
        },
        EventEntryView {
            lens_id: "PG-EVT-003"@,
            slug: "panic_severity_observation"@,
            question: "Наблюдалась ли в stderr запись с уровнем PANIC?"@,
        },
        EventEntryView {
            lens_id: "OS-FS-027"@,
            slug: "filesystem_space"@,
            question: "Есть ли признак отказа из-за нехватки пространства или связанного лимита?"@,
        },
        EventEntryView {
            lens_id: "PG-EVT-005"@,
            slug: "postgres_out_of_memory_observation"@,
            question: "Наблюдался ли в stderr признак ошибки PostgreSQL out_of_memory?"@,
        },
        EventEntryView {
            lens_id: "PG-CONN-014"@,
            slug: "connection_saturation"@,
            question: "Есть ли признак отклонённого подключения из-за лимита соединений?"@,
        },
        EventEntryView {
            lens_id: "PG-EVT-007"@,
            slug: "deadlock_observation"@,
            question: "Наблюдался ли в stderr признак обнаруженного PostgreSQL deadlock?"@,
        },
        EventEntryView {
            lens_id: "PG-EVT-008"@,
            slug: "corruption_sqlstate_observation"@,
            question: "Наблюдался ли в stderr признак SQLSTATE XX001 или XX002?"@,
        },
    ]
}

/// The metadata of the event lenses, in catalog order.
pub fn event_catalog_metadata() -> (r: &'static [EventCatalogEntry])
    ensures
        views(r@) == event_entries(),
{
    let r: &'static [EventCatalogEntry] = &[
        EventCatalogEntry {
            lens_id: "PG-EVT-001",
            slug: "server_child_sigkill",
            question: "Зафиксировал ли stderr завершение процесса PostgreSQL сигналом 9?",
        },
        EventCatalogEntry {
            lens_id: "PG-EVT-002",
            slug: "server_child_signal_termination",
            question: "Зафиксировал ли stderr аварийное завершение процесса PostgreSQL сигналом?",
        },
        EventCatalogEntry {
            lens_id: "PG-EVT-003",
            slug: "panic_severity_observation",
            question: "Наблюдалась ли в stderr запись с уровнем PANIC?",
        },
        EventCatalogEntry {
            lens_id: "OS-FS-027",
            slug: "filesystem_space",
            question: "Есть ли признак отказа из-за нехватки пространства или связанного лимита?",
        },
        EventCatalogEntry {
            lens_id: "PG-EVT-005",
            slug: "postgres_out_of_memory_observation",
            question: "Наблюдался ли в stderr признак ошибки PostgreSQL out_of_memory?",
        },
        EventCatalogEntry {
            lens_id: "PG-CONN-014",
            slug: "connection_saturation",
            question: "Есть ли признак отклонённого подключения из-за лимита соединений?",
        },
        EventCatalogEntry {
            lens_id: "PG-EVT-007",
            slug: "deadlock_observation",
            question: "Наблюдался ли в stderr признак обнаруженного PostgreSQL deadlock?",
        },
        EventCatalogEntry {
            lens_id: "PG-EVT-008",
            slug: "corruption_sqlstate_observation",
            question: "Наблюдался ли в stderr признак SQLSTATE XX001 или XX002?",
        },
    ];
    proof {
        reveal(event_entries);
        assert(views(r@) =~= event_entries());
    }
    r
}

/// The metadata names the event lenses, one by one.
pub proof fn law_event_metadata_names_the_lenses(i: int)
    ensures
        event_entries().len() == event_ids().len(),
        0 <= i < event_ids().len() ==> event_entries()[i].lens_id == event_ids()[i],
{
    reveal(event_entries);
    reveal(event_ids);
}

/// The number at the end of an id.
spec fn id_number(id: Seq<char>) -> int {
    (id[id.len() - 3] as int - 48) * 100 + (id[id.len() - 2] as int - 48) * 10 + (
    id[id.len() - 1] as int - 48)
}

/// Where the id with a number stands in the catalog.
spec fn id_place(number: int) -> int {
    if number == 1 {
        0
    } else if number == 2 {
        1
    } else if number == 3 {
        2
    } else if number == 27 {
        3
    } else if number == 5 {
        4
    } else if number == 14 {
        5
    } else if number == 7 {
        6
    } else {
        7
    }
}

/// No two event lenses share an id.
pub proof fn law_event_ids_are_unique(i: int, j: int)
    requires
        0 <= i < event_ids().len(),
        0 <= j < event_ids().len(),
        event_ids()[i] == event_ids()[j],
    ensures
        i == j,
{
    lemma_id_places(i);
    lemma_id_places(j);
}

proof fn lemma_id_places(i: int)
    requires
        0 <= i < event_ids().len(),
    ensures
        id_place(id_number(event_ids()[i])) == i,
{
    reveal(event_ids);
    reveal_strlit("PG-EVT-001");
    reveal_strlit("PG-EVT-002");
    reveal_strlit("PG-EVT-003");
    reveal_strlit("OS-FS-027");
    reveal_strlit("PG-EVT-005");
    reveal_strlit("PG-CONN-014");
    reveal_strlit("PG-EVT-007");
    reveal_strlit("PG-EVT-008");
}

/// Request ceilings for the event-evaluation pass.
#[derive(Debug, Clone, Copy, PartialEq, Eq, Structural)]
pub struct EventConfig {
    pub work_limit: u64,
    pub max_lens_evaluations: u64,
    pub max_findings: u64,
    pub max_evidence_rows: u64,
    pub max_output_bytes: u64,
}

impl EventConfig {
    pub fn production() -> (r: Self)
        ensures
            r == (EventConfig {
                work_limit: 5_000_000,
                max_lens_evaluations: 10_000,
                max_findings: 50_000,
                max_evidence_rows: 200_000,
                max_output_bytes: 8_388_608,
            }),
    {
        EventConfig {
            work_limit: 5_000_000,
            max_lens_evaluations: 10_000,
            max_findings: 50_000,
            max_evidence_rows: 200_000,
            max_output_bytes: 8_388_608,
        }
    }

    pub fn with(
        work_limit: u64,
        max_lens_evaluations: u64,
        max_findings: u64,
        max_evidence_rows: u64,
        max_output_bytes: u64,
    ) -> (r: Self)
        ensures
            r == (EventConfig {
                work_limit,
                max_lens_evaluations,
                max_findings,
                max_evidence_rows,
                max_output_bytes,
            }),
    {
        EventConfig {
            work_limit,
            max_lens_evaluations,
            max_findings,
            max_evidence_rows,
            max_output_bytes,
        }
    }

    /// A configuration without ceilings.
    pub fn for_test() -> (r: Self)
        ensures
            r == (EventConfig {
                work_limit: u64::MAX,
                max_lens_evaluations: u64::MAX,
                max_findings: u64::MAX,
                max_evidence_rows: u64::MAX,
                max_output_bytes: u64::MAX,
            }),
    {
        EventConfig::with(u64::MAX, u64::MAX, u64::MAX, u64::MAX, u64::MAX)
    }

    pub open spec fn limits(self) -> OutputLimits {
        OutputLimits {
            findings: self.max_findings,
            evidence_rows: self.max_evidence_rows,
            output_bytes: self.max_output_bytes,
        }
    }
}

/// Why events cannot be evaluated.
#[derive(Debug, Clone, Copy, PartialEq, Eq)]
pub enum EventError {
    DuplicateLensId(&'static str),
}

/// The facts of one request.
pub struct EventOutcome {
    pub findings: Vec<Finding>,
    pub coverage: CoverageMap,
    /// Never set: the source proves positive occurrences only, so the facts are
    /// not exhaustive even when the evaluation finishes.
    pub complete: bool,
    pub skipped: Vec<EngineSkip>,
}

/// The mathematical value of an outcome.
#[verifier::ext_equal]
pub struct EventOutcomeView {
    pub findings: Seq<FindingView>,
    pub coverage: Map<Seq<char>, LogCoverage>,
    pub complete: bool,
    pub skipped: Seq<SkipView>,
}

impl View for EventOutcome {
    type V = EventOutcomeView;

    open spec fn view(&self) -> EventOutcomeView {
        EventOutcomeView {
            findings: views(self.findings@),
            coverage: self.coverage@,
            complete: self.complete,
            skipped: views(self.skipped@),
        }
    }
}

/// The pass after one more lens.
pub open spec fn event_passed(
    pass: Pass,
    lenses: Seq<&dyn EventLens>,
    at: int,
    events: EventsView,
    config: EventConfig,
) -> Pass {
    let budget = budget_after_admission(
        pass.evaluations,
        config.max_lens_evaluations,
        pass.budget,
    );
    match admission(pass.evaluations, config.max_lens_evaluations, pass.budget) {
        Some(limit) => Pass {
            budget,
            skip: Some(SkipView { lens_id: Some(lenses[at].id_text()), limit }),
            ..pass
        },
        None => {
            let end = run(
                SinkState { findings: pass.findings, budget, counts: pass.counts, hit: None },
                SinkRules {
                    limits: config.limits(),
                    lens_id: lenses[at].id_text(),
                    cap: lenses[at].cap(),
                },
                lenses[at].event_steps(events),
            );
            Pass {
                findings: end.findings,
                budget: end.budget,
                counts: end.counts,
                evaluations: sat((pass.evaluations + 1) as nat),
                skip: match end.hit {
                    Some(limit) => Some(SkipView { lens_id: Some(lenses[at].id_text()), limit }),
                    None => None,
                },
            }
        },
    }
}

/// The pass over the lenses from `at` on, until one is skipped.
pub open spec fn event_passes(
    pass: Pass,
    lenses: Seq<&dyn EventLens>,
    at: nat,
    events: EventsView,
    config: EventConfig,
) -> Pass
    decreases lenses.len() - at,
{
    if at >= lenses.len() || pass.skip is Some {
        pass
    } else {
        event_passes(
            event_passed(pass, lenses, at as int, events, config),
            lenses,
            at + 1,
            events,
            config,
        )
    }
}

/// The pass before the first lens.
pub open spec fn fresh_event_pass(config: EventConfig) -> Pass {
    Pass {
        findings: Seq::empty(),
        budget: BudgetView { limit: config.work_limit, spent: 0, exhausted: false },
        counts: OutputCounts { findings: 0, evidence_rows: 0, output_bytes: 0 },
        evaluations: 0,
        skip: None,
    }
}

/// The first of the first `n` lenses whose id an earlier lens has.
pub open spec fn duplicate_event_id(lenses: Seq<&dyn EventLens>, n: nat) -> Option<Seq<char>>
    decreases n,
{
    if n == 0 {
        None
    } else {
        match duplicate_event_id(lenses, (n - 1) as nat) {
            Some(id) => Some(id),
            None => {
                let id = lenses[n - 1].id_text();
                if exists|i: int| 0 <= i < n - 1 && (#[trigger] lenses[i]).id_text() == id {
                    Some(id)
                } else {
                    None
                }
            },
        }
    }
}

/// The facts of a request, or the id that two lenses share.
pub open spec fn event_analysis(
    events: EventsView,
    lenses: Seq<&dyn EventLens>,
    config: EventConfig,
) -> Result<EventOutcomeView, Seq<char>> {
    match duplicate_event_id(lenses, lenses.len()) {
        Some(id) => Err(id),
        None => {
            let pass = event_passes(fresh_event_pass(config), lenses, 0, events, config);
            Ok(
                EventOutcomeView {
                    findings: ranked_sort(pass.findings),
                    coverage: events.coverage,
                    complete: false,
                    skipped: match pass.skip {
                        Some(skip) => seq![skip],
                        None => Seq::empty(),
                    },
                },
            )
        },
    }
}

pub open spec fn event_result(r: Result<EventOutcome, EventError>) -> Result<
    EventOutcomeView,
    Seq<char>,
> {
    match r {
        Ok(outcome) => Ok(outcome@),
        Err(EventError::DuplicateLensId(id)) => Err(id@),
    }
}

fn find_duplicate_event(lenses: &[&dyn EventLens]) -> (r: Option<&'static str>)
    ensures
        match r {
            Some(id) => duplicate_event_id(lenses@, lenses@.len()) == Some(id@),
            None => duplicate_event_id(lenses@, lenses@.len()) is None,
        },
{
    let mut n: usize = 0;
    while n < lenses.len()
        invariant
            n <= lenses.len(),
            duplicate_event_id(lenses@, n as nat) is None,
        decreases lenses.len() - n,
    {
        let id: &'static str = lenses[n].id();
        let mut i: usize = 0;
        while i < n
            invariant
                i <= n,
                n < lenses.len(),
                id@ == lenses@[n as int].id_text(),
                duplicate_event_id(lenses@, n as nat) is None,
                forall|j: int| 0 <= j < i ==> (#[trigger] lenses@[j]).id_text() != id@,
            decreases n - i,
        {
            if text_eq(lenses[i].id(), id) {
                proof {
                    assert(lenses@[i as int].id_text() == id@);
                    assert(duplicate_event_id(lenses@, (n + 1) as nat) == Some(id@));
                    lemma_duplicate_event_stays(lenses@, (n + 1) as nat, lenses@.len());
                }
                return Some(id);
            }
            i = i + 1;
        }
        n = n + 1;
    }
    None
}

proof fn lemma_duplicate_event_stays(lenses: Seq<&dyn EventLens>, n: nat, m: nat)
    requires
        n <= m,
        duplicate_event_id(lenses, n) is Some,
    ensures
        duplicate_event_id(lenses, m) == duplicate_event_id(lenses, n),
    decreases m,
{
    if n < m {
        lemma_duplicate_event_stays(lenses, n, (m - 1) as nat);
    }
}

/// Admits one event lens and pays for its evaluation.
pub fn admit_event_lens(
    lens_id: &'static str,
    evaluations: &mut u64,
    evaluation_limit: u64,
    budget: &mut WorkBudget,
) -> (r: Result<(), EngineSkip>)
    ensures
        final(budget)@ == budget_after_admission(
            *old(evaluations),
            evaluation_limit,
            old(budget)@,
        ),
        match admission(*old(evaluations), evaluation_limit, old(budget)@) {
            Some(limit) => r is Err && r->Err_0@ == (SkipView { lens_id: Some(lens_id@), limit })
                && *final(evaluations) == *old(evaluations),
            None => r is Ok && *final(evaluations) == sat((*old(evaluations) + 1) as nat),
        },
{
    admit_lens_evaluation(lens_id, evaluations, evaluation_limit, budget)
}

/// Evaluates one lens into the collections of a request.
fn evaluate_event_lens(
    lenses: &[&dyn EventLens],
    at: usize,
    findings: &mut Vec<Finding>,
    budget: &mut WorkBudget,
    counts: &mut OutputCounts,
    limits: OutputLimits,
    events: &LogEventInputs,
) -> (r: Option<LimitHit>)
    requires
        at < lenses.len(),
    ensures
        ({
            let end = run(
                SinkState {
                    findings: views(old(findings)@),
                    budget: old(budget)@,
                    counts: *old(counts),
                    hit: None,
                },
                SinkRules {
                    limits,
                    lens_id: lenses@[at as int].id_text(),
                    cap: lenses@[at as int].cap(),
                },
                lenses@[at as int].event_steps(events@),
            );
            &&& views(final(findings)@) == end.findings
            &&& final(budget)@ == end.budget
            &&& *final(counts) == end.counts
            &&& r == end.hit
        }),
{
    let mut sink = FindingSink::new(
        findings,
        budget,
        counts,
        limits,
        lenses[at].id(),
        lenses[at].confidence_cap(),
    );
    let evaluation = lenses[at].evaluate(events, &mut sink);
    match evaluation {
        Ok(_) => sink.limit_hit(),
        Err(hit) => Some(hit),
    }
}

/// Runs the event lenses over bounded, typed log events.
///
/// Findings share the numeric pass's evidence gate, work budget, output caps,
/// and deterministic ordering. The result is never complete, so the caller never
/// presents the findings as exhaustive.
pub fn evaluate_events(
    events: &LogEventInputs,
    lenses: &[&dyn EventLens],
    config: &EventConfig,
) -> (r: Result<EventOutcome, EventError>)
    ensures
        event_result(r) == event_analysis(events@, lenses@, *config),
{
    if let Some(id) = find_duplicate_event(lenses) {
        return Err(EventError::DuplicateLensId(id));
    }
    let mut budget: WorkBudget = WorkBudget::new(config.work_limit);
    let mut counts: OutputCounts = OutputCounts::new();
    let limits: OutputLimits = OutputLimits::bounded(
        config.max_findings,
        config.max_evidence_rows,
        config.max_output_bytes,
    );
    let mut findings: Vec<Finding> = Vec::new();
    let mut skip: Option<EngineSkip> = None;
    let mut evaluations: u64 = 0;
    let mut at: usize = 0;
    let ghost goal = event_passes(fresh_event_pass(*config), lenses@, 0, events@, *config);
    proof {
        assert(views(findings@) =~= Seq::empty());
        assert((Pass {
            findings: views(findings@),
            budget: budget@,
            counts,
            evaluations,
            skip: skip_view(skip),
        }) =~= fresh_event_pass(*config));
    }
    while at < lenses.len() && skip.is_none()
        invariant
            at <= lenses.len(),
            limits == config.limits(),
            goal == event_passes(
                Pass {
                    findings: views(findings@),
                    budget: budget@,
                    counts,
                    evaluations,
                    skip: skip_view(skip),
                },
                lenses@,
                at as nat,
                events@,
                *config,
            ),
        decreases lenses.len() - at,
    {
        let ghost pass = Pass {
            findings: views(findings@),
            budget: budget@,
            counts,
            evaluations,
            skip: None,
        };
        let id: &'static str = lenses[at].id();
        match admit_event_lens(
            id,
            &mut evaluations,
            config.max_lens_evaluations,
            &mut budget,
        ) {
            Ok(_) => {
                let hit: Option<LimitHit> = evaluate_event_lens(
                    lenses,
                    at,
                    &mut findings,
                    &mut budget,
                    &mut counts,
                    limits,
                    events,
                );
                skip = match hit {
                    Some(limit) => Some(EngineSkip { lens_id: Some(id), limit }),
                    None => None,
                };
            },
            Err(refused) => {
                skip = Some(refused);
            },
        }
        proof {
            assert((Pass {
                findings: views(findings@),
                budget: budget@,
                counts,
                evaluations,
                skip: skip_view(skip),
            }) =~= event_passed(pass, lenses@, at as int, events@, *config));
        }
        at = at + 1;
    }
    let mut skipped: Vec<EngineSkip> = Vec::new();
    if let Some(found) = skip {
        skipped.push(found);
    }
    proof {
        assert(views(skipped@) =~= match goal.skip {
            Some(found) => seq![found],
            None => Seq::empty(),
        });
    }
    let findings: Vec<Finding> = sort_ranked(findings);
    Ok(
        EventOutcome {
            findings,
            coverage: events.coverage().copy(),
            complete: false,
            skipped,
        },
    )
}

/// The outcome is never an all-clear, and it keeps the coverage of the input.
pub proof fn law_events_are_never_exhaustive(
    events: EventsView,
    lenses: Seq<&dyn EventLens>,
    config: EventConfig,
)
    ensures
        event_analysis(events, lenses, config) matches Ok(outcome) ==> !outcome.complete
            && outcome.coverage == events.coverage && outcome.skipped.len() <= 1,
{
}

/// Rows never exceed their ceilings; a dropped row latches the overflow, which
/// nothing clears.
pub proof fn law_dropped_rows_are_remembered(
    events: EventsView,
    group: ErrorGroupView,
    event: LifecycleEvent,
)
    requires
        events.bounded(),
    ensures
        events.with_error(group).bounded(),
        events.with_lifecycle(event).bounded(),
        events.overflow ==> events.with_error(group).overflow && events.with_lifecycle(
            event,
        ).overflow,
        events.with_error(group).errors == events.errors ==> events.with_error(group).overflow,
        events.with_lifecycle(event).lifecycle == events.lifecycle ==> events.with_lifecycle(
            event,
        ).overflow,
{
    assert(events.errors.push(group).len() == events.errors.len() + 1);
    assert(events.lifecycle.push(event).len() == events.lifecycle.len() + 1);
}

/// Two event lenses with one id are never evaluated together.
pub proof fn law_duplicate_event_ids_are_rejected(
    events: EventsView,
    lenses: Seq<&dyn EventLens>,
    config: EventConfig,
    i: int,
    j: int,
)
    requires
        0 <= i < j < lenses.len(),
        lenses[i].id_text() == lenses[j].id_text(),
    ensures
        event_analysis(events, lenses, config) is Err,
{
    lemma_duplicate_event_found(lenses, i, j, lenses.len());
}

pub proof fn lemma_duplicate_event_found(lenses: Seq<&dyn EventLens>, i: int, j: int, n: nat)
    requires
        0 <= i < j < n <= lenses.len(),
        lenses[i].id_text() == lenses[j].id_text(),
    ensures
        duplicate_event_id(lenses, n) is Some,
    decreases n,
{
    if j < n - 1 {
        lemma_duplicate_event_found(lenses, i, j, (n - 1) as nat);
    } else {
        assert(lenses[i].id_text() == lenses[n - 1].id_text());
    }
}

} // verus!
