//! Which log records are reported, and as what.

use crate::events::{
    crash_drafts, crash_fact, crash_facts, crash_steps, error_drafts, error_fact, error_facts,
    error_steps, law_facts_are_reported_once, panic_drafts, panic_fact, panic_facts,
    BackendCrashLens, BackendSigkillLens, ConnectionSlotsExhaustedLens, DataCorruptionLogLens,
    DeadlockLens, DiskFullLogLens, ErrorGroupView, EventLens, EventsView, LifecycleEvent,
    LifecycleKind, OutOfMemoryLogLens, PanicShutdownLens,
};
use crate::evidence::confidence::Role;
use crate::evidence::finding::{DraftView, EvidenceView, ScopeView};
use crate::inspect::emits;
use crate::laws::steps::{drafts, lemma_drafts_after_charge, lemma_drafts_emits};
use crate::model::IdentityView;
use vstd::prelude::*;

verus! {

/// The report of one occurrence: a coincident observation under its scope, with
/// a log event as its only evidence.
pub open spec fn occurrence(
    section: Seq<char>,
    column: Seq<char>,
    identity: Seq<IdentityView>,
) -> DraftView {
    DraftView {
        requested_role: Role::Coincident,
        scope: ScopeView { logical_section: section, column, identity },
        evidence: seq![EvidenceView::Event],
        temporal_direction: false,
    }
}

/// The report of a crash: its time, its process or `false`, and its signal.
pub open spec fn crash_report(observed_at_us: i64, pid: Option<i64>, signal: i32) -> DraftView {
    occurrence(
        "pg_log_lifecycle"@,
        "signal"@,
        seq![
            IdentityView::I64(observed_at_us),
            match pid {
                Some(number) => IdentityView::I64(number),
                None => IdentityView::Bool(false),
            },
            IdentityView::I64(signal as i64),
        ],
    )
}

proof fn lemma_crash_reports_differ(
    a: (i64, Option<i64>, i32),
    b: (i64, Option<i64>, i32),
)
    requires
        crash_report(a.0, a.1, a.2) == crash_report(b.0, b.1, b.2),
    ensures
        a == b,
{
    let x = crash_report(a.0, a.1, a.2).scope.identity;
    let y = crash_report(b.0, b.1, b.2).scope.identity;
    assert(x[0] == IdentityView::I64(a.0) && y[0] == IdentityView::I64(b.0));
    assert(x[1] == y[1] && x[2] == y[2]);
}

spec fn tells_of_crash(
    draft: DraftView,
    lifecycle: Seq<LifecycleEvent>,
    killed: bool,
) -> bool {
    exists|e: int|
        0 <= e < lifecycle.len() && crash_fact(#[trigger] lifecycle[e], killed) is Some && draft
            == crash_report(
            lifecycle[e].observed_at_us,
            lifecycle[e].pid,
            lifecycle[e].signal->Some_0,
        )
}

proof fn lemma_crash_steps(
    lifecycle: Seq<LifecycleEvent>,
    killed: bool,
    observed_at_us: i64,
    pid: Option<i64>,
    signal: i32,
)
    ensures
        drafts(crash_steps(lifecycle, killed)).no_duplicates(),
        drafts(crash_steps(lifecycle, killed)).contains(
            crash_report(observed_at_us, pid, signal),
        ) <==> (signal == 9) == killed && lifecycle.contains(
            LifecycleEvent { observed_at_us, pid, kind: LifecycleKind::Crash, signal: Some(signal) },
        ),
        forall|i: int|
            0 <= i < drafts(crash_steps(lifecycle, killed)).len() ==> exists|
                t: i64,
                p: Option<i64>,
                s: i32,
            |
                #[trigger] drafts(crash_steps(lifecycle, killed))[i]
                    == #[trigger] crash_report(t, p, s),
{
    let all = Seq::new(lifecycle.len(), |i: int| crash_fact(lifecycle[i], killed));
    let facts = crash_facts(lifecycle, killed);
    let list = crash_drafts(facts);
    lemma_drafts_after_charge(lifecycle.len() as usize, emits(list));
    lemma_drafts_emits(list);
    law_facts_are_reported_once(all);
    let wanted = crash_report(observed_at_us, pid, signal);
    let event = LifecycleEvent {
        observed_at_us,
        pid,
        kind: LifecycleKind::Crash,
        signal: Some(signal),
    };
    assert forall|i: int| 0 <= i < facts.len() implies tells_of_crash(
        #[trigger] list[i],
        lifecycle,
        killed,
    ) by {
        assert(facts.contains(facts[i]));
        assert(all.contains(Some(facts[i])));
        let e = all.index_of(Some(facts[i]));
        assert(crash_fact(lifecycle[e], killed) == Some(facts[i]));
        assert(list[i].scope.identity =~= crash_report(
            lifecycle[e].observed_at_us,
            lifecycle[e].pid,
            lifecycle[e].signal->Some_0,
        ).scope.identity);
    }
    assert forall|i: int, j: int| 0 <= i < j < list.len() implies list[i] != list[j] by {
        if list[i] == list[j] {
            let x = list[i].scope.identity;
            let y = list[j].scope.identity;
            assert(x[0] == IdentityView::I64(facts[i].0) && y[0] == IdentityView::I64(facts[j].0));
            assert(x[1] == y[1] && x[2] == y[2]);
            assert(facts[i] == facts[j]);
        }
    }
    if list.contains(wanted) {
        let i = list.index_of(wanted);
        assert(tells_of_crash(list[i], lifecycle, killed));
        let e = choose|e: int|
            0 <= e < lifecycle.len() && crash_fact(#[trigger] lifecycle[e], killed) is Some
                && list[i] == crash_report(
                lifecycle[e].observed_at_us,
                lifecycle[e].pid,
                lifecycle[e].signal->Some_0,
            );
        lemma_crash_reports_differ(
            (observed_at_us, pid, signal),
            (lifecycle[e].observed_at_us, lifecycle[e].pid, lifecycle[e].signal->Some_0),
        );
        assert(lifecycle[e] == event);
    }
    if (signal == 9) == killed && lifecycle.contains(event) {
        let e = lifecycle.index_of(event);
        let fact = crash_fact(event, killed)->Some_0;
        assert(all[e] == Some(fact));
        assert(facts.contains(fact));
        let i = facts.index_of(fact);
        assert(list[i].scope.identity =~= wanted.scope.identity);
        assert(list[i] == wanted);
    }
    assert forall|i: int| 0 <= i < list.len() implies exists|t: i64, p: Option<i64>, s: i32|
        #[trigger] list[i] == #[trigger] crash_report(t, p, s) by {
        assert(tells_of_crash(list[i], lifecycle, killed));
        let e = choose|e: int|
            0 <= e < lifecycle.len() && crash_fact(#[trigger] lifecycle[e], killed) is Some
                && list[i] == crash_report(
                lifecycle[e].observed_at_us,
                lifecycle[e].pid,
                lifecycle[e].signal->Some_0,
            );
        assert(list[i] == crash_report(
            lifecycle[e].observed_at_us,
            lifecycle[e].pid,
            lifecycle[e].signal->Some_0,
        ));
    }
}

/// A kill is reported, under its time, process and signal, exactly if a crash by
/// the kill signal is recorded with that time and process; and each such record
/// is reported once, however often it is recorded.
pub proof fn law_each_kill_is_reported_once(
    events: EventsView,
    observed_at_us: i64,
    pid: Option<i64>,
    signal: i32,
)
    ensures
        drafts(BackendSigkillLens.event_steps(events)).no_duplicates(),
        drafts(BackendSigkillLens.event_steps(events)).contains(
            crash_report(observed_at_us, pid, signal),
        ) <==> signal == 9 && events.lifecycle.contains(
            LifecycleEvent { observed_at_us, pid, kind: LifecycleKind::Crash, signal: Some(signal) },
        ),
        forall|i: int|
            0 <= i < drafts(BackendSigkillLens.event_steps(events)).len() ==> exists|
                t: i64,
                p: Option<i64>,
                s: i32,
            |
                #[trigger] drafts(BackendSigkillLens.event_steps(events))[i]
                    == #[trigger] crash_report(t, p, s),
{
    lemma_crash_steps(events.lifecycle, true, observed_at_us, pid, signal);
}

/// The same of a crash by any other signal.
pub proof fn law_each_crash_is_reported_once(
    events: EventsView,
    observed_at_us: i64,
    pid: Option<i64>,
    signal: i32,
)
    ensures
        drafts(BackendCrashLens.event_steps(events)).no_duplicates(),
        drafts(BackendCrashLens.event_steps(events)).contains(
            crash_report(observed_at_us, pid, signal),
        ) <==> signal != 9 && events.lifecycle.contains(
            LifecycleEvent { observed_at_us, pid, kind: LifecycleKind::Crash, signal: Some(signal) },
        ),
        forall|i: int|
            0 <= i < drafts(BackendCrashLens.event_steps(events)).len() ==> exists|
                t: i64,
                p: Option<i64>,
                s: i32,
            |
                #[trigger] drafts(BackendCrashLens.event_steps(events))[i]
                    == #[trigger] crash_report(t, p, s),
{
    lemma_crash_steps(events.lifecycle, false, observed_at_us, pid, signal);
}

/// The report of an error: its code and its time.
pub open spec fn error_report(code: Seq<char>, observed_at_us: i64) -> DraftView {
    occurrence(
        "pg_log_errors"@,
        "sqlstate"@,
        seq![IdentityView::Text(code), IdentityView::I64(observed_at_us)],
    )
}

/// Whether errors with a code were recorded at a time.
pub open spec fn recorded(errors: Seq<ErrorGroupView>, code: Seq<char>, at: i64) -> bool {
    exists|i: int|
        0 <= i < errors.len() && (#[trigger] errors[i]).sqlstate == Some(code)
            && errors[i].observed_at_us == at && errors[i].count > 0
}

proof fn lemma_error_steps(
    errors: Seq<ErrorGroupView>,
    codes: Seq<Seq<char>>,
    code: Seq<char>,
    at: i64,
)
    ensures
        drafts(error_steps(errors, codes)).no_duplicates(),
        drafts(error_steps(errors, codes)).contains(error_report(code, at)) <==> codes.contains(
            code,
        ) && recorded(errors, code, at),
        forall|i: int|
            0 <= i < drafts(error_steps(errors, codes)).len() ==> exists|c: Seq<char>, t: i64|
                #[trigger] drafts(error_steps(errors, codes))[i] == #[trigger] error_report(c, t),
{
    let all = Seq::new(errors.len(), |i: int| error_fact(errors[i], codes));
    let facts = error_facts(errors, codes);
    let list = error_drafts(facts);
    lemma_drafts_after_charge(errors.len() as usize, emits(list));
    lemma_drafts_emits(list);
    law_facts_are_reported_once(all);
    let wanted = error_report(code, at);
    assert forall|i: int| 0 <= i < list.len() implies #[trigger] list[i] == error_report(
        facts[i].0,
        facts[i].1,
    ) by {}
    assert forall|i: int, j: int| 0 <= i < j < list.len() implies list[i] != list[j] by {
        if list[i] == list[j] {
            let x = list[i].scope.identity;
            let y = list[j].scope.identity;
            assert(x[0] == y[0] && x[1] == y[1]);
            assert(facts[i] == facts[j]);
        }
    }
    if list.contains(wanted) {
        let i = list.index_of(wanted);
        let x = list[i].scope.identity;
        assert(x[0] == IdentityView::Text(facts[i].0) && x[1] == IdentityView::I64(facts[i].1));
        assert(wanted.scope.identity[0] == IdentityView::Text(code));
        assert(wanted.scope.identity[1] == IdentityView::I64(at));
        assert(facts.contains(facts[i]));
        assert(all.contains(Some(facts[i])));
        let e = all.index_of(Some(facts[i]));
        assert(errors[e].sqlstate == Some(code));
    }
    if codes.contains(code) && recorded(errors, code, at) {
        let e = choose|e: int|
            0 <= e < errors.len() && (#[trigger] errors[e]).sqlstate == Some(code)
                && errors[e].observed_at_us == at && errors[e].count > 0;
        assert(all[e] == Some((code, at)));
        assert(facts.contains((code, at)));
        let i = facts.index_of((code, at));
        assert(list[i] == wanted);
    }
    assert forall|i: int| 0 <= i < list.len() implies exists|c: Seq<char>, t: i64|
        #[trigger] list[i] == #[trigger] error_report(c, t) by {
        assert(list[i] == error_report(facts[i].0, facts[i].1));
    }
}

/// The report of a panic: its time.
pub open spec fn panic_report(observed_at_us: i64) -> DraftView {
    occurrence("pg_log_errors"@, "severity_panic"@, seq![IdentityView::I64(observed_at_us)])
}

/// A panic is reported at a time exactly if one was recorded then, once.
pub proof fn law_each_panic_is_reported_once(events: EventsView, at: i64)
    ensures
        drafts(PanicShutdownLens.event_steps(events)).no_duplicates(),
        drafts(PanicShutdownLens.event_steps(events)).contains(panic_report(at)) <==> exists|
            i: int,
        |
            0 <= i < events.errors.len() && (#[trigger] events.errors[i]).severity == 2
                && events.errors[i].observed_at_us == at && events.errors[i].count > 0,
        forall|i: int|
            0 <= i < drafts(PanicShutdownLens.event_steps(events)).len() ==> exists|t: i64|
                #[trigger] drafts(PanicShutdownLens.event_steps(events))[i]
                    == #[trigger] panic_report(t),
{
    let errors = events.errors;
    let all = Seq::new(errors.len(), |i: int| panic_fact(errors[i]));
    let facts = panic_facts(errors);
    let list = panic_drafts(facts);
    lemma_drafts_after_charge(errors.len() as usize, emits(list));
    lemma_drafts_emits(list);
    law_facts_are_reported_once(all);
    let wanted = panic_report(at);
    assert forall|i: int| 0 <= i < list.len() implies #[trigger] list[i] == panic_report(
        facts[i],
    ) && list[i].scope.identity[0] == IdentityView::I64(facts[i]) by {}
    assert(wanted.scope.identity[0] == IdentityView::I64(at));
    assert forall|i: int, j: int| 0 <= i < j < list.len() implies list[i] != list[j] by {
        assert(list[i].scope.identity[0] == IdentityView::I64(facts[i]));
        assert(list[j].scope.identity[0] == IdentityView::I64(facts[j]));
    }
    if list.contains(wanted) {
        let i = list.index_of(wanted);
        assert(facts.contains(facts[i]));
        assert(all.contains(Some(facts[i])));
        let e = all.index_of(Some(facts[i]));
        assert(errors[e].observed_at_us == at);
    }
    if exists|i: int|
        0 <= i < errors.len() && (#[trigger] errors[i]).severity == 2 && errors[i].observed_at_us
            == at && errors[i].count > 0 {
        let e = choose|e: int|
            0 <= e < errors.len() && (#[trigger] errors[e]).severity == 2
                && errors[e].observed_at_us == at && errors[e].count > 0;
        assert(all[e] == Some(at));
        assert(facts.contains(at));
        let i = facts.index_of(at);
        assert(list[i] == wanted);
    }
    assert forall|i: int| 0 <= i < list.len() implies exists|t: i64|
        #[trigger] list[i] == #[trigger] panic_report(t) by {
        assert(list[i] == panic_report(facts[i]));
    }
}

/// A full disk is reported, under its code and time, exactly if errors
/// with that code were recorded at that time, once.
pub proof fn law_each_full_disk_is_reported_once(events: EventsView, code: Seq<char>, at: i64)
    ensures
        drafts(DiskFullLogLens.event_steps(events)).no_duplicates(),
        drafts(DiskFullLogLens.event_steps(events)).contains(error_report(code, at)) <==> (code
            == "53100"@)
            && recorded(events.errors, code, at),
        forall|i: int|
            0 <= i < drafts(DiskFullLogLens.event_steps(events)).len() ==> exists|
                c: Seq<char>,
                t: i64,
            |
                #[trigger] drafts(DiskFullLogLens.event_steps(events))[i]
                    == #[trigger] error_report(c, t),
{
    let codes = seq!["53100"@];
    assert(codes[0] == "53100"@);
    lemma_error_steps(events.errors, codes, code, at);
    assert(codes.contains(code) <==> (code == "53100"@));
}

/// A shortage of memory is reported, under its code and time, exactly if errors
/// with that code were recorded at that time, once.
pub proof fn law_each_memory_shortage_is_reported_once(events: EventsView, code: Seq<char>, at: i64)
    ensures
        drafts(OutOfMemoryLogLens.event_steps(events)).no_duplicates(),
        drafts(OutOfMemoryLogLens.event_steps(events)).contains(error_report(code, at)) <==> (code == "53200"@)
            && recorded(events.errors, code, at),
        forall|i: int|
            0 <= i < drafts(OutOfMemoryLogLens.event_steps(events)).len() ==> exists|
                c: Seq<char>,
                t: i64,
            |
                #[trigger] drafts(OutOfMemoryLogLens.event_steps(events))[i]
                    == #[trigger] error_report(c, t),
{
    let codes = seq!["53200"@];
    assert(codes[0] == "53200"@);
    lemma_error_steps(events.errors, codes, code, at);
    assert(codes.contains(code) <==> (code == "53200"@));
}

/// An exhaustion of connection slots is reported, under its code and time, exactly if errors
/// with that code were recorded at that time, once.
pub proof fn law_each_exhausted_connection_slots_is_reported_once(events: EventsView, code: Seq<char>, at: i64)
    ensures
        drafts(ConnectionSlotsExhaustedLens.event_steps(events)).no_duplicates(),
        drafts(ConnectionSlotsExhaustedLens.event_steps(events)).contains(error_report(code, at)) <==> (code == "53300"@)
            && recorded(events.errors, code, at),
        forall|i: int|
            0 <= i < drafts(ConnectionSlotsExhaustedLens.event_steps(events)).len() ==> exists|
                c: Seq<char>,
                t: i64,
            |
                #[trigger] drafts(ConnectionSlotsExhaustedLens.event_steps(events))[i]
                    == #[trigger] error_report(c, t),
{
    let codes = seq!["53300"@];
    assert(codes[0] == "53300"@);
    lemma_error_steps(events.errors, codes, code, at);
    assert(codes.contains(code) <==> (code == "53300"@));
}

/// A deadlock is reported, under its code and time, exactly if errors
/// with that code were recorded at that time, once.
pub proof fn law_each_deadlock_is_reported_once(events: EventsView, code: Seq<char>, at: i64)
    ensures
        drafts(DeadlockLens.event_steps(events)).no_duplicates(),
        drafts(DeadlockLens.event_steps(events)).contains(error_report(code, at)) <==> (code
            == "40P01"@)
            && recorded(events.errors, code, at),
        forall|i: int|
            0 <= i < drafts(DeadlockLens.event_steps(events)).len() ==> exists|
                c: Seq<char>,
                t: i64,
            |
                #[trigger] drafts(DeadlockLens.event_steps(events))[i]
                    == #[trigger] error_report(c, t),
{
    let codes = seq!["40P01"@];
    assert(codes[0] == "40P01"@);
    lemma_error_steps(events.errors, codes, code, at);
    assert(codes.contains(code) <==> (code == "40P01"@));
}

/// A corruption of data or an index is reported, under its code and time, exactly if errors
/// with that code were recorded at that time, once.
pub proof fn law_each_corruption_is_reported_once(events: EventsView, code: Seq<char>, at: i64)
    ensures
        drafts(DataCorruptionLogLens.event_steps(events)).no_duplicates(),
        drafts(DataCorruptionLogLens.event_steps(events)).contains(error_report(code, at)) <==> (code == "XX001"@ || code == "XX002"@)
            && recorded(events.errors, code, at),
        forall|i: int|
            0 <= i < drafts(DataCorruptionLogLens.event_steps(events)).len() ==> exists|
                c: Seq<char>,
                t: i64,
            |
                #[trigger] drafts(DataCorruptionLogLens.event_steps(events))[i]
                    == #[trigger] error_report(c, t),
{
    let codes = seq!["XX001"@, "XX002"@];
    assert(codes[0] == "XX001"@ && codes[1] == "XX002"@);
    lemma_error_steps(events.errors, codes, code, at);
    assert(codes.contains(code) <==> (code == "XX001"@ || code == "XX002"@));
}
} // verus!
