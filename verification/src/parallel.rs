//! One engine per client, over a whole stream.
//!
//! The router sends every event to the engine of its client, each engine
//! replays what it is fed, and the reports of all engines are written one after
//! the other. The laws say that this is the report of a single engine, and that
//! the share of memory of an engine does not show in its report.
use crate::account::Balances;
use crate::dispatch::{actor_of, clients_of, lemma_actor_is_place_of_client, lemma_clients_of};
use crate::engine::is_report;
use crate::ledger::{empty_ledger, Store};
use crate::model::{empty_engine, EngineState};
use crate::models::{Event, Snapshot};
use crate::replay::{
    events_of, handled_at, ids_have_one_owner, law_clients_replay_apart, law_engine_replays_stream, replayed,
};
use vstd::prelude::*;

verus! {

/// The client of each event.
pub open spec fn rows_of(events: Seq<Event>) -> Seq<u16> {
    events.map_values(|e: Event| e.client)
}

/// The clients of the engines that a stream starts, in order.
pub open spec fn engines_of(events: Seq<Event>) -> Seq<u16> {
    clients_of(rows_of(events))
}

/// The events of the stream that the `k`-th engine is fed, in order.
pub open spec fn fed(events: Seq<Event>, k: int) -> Seq<Event>
    decreases events.len(),
{
    if events.len() == 0 {
        Seq::empty()
    } else {
        let rest = fed(events.drop_last(), k);
        if actor_of(rows_of(events), events.len() - 1) == k {
            rest.push(events.last())
        } else {
            rest
        }
    }
}

proof fn lemma_prefix_is_fed(events: Seq<Event>, k: int, m: int)
    requires
        events.len() <= usize::MAX,
        0 <= k < engines_of(events).len(),
        0 <= m <= events.len(),
    ensures
        fed(events.take(m), k) == events_of(events.take(m), engines_of(events)[k]),
    decreases m,
{
    if m > 0 {
        let rows = rows_of(events);
        let part = events.take(m);
        let clients = clients_of(rows);
        assert(part.drop_last() =~= events.take(m - 1));
        lemma_prefix_is_fed(events, k, m - 1);
        assert(rows_of(part).take(m - 1) =~= rows.take(m - 1));
        assert(rows_of(part)[m - 1] == rows[m - 1]);
        assert(actor_of(rows_of(part), m - 1) == actor_of(rows, m - 1));
        lemma_actor_is_place_of_client(rows, m - 1);
        lemma_clients_of(rows);
        assert(clients[clients.index_of(rows[m - 1])] == rows[m - 1]);
    }
}

/// Every engine is fed exactly the events of its client, in order.
pub proof fn law_engine_is_fed_its_client(events: Seq<Event>, k: int)
    requires
        events.len() <= usize::MAX,
        0 <= k < engines_of(events).len(),
    ensures
        fed(events, k) == events_of(events, engines_of(events)[k]),
{
    assert(events.take(events.len() as int) =~= events);
    lemma_prefix_is_fed(events, k, events.len() as int);
}

/// Every account belongs to a client of the stream.
proof fn lemma_accounts_come_from_events(events: Seq<Event>, c: u16)
    requires
        replayed(empty_ledger(), events) matches Some(l) && l.accounts.contains_key(c),
    ensures
        rows_of(events).contains(c),
    decreases events.len(),
{
    let rows = rows_of(events);
    if events.len() > 0 {
        let rest = events.drop_last();
        let before = replayed(empty_ledger(), rest)->0;
        if before.accounts.contains_key(c) {
            lemma_accounts_come_from_events(rest, c);
            assert(rows[rows_of(rest).index_of(c)] == c);
        } else {
            assert(rows[events.len() - 1] == c);
        }
    }
}

proof fn lemma_events_of(events: Seq<Event>, client: u16)
    ensures
        forall|i: int|
            0 <= i < events_of(events, client).len() ==> (#[trigger] events_of(events, client)[i]).client
                == client,
        !rows_of(events).contains(client) ==> events_of(events, client).len() == 0,
    decreases events.len(),
{
    if events.len() > 0 {
        let rest = events.drop_last();
        lemma_events_of(rest, client);
        if !rows_of(events).contains(client) {
            assert(rows_of(events)[events.len() - 1] != client);
            if rows_of(rest).contains(client) {
                assert(rows_of(events)[rows_of(rest).index_of(client)] == client);
            }
        }
    }
}

/// The events of one client make no account but its own.
pub proof fn law_one_client_has_one_account(events: Seq<Event>, client: u16, c: u16)
    requires
        replayed(empty_ledger(), events_of(events, client)) matches Some(l) && l.accounts.contains_key(c),
    ensures
        c == client,
        rows_of(events).contains(client),
{
    let own = events_of(events, client);
    lemma_events_of(events, client);
    lemma_accounts_come_from_events(own, c);
    let i = rows_of(own).index_of(c);
    assert(own[i].client == client);
}

/// A report holds a row exactly if it is that of an account.
pub proof fn lemma_report_rows(rows: Seq<Snapshot>, accounts: Map<u16, Balances>, row: Snapshot)
    requires
        is_report(rows, accounts),
    ensures
        rows.contains(row) <==> accounts.contains_key(row.client) && accounts[row.client].snapshot() == Some(row),
{
    if rows.contains(row) {
        assert(rows[rows.index_of(row)] == row);
    }
    if accounts.contains_key(row.client) && accounts[row.client].snapshot() == Some(row) {
        let i = choose|i: int| 0 <= i < rows.len() && (#[trigger] rows[i]).client == row.client;
        assert(rows[i] == row);
    }
}

/// The row is in one of the reports.
pub open spec fn written(reports: Seq<Seq<Snapshot>>, row: Snapshot) -> bool {
    exists|k: int| 0 <= k < reports.len() && (#[trigger] reports[k]).contains(row)
}

/// There is one report for each engine: that of the events that it was fed.
pub open spec fn are_reports(events: Seq<Event>, reports: Seq<Seq<Snapshot>>) -> bool {
    &&& reports.len() == engines_of(events).len()
    &&& forall|k: int|
        0 <= k < reports.len() ==> (replayed(empty_ledger(), #[trigger] fed(events, k)) matches Some(l)
            && is_report(reports[k], l.accounts))
}

/// The rows written for a client are those of an engine that was fed the
/// client's events alone, and it is one row at most.
pub proof fn law_written_rows_are_those_of_own_events(
    events: Seq<Event>,
    reports: Seq<Seq<Snapshot>>,
    client: u16,
    own: Seq<Snapshot>,
    row: Snapshot,
)
    requires
        events.len() <= usize::MAX,
        are_reports(events, reports),
        replayed(empty_ledger(), events_of(events, client)) matches Some(l) && is_report(own, l.accounts),
        row.client == client,
    ensures
        written(reports, row) <==> own.contains(row),
        own.len() <= 1,
{
    let rows = rows_of(events);
    let clients = engines_of(events);
    let l = replayed(empty_ledger(), events_of(events, client))->0;
    lemma_clients_of(rows);
    lemma_report_rows(own, l.accounts, row);
    if own.len() > 1 {
        law_one_client_has_one_account(events, client, own[0].client);
        law_one_client_has_one_account(events, client, own[1].client);
        assert(own[0].client != own[1].client);
    }
    if written(reports, row) {
        let k = choose|k: int| 0 <= k < reports.len() && (#[trigger] reports[k]).contains(row);
        let fed_ledger = replayed(empty_ledger(), fed(events, k))->0;
        law_engine_is_fed_its_client(events, k);
        lemma_report_rows(reports[k], fed_ledger.accounts, row);
        law_one_client_has_one_account(events, clients[k], client);
    }
    if own.contains(row) {
        law_one_client_has_one_account(events, client, client);
        assert(clients.contains(client));
        let k = clients.index_of(client);
        law_engine_is_fed_its_client(events, k);
        assert(replayed(empty_ledger(), fed(events, k)) is Some);
        lemma_report_rows(reports[k], l.accounts, row);
    }
}

/// One engine per client writes the rows that a single engine writes for the
/// whole stream, as long as no two clients deposit or withdraw under one ID.
pub proof fn law_parallel_report_is_sequential_report(
    events: Seq<Event>,
    reports: Seq<Seq<Snapshot>>,
    whole: Seq<Snapshot>,
    row: Snapshot,
)
    requires
        events.len() <= usize::MAX,
        ids_have_one_owner(events),
        are_reports(events, reports),
        replayed(empty_ledger(), events) matches Some(l) && is_report(whole, l.accounts),
    ensures
        written(reports, row) <==> whole.contains(row),
{
    let client = row.client;
    let rows = rows_of(events);
    let clients = engines_of(events);
    let all = replayed(empty_ledger(), events)->0;
    law_clients_replay_apart(events, client);
    let one = replayed(empty_ledger(), events_of(events, client))->0;
    lemma_clients_of(rows);
    lemma_report_rows(whole, all.accounts, row);
    if written(reports, row) {
        let k = choose|k: int| 0 <= k < reports.len() && (#[trigger] reports[k]).contains(row);
        let fed_ledger = replayed(empty_ledger(), fed(events, k))->0;
        law_engine_is_fed_its_client(events, k);
        lemma_report_rows(reports[k], fed_ledger.accounts, row);
        law_one_client_has_one_account(events, clients[k], client);
    }
    if whole.contains(row) {
        law_one_client_has_one_account(events, client, client);
        assert(clients.contains(client));
        let k = clients.index_of(client);
        law_engine_is_fed_its_client(events, k);
        assert(replayed(empty_ledger(), fed(events, k)) is Some);
        lemma_report_rows(reports[k], one.accounts, row);
    }
}

/// An engine, started empty and fed this stream, goes through these states.
pub open spec fn is_course(states: Seq<(EngineState, Store)>, events: Seq<Event>) -> bool {
    &&& states.len() == events.len() + 1
    &&& states[0] == (empty_engine(), Map::<u32, Seq<u8>>::empty())
    &&& forall|i: int| 0 <= i < events.len() ==> #[trigger] handled_at(states, events, i)
    &&& forall|i: int|
        0 <= i < events.len() ==> ((#[trigger] events[i]).amount matches Some(amount) ==> amount.valid())
}

/// An engine reports the replay of what it was fed. An event that is refused is
/// skipped and the later ones are still applied.
pub proof fn law_engine_reports_replay(
    states: Seq<(EngineState, Store)>,
    events: Seq<Event>,
    report: Seq<Snapshot>,
)
    requires
        is_course(states, events),
        is_report(report, states.last().0.accounts),
    ensures
        replayed(empty_ledger(), events) matches Some(l) && is_report(report, l.accounts),
{
    law_engine_replays_stream(states, events, events.len() as int);
    assert(events.take(events.len() as int) =~= events);
}

/// Memory does not show: two engines that are fed the same stream report the
/// same rows, whatever their budgets were and whatever they spilled.
pub proof fn law_memory_does_not_show(
    a: Seq<(EngineState, Store)>,
    b: Seq<(EngineState, Store)>,
    events: Seq<Event>,
    report_a: Seq<Snapshot>,
    report_b: Seq<Snapshot>,
    row: Snapshot,
)
    requires
        is_course(a, events),
        is_course(b, events),
        is_report(report_a, a.last().0.accounts),
        is_report(report_b, b.last().0.accounts),
    ensures
        report_a.contains(row) <==> report_b.contains(row),
{
    law_engine_reports_replay(a, events, report_a);
    law_engine_reports_replay(b, events, report_b);
    let l = replayed(empty_ledger(), events)->0;
    lemma_report_rows(report_a, l.accounts, row);
    lemma_report_rows(report_b, l.accounts, row);
}

/// Each engine that the stream starts goes through its course on the events
/// that it is fed, and reports its accounts at the end.
pub open spec fn are_courses(
    events: Seq<Event>,
    courses: Seq<Seq<(EngineState, Store)>>,
    reports: Seq<Seq<Snapshot>>,
) -> bool {
    &&& courses.len() == engines_of(events).len()
    &&& reports.len() == engines_of(events).len()
    &&& forall|k: int|
        0 <= k < courses.len() ==> is_course(#[trigger] courses[k], fed(events, k)) && is_report(
            reports[k],
            courses[k].last().0.accounts,
        )
}

/// The engines of a stream report the replays of what they were fed.
pub proof fn law_engines_report_replays(
    events: Seq<Event>,
    courses: Seq<Seq<(EngineState, Store)>>,
    reports: Seq<Seq<Snapshot>>,
)
    requires
        are_courses(events, courses, reports),
    ensures
        are_reports(events, reports),
{
    assert forall|k: int| 0 <= k < reports.len() implies (replayed(
        empty_ledger(),
        #[trigger] fed(events, k),
    ) matches Some(l) && is_report(reports[k], l.accounts)) by {
        assert(is_course(courses[k], fed(events, k)));
        law_engine_reports_replay(courses[k], fed(events, k), reports[k]);
    }
}

/// The memory limit does not show: a stream that is processed twice, by one
/// engine per client each time, is reported in the same rows, whatever the
/// limits were and whatever was spilled.
pub proof fn law_limit_does_not_show(
    events: Seq<Event>,
    courses_a: Seq<Seq<(EngineState, Store)>>,
    reports_a: Seq<Seq<Snapshot>>,
    courses_b: Seq<Seq<(EngineState, Store)>>,
    reports_b: Seq<Seq<Snapshot>>,
    row: Snapshot,
)
    requires
        are_courses(events, courses_a, reports_a),
        are_courses(events, courses_b, reports_b),
    ensures
        written(reports_a, row) <==> written(reports_b, row),
{
    assert forall|k: int| 0 <= k < reports_a.len() implies (#[trigger] reports_a[k]).contains(row)
        == reports_b[k].contains(row) by {
        assert(is_course(courses_a[k], fed(events, k)));
        assert(is_course(courses_b[k], fed(events, k)));
        law_memory_does_not_show(courses_a[k], courses_b[k], fed(events, k), reports_a[k], reports_b[k], row);
    }
    if written(reports_a, row) {
        let k = choose|k: int| 0 <= k < reports_a.len() && (#[trigger] reports_a[k]).contains(row);
        assert(reports_b[k].contains(row));
    }
    if written(reports_b, row) {
        let k = choose|k: int| 0 <= k < reports_b.len() && (#[trigger] reports_b[k]).contains(row);
        assert(reports_a[k].contains(row));
    }
}

} // verus!
