//! Whole streams of events.
//!
//! Replaying a stream folds [`ledger_apply`] over it. The laws here span
//! streams: clients can be replayed apart from each other, which is what lets
//! one engine per client run in parallel, the held funds of an account are the
//! deposits under dispute, and no funds go below zero.
use crate::amount::{difference_is_exact, lemma_zero_units, min_of, sum_is_exact};
use crate::ledger::{
    agrees, carries_id, claim_applies, empty_ledger, is_claim, is_run, law_empty_engine_is_empty_ledger,
    law_tiers_do_not_show, ledger_apply, merged, Ledger, Moment, Store,
};
use crate::mem_budget::BudgetState;
use crate::model::{empty_engine, Claim, EngineState};
use crate::models::{Event, TransactionType};
use crate::record::Deposit;
use vstd::prelude::*;

verus! {

/// The ledger after a stream of events; `None` if amounts overflow on the way.
pub open spec fn replayed(l: Ledger, events: Seq<Event>) -> Option<Ledger>
    decreases events.len(),
{
    if events.len() == 0 {
        Some(l)
    } else {
        match replayed(l, events.drop_last()) {
            None => None,
            Some(before) => match ledger_apply(before, events.last()) {
                None => None,
                Some((after, _)) => Some(after),
            },
        }
    }
}

/// The events of one client, in order.
pub open spec fn events_of(events: Seq<Event>, client: u16) -> Seq<Event>
    decreases events.len(),
{
    if events.len() == 0 {
        Seq::empty()
    } else {
        let rest = events_of(events.drop_last(), client);
        if events.last().client == client {
            rest.push(events.last())
        } else {
            rest
        }
    }
}

/// The client deposits or withdraws under this ID.
pub open spec fn owns(events: Seq<Event>, tx: u32, client: u16) -> bool {
    exists|i: int|
        0 <= i < events.len() && carries_id(#[trigger] events[i]) && events[i].tx == tx && events[i].client
            == client
}

/// No two clients deposit or withdraw under one ID.
pub open spec fn ids_have_one_owner(events: Seq<Event>) -> bool {
    forall|tx: u32, a: u16, b: u16| #[trigger] owns(events, tx, a) && #[trigger] owns(events, tx, b) ==> a == b
}

/// Only known deposits are under dispute.
pub open spec fn disputes_are_known(l: Ledger) -> bool {
    forall|tx: u32| #[trigger] l.disputed.contains(tx) ==> l.deposits.contains_key(tx)
}

/// A ledger of all clients and a ledger of one client hold the same of that
/// client, where `events` tells whose an ID is.
pub open spec fn same_for(all: Ledger, one: Ledger, client: u16, events: Seq<Event>) -> bool {
    &&& disputes_are_known(all)
    &&& disputes_are_known(one)
    &&& all.accounts.contains_key(client) == one.accounts.contains_key(client)
    &&& all.account(client) == one.account(client)
    &&& forall|tx: u32| #[trigger]
        one.deposits.contains_key(tx) <==> all.deposits.contains_key(tx) && all.deposits[tx].client == client
    &&& forall|tx: u32| #[trigger] one.deposits.contains_key(tx) ==> one.deposits[tx] == all.deposits[tx]
    &&& forall|tx: u32| #[trigger]
        one.deposits.contains_key(tx) ==> one.disputed.contains(tx) == all.disputed.contains(tx)
    &&& forall|tx: u32| #[trigger]
        one.processed.contains(tx) <==> all.processed.contains(tx) && owns(events, tx, client)
}

/// Every deposit belongs to the owner of its ID.
spec fn deposits_are_owned(l: Ledger, events: Seq<Event>) -> bool {
    forall|tx: u32| #[trigger] l.deposits.contains_key(tx) ==> owns(events, tx, l.deposits[tx].client)
}

/// An event of the client keeps the two ledgers the same for it.
proof fn lemma_own_event(all: Ledger, one: Ledger, client: u16, event: Event, events: Seq<Event>)
    requires
        same_for(all, one, client, events),
        ids_have_one_owner(events),
        deposits_are_owned(all, events),
        event.client == client,
        carries_id(event) ==> owns(events, event.tx, client),
        ledger_apply(all, event) is Some,
    ensures
        ledger_apply(one, event) matches Some(end) && same_for(
            (ledger_apply(all, event)->0).0,
            end.0,
            client,
            events,
        ),
        deposits_are_owned((ledger_apply(all, event)->0).0, events),
{
    let tx = event.tx;
    assert(one.deposits.contains_key(tx) <==> all.deposits.contains_key(tx) && all.deposits[tx].client
        == client);
    assert(one.deposits.contains_key(tx) ==> one.deposits[tx] == all.deposits[tx]);
    assert(one.deposits.contains_key(tx) ==> one.disputed.contains(tx) == all.disputed.contains(tx));
    assert(one.processed.contains(tx) <==> all.processed.contains(tx) && owns(events, tx, client));
    if carries_id(event) && all.deposits.contains_key(tx) {
        assert(owns(events, tx, all.deposits[tx].client));
    }
    let after_all = (ledger_apply(all, event)->0).0;
    let after_one = (ledger_apply(one, event)->0).0;
    assert(ledger_apply(one, event) is Some);
    assert forall|k: u32| #[trigger]
        after_one.deposits.contains_key(k) <==> after_all.deposits.contains_key(k)
            && after_all.deposits[k].client == client by {
        assert(one.deposits.contains_key(k) <==> all.deposits.contains_key(k) && all.deposits[k].client
            == client);
    }
    assert forall|k: u32| #[trigger]
        after_one.deposits.contains_key(k) implies after_one.deposits[k] == after_all.deposits[k] by {
        assert(one.deposits.contains_key(k) ==> one.deposits[k] == all.deposits[k]);
    }
    assert forall|k: u32| #[trigger]
        after_one.deposits.contains_key(k) implies after_one.disputed.contains(k)
        == after_all.disputed.contains(k) by {
        assert(one.deposits.contains_key(k) ==> one.disputed.contains(k) == all.disputed.contains(k));
    }
    assert forall|k: u32| #[trigger]
        after_one.processed.contains(k) <==> after_all.processed.contains(k) && owns(events, k, client) by {
        assert(one.processed.contains(k) <==> all.processed.contains(k) && owns(events, k, client));
    }
}

/// An event of another client changes nothing for this one.
proof fn lemma_foreign_event(all: Ledger, one: Ledger, client: u16, event: Event, events: Seq<Event>)
    requires
        same_for(all, one, client, events),
        ids_have_one_owner(events),
        deposits_are_owned(all, events),
        event.client != client,
        carries_id(event) ==> owns(events, event.tx, event.client),
        ledger_apply(all, event) is Some,
    ensures
        same_for((ledger_apply(all, event)->0).0, one, client, events),
        deposits_are_owned((ledger_apply(all, event)->0).0, events),
{
    let after = (ledger_apply(all, event)->0).0;
    assert forall|k: u32| #[trigger]
        one.deposits.contains_key(k) <==> after.deposits.contains_key(k) && after.deposits[k].client == client by {
        assert(one.deposits.contains_key(k) <==> all.deposits.contains_key(k) && all.deposits[k].client
            == client);
    }
    assert forall|k: u32| #[trigger]
        one.processed.contains(k) <==> after.processed.contains(k) && owns(events, k, client) by {
        assert(one.processed.contains(k) <==> all.processed.contains(k) && owns(events, k, client));
    }
}

proof fn lemma_prefix_replays_apart(events: Seq<Event>, k: int, client: u16)
    requires
        ids_have_one_owner(events),
        0 <= k <= events.len(),
        replayed(empty_ledger(), events.take(k)) is Some,
    ensures
        deposits_are_owned(replayed(empty_ledger(), events.take(k))->0, events),
        replayed(empty_ledger(), events_of(events.take(k), client)) matches Some(one) && same_for(
            replayed(empty_ledger(), events.take(k))->0,
            one,
            client,
            events,
        ),
    decreases k,
{
    if k > 0 {
        let event = events[k - 1];
        assert(events.take(k).drop_last() =~= events.take(k - 1));
        assert(events.take(k).last() == event);
        lemma_prefix_replays_apart(events, k - 1, client);
        assert(carries_id(event) ==> owns(events, event.tx, event.client));
        let all = replayed(empty_ledger(), events.take(k - 1))->0;
        let mine = events_of(events.take(k - 1), client);
        let one = replayed(empty_ledger(), mine)->0;
        if event.client == client {
            assert(mine.push(event).drop_last() =~= mine);
            lemma_own_event(all, one, client, event, events);
        } else {
            lemma_foreign_event(all, one, client, event, events);
        }
    }
}

/// Clients can be replayed apart: as long as no two clients deposit or withdraw
/// under one ID, a client's account after the whole stream is its account after
/// its own events alone, and so are its deposits, disputes and withdrawals.
pub proof fn law_clients_replay_apart(events: Seq<Event>, client: u16)
    requires
        ids_have_one_owner(events),
        replayed(empty_ledger(), events) is Some,
    ensures
        replayed(empty_ledger(), events_of(events, client)) matches Some(one) && same_for(
            replayed(empty_ledger(), events)->0,
            one,
            client,
            events,
        ),
{
    assert(events.take(events.len() as int) =~= events);
    lemma_prefix_replays_apart(events, events.len() as int, client);
}

/// Some honest run takes the engine and its store through the event.
pub open spec fn handled(
    e: EngineState,
    store: Store,
    event: Event,
    after: EngineState,
    after_store: Store,
) -> bool {
    exists|b: BudgetState, run: Seq<Moment>, budgets: Seq<BudgetState>|
        #[trigger] is_run(e, b, store, event, run, budgets) && run.last().engine == after && run.last().store
            == after_store
}

/// The `i`-th event took the engine from its `i`-th state to the next.
pub open spec fn handled_at(states: Seq<(EngineState, Store)>, events: Seq<Event>, i: int) -> bool {
    handled(states[i].0, states[i].1, events[i], states[i + 1].0, states[i + 1].1)
}

/// An engine that has been fed a stream stands for the replayed ledger, however
/// small its share of memory was: after every event its accounts, its disputes
/// and its deposits are those of the replay.
pub proof fn law_engine_replays_stream(states: Seq<(EngineState, Store)>, events: Seq<Event>, k: int)
    requires
        states.len() == events.len() + 1,
        states[0] == (empty_engine(), Map::<u32, Seq<u8>>::empty()),
        forall|i: int| 0 <= i < events.len() ==> #[trigger] handled_at(states, events, i),
        forall|i: int|
            0 <= i < events.len() ==> ((#[trigger] events[i]).amount matches Some(amount) ==> amount.valid()),
        0 <= k <= events.len(),
    ensures
        agrees(states[k].0, states[k].1),
        replayed(empty_ledger(), events.take(k)) == Some(merged(states[k].0, states[k].1)),
    decreases k,
{
    if k == 0 {
        law_empty_engine_is_empty_ledger();
    } else {
        law_engine_replays_stream(states, events, k - 1);
        assert(handled_at(states, events, k - 1));
        let (e, store) = states[k - 1];
        let event = events[k - 1];
        let (b, run, budgets) = choose|b: BudgetState, run: Seq<Moment>, budgets: Seq<BudgetState>|
            #[trigger] is_run(e, b, store, event, run, budgets) && run.last().engine == states[k].0
                && run.last().store == states[k].1;
        law_tiers_do_not_show(e, b, store, event, run, budgets);
        assert(events.take(k).drop_last() =~= events.take(k - 1));
    }
}

/// The client's deposits under dispute.
pub open spec fn open_disputes(l: Ledger, client: u16) -> Set<u32> {
    l.disputed.filter(|tx: u32| l.deposits.contains_key(tx) && l.deposits[tx].client == client)
}

/// The sum of these deposits.
pub open spec fn deposit_units(txs: Set<u32>, deposits: Map<u32, Deposit>) -> int
    decreases txs.len(),
{
    if txs.finite() && txs.len() > 0 {
        let tx = txs.choose();
        deposits[tx].amount.units() + deposit_units(txs.remove(tx), deposits)
    } else {
        0
    }
}

/// The held funds of every active account are the sum of its deposits under
/// dispute; no deposit is negative.
pub open spec fn held_is_disputed(l: Ledger) -> bool {
    &&& disputes_are_known(l)
    &&& l.disputed.finite()
    &&& forall|tx: u32| #[trigger] l.deposits.contains_key(tx) ==> l.deposits[tx].amount.units() >= 0
    &&& forall|c: u16|
        !(#[trigger] l.account(c)).is_locked() ==> l.account(c).held.units() == deposit_units(
            open_disputes(l, c),
            l.deposits,
        )
}

/// The event deposits nothing negative and moves funds to and from held
/// without losing a digit.
pub open spec fn moves_exactly(l: Ledger, event: Event) -> bool {
    let account = l.account(event.client);
    let amount = l.deposits[event.tx].amount;
    match (event.type_tx, event.amount) {
        (TransactionType::Deposit, Some(deposited)) => deposited.units() >= 0,
        (TransactionType::Dispute, _) => claim_applies(l, Claim::Dispute, event.client, event.tx)
            && account.covers(amount) ==> sum_is_exact(account.held, amount),
        (TransactionType::Resolve, _) => claim_applies(l, Claim::Resolve, event.client, event.tx)
            && !account.is_locked() ==> difference_is_exact(account.held, min_of(amount, account.held)),
        _ => true,
    }
}

proof fn lemma_deposit_units_remove(txs: Set<u32>, deposits: Map<u32, Deposit>, tx: u32)
    requires
        txs.finite(),
        txs.contains(tx),
    ensures
        deposit_units(txs, deposits) == deposits[tx].amount.units() + deposit_units(txs.remove(tx), deposits),
    decreases txs.len(),
{
    let first = txs.choose();
    if first != tx {
        lemma_deposit_units_remove(txs.remove(first), deposits, tx);
        lemma_deposit_units_remove(txs.remove(tx), deposits, first);
        assert(txs.remove(first).remove(tx) =~= txs.remove(tx).remove(first));
    }
}

proof fn lemma_deposit_units_same(txs: Set<u32>, a: Map<u32, Deposit>, b: Map<u32, Deposit>)
    requires
        forall|tx: u32| #[trigger] txs.contains(tx) ==> a[tx] == b[tx],
    ensures
        deposit_units(txs, a) == deposit_units(txs, b),
    decreases txs.len(),
{
    if txs.finite() && txs.len() > 0 {
        let tx = txs.choose();
        assert(txs.contains(tx));
        lemma_deposit_units_same(txs.remove(tx), a, b);
    }
}

proof fn lemma_deposit_units_nonnegative(txs: Set<u32>, deposits: Map<u32, Deposit>)
    requires
        forall|tx: u32| #[trigger] txs.contains(tx) ==> deposits[tx].amount.units() >= 0,
    ensures
        deposit_units(txs, deposits) >= 0,
    decreases txs.len(),
{
    if txs.finite() && txs.len() > 0 {
        let tx = txs.choose();
        assert(txs.contains(tx));
        lemma_deposit_units_nonnegative(txs.remove(tx), deposits);
    }
}

/// At the start nothing is held and nothing is disputed.
pub proof fn law_nothing_held_at_first()
    ensures
        held_is_disputed(empty_ledger()),
{
    let l = empty_ledger();
    assert forall|c: u16| !(#[trigger] l.account(c)).is_locked() implies l.account(c).held.units()
        == deposit_units(open_disputes(l, c), l.deposits) by {
        lemma_zero_units(l.account(c).held);
        assert(open_disputes(l, c) =~= Set::empty());
    }
}

/// The held funds of every active account stay the sum of its deposits under
/// dispute.
pub proof fn law_held_stays_disputed(l: Ledger, event: Event)
    requires
        held_is_disputed(l),
        moves_exactly(l, event),
        ledger_apply(l, event) is Some,
    ensures
        held_is_disputed((ledger_apply(l, event)->0).0),
{
    let after = (ledger_apply(l, event)->0).0;
    let tx = event.tx;
    assert forall|c: u16| !(#[trigger] after.account(c)).is_locked() implies after.account(c).held.units()
        == deposit_units(open_disputes(after, c), after.deposits) by {
        let before_set = open_disputes(l, c);
        let after_set = open_disputes(after, c);
        assert(!l.account(c).is_locked() ==> l.account(c).held.units() == deposit_units(before_set, l.deposits));
        lemma_deposit_units_same(before_set, l.deposits, after.deposits);
        if after.disputed == l.disputed {
            assert(after_set =~= before_set);
        } else if l.deposits[tx].client != c {
            assert(after_set =~= before_set);
        } else if event.type_tx is Dispute {
            assert(after_set =~= before_set.insert(tx));
            lemma_deposit_units_remove(after_set, l.deposits, tx);
            assert(after_set.remove(tx) =~= before_set);
        } else {
            assert(after_set =~= before_set.remove(tx));
            assert(before_set.contains(tx));
            lemma_deposit_units_remove(before_set, l.deposits, tx);
            lemma_deposit_units_nonnegative(after_set, l.deposits);
        }
    }
}

/// The event carries no negative amount, and what it does to the account's
/// balances loses no digit.
pub open spec fn loses_no_digit(l: Ledger, event: Event) -> bool {
    let account = l.account(event.client);
    let amount = l.deposits[event.tx].amount;
    let settled = min_of(amount, account.held);
    match (event.type_tx, event.amount) {
        (TransactionType::Deposit, Some(deposited)) => deposited.units() >= 0 && (!l.knows(event.tx)
            && !account.is_locked() ==> sum_is_exact(account.available, deposited)),
        (TransactionType::Withdrawal, Some(withdrawn)) => withdrawn.units() >= 0 && (!l.knows(event.tx)
            && account.covers(withdrawn) ==> difference_is_exact(account.available, withdrawn)),
        (TransactionType::Dispute, _) => claim_applies(l, Claim::Dispute, event.client, event.tx)
            && account.covers(amount) ==> difference_is_exact(account.available, amount) && sum_is_exact(
            account.held,
            amount,
        ),
        (TransactionType::Resolve, _) => claim_applies(l, Claim::Resolve, event.client, event.tx)
            && !account.is_locked() ==> difference_is_exact(account.held, settled) && sum_is_exact(
            account.available,
            settled,
        ),
        (TransactionType::Chargeback, _) => claim_applies(l, Claim::Chargeback, event.client, event.tx)
            && !account.is_locked() ==> difference_is_exact(account.held, settled),
        _ => true,
    }
}

/// No event of the stream carries a negative amount or loses a digit.
pub open spec fn stream_loses_no_digit(l: Ledger, events: Seq<Event>) -> bool
    decreases events.len(),
{
    events.len() > 0 ==> stream_loses_no_digit(l, events.drop_last()) && (replayed(
        l,
        events.drop_last(),
    ) matches Some(before) ==> loses_no_digit(before, events.last()))
}

/// No deposit and no balance is below zero.
pub open spec fn nothing_below_zero(l: Ledger) -> bool {
    &&& forall|tx: u32| #[trigger] l.deposits.contains_key(tx) ==> l.deposits[tx].amount.units() >= 0
    &&& forall|c: u16|
        (#[trigger] l.account(c)).available.units() >= 0 && l.account(c).held.units() >= 0
}

/// An event that carries no negative amount and loses no digit leaves no
/// balance below zero.
pub proof fn law_funds_stay_above_zero(l: Ledger, event: Event)
    requires
        nothing_below_zero(l),
        loses_no_digit(l, event),
        ledger_apply(l, event) is Some,
    ensures
        nothing_below_zero((ledger_apply(l, event)->0).0),
{
    let after = (ledger_apply(l, event)->0).0;
    assert forall|c: u16|
        (#[trigger] after.account(c)).available.units() >= 0 && after.account(c).held.units() >= 0 by {
        assert(l.account(c).available.units() >= 0 && l.account(c).held.units() >= 0);
        assert(l.deposits.contains_key(event.tx) ==> l.deposits[event.tx].amount.units() >= 0);
    }
}

/// After any stream without negative amounts in which no digit is lost, no
/// account has available or held funds below zero, and the held funds of every
/// active account are the sum of its deposits under dispute.
pub proof fn law_streams_keep_funds_above_zero(events: Seq<Event>)
    requires
        stream_loses_no_digit(empty_ledger(), events),
        replayed(empty_ledger(), events) is Some,
    ensures
        nothing_below_zero(replayed(empty_ledger(), events)->0),
        held_is_disputed(replayed(empty_ledger(), events)->0),
    decreases events.len(),
{
    let l = empty_ledger();
    if events.len() == 0 {
        law_nothing_held_at_first();
        assert forall|c: u16|
            (#[trigger] l.account(c)).available.units() >= 0 && l.account(c).held.units() >= 0 by {
            lemma_zero_units(l.account(c).available);
            lemma_zero_units(l.account(c).held);
        }
    } else {
        let before = replayed(l, events.drop_last())->0;
        law_streams_keep_funds_above_zero(events.drop_last());
        law_funds_stay_above_zero(before, events.last());
        law_held_stays_disputed(before, events.last());
    }
}

/// The `i`-th event is the first deposit or withdrawal under this ID.
pub open spec fn is_first_use(events: Seq<Event>, tx: u32, i: int) -> bool {
    &&& 0 <= i < events.len()
    &&& carries_id(events[i])
    &&& events[i].tx == tx
    &&& forall|j: int| 0 <= j < i ==> !(carries_id(#[trigger] events[j]) && events[j].tx == tx)
}

/// No event deposits or withdraws under this ID.
pub open spec fn is_unused(events: Seq<Event>, tx: u32) -> bool {
    forall|j: int| 0 <= j < events.len() ==> !(carries_id(#[trigger] events[j]) && events[j].tx == tx)
}

/// An ID that no event of a stream has used belongs to nothing.
pub proof fn law_unused_id_is_unknown(events: Seq<Event>, tx: u32)
    requires
        is_unused(events, tx),
        replayed(empty_ledger(), events) is Some,
    ensures
        !(replayed(empty_ledger(), events)->0).knows(tx),
        (replayed(empty_ledger(), events)->0).deposit(tx) is None,
    decreases events.len(),
{
    if events.len() > 0 {
        let rest = events.drop_last();
        assert(is_unused(rest, tx)) by {
            assert forall|j: int| 0 <= j < rest.len() implies !(carries_id(#[trigger] rest[j]) && rest[j].tx
                == tx) by {
                assert(rest[j] == events[j]);
            }
        }
        assert(events[events.len() - 1] == events.last());
        law_unused_id_is_unknown(rest, tx);
    }
}

/// A lookup finds what the first use of an ID left: its deposit, whatever came
/// under the ID later, and nothing if the first use was a withdrawal.
pub proof fn law_lookup_finds_first_use(events: Seq<Event>, tx: u32, i: int)
    requires
        is_first_use(events, tx, i),
        replayed(empty_ledger(), events) is Some,
    ensures
        (replayed(empty_ledger(), events)->0).deposit(tx) == (if events[i].type_tx is Deposit {
            Some(Deposit { client: events[i].client, amount: events[i].amount->0 })
        } else {
            None
        }),
        (replayed(empty_ledger(), events)->0).processed.contains(tx) == (events[i].type_tx is Withdrawal),
    decreases events.len(),
{
    let rest = events.drop_last();
    if i == events.len() - 1 {
        assert(is_unused(rest, tx)) by {
            assert forall|j: int| 0 <= j < rest.len() implies !(carries_id(#[trigger] rest[j]) && rest[j].tx
                == tx) by {
                assert(rest[j] == events[j]);
            }
        }
        law_unused_id_is_unknown(rest, tx);
    } else {
        assert forall|j: int| 0 <= j < i implies !(carries_id(#[trigger] rest[j]) && rest[j].tx == tx) by {
            assert(rest[j] == events[j]);
        }
        assert(rest[i] == events[i]);
        law_lookup_finds_first_use(rest, tx, i);
    }
}

/// The stream without deposits and withdrawals that carry no amount.
pub open spec fn without_refused(events: Seq<Event>) -> Seq<Event>
    decreases events.len(),
{
    if events.len() == 0 {
        Seq::empty()
    } else {
        let rest = without_refused(events.drop_last());
        if carries_id(events.last()) || is_claim(events.last()) {
            rest.push(events.last())
        } else {
            rest
        }
    }
}

/// Refused events can be left out of a stream: the rest is processed as if they
/// had not been there.
pub proof fn law_refused_events_do_not_count(l: Ledger, events: Seq<Event>)
    ensures
        replayed(l, without_refused(events)) == replayed(l, events),
    decreases events.len(),
{
    if events.len() > 0 {
        let rest = without_refused(events.drop_last());
        law_refused_events_do_not_count(l, events.drop_last());
        assert(rest.push(events.last()).drop_last() =~= rest);
    }
}

} // verus!
