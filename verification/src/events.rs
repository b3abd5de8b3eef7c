//! What each event does to a ledger, in plain quantities.
//!
//! The laws say of every event, whatever the ledger holds, which balances
//! change by how much, and that everything else stays as it is. They look at
//! the fields of accounts alone.
use crate::account::{AccountState, Balances};
use crate::amount::{difference, sum, Number};
use crate::ledger::{ledger_apply, Ledger};
use crate::model::ApplyError;
use crate::models::Event;
use crate::record::Deposit;
use vstd::prelude::*;

verus! {

/// The client's account; an empty active one if there is none.
pub open spec fn holding(accounts: Map<u16, Balances>, client: u16) -> Balances {
    if accounts.contains_key(client) {
        accounts[client]
    } else {
        let nothing = Number { negative: false, magnitude: 0, scale: 0 };
        Balances { client, available: nothing, held: nothing, state: AccountState::Active }
    }
}

/// The event was accepted and left this ledger.
pub open spec fn accepted(l: Ledger, event: Event, after: Ledger) -> bool {
    ledger_apply(l, event) == Some((after, Ok::<(), ApplyError>(())))
}

/// The ledger with another account for a client.
pub open spec fn holding_set(l: Ledger, client: u16, account: Balances) -> Ledger {
    Ledger {
        accounts: l.accounts.insert(client, account),
        disputed: l.disputed,
        processed: l.processed,
        deposits: l.deposits,
    }
}

/// A deposit under a new ID is recorded. On an active account it raises the
/// available funds by its amount and changes nothing else; on a locked account
/// it changes no funds. It has no end exactly if the sum overflows.
pub proof fn law_deposit_event_credits(l: Ledger, event: Event, amount: Number)
    requires
        event.type_tx is Deposit,
        event.amount == Some(amount),
        !l.processed.contains(event.tx),
        !l.deposits.contains_key(event.tx),
    ensures
        ({
            let before = holding(l.accounts, event.client);
            let deposits = l.deposits.insert(event.tx, Deposit { client: event.client, amount });
            &&& before.state == AccountState::Locked ==> accepted(
                l,
                event,
                Ledger { deposits, ..holding_set(l, event.client, before) },
            )
            &&& before.state == AccountState::Active && sum(before.available, amount) is None ==> ledger_apply(
                l,
                event,
            ) is None
            &&& before.state == AccountState::Active ==> (sum(before.available, amount) matches Some(available)
                ==> accepted(
                l,
                event,
                Ledger { deposits, ..holding_set(l, event.client, Balances { available, ..before }) },
            ))
        }),
        ({
            let before = holding(l.accounts, event.client);
            let after = holding((ledger_apply(l, event)->0).0.accounts, event.client);
            before.state == AccountState::Active && (sum(before.available, amount) matches Some(s) && s.units()
                == before.available.units() + amount.units()) ==> ledger_apply(l, event) is Some
                && after.available.units() == before.available.units() + amount.units() && after.held == before.held
                && after.state == before.state
        }),
{
}

/// A withdrawal under a new ID records the ID. If the account is active and has
/// at least the amount available, the available funds fall by the amount and
/// nothing else changes; otherwise no funds change. It has no end exactly if the
/// difference overflows.
pub proof fn law_withdrawal_event_debits(l: Ledger, event: Event, amount: Number)
    requires
        event.type_tx is Withdrawal,
        event.amount == Some(amount),
        !l.processed.contains(event.tx),
        !l.deposits.contains_key(event.tx),
    ensures
        ({
            let before = holding(l.accounts, event.client);
            let processed = l.processed.insert(event.tx);
            let affordable = before.state == AccountState::Active && amount.units() <= before.available.units();
            &&& !affordable ==> accepted(
                l,
                event,
                Ledger { processed, ..holding_set(l, event.client, before) },
            )
            &&& affordable && difference(before.available, amount) is None ==> ledger_apply(l, event) is None
            &&& affordable ==> (difference(before.available, amount) matches Some(available) ==> accepted(
                l,
                event,
                Ledger { processed, ..holding_set(l, event.client, Balances { available, ..before }) },
            ))
        }),
        ({
            let before = holding(l.accounts, event.client);
            let after = holding((ledger_apply(l, event)->0).0.accounts, event.client);
            before.state == AccountState::Active && amount.units() <= before.available.units() && (difference(
                before.available,
                amount,
            ) matches Some(d) && d.units() == before.available.units() - amount.units()) ==> ledger_apply(
                l,
                event,
            ) is Some && after.available.units() == before.available.units() - amount.units() && after.held
                == before.held && after.state == before.state
        }),
{
}

/// The deposit under the event's ID is the client's own.
pub open spec fn is_own(l: Ledger, event: Event, amount: Number) -> bool {
    l.deposits.contains_key(event.tx) && l.deposits[event.tx].client == event.client && l.deposits[event.tx].amount
        == amount
}

/// A dispute of the client's own undisputed deposit, on an active account that
/// has at least its amount available, moves exactly that amount from available
/// to held and marks the deposit; otherwise no funds change and it stays
/// unmarked. It has no end exactly if one of the two balances overflows.
pub proof fn law_dispute_event_holds_deposit(l: Ledger, event: Event, amount: Number)
    requires
        event.type_tx is Dispute,
        is_own(l, event, amount),
        !l.disputed.contains(event.tx),
    ensures
        ({
            let before = holding(l.accounts, event.client);
            let affordable = before.state == AccountState::Active && amount.units() <= before.available.units();
            &&& !affordable ==> accepted(l, event, holding_set(l, event.client, before))
            &&& affordable && (difference(before.available, amount) is None || sum(before.held, amount) is None)
                ==> ledger_apply(l, event) is None
            &&& affordable ==> (difference(before.available, amount) matches Some(available) ==> (sum(
                before.held,
                amount,
            ) matches Some(held) ==> accepted(
                l,
                event,
                Ledger {
                    disputed: l.disputed.insert(event.tx),
                    ..holding_set(l, event.client, Balances { available, held, ..before })
                },
            )))
        }),
        ({
            let before = holding(l.accounts, event.client);
            let after = holding((ledger_apply(l, event)->0).0.accounts, event.client);
            before.state == AccountState::Active && amount.units() <= before.available.units() && (difference(
                before.available,
                amount,
            ) matches Some(d) && d.units() == before.available.units() - amount.units()) && (sum(
                before.held,
                amount,
            ) matches Some(s) && s.units() == before.held.units() + amount.units()) ==> ledger_apply(
                l,
                event,
            ) is Some && after.available.units() == before.available.units() - amount.units()
                && after.held.units() == before.held.units() + amount.units() && after.state == before.state
        }),
{
}

/// A resolve of the client's own disputed deposit takes off its mark. On an
/// active account it moves the deposit's amount, or all that is held if that is
/// less, from held to available; on a locked account it changes no funds. It has
/// no end exactly if one of the two balances overflows.
pub proof fn law_resolve_event_releases_deposit(l: Ledger, event: Event, amount: Number, moved: Number)
    requires
        event.type_tx is Resolve,
        is_own(l, event, amount),
        l.disputed.contains(event.tx),
        moved == (if holding(l.accounts, event.client).held.units() < amount.units() {
            holding(l.accounts, event.client).held
        } else {
            amount
        }),
    ensures
        ({
            let before = holding(l.accounts, event.client);
            let disputed = l.disputed.remove(event.tx);
            let active = before.state == AccountState::Active;
            &&& !active ==> accepted(l, event, Ledger { disputed, ..holding_set(l, event.client, before) })
            &&& active && (difference(before.held, moved) is None || sum(before.available, moved) is None)
                ==> ledger_apply(l, event) is None
            &&& active ==> (difference(before.held, moved) matches Some(held) ==> (sum(
                before.available,
                moved,
            ) matches Some(available) ==> accepted(
                l,
                event,
                Ledger { disputed, ..holding_set(l, event.client, Balances { available, held, ..before }) },
            )))
        }),
        ({
            let before = holding(l.accounts, event.client);
            let after = holding((ledger_apply(l, event)->0).0.accounts, event.client);
            before.state == AccountState::Active && (difference(before.held, moved) matches Some(d) && d.units()
                == before.held.units() - moved.units()) && (sum(before.available, moved) matches Some(s)
                && s.units() == before.available.units() + moved.units()) ==> ledger_apply(l, event) is Some
                && after.held.units() == before.held.units() - moved.units() && after.available.units()
                == before.available.units() + moved.units() && after.state == before.state
        }),
{
}

/// A chargeback of the client's own disputed deposit takes off its mark. On an
/// active account it takes the deposit's amount, or all that is held if that is
/// less, out of held, leaves what is available and locks the account; on a
/// locked account it changes no funds. It has no end exactly if the difference
/// overflows.
pub proof fn law_chargeback_event_takes_deposit(l: Ledger, event: Event, amount: Number, taken: Number)
    requires
        event.type_tx is Chargeback,
        is_own(l, event, amount),
        l.disputed.contains(event.tx),
        taken == (if holding(l.accounts, event.client).held.units() < amount.units() {
            holding(l.accounts, event.client).held
        } else {
            amount
        }),
    ensures
        ({
            let before = holding(l.accounts, event.client);
            let disputed = l.disputed.remove(event.tx);
            let active = before.state == AccountState::Active;
            &&& !active ==> accepted(l, event, Ledger { disputed, ..holding_set(l, event.client, before) })
            &&& active && difference(before.held, taken) is None ==> ledger_apply(l, event) is None
            &&& active ==> (difference(before.held, taken) matches Some(held) ==> accepted(
                l,
                event,
                Ledger {
                    disputed,
                    ..holding_set(
                        l,
                        event.client,
                        Balances { held, state: AccountState::Locked, ..before },
                    )
                },
            ))
        }),
        ({
            let before = holding(l.accounts, event.client);
            let after = holding((ledger_apply(l, event)->0).0.accounts, event.client);
            before.state == AccountState::Active && (difference(before.held, taken) matches Some(d) && d.units()
                == before.held.units() - taken.units()) ==> ledger_apply(l, event) is Some && after.held.units()
                == before.held.units() - (if before.held.units() < amount.units() {
                before.held.units()
            } else {
                amount.units()
            }) && after.available == before.available && after.state == AccountState::Locked
        }),
{
}

/// Every other event leaves the ledger as it is: a deposit or withdrawal without
/// an amount, which is refused; a deposit or withdrawal under a used ID; a claim
/// on what is no deposit of the client's own; a dispute of a disputed deposit;
/// and a resolve or chargeback of an undisputed one.
pub proof fn law_other_events_change_nothing(l: Ledger, event: Event)
    ensures
        (event.type_tx is Deposit || event.type_tx is Withdrawal) && event.amount is None ==> ledger_apply(l, event)
            == Some(
            (l, Err::<(), ApplyError>(ApplyError::MissingAmount { tx: event.tx, type_tx: event.type_tx })),
        ),
        (event.type_tx is Deposit || event.type_tx is Withdrawal) && event.amount is Some && (l.processed.contains(
            event.tx,
        ) || l.deposits.contains_key(event.tx)) ==> accepted(l, event, l),
        (event.type_tx is Dispute || event.type_tx is Resolve || event.type_tx is Chargeback) && !(
        l.deposits.contains_key(event.tx) && l.deposits[event.tx].client == event.client) ==> accepted(l, event, l),
        event.type_tx is Dispute && l.disputed.contains(event.tx) ==> accepted(l, event, l),
        (event.type_tx is Resolve || event.type_tx is Chargeback) && !l.disputed.contains(event.tx) ==> accepted(
            l,
            event,
            l,
        ),
{
}

} // verus!
