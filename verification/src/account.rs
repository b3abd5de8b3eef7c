//! The state machine of one client account.
//!
//! An account is `Active` until a chargeback makes it `Locked`; a locked
//! account ignores every further operation. Transitions are stated on
//! [`Balances`], the value of an [`AccountFsm`]; a transition is `None` where
//! the arithmetic of amounts overflows.
use crate::amount::{difference, min_of, number, opt_number, sum, Amount, Number};
use crate::amount::{difference_is_exact, sum_is_exact};
use crate::models::{Account, Snapshot};
use vstd::prelude::*;

verus! {

/// The two states of a client account.
#[derive(Debug, Clone, Copy, PartialEq, Eq, Structural)]
pub enum AccountState {
    Active,
    Locked,
}

/// One account: its balances and its state.
#[derive(Debug, Clone, Copy)]
pub struct AccountFsm {
    client: u16,
    available: Amount,
    held: Amount,
    state: AccountState,
}

/// The value of an [`AccountFsm`].
#[verifier::ext_equal]
pub struct Balances {
    pub client: u16,
    pub available: Number,
    pub held: Number,
    pub state: AccountState,
}

impl View for AccountFsm {
    type V = Balances;

    closed spec fn view(&self) -> Balances {
        Balances {
            client: self.client,
            available: self.available@,
            held: self.held@,
            state: self.state,
        }
    }
}

/// A fresh account: no funds, active.
pub open spec fn fresh(client: u16) -> Balances {
    Balances { client, available: number(0, 0), held: number(0, 0), state: AccountState::Active }
}

impl Balances {
    pub open spec fn valid(self) -> bool {
        self.available.valid() && self.held.valid()
    }

    pub open spec fn is_locked(self) -> bool {
        self.state is Locked
    }

    /// Available plus held funds, in the smallest unit and without rounding.
    pub open spec fn total_units(self) -> int {
        self.available.units() + self.held.units()
    }

    /// Credit the available funds.
    pub open spec fn deposited(self, amount: Number) -> Option<Balances> {
        if self.is_locked() {
            Some(self)
        } else {
            match sum(self.available, amount) {
                Some(available) => Some(Balances { available, ..self }),
                None => None,
            }
        }
    }

    /// Active, and the available funds cover the amount.
    pub open spec fn covers(self, amount: Number) -> bool {
        !self.is_locked() && self.available.units() >= amount.units()
    }

    /// Debit the available funds if they cover the amount.
    pub open spec fn withdrawn(self, amount: Number) -> Option<Balances> {
        if !self.covers(amount) {
            Some(self)
        } else {
            match difference(self.available, amount) {
                Some(available) => Some(Balances { available, ..self }),
                None => None,
            }
        }
    }

    /// Move the amount from available to held if the available funds cover it.
    pub open spec fn disputed(self, amount: Number) -> Option<Balances> {
        if !self.covers(amount) {
            Some(self)
        } else {
            match (difference(self.available, amount), sum(self.held, amount)) {
                (Some(available), Some(held)) => Some(Balances { available, held, ..self }),
                _ => None,
            }
        }
    }

    /// Move the amount, or what is held if that is less, from held to
    /// available.
    pub open spec fn resolved(self, amount: Number) -> Option<Balances> {
        let released = min_of(amount, self.held);
        if self.is_locked() {
            Some(self)
        } else {
            match (difference(self.held, released), sum(self.available, released)) {
                (Some(held), Some(available)) => Some(Balances { available, held, ..self }),
                _ => None,
            }
        }
    }

    /// Deduct the amount, or what is held if that is less, from held and lock
    /// the account.
    pub open spec fn charged_back(self, amount: Number) -> Option<Balances> {
        let deducted = min_of(amount, self.held);
        if self.is_locked() {
            Some(self)
        } else {
            match difference(self.held, deducted) {
                Some(held) => Some(Balances { held, state: AccountState::Locked, ..self }),
                None => None,
            }
        }
    }

    /// The row to report; `None` where the total overflows.
    pub open spec fn snapshot(self) -> Option<Snapshot> {
        match sum(self.available, self.held) {
            Some(total) => Some(
                Snapshot {
                    client: self.client,
                    available: self.available,
                    held: self.held,
                    total,
                    locked: self.is_locked(),
                },
            ),
            None => None,
        }
    }
}

/// The value of an optional account.
pub open spec fn opt_balances(account: Option<AccountFsm>) -> Option<Balances> {
    match account {
        Some(a) => Some(a@),
        None => None,
    }
}

impl AccountFsm {
    /// A fresh account.
    pub fn new(client: u16) -> (a: AccountFsm)
        ensures
            a@ == fresh(client),
    {
        AccountFsm {
            client,
            available: Amount::zero(),
            held: Amount::zero(),
            state: AccountState::Active,
        }
    }

    /// The same account, known to be valid.
    pub(crate) fn validated(self) -> (a: AccountFsm)
        ensures
            a == self,
            a@.valid(),
    {
        let _ = self.available.validated();
        let _ = self.held.validated();
        self
    }

    pub fn is_locked(&self) -> (r: bool)
        ensures
            r == self@.is_locked(),
            r == (self@.state == AccountState::Locked),
    {
        match self.state {
            AccountState::Locked => true,
            AccountState::Active => false,
        }
    }

    /// The total funds, or `None` on overflow.
    pub fn checked_total(&self) -> (r: Option<Amount>)
        ensures
            opt_number(r) == sum(self@.available, self@.held),
    {
        self.available.checked_add(self.held)
    }

    /// The total funds.
    pub fn total(&self) -> (r: Amount)
        requires
            sum(self@.available, self@.held) is Some,
        ensures
            Some(r@) == sum(self@.available, self@.held),
    {
        self.checked_total().unwrap()
    }

    /// This account after a deposit, or `None` on overflow.
    pub fn after_deposit(&self, amount: Amount) -> (r: Option<AccountFsm>)
        ensures
            opt_balances(r) == self@.deposited(amount@),
    {
        if self.is_locked() {
            return Some(*self);
        }
        match self.available.checked_add(amount) {
            Some(available) => Some(AccountFsm { available, ..*self }),
            None => None,
        }
    }

    /// Whether the account is active and its available funds cover `amount`.
    pub fn covers(&self, amount: Amount) -> (r: bool)
        ensures
            r == self@.covers(amount@),
            r == (self@.state == AccountState::Active && amount@.units() <= self@.available.units()),
    {
        !self.is_locked() && !self.available.is_less(amount)
    }

    /// This account after a withdrawal, or `None` on overflow.
    pub fn after_withdrawal(&self, amount: Amount) -> (r: Option<AccountFsm>)
        ensures
            opt_balances(r) == self@.withdrawn(amount@),
    {
        if !self.covers(amount) {
            return Some(*self);
        }
        match self.available.checked_sub(amount) {
            Some(available) => Some(AccountFsm { available, ..*self }),
            None => None,
        }
    }

    /// This account after a dispute, or `None` on overflow.
    pub fn after_dispute(&self, amount: Amount) -> (r: Option<AccountFsm>)
        ensures
            opt_balances(r) == self@.disputed(amount@),
    {
        if !self.covers(amount) {
            return Some(*self);
        }
        match (self.available.checked_sub(amount), self.held.checked_add(amount)) {
            (Some(available), Some(held)) => Some(AccountFsm { available, held, ..*self }),
            _ => None,
        }
    }

    /// This account after a resolve, or `None` on overflow.
    pub fn after_resolve(&self, amount: Amount) -> (r: Option<AccountFsm>)
        ensures
            opt_balances(r) == self@.resolved(amount@),
    {
        if self.is_locked() {
            return Some(*self);
        }
        let released = amount.min(self.held);
        match (self.held.checked_sub(released), self.available.checked_add(released)) {
            (Some(held), Some(available)) => Some(AccountFsm { available, held, ..*self }),
            _ => None,
        }
    }

    /// This account after a chargeback, or `None` on overflow.
    pub fn after_chargeback(&self, amount: Amount) -> (r: Option<AccountFsm>)
        ensures
            opt_balances(r) == self@.charged_back(amount@),
    {
        if self.is_locked() {
            return Some(*self);
        }
        let deducted = amount.min(self.held);
        match self.held.checked_sub(deducted) {
            Some(held) => Some(AccountFsm { held, state: AccountState::Locked, ..*self }),
            None => None,
        }
    }

    /// Credit `amount` to available. No-op if the account is locked.
    pub fn apply_deposit(&mut self, amount: Amount)
        requires
            old(self)@.deposited(amount@) is Some,
        ensures
            Some(final(self)@) == old(self)@.deposited(amount@),
    {
        *self = self.after_deposit(amount).unwrap();
    }

    /// Debit `amount` from available. No-op if the account is locked or the
    /// funds are insufficient.
    pub fn apply_withdrawal(&mut self, amount: Amount)
        requires
            old(self)@.withdrawn(amount@) is Some,
        ensures
            Some(final(self)@) == old(self)@.withdrawn(amount@),
    {
        *self = self.after_withdrawal(amount).unwrap();
    }

    /// Move `amount` from available to held. `false`, and no change, if the
    /// account is locked or the available funds are insufficient.
    pub fn apply_dispute(&mut self, amount: Amount) -> (applied: bool)
        requires
            old(self)@.disputed(amount@) is Some,
        ensures
            applied == old(self)@.covers(amount@),
            applied == (old(self)@.state == AccountState::Active && amount@.units() <= old(self)@.available.units()),
            Some(final(self)@) == old(self)@.disputed(amount@),
    {
        let applied = self.covers(amount);
        *self = self.after_dispute(amount).unwrap();
        applied
    }

    /// Move `amount` from held to available. No-op if the account is locked.
    pub fn apply_resolve(&mut self, amount: Amount)
        requires
            old(self)@.resolved(amount@) is Some,
        ensures
            Some(final(self)@) == old(self)@.resolved(amount@),
    {
        *self = self.after_resolve(amount).unwrap();
    }

    /// Deduct `amount` from held and lock the account.
    pub fn apply_chargeback(&mut self, amount: Amount)
        requires
            old(self)@.charged_back(amount@) is Some,
        ensures
            Some(final(self)@) == old(self)@.charged_back(amount@),
    {
        *self = self.after_chargeback(amount).unwrap();
    }

    /// The row to report for this account.
    pub fn to_account(&self) -> (r: Account)
        requires
            self@.snapshot() is Some,
        ensures
            Some(r@) == self@.snapshot(),
            r.client == self@.client,
            r.available@ == self@.available,
            r.held@ == self@.held,
            Some(r.total@) == sum(self@.available, self@.held),
            r.locked == (self@.state == AccountState::Locked),
    {
        Account {
            client: self.client,
            available: self.available,
            held: self.held,
            total: self.total(),
            locked: self.is_locked(),
        }
    }
}

/// An accepted deposit raises the available funds and the total by the amount.
pub proof fn law_deposit_credits(a: Balances, amount: Number)
    requires
        !a.is_locked(),
        sum_is_exact(a.available, amount),
    ensures
        a.deposited(amount) matches Some(b) && b.available.units() == a.available.units()
            + amount.units() && b.held == a.held && b.total_units() == a.total_units()
            + amount.units() && !b.is_locked() && b.client == a.client,
{
}

/// A covered withdrawal lowers the available funds and the total by the
/// amount, and never below zero.
pub proof fn law_withdrawal_debits(a: Balances, amount: Number)
    requires
        a.covers(amount),
        difference_is_exact(a.available, amount),
    ensures
        a.withdrawn(amount) matches Some(b) && b.available.units() == a.available.units()
            - amount.units() && b.held == a.held && b.total_units() == a.total_units()
            - amount.units() && b.available.units() >= 0 && !b.is_locked() && b.client == a.client,
{
}

/// A withdrawal or a dispute that the available funds do not cover changes
/// nothing.
pub proof fn law_uncovered_amount_is_refused(a: Balances, amount: Number)
    requires
        a.available.units() < amount.units(),
    ensures
        a.withdrawn(amount) == Some(a),
        a.disputed(amount) == Some(a),
{
}

/// A dispute moves the amount from available to held and keeps the total.
pub proof fn law_dispute_keeps_total(a: Balances, amount: Number)
    requires
        a.covers(amount),
        difference_is_exact(a.available, amount),
        sum_is_exact(a.held, amount),
    ensures
        a.disputed(amount) matches Some(b) && b.available.units() == a.available.units()
            - amount.units() && b.held.units() == a.held.units() + amount.units()
            && b.total_units() == a.total_units() && !b.is_locked() && b.client == a.client,
{
}

/// A resolve moves the amount, or what is held if that is less, from held to
/// available and keeps the total.
pub proof fn law_resolve_keeps_total(a: Balances, amount: Number)
    requires
        !a.is_locked(),
        difference_is_exact(a.held, min_of(amount, a.held)),
        sum_is_exact(a.available, min_of(amount, a.held)),
    ensures
        a.resolved(amount) matches Some(b) && b.held.units() == a.held.units() - min_of(
            amount,
            a.held,
        ).units() && b.available.units() == a.available.units() + min_of(amount, a.held).units()
            && b.total_units() == a.total_units() && !b.is_locked() && b.client == a.client,
{
}

/// A chargeback takes the amount, or what is held if that is less, out of held
/// and out of the total, leaves the available funds alone and locks the
/// account.
pub proof fn law_chargeback_removes_and_locks(a: Balances, amount: Number)
    requires
        !a.is_locked(),
        difference_is_exact(a.held, min_of(amount, a.held)),
    ensures
        a.charged_back(amount) matches Some(b) && b.held.units() == a.held.units() - min_of(
            amount,
            a.held,
        ).units() && b.available == a.available && b.total_units() == a.total_units() - min_of(
            amount,
            a.held,
        ).units() && b.is_locked() && b.client == a.client,
{
}

/// Resolving a dispute restores the balances from before it.
pub proof fn law_resolve_undoes_dispute(a: Balances, amount: Number)
    requires
        a.covers(amount),
        a.held.units() >= 0,
        a.disputed(amount) is Some,
        difference_is_exact(a.available, amount),
        sum_is_exact(a.held, amount),
        difference_is_exact(a.disputed(amount)->0.held, amount),
        sum_is_exact(a.disputed(amount)->0.available, amount),
    ensures
        a.disputed(amount)->0.resolved(amount) matches Some(b) && b.available.units()
            == a.available.units() && b.held.units() == a.held.units() && b.client == a.client
            && b.state == a.state,
{
}

/// A charged-back dispute takes exactly the disputed amount out of the
/// account.
pub proof fn law_chargeback_after_dispute_removes_amount(a: Balances, amount: Number)
    requires
        a.covers(amount),
        a.held.units() >= 0,
        a.disputed(amount) is Some,
        difference_is_exact(a.available, amount),
        sum_is_exact(a.held, amount),
        difference_is_exact(a.disputed(amount)->0.held, amount),
    ensures
        a.disputed(amount)->0.charged_back(amount) matches Some(b) && b.available.units()
            == a.available.units() - amount.units() && b.held.units() == a.held.units()
            && b.total_units() == a.total_units() - amount.units() && b.is_locked(),
{
}

/// A locked account ignores every operation.
pub proof fn law_locked_is_final(a: Balances, amount: Number)
    requires
        a.is_locked(),
    ensures
        a.deposited(amount) == Some(a),
        a.withdrawn(amount) == Some(a),
        a.disputed(amount) == Some(a),
        a.resolved(amount) == Some(a),
        a.charged_back(amount) == Some(a),
{
}

/// Only a chargeback locks an account.
pub proof fn law_only_chargeback_locks(a: Balances, amount: Number)
    requires
        !a.is_locked(),
    ensures
        a.deposited(amount) matches Some(b) ==> !b.is_locked(),
        a.withdrawn(amount) matches Some(b) ==> !b.is_locked(),
        a.disputed(amount) matches Some(b) ==> !b.is_locked(),
        a.resolved(amount) matches Some(b) ==> !b.is_locked(),
        a.charged_back(amount) matches Some(b) ==> b.is_locked(),
{
}

/// The reported total is the available plus the held funds.
pub proof fn law_snapshot_total(a: Balances)
    requires
        sum_is_exact(a.available, a.held),
    ensures
        a.snapshot() matches Some(row) && row.total.units() == row.available.units()
            + row.held.units() && row.locked == a.is_locked() && row.client == a.client,
{
}

/// A fresh account holds nothing and is active.
pub proof fn law_fresh_account_is_empty(client: u16)
    ensures
        fresh(client).client == client,
        fresh(client).available == (Number { negative: false, magnitude: 0, scale: 0 }),
        fresh(client).held == (Number { negative: false, magnitude: 0, scale: 0 }),
        fresh(client).state == AccountState::Active,
{
}

/// A deposit on an active account is added to the available funds, and only
/// there. It fails exactly if the sum overflows.
pub proof fn law_deposit_is_added(a: Balances, amount: Number)
    requires
        a.state == AccountState::Active,
    ensures
        sum(a.available, amount) is None <==> a.deposited(amount) is None,
        a.deposited(amount) matches Some(b) ==> {
            &&& Some(b.available) == sum(a.available, amount)
            &&& (sum(a.available, amount)->0).units() == a.available.units() + amount.units()
                ==> b.available.units() - a.available.units() == amount.units()
            &&& b.held == a.held
            &&& b.client == a.client
            &&& b.state == AccountState::Active
        },
{
}

/// A withdrawal from an active account that has at least the amount available
/// is taken from there, and only from there; it fails exactly if the difference
/// overflows.
pub proof fn law_affordable_withdrawal_is_debited(a: Balances, amount: Number)
    requires
        a.state == AccountState::Active,
        amount.units() <= a.available.units(),
    ensures
        difference(a.available, amount) is None <==> a.withdrawn(amount) is None,
        a.withdrawn(amount) matches Some(b) ==> {
            &&& Some(b.available) == difference(a.available, amount)
            &&& (difference(a.available, amount)->0).units() == a.available.units() - amount.units()
                ==> a.available.units() - b.available.units() == amount.units()
            &&& b.held == a.held
            &&& b.client == a.client
            &&& b.state == AccountState::Active
        },
{
}

/// A dispute on an active account that has at least the amount available takes
/// it from available and adds it to held; it fails exactly if one of the two
/// overflows.
pub proof fn law_affordable_dispute_moves_amount(a: Balances, amount: Number)
    requires
        a.state == AccountState::Active,
        amount.units() <= a.available.units(),
    ensures
        a.covers(amount),
        (difference(a.available, amount) is None || sum(a.held, amount) is None) <==> a.disputed(amount) is None,
        a.disputed(amount) matches Some(b) ==> {
            &&& Some(b.available) == difference(a.available, amount)
            &&& Some(b.held) == sum(a.held, amount)
            &&& b.available.units() == a.available.units() - amount.units() && b.held.units() == a.held.units()
                + amount.units() ==> b.available.units() + b.held.units() == a.available.units() + a.held.units()
            &&& b.client == a.client
            &&& b.state == AccountState::Active
        },
{
}

/// What an active account does not have available, and anything from a locked
/// account, is neither withdrawn nor disputed.
pub proof fn law_unaffordable_amount_changes_nothing(a: Balances, amount: Number)
    requires
        a.state == AccountState::Locked || a.available.units() < amount.units(),
    ensures
        !a.covers(amount),
        a.withdrawn(amount) == Some(a),
        a.disputed(amount) == Some(a),
{
}

/// A resolve on an active account takes the amount, or all that is held if that
/// is less, from held and adds it to available; it fails exactly if one of the
/// two overflows.
pub proof fn law_resolve_moves_lesser_back(a: Balances, amount: Number, moved: Number)
    requires
        a.state == AccountState::Active,
        moved == (if a.held.units() < amount.units() {
            a.held
        } else {
            amount
        }),
    ensures
        (difference(a.held, moved) is None || sum(a.available, moved) is None) <==> a.resolved(amount) is None,
        a.resolved(amount) matches Some(b) ==> {
            &&& Some(b.held) == difference(a.held, moved)
            &&& Some(b.available) == sum(a.available, moved)
            &&& b.client == a.client
            &&& b.state == AccountState::Active
        },
{
}

/// A chargeback on an active account takes the amount, or all that is held if
/// that is less, out of held, leaves what is available and locks the account;
/// it fails exactly if the difference overflows.
pub proof fn law_chargeback_takes_lesser_and_locks(a: Balances, amount: Number, taken: Number)
    requires
        a.state == AccountState::Active,
        taken == (if a.held.units() < amount.units() {
            a.held
        } else {
            amount
        }),
    ensures
        difference(a.held, taken) is None <==> a.charged_back(amount) is None,
        a.charged_back(amount) matches Some(b) ==> {
            &&& Some(b.held) == difference(a.held, taken)
            &&& b.available == a.available
            &&& b.client == a.client
            &&& b.state == AccountState::Locked
        },
{
}

/// The reported row carries the account's own client, balances and lock, and
/// their sum as total; there is none exactly if the sum overflows.
pub proof fn law_row_carries_own_balances(a: Balances)
    ensures
        a.snapshot() is None <==> sum(a.available, a.held) is None,
        a.snapshot() matches Some(row) ==> {
            &&& row.client == a.client
            &&& row.available == a.available
            &&& row.held == a.held
            &&& Some(row.total) == sum(a.available, a.held)
            &&& row.locked == (a.state == AccountState::Locked)
        },
{
}

/// The value of an account is that of its fields.
proof fn law_account_value_is_its_fields(a: AccountFsm)
    ensures
        a@.client == a.client,
        a@.available == a.available@,
        a@.held == a.held@,
        a@.state == a.state,
{
}

/// An account is locked exactly if its state says so, and nothing moves the funds
/// of a locked account or unlocks it.
pub proof fn law_locked_account_is_frozen(a: Balances, amount: Number)
    ensures
        a.is_locked() <==> a.state == AccountState::Locked,
        a.state == AccountState::Locked ==> {
            &&& a.deposited(amount) == Some(a)
            &&& a.withdrawn(amount) == Some(a)
            &&& a.disputed(amount) == Some(a)
            &&& a.resolved(amount) == Some(a)
            &&& a.charged_back(amount) == Some(a)
        },
{
}

/// The value of an optional account is that of the account.
pub proof fn law_optional_account_value(account: Option<AccountFsm>)
    ensures
        account is None <==> opt_balances(account) is None,
        account matches Some(a) ==> opt_balances(account) == Some(a@),
{
}

} // verus!
