//! The engine without its storage tiers, and the proof that the tiers do not
//! show.
//!
//! A [`Ledger`] is what the engine keeps as its users see it: accounts, open
//! disputes, the IDs of withdrawals and every deposit ever accepted. [`ledger_apply`] handles an event
//! in one go. The laws below show that an engine whose spill store hands back
//! what was written comes to the same end, whatever it flushed, when it flushed
//! and whatever other engines did to the shared budget in between.
use crate::account::{fresh, Balances};
use crate::amount::{difference_is_exact, sum_is_exact, Number};
use crate::mem_budget::BudgetState;
use crate::model::{
    admit_next, after_claim, after_withdrawal, apply_next, batch_of, empty_engine, entry_bytes, flush_count, flush_next,
    flushed_next, insert_next, missing_amount, read_next, resume_next,
};
use crate::model::{
    ApplyError, Claim, EngineState, Flush, FlushStage, Lookup, Next, Notice, Outcome, Resume, StepView, StoreFault,
    ENTRY_MEM_BYTES,
};
use crate::models::{Event, TransactionType};
use crate::pending::{deposit_of, distinct, has_tx, index_of_tx, with_deposit};
use crate::record::{decoded, encoded, law_record_reads_back, Deposit};
use vstd::prelude::*;

verus! {

/// Accounts, open disputes, the IDs of withdrawals and all deposits.
#[verifier::ext_equal]
pub struct Ledger {
    pub accounts: Map<u16, Balances>,
    pub disputed: Set<u32>,
    pub processed: Set<u32>,
    pub deposits: Map<u32, Deposit>,
}

/// The end of an event: the ledger and whether the event was accepted.
pub type LedgerEnd = (Ledger, Result<(), ApplyError>);

impl Ledger {
    /// The client's account; a fresh one if the client is new.
    pub open spec fn account(self, client: u16) -> Balances {
        if self.accounts.contains_key(client) {
            self.accounts[client]
        } else {
            fresh(client)
        }
    }

    pub open spec fn with_account(self, client: u16, account: Balances) -> Ledger {
        Ledger { accounts: self.accounts.insert(client, account), ..self }
    }

    /// The ID belongs to a withdrawal or a deposit that was processed.
    pub open spec fn knows(self, tx: u32) -> bool {
        self.processed.contains(tx) || self.deposits.contains_key(tx)
    }

    pub open spec fn deposit(self, tx: u32) -> Option<Deposit> {
        if self.deposits.contains_key(tx) {
            Some(self.deposits[tx])
        } else {
            None
        }
    }
}

/// Nothing has happened yet.
pub open spec fn empty_ledger() -> Ledger {
    Ledger {
        accounts: Map::empty(),
        disputed: Set::empty(),
        processed: Set::empty(),
        deposits: Map::empty(),
    }
}

/// Record a new deposit and credit the account.
pub open spec fn ledger_insert(l: Ledger, client: u16, tx: u32, amount: Number) -> Option<LedgerEnd> {
    match l.account(client).deposited(amount) {
        None => None,
        Some(account) => Some(
            (
                Ledger {
                    deposits: l.deposits.insert(tx, Deposit { client, amount }),
                    ..l.with_account(client, account)
                },
                Ok(()),
            ),
        ),
    }
}

/// A deposit: ignored if its ID is known.
pub open spec fn ledger_deposit(l: Ledger, client: u16, tx: u32, amount: Number) -> Option<LedgerEnd> {
    if l.knows(tx) {
        Some((l, Ok(())))
    } else {
        ledger_insert(l, client, tx, amount)
    }
}

/// A withdrawal: ignored if its ID is known; otherwise the ID is recorded,
/// whether or not the funds cover the amount.
pub open spec fn ledger_withdrawal(l: Ledger, client: u16, tx: u32, amount: Number) -> Option<LedgerEnd> {
    if l.knows(tx) {
        Some((l, Ok(())))
    } else {
        match l.account(client).withdrawn(amount) {
            None => None,
            Some(account) => Some(
                (Ledger { processed: l.processed.insert(tx), ..l.with_account(client, account) }, Ok(())),
            ),
        }
    }
}

/// A claim has an effect: the deposit is the client's own, undisputed for a
/// dispute and disputed otherwise.
pub open spec fn claim_applies(l: Ledger, claim: Claim, client: u16, tx: u32) -> bool {
    &&& l.deposits.contains_key(tx)
    &&& l.deposits[tx].client == client
    &&& l.disputed.contains(tx) != (claim is Dispute)
}

/// A dispute, resolve or chargeback.
pub open spec fn ledger_claim(l: Ledger, claim: Claim, client: u16, tx: u32) -> Option<LedgerEnd> {
    let amount = l.deposits[tx].amount;
    let account = l.account(client);
    let after = match claim {
        Claim::Dispute => account.disputed(amount),
        Claim::Resolve => account.resolved(amount),
        Claim::Chargeback => account.charged_back(amount),
    };
    let disputed = if claim is Dispute {
        if account.covers(amount) {
            l.disputed.insert(tx)
        } else {
            l.disputed
        }
    } else {
        l.disputed.remove(tx)
    };
    if !claim_applies(l, claim, client, tx) {
        Some((l, Ok(())))
    } else {
        match after {
            None => None,
            Some(a) => Some((Ledger { disputed, ..l.with_account(client, a) }, Ok(()))),
        }
    }
}

/// Handle one event; `None` if amounts overflow.
pub open spec fn ledger_apply(l: Ledger, event: Event) -> Option<LedgerEnd> {
    match (event.type_tx, event.amount) {
        (TransactionType::Deposit, Some(amount)) => ledger_deposit(l, event.client, event.tx, amount),
        (TransactionType::Withdrawal, Some(amount)) => ledger_withdrawal(
            l,
            event.client,
            event.tx,
            amount,
        ),
        (TransactionType::Deposit, None) => Some((l, Err(missing_amount(event)))),
        (TransactionType::Withdrawal, None) => Some((l, Err(missing_amount(event)))),
        (TransactionType::Dispute, _) => ledger_claim(l, Claim::Dispute, event.client, event.tx),
        (TransactionType::Resolve, _) => ledger_claim(l, Claim::Resolve, event.client, event.tx),
        (TransactionType::Chargeback, _) => ledger_claim(l, Claim::Chargeback, event.client, event.tx),
    }
}

/// What the spill store holds.
pub type Store = Map<u32, Seq<u8>>;

/// The store after a batch was committed.
pub open spec fn written(store: Store, batch: Seq<(u32, Seq<u8>)>) -> Store
    decreases batch.len(),
{
    if batch.len() == 0 {
        store
    } else {
        written(store, batch.drop_last()).insert(batch.last().0, batch.last().1)
    }
}

/// What a read of the store brings.
pub open spec fn store_get(store: Store, tx: u32) -> Option<Seq<u8>> {
    if store.contains_key(tx) {
        Some(store[tx])
    } else {
        None
    }
}

/// The deposits in memory and in the store.
pub open spec fn all_deposits(pending: Seq<(u32, Deposit)>, store: Store) -> Map<u32, Deposit> {
    Map::new(
        |tx: u32| has_tx(pending, tx) || store.contains_key(tx),
        |tx: u32|
            if has_tx(pending, tx) {
                deposit_of(pending, tx)->0
            } else {
                decoded(store[tx])
            },
    )
}

/// The ledger that an engine and its store stand for.
pub open spec fn merged(e: EngineState, store: Store) -> Ledger {
    Ledger {
        accounts: e.accounts,
        disputed: e.disputed,
        processed: e.processed,
        deposits: all_deposits(e.pending, store),
    }
}

/// The store belongs to the engine: it is empty until it is created, and no
/// deposit is both in memory and in the store.
pub open spec fn agrees(e: EngineState, store: Store) -> bool {
    &&& e.buffer_valid()
    &&& !e.has_spill ==> store == Map::<u32, Seq<u8>>::empty()
    &&& forall|i: int| 0 <= i < e.pending.len() ==> !store.contains_key((#[trigger] e.pending[i]).0)
}

/// Whether an event was accepted, without its notice.
pub open spec fn verdict(outcome: Outcome) -> Result<(), ApplyError> {
    match outcome {
        Ok(_) => Ok(()),
        Err(error) => Err(error),
    }
}

/// The end that an event will come to after a flush.
pub open spec fn resumed(l: Ledger, resume: Resume) -> Option<LedgerEnd> {
    match resume {
        Resume::Finish { .. } => Some((l, Ok(()))),
        Resume::Insert { client, tx, amount } => ledger_insert(l, client, tx, amount),
    }
}

/// The end that an event will come to from this step on, if the store does as
/// it is asked.
pub open spec fn promised(e: EngineState, store: Store, step: StepView) -> Option<LedgerEnd> {
    match step {
        StepView::Done(outcome) => Some((merged(e, store), verdict(outcome))),
        StepView::Read { wait: Lookup::Deposit { client, tx, amount }, .. } => ledger_deposit(
            merged(e, store),
            client,
            tx,
            amount,
        ),
        StepView::Read { wait: Lookup::Withdrawal { client, tx, amount }, .. } => ledger_withdrawal(
            merged(e, store),
            client,
            tx,
            amount,
        ),
        StepView::Read { wait: Lookup::Claim { claim, client, tx }, .. } => ledger_claim(
            merged(e, store),
            claim,
            client,
            tx,
        ),
        StepView::Open(wait) => resumed(merged(e, store), wait.resume),
        StepView::Begin(wait) => resumed(merged(e, store), wait.resume),
        StepView::Commit { batch, wait } => resumed(merged(e, written(store, batch)), wait.resume),
    }
}

/// A deposit that waits for a flush is new and in range.
pub open spec fn resume_is_sound(l: Ledger, resume: Resume) -> bool {
    resume matches Resume::Insert { tx, amount, .. } ==> !l.knows(tx) && amount.valid()
}

/// The engine stands where a step can have left it.
pub open spec fn sound(e: EngineState, store: Store, step: StepView) -> bool {
    match step {
        StepView::Done(_) => agrees(e, store),
        StepView::Read { tx, wait } => agrees(e, store) && e.has_spill && !has_tx(e.pending, tx) && match wait {
            Lookup::Deposit { tx: asked, amount, .. } => asked == tx && amount.valid() && !e.processed.contains(
                tx,
            ),
            Lookup::Withdrawal { tx: asked, .. } => asked == tx && !e.processed.contains(tx),
            Lookup::Claim { tx: asked, .. } => asked == tx,
        },
        StepView::Open(wait) => agrees(e, store) && !e.has_spill && wait.stage is Opening && e.pending.len() > 0
            && resume_is_sound(merged(e, store), wait.resume),
        StepView::Begin(wait) => agrees(e, store) && e.has_spill && wait.stage is Beginning && e.pending.len()
            > 0 && resume_is_sound(merged(e, store), wait.resume),
        StepView::Commit { batch, wait } => agrees(e, written(store, batch)) && e.has_spill && (wait.stage
            == FlushStage::Committing { count: batch.len() as usize }) && batch.len() > 0 && resume_is_sound(
            merged(e, written(store, batch)),
            wait.resume,
        ),
    }
}

/// In a buffer without duplicates each entry is found under its transaction.
pub proof fn lemma_entry_is_found(s: Seq<(u32, Deposit)>, i: int)
    requires
        distinct(s),
        0 <= i < s.len(),
    ensures
        has_tx(s, s[i].0),
        deposit_of(s, s[i].0) == Some(s[i].1),
{
    let k = index_of_tx(s, s[i].0);
    assert(s[i].0 == s[i].0);
    assert(0 <= k < s.len() && s[k].0 == s[i].0);
}

/// A new deposit in the buffer is a new deposit of the whole.
proof fn lemma_push_is_insert(s: Seq<(u32, Deposit)>, store: Store, tx: u32, d: Deposit)
    requires
        distinct(s),
        !has_tx(s, tx),
    ensures
        distinct(s.push((tx, d))),
        all_deposits(s.push((tx, d)), store) == all_deposits(s, store).insert(tx, d),
{
    let t = s.push((tx, d));
    assert(distinct(t)) by {
        assert forall|i: int, j: int| 0 <= i < t.len() && 0 <= j < t.len() && i != j implies (
        #[trigger] t[i]).0 != (#[trigger] t[j]).0 by {
            if i < s.len() && j < s.len() {
                assert(s[i].0 != s[j].0);
            } else if i < s.len() {
                assert(s[i].0 != tx);
            } else {
                assert(s[j].0 != tx);
            }
        }
    }
    assert forall|k: u32| true implies #[trigger] has_tx(t, k) == (has_tx(s, k) || k == tx) && (k != tx ==> (
    has_tx(s, k) ==> deposit_of(t, k) == deposit_of(s, k))) && deposit_of(t, tx) == Some(d) by {
        lemma_entry_is_found(t, s.len() as int);
        if has_tx(s, k) {
            let i = index_of_tx(s, k);
            assert(t[i] == s[i]);
            lemma_entry_is_found(s, i);
            lemma_entry_is_found(t, i);
        }
        if has_tx(t, k) && k != tx {
            let i = index_of_tx(t, k);
            assert(s[i].0 == k);
        }
    }
    assert(all_deposits(t, store) =~= all_deposits(s, store).insert(tx, d));
}

/// What a committed batch of deposits leaves in the store.
proof fn lemma_written(store: Store, s: Seq<(u32, Deposit)>)
    requires
        distinct(s),
    ensures
        forall|k: u32| #[trigger]
            written(store, batch_of(s)).contains_key(k) <==> store.contains_key(k) || has_tx(s, k),
        forall|k: u32| has_tx(s, k) ==> #[trigger] written(store, batch_of(s))[k] == encoded(
            deposit_of(s, k)->0,
        ),
        forall|k: u32| !has_tx(s, k) ==> #[trigger] written(store, batch_of(s))[k] == store[k],
    decreases s.len(),
{
    let batch = batch_of(s);
    if s.len() > 0 {
        let rest = s.drop_last();
        assert(batch.drop_last() =~= batch_of(rest));
        lemma_written(store, rest);
        let (tx, d) = s.last();
        assert(s =~= rest.push((tx, d)));
        assert(!has_tx(rest, tx)) by {
            if has_tx(rest, tx) {
                let i = index_of_tx(rest, tx);
                assert(s[i].0 == s[s.len() - 1].0);
            }
        }
        assert forall|k: u32| true implies #[trigger] has_tx(s, k) == (has_tx(rest, k) || k == tx) && (k != tx
            && has_tx(rest, k) ==> deposit_of(s, k) == deposit_of(rest, k)) && deposit_of(s, tx) == Some(d) by {
            lemma_entry_is_found(s, s.len() - 1);
            if has_tx(rest, k) {
                let i = index_of_tx(rest, k);
                assert(s[i] == rest[i]);
                lemma_entry_is_found(rest, i);
                lemma_entry_is_found(s, i);
            }
            if has_tx(s, k) && k != tx {
                let i = index_of_tx(s, k);
                assert(rest[i].0 == k);
            }
        }
        let before = written(store, batch_of(rest));
        assert(written(store, batch) == before.insert(tx, encoded(d)));
        assert forall|k: u32| #[trigger]
            written(store, batch).contains_key(k) <==> store.contains_key(k) || has_tx(s, k) by {
            assert(has_tx(s, k) == (has_tx(rest, k) || k == tx));
            assert(before.contains_key(k) <==> store.contains_key(k) || has_tx(rest, k));
        }
        assert forall|k: u32| has_tx(s, k) implies #[trigger] written(store, batch)[k] == encoded(
            deposit_of(s, k)->0,
        ) by {
            assert(has_tx(s, k) == (has_tx(rest, k) || k == tx));
            if k != tx {
                assert(before[k] == encoded(deposit_of(rest, k)->0));
            }
        }
        assert forall|k: u32| !has_tx(s, k) implies #[trigger] written(store, batch)[k] == store[k] by {
            assert(has_tx(s, k) == (has_tx(rest, k) || k == tx));
            assert(before[k] == store[k]);
        }
    }
}

/// Moving the oldest deposits to the store keeps all deposits.
proof fn lemma_eviction_keeps_deposits(e: EngineState, store: Store, n: int)
    requires
        agrees(e, store),
        e.has_spill,
        0 <= n <= e.pending.len(),
    ensures
        agrees(
            EngineState { pending: e.pending.skip(n), ..e },
            written(store, batch_of(e.pending.take(n))),
        ),
        merged(
            EngineState { pending: e.pending.skip(n), ..e },
            written(store, batch_of(e.pending.take(n))),
        ) == merged(e, store),
{
    let s = e.pending;
    let old_part = s.take(n);
    let new_part = s.skip(n);
    let after = written(store, batch_of(old_part));
    assert(distinct(old_part)) by {
        assert forall|i: int, j: int| 0 <= i < n && 0 <= j < n && i != j implies (#[trigger] old_part[i]).0 != (
        #[trigger] old_part[j]).0 by {
            assert(s[i].0 != s[j].0);
        }
    }
    assert(distinct(new_part)) by {
        assert forall|i: int, j: int|
            0 <= i < new_part.len() && 0 <= j < new_part.len() && i != j implies (#[trigger] new_part[i]).0 != (
        #[trigger] new_part[j]).0 by {
            assert(s[i + n].0 != s[j + n].0);
        }
    }
    lemma_written(store, old_part);
    assert forall|i: int| 0 <= i < new_part.len() implies !after.contains_key((#[trigger] new_part[i]).0) && (
    #[trigger] new_part[i]).1.amount.valid() by {
        assert(new_part[i] == s[i + n]);
        if has_tx(old_part, new_part[i].0) {
            let k = index_of_tx(old_part, new_part[i].0);
            assert(s[k].0 != s[i + n].0);
        }
    }
    assert forall|k: u32| true implies #[trigger] has_tx(s, k) == (has_tx(old_part, k) || has_tx(new_part, k))
        && (has_tx(old_part, k) ==> !has_tx(new_part, k) && deposit_of(old_part, k) == deposit_of(s, k)
        && decoded(encoded(deposit_of(s, k)->0)) == deposit_of(s, k)->0) && (has_tx(new_part, k) ==> deposit_of(
        new_part,
        k,
    ) == deposit_of(s, k)) by {
        if has_tx(old_part, k) {
            let i = index_of_tx(old_part, k);
            assert(s[i] == old_part[i]);
            lemma_entry_is_found(s, i);
            lemma_entry_is_found(old_part, i);
            law_record_reads_back(s[i].1);
            if has_tx(new_part, k) {
                let j = index_of_tx(new_part, k);
                assert(s[j + n].0 != s[i].0);
            }
        }
        if has_tx(new_part, k) {
            let j = index_of_tx(new_part, k);
            assert(s[j + n] == new_part[j]);
            lemma_entry_is_found(s, j + n);
            lemma_entry_is_found(new_part, j);
        }
        if has_tx(s, k) {
            let i = index_of_tx(s, k);
            if i < n {
                assert(old_part[i].0 == k);
            } else {
                assert(new_part[i - n].0 == k);
            }
        }
    }
    assert(all_deposits(new_part, after) =~= all_deposits(s, store));
}

/// A call stands where the event will still come to `end`, and fails only if
/// the event has no end.
pub open spec fn leads_to(next: Option<Next>, store: Store, end: Option<LedgerEnd>) -> bool {
    match next {
        None => end is None,
        Some(n) => sound(n.engine, store, n.step) && promised(n.engine, store, n.step) == end,
    }
}

proof fn lemma_insert_leads_to(
    e: EngineState,
    b: BudgetState,
    store: Store,
    client: u16,
    tx: u32,
    amount: Number,
    notice: Option<Notice>,
)
    requires
        agrees(e, store),
        !merged(e, store).knows(tx),
        amount.valid(),
    ensures
        leads_to(
            insert_next(e, b, client, tx, amount, notice),
            store,
            ledger_insert(merged(e, store), client, tx, amount),
        ),
{
    let d = Deposit { client, amount };
    lemma_push_is_insert(e.pending, store, tx, d);
    if let Some(account) = e.account(client).deposited(amount) {
        let inserted = EngineState {
            pending: with_deposit(e.pending, tx, d),
            ..e.with_account(client, account)
        };
        assert(agrees(inserted, store));
        assert(merged(inserted, store) =~= (ledger_insert(merged(e, store), client, tx, amount)->0).0);
    }
}

proof fn lemma_resume_leads_to(e: EngineState, b: BudgetState, store: Store, resume: Resume)
    requires
        agrees(e, store),
        resume_is_sound(merged(e, store), resume),
    ensures
        leads_to(resume_next(e, b, resume), store, resumed(merged(e, store), resume)),
        leads_to(flush_next(e, b, resume), store, resumed(merged(e, store), resume)),
{
    if let Resume::Insert { client, tx, amount } = resume {
        let notice = if b.admits(ENTRY_MEM_BYTES) {
            None
        } else {
            Some(Notice::OverLimit { tx })
        };
        lemma_insert_leads_to(e, b.take(ENTRY_MEM_BYTES), store, client, tx, amount, notice);
    }
}

proof fn lemma_admit_leads_to(
    e: EngineState,
    b: BudgetState,
    store: Store,
    client: u16,
    tx: u32,
    amount: Number,
)
    requires
        agrees(e, store),
        !merged(e, store).knows(tx),
        amount.valid(),
    ensures
        leads_to(
            admit_next(e, b, client, tx, amount),
            store,
            ledger_deposit(merged(e, store), client, tx, amount),
        ),
{
    lemma_insert_leads_to(e, b.take(ENTRY_MEM_BYTES), store, client, tx, amount, None);
    lemma_resume_leads_to(e, b, store, Resume::Insert { client, tx, amount });
}

proof fn lemma_withdrawal_leads_to(e: EngineState, store: Store, client: u16, tx: u32, amount: Number)
    requires
        agrees(e, store),
    ensures
        !merged(e, store).knows(tx) ==> match after_withdrawal(e, client, tx, amount) {
            None => ledger_withdrawal(merged(e, store), client, tx, amount) is None,
            Some((after, outcome)) => agrees(after, store) && ledger_withdrawal(
                merged(e, store),
                client,
                tx,
                amount,
            ) == Some((merged(after, store), verdict(outcome))),
        },
{
    let l = merged(e, store);
    if let Some((after, outcome)) = after_withdrawal(e, client, tx, amount) {
        if !l.knows(tx) {
            assert(merged(after, store) =~= (ledger_withdrawal(l, client, tx, amount)->0).0);
        }
    }
}

proof fn lemma_claim_leads_to(e: EngineState, store: Store, claim: Claim, client: u16, tx: u32)
    requires
        agrees(e, store),
    ensures
        match after_claim(e, claim, client, tx, merged(e, store).deposit(tx)) {
            None => ledger_claim(merged(e, store), claim, client, tx) is None,
            Some((after, outcome)) => agrees(after, store) && ledger_claim(merged(e, store), claim, client, tx)
                == Some((merged(after, store), verdict(outcome))),
        },
{
    let l = merged(e, store);
    if let Some((after, outcome)) = after_claim(e, claim, client, tx, l.deposit(tx)) {
        if claim_applies(l, claim, client, tx) {
            assert(merged(after, store) =~= (ledger_claim(l, claim, client, tx)->0).0);
        }
    }
}

/// The first step of an event leads to the end that the ledger gives it.
pub proof fn law_apply_leads_to_ledger_end(e: EngineState, b: BudgetState, store: Store, event: Event)
    requires
        agrees(e, store),
        event.amount matches Some(amount) ==> amount.valid(),
    ensures
        leads_to(apply_next(e, b, event), store, ledger_apply(merged(e, store), event)),
{
    let l = merged(e, store);
    match (event.type_tx, event.amount) {
        (TransactionType::Deposit, Some(amount)) => {
            if !l.knows(event.tx) {
                lemma_admit_leads_to(e, b, store, event.client, event.tx, amount);
            }
        },
        (TransactionType::Withdrawal, Some(amount)) => {
            lemma_withdrawal_leads_to(e, store, event.client, event.tx, amount);
        },
        (TransactionType::Dispute, _) => {
            lemma_claim_leads_to(e, store, Claim::Dispute, event.client, event.tx);
        },
        (TransactionType::Resolve, _) => {
            lemma_claim_leads_to(e, store, Claim::Resolve, event.client, event.tx);
        },
        (TransactionType::Chargeback, _) => {
            lemma_claim_leads_to(e, store, Claim::Chargeback, event.client, event.tx);
        },
        _ => {},
    }
}

/// A read that brings what the store holds leads on to the same end.
pub proof fn law_read_leads_on(e: EngineState, b: BudgetState, store: Store, tx: u32, wait: Lookup)
    requires
        sound(e, store, StepView::Read { tx, wait }),
    ensures
        leads_to(
            read_next(e, b, wait, Ok(store_get(store, tx))),
            store,
            promised(e, store, StepView::Read { tx, wait }),
        ),
{
    match wait {
        Lookup::Deposit { client, amount, .. } => {
            if !store.contains_key(tx) {
                lemma_admit_leads_to(e, b, store, client, tx, amount);
            }
        },
        Lookup::Withdrawal { client, amount, .. } => {
            lemma_withdrawal_leads_to(e, store, client, tx, amount);
        },
        Lookup::Claim { claim, client, .. } => {
            lemma_claim_leads_to(e, store, claim, client, tx);
        },
    }
}

/// A store that was created, empty, leads on to the same end.
pub proof fn law_open_leads_on(e: EngineState, b: BudgetState, store: Store, wait: Flush)
    requires
        sound(e, store, StepView::Open(wait)),
    ensures
        leads_to(flushed_next(e, b, wait, Ok(())), store, promised(e, store, StepView::Open(wait))),
{
    let opened = EngineState { has_spill: true, ..e };
    assert(merged(opened, store) =~= merged(e, store));
}

/// A write that was begun leads on to the same end.
pub proof fn law_begin_leads_on(e: EngineState, b: BudgetState, store: Store, wait: Flush)
    requires
        sound(e, store, StepView::Begin(wait)),
    ensures
        leads_to(flushed_next(e, b, wait, Ok(())), store, promised(e, store, StepView::Begin(wait))),
{
    let n = flush_count(e.pending.len());
    lemma_eviction_keeps_deposits(e, store, n as int);
}

/// A batch that was committed leads on to the same end.
pub proof fn law_commit_leads_on(
    e: EngineState,
    b: BudgetState,
    store: Store,
    batch: Seq<(u32, Seq<u8>)>,
    wait: Flush,
)
    requires
        sound(e, store, StepView::Commit { batch, wait }),
    ensures
        leads_to(
            flushed_next(e, b, wait, Ok(())),
            written(store, batch),
            promised(e, store, StepView::Commit { batch, wait }),
        ),
{
    let count = batch.len() as usize;
    lemma_resume_leads_to(
        e,
        b.give(entry_bytes(count as nat)),
        written(store, batch),
        wait.resume,
    );
}

/// An engine, its store and the next step of the event at hand.
pub struct Moment {
    pub engine: EngineState,
    pub store: Store,
    pub step: StepView,
}

/// A call ended in this moment.
pub open spec fn ends_in(next: Option<Next>, m: Moment) -> bool {
    next matches Some(n) && n.engine == m.engine && n.step == m.step
}

/// The caller did what the step of `m` asked for, the store behaved, and the
/// engine went on under budget `b`.
pub open spec fn honest(m: Moment, b: BudgetState, after: Moment) -> bool {
    match m.step {
        StepView::Done(_) => false,
        StepView::Read { tx, wait } => after.store == m.store && ends_in(
            read_next(m.engine, b, wait, Ok(store_get(m.store, tx))),
            after,
        ),
        StepView::Open(wait) => after.store == m.store && ends_in(flushed_next(m.engine, b, wait, Ok(())), after),
        StepView::Begin(wait) => after.store == m.store && ends_in(flushed_next(m.engine, b, wait, Ok(())), after),
        StepView::Commit { batch, wait } => after.store == written(m.store, batch) && ends_in(
            flushed_next(m.engine, b, wait, Ok(())),
            after,
        ),
    }
}

/// The `i`-th action of a run was honest.
pub open spec fn honest_at(run: Seq<Moment>, budgets: Seq<BudgetState>, i: int) -> bool {
    honest(run[i], budgets[i], run[i + 1])
}

proof fn lemma_run_keeps_promise(run: Seq<Moment>, budgets: Seq<BudgetState>, k: int)
    requires
        0 <= k < run.len(),
        sound(run[0].engine, run[0].store, run[0].step),
        forall|i: int| 0 <= i < run.len() - 1 ==> #[trigger] honest_at(run, budgets, i),
    ensures
        sound(run[k].engine, run[k].store, run[k].step),
        promised(run[k].engine, run[k].store, run[k].step) == promised(
            run[0].engine,
            run[0].store,
            run[0].step,
        ),
    decreases k,
{
    if k > 0 {
        lemma_run_keeps_promise(run, budgets, k - 1);
        assert(honest_at(run, budgets, k - 1));
        let m = run[k - 1];
        let b = budgets[k - 1];
        match m.step {
            StepView::Done(_) => {},
            StepView::Read { tx, wait } => {
                law_read_leads_on(m.engine, b, m.store, tx, wait);
            },
            StepView::Open(wait) => {
                law_open_leads_on(m.engine, b, m.store, wait);
            },
            StepView::Begin(wait) => {
                law_begin_leads_on(m.engine, b, m.store, wait);
            },
            StepView::Commit { batch, wait } => {
                law_commit_leads_on(m.engine, b, m.store, batch, wait);
            },
        }
    }
}

/// The run handles the event: it starts where the first call ended, every
/// action was honest, and the event is done.
pub open spec fn is_run(
    e: EngineState,
    b: BudgetState,
    store: Store,
    event: Event,
    run: Seq<Moment>,
    budgets: Seq<BudgetState>,
) -> bool {
    &&& run.len() > 0
    &&& run[0].store == store
    &&& ends_in(apply_next(e, b, event), run[0])
    &&& forall|i: int| 0 <= i < run.len() - 1 ==> #[trigger] honest_at(run, budgets, i)
    &&& run.last().step is Done
}

/// Storage tiers do not show: with a store that behaves, an event ends as if
/// every deposit were in one table, whatever was flushed on the way and
/// whatever the shared budget held at each call.
pub proof fn law_tiers_do_not_show(
    e: EngineState,
    b: BudgetState,
    store: Store,
    event: Event,
    run: Seq<Moment>,
    budgets: Seq<BudgetState>,
)
    requires
        agrees(e, store),
        event.amount matches Some(amount) ==> amount.valid(),
        is_run(e, b, store, event, run, budgets),
    ensures
        agrees(run.last().engine, run.last().store),
        ledger_apply(merged(e, store), event) == Some(
            (merged(run.last().engine, run.last().store), verdict(run.last().step->Done_0)),
        ),
{
    law_apply_leads_to_ledger_end(e, b, store, event);
    lemma_run_keeps_promise(run, budgets, run.len() - 1);
}

/// Actions on the store that an event may still take.
pub open spec fn actions_left(step: StepView) -> nat {
    match step {
        StepView::Done(_) => 0,
        StepView::Read { .. } => 7,
        StepView::Open(wait) => if wait.resume is Insert {
            6
        } else {
            3
        },
        StepView::Begin(wait) => if wait.resume is Insert {
            5
        } else {
            2
        },
        StepView::Commit { wait, .. } => if wait.resume is Insert {
            4
        } else {
            1
        },
    }
}

/// Every action brings an event closer to its end, whether it succeeds or
/// not.
pub proof fn law_events_end(
    e: EngineState,
    b: BudgetState,
    step: StepView,
    read: Result<Option<Seq<u8>>, StoreFault>,
    reply: Result<(), StoreFault>,
)
    ensures
        step matches StepView::Read { wait, .. } ==> (read_next(e, b, wait, read) matches Some(n)
            ==> actions_left(n.step) < actions_left(step)),
        step matches StepView::Open(wait) ==> wait.stage is Opening ==> (flushed_next(
            e,
            b,
            wait,
            reply,
        ) matches Some(n) ==> actions_left(n.step) < actions_left(step)),
        step matches StepView::Begin(wait) ==> wait.stage is Beginning ==> (flushed_next(
            e,
            b,
            wait,
            reply,
        ) matches Some(n) ==> actions_left(n.step) < actions_left(step)),
        step matches StepView::Commit { wait, .. } ==> wait.stage is Committing ==> (flushed_next(
            e,
            b,
            wait,
            reply,
        ) matches Some(n) ==> actions_left(n.step) < actions_left(step)),
{
}

/// An empty engine stands for an empty ledger.
pub proof fn law_empty_engine_is_empty_ledger()
    ensures
        agrees(empty_engine(), Map::empty()),
        merged(empty_engine(), Map::empty()) == empty_ledger(),
{
    assert(merged(empty_engine(), Map::empty()).deposits =~= empty_ledger().deposits);
}

/// A read that fails ends the event and changes nothing.
pub proof fn law_failed_read_changes_nothing(e: EngineState, b: BudgetState, wait: Lookup, fault: StoreFault)
    ensures
        read_next(e, b, wait, Err(fault)) == Some(
            (Next { engine: e, budget: b, step: StepView::Done(Err(ApplyError::Ledger)) }),
        ),
{
}

/// An action of a flush that fails ends the event and leaves the engine and
/// the budget as they were when the action was asked for.
pub proof fn law_failed_flush_changes_nothing(
    e: EngineState,
    b: BudgetState,
    wait: Flush,
    fault: StoreFault,
)
    ensures
        flushed_next(e, b, wait, Err(fault)) == Some(
            (Next { engine: e, budget: b, step: StepView::Done(Err(ApplyError::Ledger)) }),
        ),
{
}

/// Flushes evict the oldest deposits and keep the order of the rest.
pub proof fn law_flush_evicts_oldest(e: EngineState, b: BudgetState, resume: Resume)
    requires
        e.pending.len() > 0,
    ensures
        flushed_next(e, b, Flush { stage: FlushStage::Beginning, resume }, Ok(())) matches Some(n)
            && n.step matches StepView::Commit { batch, .. } && batch.len() == (if e.pending.len() < 10 {
            1
        } else {
            e.pending.len() / 10
        }) && batch == batch_of(e.pending.take(batch.len() as int)) && n.engine.pending == e.pending.skip(
            batch.len() as int,
        ),
{
}

/// A deposit under the ID of a processed deposit or withdrawal is ignored.
pub proof fn law_duplicate_deposit_is_ignored(l: Ledger, event: Event)
    requires
        event.type_tx is Deposit,
        event.amount is Some,
        l.processed.contains(event.tx) || l.deposits.contains_key(event.tx),
    ensures
        ledger_apply(l, event) == Some((l, Ok::<(), ApplyError>(()))),
{
}

/// A withdrawal under the ID of a processed deposit or withdrawal is ignored.
pub proof fn law_duplicate_withdrawal_is_ignored(l: Ledger, event: Event)
    requires
        event.type_tx is Withdrawal,
        event.amount is Some,
        l.processed.contains(event.tx) || l.deposits.contains_key(event.tx),
    ensures
        ledger_apply(l, event) == Some((l, Ok::<(), ApplyError>(()))),
{
}

/// The event is a transaction with an ID of its own.
pub open spec fn carries_id(event: Event) -> bool {
    (event.type_tx is Deposit || event.type_tx is Withdrawal) && event.amount is Some
}

/// A transaction is processed once: after it, the same ID is ignored for good,
/// in a deposit or in a withdrawal.
pub proof fn law_ids_are_used_once(l: Ledger, event: Event, tx: u32)
    requires
        ledger_apply(l, event) is Some,
    ensures
        carries_id(event) ==> (ledger_apply(l, event)->0).0.knows(event.tx),
        l.knows(tx) ==> (ledger_apply(l, event)->0).0.knows(tx),
{
}

/// No ID belongs to a withdrawal and to a deposit.
pub open spec fn ids_are_apart(l: Ledger) -> bool {
    forall|tx: u32| #[trigger] l.processed.contains(tx) ==> !l.deposits.contains_key(tx)
}

/// At first no ID is used, and no event brings a withdrawal and a deposit under
/// one ID.
pub proof fn law_ids_stay_apart(l: Ledger, event: Event)
    requires
        ids_are_apart(l),
        ledger_apply(l, event) is Some,
    ensures
        ids_are_apart(empty_ledger()),
        ids_are_apart((ledger_apply(l, event)->0).0),
{
}

/// Withdrawals cannot be disputed: every claim on the ID of one is ignored.
pub proof fn law_withdrawals_are_not_disputable(l: Ledger, event: Event)
    requires
        ids_are_apart(l),
        is_claim(event),
        l.processed.contains(event.tx),
    ensures
        ledger_apply(l, event) == Some((l, Ok::<(), ApplyError>(()))),
{
}

/// A deposit or withdrawal without an amount is refused and changes nothing.
pub proof fn law_missing_amount_is_refused(l: Ledger, event: Event)
    requires
        event.type_tx is Deposit || event.type_tx is Withdrawal,
        event.amount is None,
    ensures
        ledger_apply(l, event) == Some((l, Err::<(), ApplyError>(missing_amount(event)))),
{
}

/// The event asks something of an earlier deposit.
pub open spec fn is_claim(event: Event) -> bool {
    event.type_tx is Dispute || event.type_tx is Resolve || event.type_tx is Chargeback
}

/// A claim on a transaction that is no known deposit is ignored; so only
/// deposits can be disputed.
pub proof fn law_unknown_deposit_is_ignored(l: Ledger, event: Event)
    requires
        is_claim(event),
        !l.deposits.contains_key(event.tx),
    ensures
        ledger_apply(l, event) == Some((l, Ok::<(), ApplyError>(()))),
{
}

/// A claim on another client's deposit is ignored.
pub proof fn law_foreign_claim_is_ignored(l: Ledger, event: Event)
    requires
        is_claim(event),
        l.deposits.contains_key(event.tx),
        l.deposits[event.tx].client != event.client,
    ensures
        ledger_apply(l, event) == Some((l, Ok::<(), ApplyError>(()))),
{
}

/// A second dispute of the same deposit is ignored.
pub proof fn law_repeated_dispute_is_ignored(l: Ledger, event: Event)
    requires
        event.type_tx is Dispute,
        l.disputed.contains(event.tx),
    ensures
        ledger_apply(l, event) == Some((l, Ok::<(), ApplyError>(()))),
{
}

/// A resolve or chargeback of an undisputed deposit is ignored.
pub proof fn law_undisputed_settlement_is_ignored(l: Ledger, event: Event)
    requires
        event.type_tx is Resolve || event.type_tx is Chargeback,
        !l.disputed.contains(event.tx),
    ensures
        ledger_apply(l, event) == Some((l, Ok::<(), ApplyError>(()))),
{
}

/// A resolve or chargeback closes the dispute, so neither has an effect twice.
pub proof fn law_settlement_closes_dispute(l: Ledger, event: Event)
    requires
        event.type_tx is Resolve || event.type_tx is Chargeback,
        l.deposits.contains_key(event.tx),
        l.deposits[event.tx].client == event.client,
        ledger_apply(l, event) is Some,
    ensures
        !(ledger_apply(l, event)->0).0.disputed.contains(event.tx),
{
}

/// A dispute that took effect, followed by the resolve of the same deposit,
/// leaves everything as it was before: the balances and the state of the
/// account, the open disputes, every other account, the deposits and the
/// withdrawals. The total never changes on the way, the dispute is closed for
/// a second resolve and for a chargeback, and it can be opened again. Held
/// funds below zero are left out, and amounts that lose a digit.
pub proof fn law_resolve_restores_what_dispute_changed(l: Ledger, dispute: Event, resolve: Event)
    requires
        dispute.type_tx is Dispute,
        claim_applies(l, Claim::Dispute, dispute.client, dispute.tx),
        l.account(dispute.client).covers(l.deposits[dispute.tx].amount),
        resolve.type_tx is Resolve,
        resolve.client == dispute.client,
        resolve.tx == dispute.tx,
        l.account(dispute.client).held.units() >= 0,
        difference_is_exact(l.account(dispute.client).available, l.deposits[dispute.tx].amount),
        sum_is_exact(l.account(dispute.client).held, l.deposits[dispute.tx].amount),
        ledger_apply(l, dispute) is Some,
        difference_is_exact(
            (ledger_apply(l, dispute)->0).0.account(dispute.client).held,
            l.deposits[dispute.tx].amount,
        ),
        sum_is_exact(
            (ledger_apply(l, dispute)->0).0.account(dispute.client).available,
            l.deposits[dispute.tx].amount,
        ),
    ensures
        (ledger_apply(l, dispute)->0).0.account(dispute.client).total_units() == l.account(
            dispute.client,
        ).total_units(),
        (ledger_apply(l, dispute)->0).0.disputed.contains(dispute.tx),
        ledger_apply((ledger_apply(l, dispute)->0).0, resolve) matches Some(end) && end.1 == Ok::<
            (),
            ApplyError,
        >(()) && same_funds(end.0, l) && end.0.disputed == l.disputed && end.0.processed == l.processed
            && end.0.deposits == l.deposits && !claim_applies(end.0, Claim::Resolve, resolve.client, resolve.tx)
            && !claim_applies(end.0, Claim::Chargeback, resolve.client, resolve.tx) && claim_applies(
            end.0,
            Claim::Dispute,
            resolve.client,
            resolve.tx,
        ) && end.0.account(resolve.client).covers(end.0.deposits[resolve.tx].amount),
{
    let mid = (ledger_apply(l, dispute)->0).0;
    let end = (ledger_apply(mid, resolve)->0).0;
    assert(end.disputed =~= l.disputed);
    assert forall|c: u16| #[trigger] same_balances(end.account(c), l.account(c)) by {
        if c != dispute.client {
            assert(end.account(c) == l.account(c));
        }
    }
}

/// The two accounts hold the same funds in the same state.
pub open spec fn same_balances(a: Balances, b: Balances) -> bool {
    a.client == b.client && a.available.units() == b.available.units() && a.held.units() == b.held.units()
        && a.state == b.state
}

/// Every client's account is the same in both ledgers.
pub open spec fn same_funds(a: Ledger, b: Ledger) -> bool {
    forall|c: u16| #[trigger] same_balances(a.account(c), b.account(c))
}

/// A dispute of the client's own deposit opens if and only if the account is
/// active and covers the amount.
pub proof fn law_dispute_opens_if_covered(l: Ledger, event: Event)
    requires
        event.type_tx is Dispute,
        claim_applies(l, Claim::Dispute, event.client, event.tx),
        ledger_apply(l, event) is Some,
    ensures
        (ledger_apply(l, event)->0).0.disputed.contains(event.tx) <==> l.account(event.client).covers(
            l.deposits[event.tx].amount,
        ),
{
}

/// An event touches no other client's account.
pub proof fn law_other_clients_are_untouched(l: Ledger, event: Event, other: u16)
    requires
        other != event.client,
        ledger_apply(l, event) is Some,
    ensures
        (ledger_apply(l, event)->0).0.accounts.contains_key(other) == l.accounts.contains_key(other),
        (ledger_apply(l, event)->0).0.account(other) == l.account(other),
{
}

/// Deposits are only ever added, and only by deposits.
pub proof fn law_deposits_are_append_only(l: Ledger, event: Event, tx: u32)
    requires
        ledger_apply(l, event) is Some,
    ensures
        l.deposits.contains_key(tx) ==> (ledger_apply(l, event)->0).0.deposits.contains_key(tx) && (
        ledger_apply(l, event)->0).0.deposits[tx] == l.deposits[tx],
        !l.deposits.contains_key(tx) && (ledger_apply(l, event)->0).0.deposits.contains_key(tx)
            ==> event.type_tx is Deposit && event.tx == tx && (ledger_apply(
            l,
            event,
        )->0).0.deposits[tx].client == event.client,
{
}

/// A locked account stays as it is, whatever happens.
pub proof fn law_locked_account_is_frozen(l: Ledger, event: Event, client: u16)
    requires
        l.account(client).is_locked(),
    ensures
        ledger_apply(l, event) matches Some(end) ==> end.0.account(client) == l.account(client),
        event.client == client ==> ledger_apply(l, event) is Some,
{
}

/// Only a chargeback locks an account.
pub proof fn law_only_chargeback_event_locks(l: Ledger, event: Event, client: u16)
    requires
        !l.account(client).is_locked(),
        ledger_apply(l, event) is Some,
        (ledger_apply(l, event)->0).0.account(client).is_locked(),
    ensures
        event.type_tx is Chargeback,
        event.client == client,
        claim_applies(l, Claim::Chargeback, event.client, event.tx),
{
}

} // verus!
