//! Payment engine core.
//!
//! [`Payments`] replays events in order. It keeps the account of each client,
//! the set of open disputes, the IDs of withdrawals, and the deposits, the only
//! transactions that can be disputed. An ID that a deposit or withdrawal has
//! used is not processed again. Recent deposits are buffered in memory in order of arrival; when
//! the buffer reaches its share of the memory budget, or the budget refuses a
//! reservation, the oldest tenth moves to a spill store that is created the
//! first time it is needed. Lookups try the buffer first and the store second.
//!
//! The engine decides and the caller acts: [`Payments::apply`] and its
//! successors [`Payments::on_read`] and [`Payments::on_flush`] return a
//! [`Step`] that names the next action on the store, until the step is
//! [`Step::Done`]. The `try_` forms refuse, without any change, an event whose
//! amounts overflow. Module `model` says what each call does.
use crate::account::{law_row_carries_own_balances, AccountFsm, AccountState, Balances};
use crate::amount::{sum, Amount};
use crate::errors::EngineError;
use crate::mem_budget::{wrap, BudgetState, GlobalMemBudget, MemPressure};
use crate::model::{
    admit_next, after_chargeback, after_claim, after_dispute, after_resolve, after_withdrawal, apply_next,
    batch_of, claim_step, deposit_next, empty_engine, entry_bytes, first_flush_step, flush_count, flush_next,
    flush_threshold, flushed_next, insert_next, missing_amount, read_next, resume_next, retired, withdrawal_step,
};
use crate::model::{
    ApplyError, Claim, EngineState, Flush, FlushStage, Lookup, Next, Notice, Outcome, Resume, StepView, StoreFault,
    ENTRY_MEM_BYTES,
};
use crate::models::{Account, Snapshot, TransactionInfo, TransactionType};
use crate::pending::{
    buffer_drain, buffer_get, buffer_insert, buffer_len, entries, entries_of, has_tx, index_of_tx, new_buffer,
    with_deposit,
};
use crate::record::{decode_record, encode_record, encoded, Deposit, DepositRecord};
use indexmap::IndexMap;
use std::collections::HashMap;
use std::collections::HashSet;
use vstd::prelude::*;
use vstd::std_specs::hash::spec_keys_iter;
use vstd::std_specs::iter::IteratorSpec;

verus! {

broadcast use vstd::std_specs::hash::group_hash_axioms;

/// An event that waits for a read of the spill store.
#[derive(Debug)]
pub enum ReadWait {
    Deposit { client: u16, tx: u32, amount: Amount },
    Withdrawal { client: u16, tx: u32, amount: Amount },
    Claim { claim: Claim, client: u16, tx: u32 },
}

impl View for ReadWait {
    type V = Lookup;

    open spec fn view(&self) -> Lookup {
        match *self {
            ReadWait::Deposit { client, tx, amount } => Lookup::Deposit { client, tx, amount: amount@ },
            ReadWait::Withdrawal { client, tx, amount } => Lookup::Withdrawal { client, tx, amount: amount@ },
            ReadWait::Claim { claim, client, tx } => Lookup::Claim { claim, client, tx },
        }
    }
}

/// What follows a flush.
#[derive(Debug)]
pub enum AfterFlush {
    Finish { notice: Option<Notice> },
    Insert { client: u16, tx: u32, amount: Amount },
}

impl View for AfterFlush {
    type V = Resume;

    open spec fn view(&self) -> Resume {
        match *self {
            AfterFlush::Finish { notice } => Resume::Finish { notice },
            AfterFlush::Insert { client, tx, amount } => Resume::Insert { client, tx, amount: amount@ },
        }
    }
}

/// An event that waits for a flush.
#[derive(Debug)]
pub struct FlushWait {
    pub stage: FlushStage,
    pub resume: AfterFlush,
}

impl View for FlushWait {
    type V = Flush;

    open spec fn view(&self) -> Flush {
        Flush { stage: self.stage, resume: self.resume@ }
    }
}

/// The next thing to do for an event.
#[derive(Debug)]
#[allow(inconsistent_fields)]
pub enum Step {
    /// The event is done.
    Done(Outcome),
    /// Read the record of `tx` and call [`Payments::on_read`].
    Read { tx: u32, wait: ReadWait },
    /// Create the spill store and call [`Payments::on_flush`].
    Open(FlushWait),
    /// Begin a write and call [`Payments::on_flush`].
    Begin(FlushWait),
    /// Write the batch in order, commit, and call [`Payments::on_flush`].
    Commit { batch: Vec<(u32, [u8; 18])>, wait: FlushWait },
}

/// The records of a batch.
pub open spec fn batch_view(batch: Seq<(u32, [u8; 18])>) -> Seq<(u32, Seq<u8>)> {
    batch.map_values(|e: (u32, [u8; 18])| (e.0, e.1@))
}

impl View for Step {
    type V = StepView;

    open spec fn view(&self) -> StepView {
        match *self {
            Step::Done(outcome) => StepView::Done(outcome),
            Step::Read { tx, wait } => StepView::Read { tx, wait: wait@ },
            Step::Open(wait) => StepView::Open(wait@),
            Step::Begin(wait) => StepView::Begin(wait@),
            Step::Commit { batch, wait } => StepView::Commit { batch: batch_view(batch@), wait: wait@ },
        }
    }
}

/// The bytes that a read brought.
pub open spec fn reply_view(reply: Result<Option<[u8; 18]>, StoreFault>) -> Result<
    Option<Seq<u8>>,
    StoreFault,
> {
    match reply {
        Ok(Some(bytes)) => Ok(Some(bytes@)),
        Ok(None) => Ok(None),
        Err(fault) => Err(fault),
    }
}

/// The value of an optional deposit.
pub open spec fn opt_deposit(found: Option<DepositRecord>) -> Option<Deposit> {
    match found {
        Some(d) => Some(d@),
        None => None,
    }
}

/// The amount that a deposit or withdrawal must carry.
pub fn require_amount(event: &TransactionInfo) -> (r: Result<Amount, ApplyError>)
    ensures
        r == (match event.amount {
            Some(amount) => Ok::<Amount, ApplyError>(amount),
            None => Err(missing_amount(event@)),
        }),
{
    match event.amount {
        Some(amount) => Ok(amount),
        None => Err(ApplyError::MissingAmount { tx: event.tx, type_tx: event.type_tx }),
    }
}

/// The values of reported rows.
pub open spec fn snapshots(rows: Seq<Account>) -> Seq<Snapshot> {
    rows.map_values(|row: Account| row@)
}

/// The rows report every account, each of them once.
pub open spec fn is_report(rows: Seq<Snapshot>, accounts: Map<u16, Balances>) -> bool {
    &&& forall|i: int|
        0 <= i < rows.len() ==> accounts.contains_key((#[trigger] rows[i]).client)
            && accounts[rows[i].client].snapshot() == Some(rows[i])
    &&& forall|i: int, j: int|
        0 <= i < rows.len() && 0 <= j < rows.len() && i != j ==> (#[trigger] rows[i]).client != (
        #[trigger] rows[j]).client
    &&& forall|c: u16| #[trigger]
        accounts.contains_key(c) ==> exists|i: int| 0 <= i < rows.len() && (#[trigger] rows[i]).client == c
}

/// A call went where `next` says; where that is nowhere, nothing changed.
pub open spec fn reached(
    next: Option<Next>,
    before: (EngineState, BudgetState),
    after: (EngineState, BudgetState),
    step: Option<Step>,
) -> bool {
    match (next, step) {
        (Some(n), Some(s)) => n == (Next { engine: after.0, budget: after.1, step: s@ }),
        (None, None) => after == before,
        _ => false,
    }
}

/// The payment engine. The IDs of withdrawals stay in memory; the budget counts
/// buffered deposits alone.
pub struct Payments {
    accounts: HashMap<u16, AccountFsm>,
    disputed: HashSet<u32>,
    processed: HashSet<u32>,
    pending: IndexMap<u32, DepositRecord>,
    has_spill: bool,
}

impl View for Payments {
    type V = EngineState;

    closed spec fn view(&self) -> EngineState {
        EngineState {
            accounts: self.accounts@.map_values(|a: AccountFsm| a@),
            disputed: self.disputed@,
            processed: self.processed@,
            pending: entries(self.pending),
            has_spill: self.has_spill,
        }
    }
}

impl Payments {
    /// The invariant of an engine.
    pub open spec fn wf(self) -> bool {
        self@.valid()
    }

    /// Where a call ends, and with which step.
    pub open spec fn at(self, budget: GlobalMemBudget, step: Step) -> Next {
        Next { engine: self@, budget: budget@, step: step@ }
    }

    /// An empty engine that shares `budget`.
    pub fn new(budget: &mut GlobalMemBudget) -> (r: Result<Payments, EngineError>)
        ensures
            r matches Ok(engine) && engine@ == empty_engine() && engine.wf(),
            final(budget)@ == (BudgetState {
                actors: wrap(old(budget)@.actors + 1),
                ..old(budget)@
            }),
    {
        budget.register_actor();
        let engine = Payments {
            accounts: HashMap::new(),
            disputed: HashSet::new(),
            processed: HashSet::new(),
            pending: new_buffer(),
            has_spill: false,
        };
        assert(engine@ =~= empty_engine());
        Ok(engine)
    }

    /// The account of `client`; a fresh one if the client is new.
    fn account(&self, client: u16) -> (a: AccountFsm)
        ensures
            a@ == self@.account(client),
    {
        match self.accounts.get(&client) {
            Some(a) => *a,
            None => AccountFsm::new(client),
        }
    }

    /// Store the account of `client`.
    fn set_account(&mut self, client: u16, account: AccountFsm)
        requires
            old(self).wf(),
            account@.client == client,
        ensures
            final(self)@ == old(self)@.with_account(client, account@),
            final(self).wf(),
    {
        let account = account.validated();
        let ghost before = self@;
        self.accounts.insert(client, account);
        proof {
            assert(self@ =~= before.with_account(client, account@));
        }
    }

    /// Bytes that `n` buffered deposits cost.
    fn bytes_of(n: usize) -> (bytes: usize)
        ensures
            bytes == entry_bytes(n as nat),
    {
        match n.checked_mul(ENTRY_MEM_BYTES) {
            Some(bytes) => bytes,
            None => usize::MAX,
        }
    }

    /// Buffered deposits at which the engine flushes after an insert: its fair
    /// share of the budget under low pressure, half of it under medium
    /// pressure, and never under high pressure, where a refused reservation has
    /// flushed already.
    pub fn effective_flush_threshold(&self, budget: &GlobalMemBudget) -> (entries: usize)
        ensures
            entries == flush_threshold(budget@),
    {
        let per_actor = budget.suggested_per_actor_cap(ENTRY_MEM_BYTES);
        match budget.pressure() {
            MemPressure::Low => per_actor,
            MemPressure::Medium => if per_actor / 2 < 1 {
                1
            } else {
                per_actor / 2
            },
            MemPressure::High => usize::MAX,
        }
    }

    /// First action of a flush of a buffer that holds deposits.
    fn start_flush(&self, resume: AfterFlush) -> (step: Step)
        ensures
            step@ == first_flush_step(self@.has_spill, resume@),
    {
        if self.has_spill {
            Step::Begin(FlushWait { stage: FlushStage::Beginning, resume })
        } else {
            Step::Open(FlushWait { stage: FlushStage::Opening, resume })
        }
    }

    /// Buffer a deposit whose bytes are reserved and credit the account.
    fn insert_deposit(
        &mut self,
        budget: &GlobalMemBudget,
        client: u16,
        tx: u32,
        amount: Amount,
        notice: Option<Notice>,
    ) -> (step: Step)
        requires
            old(self).wf(),
            insert_next(old(self)@, budget@, client, tx, amount@, notice) is Some,
        ensures
            insert_next(old(self)@, budget@, client, tx, amount@, notice) == Some(
                final(self).at(*budget, step),
            ),
            final(self).wf(),
    {
        let amount = amount.validated();
        let mut account = self.account(client);
        account.apply_deposit(amount);
        self.set_account(client, account);
        let ghost before = self@;
        buffer_insert(&mut self.pending, tx, DepositRecord { client, amount });
        proof {
            lemma_with_deposit_keeps_valid(before, tx, Deposit { client, amount: amount@ });
        }
        if buffer_len(&self.pending) >= self.effective_flush_threshold(budget) {
            self.start_flush(AfterFlush::Finish { notice })
        } else {
            Step::Done(Ok(notice))
        }
    }

    /// Go on after a flush.
    fn resume(&mut self, budget: &mut GlobalMemBudget, resume: AfterFlush) -> (step: Step)
        requires
            old(self).wf(),
            resume_next(old(self)@, old(budget)@, resume@) is Some,
        ensures
            resume_next(old(self)@, old(budget)@, resume@) == Some(final(self).at(*final(budget), step)),
            final(self).wf(),
    {
        match resume {
            AfterFlush::Finish { notice } => Step::Done(Ok(notice)),
            AfterFlush::Insert { client, tx, amount } => {
                if budget.try_reserve(ENTRY_MEM_BYTES) {
                    self.insert_deposit(budget, client, tx, amount, None)
                } else {
                    budget.force_reserve(ENTRY_MEM_BYTES);
                    self.insert_deposit(budget, client, tx, amount, Some(Notice::OverLimit { tx }))
                }
            },
        }
    }

    /// Evict the oldest deposits if there are any, then go on with `resume`.
    fn flush(&mut self, budget: &mut GlobalMemBudget, resume: AfterFlush) -> (step: Step)
        requires
            old(self).wf(),
            flush_next(old(self)@, old(budget)@, resume@) is Some,
        ensures
            flush_next(old(self)@, old(budget)@, resume@) == Some(final(self).at(*final(budget), step)),
            final(self).wf(),
    {
        if buffer_len(&self.pending) == 0 {
            self.resume(budget, resume)
        } else {
            self.start_flush(resume)
        }
    }

    /// Evict the oldest tenth of the buffered deposits, and at least one, to
    /// the spill store.
    pub fn flush_oldest(&mut self, budget: &mut GlobalMemBudget) -> (step: Step)
        requires
            old(self).wf(),
        ensures
            flush_next(old(self)@, old(budget)@, Resume::Finish { notice: None }) == Some(
                final(self).at(*final(budget), step),
            ),
            final(self).wf(),
    {
        self.flush(budget, AfterFlush::Finish { notice: None })
    }

    /// Admit a deposit that is not a duplicate.
    fn accept_deposit(&mut self, budget: &mut GlobalMemBudget, client: u16, tx: u32, amount: Amount) -> (step: Step)
        requires
            old(self).wf(),
            admit_next(old(self)@, old(budget)@, client, tx, amount@) is Some,
        ensures
            admit_next(old(self)@, old(budget)@, client, tx, amount@) == Some(
                final(self).at(*final(budget), step),
            ),
            final(self).wf(),
    {
        if budget.try_reserve(ENTRY_MEM_BYTES) {
            self.insert_deposit(budget, client, tx, amount, None)
        } else {
            self.flush(budget, AfterFlush::Insert { client, tx, amount })
        }
    }

    /// Dispute the client's own deposit, which is undisputed.
    fn handle_dispute(&mut self, client: u16, tx: u32, amount: Amount) -> (outcome: Outcome)
        requires
            old(self).wf(),
            after_dispute(old(self)@, client, tx, amount@) is Some,
        ensures
            after_dispute(old(self)@, client, tx, amount@) == Some((final(self)@, outcome)),
            final(self).wf(),
    {
        let mut account = self.account(client);
        if account.apply_dispute(amount) {
            self.set_account(client, account);
            self.disputed.insert(tx);
            Ok(None)
        } else {
            self.set_account(client, account);
            Ok(Some(Notice::DisputeIgnored { tx, client }))
        }
    }

    /// Resolve the dispute of the client's own deposit.
    fn handle_resolve(&mut self, client: u16, tx: u32, amount: Amount) -> (outcome: Outcome)
        requires
            old(self).wf(),
            after_resolve(old(self)@, client, tx, amount@) is Some,
        ensures
            after_resolve(old(self)@, client, tx, amount@) == Some((final(self)@, outcome)),
            final(self).wf(),
    {
        let mut account = self.account(client);
        account.apply_resolve(amount);
        self.set_account(client, account);
        self.disputed.remove(&tx);
        Ok(None)
    }

    /// Charge back the client's own disputed deposit.
    fn handle_chargeback(&mut self, client: u16, tx: u32, amount: Amount) -> (outcome: Outcome)
        requires
            old(self).wf(),
            after_chargeback(old(self)@, client, tx, amount@) is Some,
        ensures
            after_chargeback(old(self)@, client, tx, amount@) == Some((final(self)@, outcome)),
            final(self).wf(),
    {
        let mut account = self.account(client);
        account.apply_chargeback(amount);
        self.set_account(client, account);
        self.disputed.remove(&tx);
        Ok(None)
    }

    /// Whether a claim on a deposit that was looked up has an effect.
    fn claim_applies(&self, claim: Claim, client: u16, tx: u32, d: DepositRecord) -> (r: bool)
        ensures
            r == (d.client == client && self@.disputed.contains(tx) != (claim is Dispute)),
    {
        let disputed = self.disputed.contains(&tx);
        let wants_disputed = match claim {
            Claim::Dispute => false,
            Claim::Resolve | Claim::Chargeback => true,
        };
        d.client == client && disputed == wants_disputed
    }

    /// Handle a claim on a deposit that was looked up.
    fn settle(&mut self, claim: Claim, client: u16, tx: u32, found: Option<DepositRecord>) -> (outcome: Outcome)
        requires
            old(self).wf(),
            after_claim(old(self)@, claim, client, tx, opt_deposit(found)) is Some,
        ensures
            after_claim(old(self)@, claim, client, tx, opt_deposit(found)) == Some((final(self)@, outcome)),
            final(self).wf(),
    {
        match found {
            None => Ok(None),
            Some(d) => {
                if !self.claim_applies(claim, client, tx, d) {
                    return Ok(None);
                }
                match claim {
                    Claim::Dispute => self.handle_dispute(client, tx, d.amount),
                    Claim::Resolve => self.handle_resolve(client, tx, d.amount),
                    Claim::Chargeback => self.handle_chargeback(client, tx, d.amount),
                }
            },
        }
    }

    /// Handle a claim on a deposit that is to be looked up.
    fn handle_claim(&mut self, claim: Claim, client: u16, tx: u32) -> (step: Step)
        requires
            old(self).wf(),
            claim_step(old(self)@, claim, client, tx) is Some,
        ensures
            claim_step(old(self)@, claim, client, tx) == Some((final(self)@, step@)),
            final(self).wf(),
    {
        let found = buffer_get(&self.pending, tx);
        if found.is_none() && self.has_spill {
            Step::Read { tx, wait: ReadWait::Claim { claim, client, tx } }
        } else {
            Step::Done(self.settle(claim, client, tx, found))
        }
    }

    /// Whether the ID belongs to a withdrawal or to a deposit in memory.
    fn knows(&self, tx: u32) -> (r: bool)
        requires
            self.wf(),
        ensures
            r == self@.knows(tx),
    {
        self.processed.contains(&tx) || buffer_get(&self.pending, tx).is_some()
    }

    /// Handle a deposit.
    fn handle_deposit(&mut self, budget: &mut GlobalMemBudget, event: TransactionInfo) -> (step: Step)
        requires
            old(self).wf(),
            deposit_next(old(self)@, old(budget)@, event@) is Some,
        ensures
            deposit_next(old(self)@, old(budget)@, event@) == Some(final(self).at(*final(budget), step)),
            final(self).wf(),
    {
        let amount = match require_amount(&event) {
            Ok(amount) => amount,
            Err(e) => return Step::Done(Err(e)),
        };
        if self.knows(event.tx) {
            return Step::Done(Ok(Some(Notice::Duplicate { tx: event.tx })));
        }
        if self.has_spill {
            return Step::Read {
                tx: event.tx,
                wait: ReadWait::Deposit { client: event.client, tx: event.tx, amount },
            };
        }
        self.accept_deposit(budget, event.client, event.tx, amount)
    }

    /// Carry out a withdrawal that is not a duplicate.
    fn withdraw(&mut self, client: u16, tx: u32, amount: Amount) -> (outcome: Outcome)
        requires
            old(self).wf(),
            after_withdrawal(old(self)@, client, tx, amount@) is Some,
        ensures
            after_withdrawal(old(self)@, client, tx, amount@) == Some((final(self)@, outcome)),
            final(self).wf(),
    {
        let mut account = self.account(client);
        account.apply_withdrawal(amount);
        self.set_account(client, account);
        self.processed.insert(tx);
        Ok(None)
    }

    /// Handle a withdrawal.
    fn handle_withdrawal(&mut self, event: TransactionInfo) -> (step: Step)
        requires
            old(self).wf(),
            withdrawal_step(old(self)@, event@) is Some,
        ensures
            withdrawal_step(old(self)@, event@) == Some((final(self)@, step@)),
            final(self).wf(),
    {
        let amount = match require_amount(&event) {
            Ok(amount) => amount,
            Err(e) => return Step::Done(Err(e)),
        };
        if self.knows(event.tx) {
            return Step::Done(Ok(Some(Notice::Duplicate { tx: event.tx })));
        }
        if self.has_spill {
            return Step::Read {
                tx: event.tx,
                wait: ReadWait::Withdrawal { client: event.client, tx: event.tx, amount },
            };
        }
        Step::Done(self.withdraw(event.client, event.tx, amount))
    }

    /// Apply one event.
    pub fn apply(&mut self, budget: &mut GlobalMemBudget, event: TransactionInfo) -> (step: Step)
        requires
            old(self).wf(),
            apply_next(old(self)@, old(budget)@, event@) is Some,
        ensures
            apply_next(old(self)@, old(budget)@, event@) == Some(final(self).at(*final(budget), step)),
            final(self).wf(),
    {
        match event.type_tx {
            TransactionType::Deposit => self.handle_deposit(budget, event),
            TransactionType::Withdrawal => self.handle_withdrawal(event),
            TransactionType::Dispute => self.handle_claim(Claim::Dispute, event.client, event.tx),
            TransactionType::Resolve => self.handle_claim(Claim::Resolve, event.client, event.tx),
            TransactionType::Chargeback => self.handle_claim(Claim::Chargeback, event.client, event.tx),
        }
    }

    /// Go on with an event after a read of the spill store.
    pub fn on_read(
        &mut self,
        budget: &mut GlobalMemBudget,
        wait: ReadWait,
        reply: Result<Option<[u8; 18]>, StoreFault>,
    ) -> (step: Step)
        requires
            old(self).wf(),
            read_next(old(self)@, old(budget)@, wait@, reply_view(reply)) is Some,
        ensures
            read_next(old(self)@, old(budget)@, wait@, reply_view(reply)) == Some(
                final(self).at(*final(budget), step),
            ),
            final(self).wf(),
    {
        let found = match reply {
            Ok(found) => found,
            Err(_) => return Step::Done(Err(ApplyError::Ledger)),
        };
        match wait {
            ReadWait::Deposit { client, tx, amount } => {
                if found.is_some() {
                    Step::Done(Ok(Some(Notice::Duplicate { tx })))
                } else {
                    self.accept_deposit(budget, client, tx, amount)
                }
            },
            ReadWait::Withdrawal { client, tx, amount } => {
                if found.is_some() {
                    Step::Done(Ok(Some(Notice::Duplicate { tx })))
                } else {
                    Step::Done(self.withdraw(client, tx, amount))
                }
            },
            ReadWait::Claim { claim, client, tx } => {
                let record = match found {
                    Some(bytes) => Some(decode_record(bytes)),
                    None => None,
                };
                Step::Done(self.settle(claim, client, tx, record))
            },
        }
    }

    /// Take the oldest deposits out of the buffer, encoded for the store.
    fn take_oldest(&mut self) -> (batch: Vec<(u32, [u8; 18])>)
        requires
            old(self).wf(),
        ensures
            batch@.len() == flush_count(old(self)@.pending.len()),
            batch_view(batch@) == batch_of(old(self)@.pending.take(batch@.len() as int)),
            final(self)@ == (EngineState {
                pending: old(self)@.pending.skip(batch@.len() as int),
                ..old(self)@
            }),
            final(self).wf(),
    {
        let len = buffer_len(&self.pending);
        let n: usize = if len == 0 {
            0
        } else if len < 10 {
            1
        } else {
            len / 10
        };
        let drained = buffer_drain(&mut self.pending, n);
        let ghost oldest = old(self)@.pending.take(n as int);
        assert(drained@.len() == entries_of(drained@).len());
        let mut batch: Vec<(u32, [u8; 18])> = Vec::new();
        for i in 0..drained.len()
            invariant
                batch@.len() == i,
                entries_of(drained@) == oldest,
                forall|j: int|
                    0 <= j < i ==> (#[trigger] batch@[j]).0 == oldest[j].0 && batch@[j].1@ == encoded(
                        oldest[j].1,
                    ),
        {
            let (tx, record) = drained[i];
            assert(oldest[i as int] == (tx, record@));
            batch.push((tx, encode_record(&record)));
        }
        assert(batch_view(batch@) =~= batch_of(oldest));
        batch
    }

    /// Go on with an event after an action of a flush.
    pub fn on_flush(
        &mut self,
        budget: &mut GlobalMemBudget,
        wait: FlushWait,
        reply: Result<(), StoreFault>,
    ) -> (step: Step)
        requires
            old(self).wf(),
            flushed_next(old(self)@, old(budget)@, wait@, reply) is Some,
        ensures
            flushed_next(old(self)@, old(budget)@, wait@, reply) == Some(
                final(self).at(*final(budget), step),
            ),
            final(self).wf(),
    {
        if reply.is_err() {
            return Step::Done(Err(ApplyError::Ledger));
        }
        match wait.stage {
            FlushStage::Opening => {
                self.has_spill = true;
                self.start_flush(wait.resume)
            },
            FlushStage::Beginning => {
                let batch = self.take_oldest();
                let stage = FlushStage::Committing { count: batch.len() };
                Step::Commit { batch, wait: FlushWait { stage, resume: wait.resume } }
            },
            FlushStage::Committing { count } => {
                budget.release(Self::bytes_of(count));
                self.resume(budget, wait.resume)
            },
        }
    }

    /// Give the bytes of the buffer back and leave the budget.
    pub fn drop(self, budget: &mut GlobalMemBudget)
        ensures
            final(budget)@ == retired(self@, old(budget)@),
    {
        budget.release(Self::bytes_of(buffer_len(&self.pending)));
        budget.deregister_actor();
    }

    /// The final state of every client seen, in no particular order. The
    /// engine leaves the budget.
    pub fn accounts(self, budget: &mut GlobalMemBudget) -> (rows: Vec<Account>)
        requires
            self.wf(),
            forall|c: u16| #[trigger]
                self@.accounts.contains_key(c) ==> self@.accounts[c].snapshot() is Some,
        ensures
            is_report(snapshots(rows@), self@.accounts),
            final(budget)@ == retired(self@, old(budget)@),
    {
        let mut rows: Vec<Account> = Vec::new();
        let ghost accounts = self@.accounts;
        let ghost order = spec_keys_iter(&self.accounts).remaining().unref();
        for client in it: self.accounts.keys()
            invariant
                accounts == self@.accounts,
                self.wf(),
                forall|c: u16| #[trigger] accounts.contains_key(c) ==> accounts[c].snapshot() is Some,
                rows@.len() == it.index(),
                it.seq().unref() == order,
                order.to_set() == self.accounts@.dom(),
                forall|j: int|
                    0 <= j < it.index() ==> (#[trigger] rows@[j])@.client == order[j]
                        && accounts.contains_key(rows@[j]@.client) && accounts[rows@[j]@.client].snapshot()
                        == Some(rows@[j]@),
        {
            proof {
                assert(order[it.index() as int] == *client);
                assert(order.to_set().contains(*client));
            }
            let account = self.account(*client);
            rows.push(account.to_account());
        }
        proof {
            assert(order.no_duplicates());
            assert forall|c: u16| #[trigger] accounts.contains_key(c) implies exists|i: int|
                0 <= i < rows@.len() && (#[trigger] snapshots(rows@)[i]).client == c by {
                assert(order.to_set().contains(c));
                let i = order.index_of(c);
                assert(snapshots(rows@)[i].client == c);
            }
        }
        self.drop(budget);
        rows
    }

    /// Whether a claim on a deposit that was looked up overflows.
    fn settle_overflows(&self, claim: Claim, client: u16, tx: u32, found: Option<DepositRecord>) -> (r: bool)
        ensures
            r == (after_claim(self@, claim, client, tx, opt_deposit(found)) is None),
    {
        match found {
            None => false,
            Some(d) => {
                if !self.claim_applies(claim, client, tx, d) {
                    return false;
                }
                let account = self.account(client);
                match claim {
                    Claim::Dispute => account.after_dispute(d.amount).is_none(),
                    Claim::Resolve => account.after_resolve(d.amount).is_none(),
                    Claim::Chargeback => account.after_chargeback(d.amount).is_none(),
                }
            },
        }
    }

    /// Whether a claim on a deposit that is to be looked up overflows.
    fn claim_overflows(&self, claim: Claim, client: u16, tx: u32) -> (r: bool)
        requires
            self.wf(),
        ensures
            r == (claim_step(self@, claim, client, tx) is None),
    {
        let found = buffer_get(&self.pending, tx);
        if found.is_none() && self.has_spill {
            false
        } else {
            self.settle_overflows(claim, client, tx, found)
        }
    }

    /// Whether admitting a deposit overflows before the next action on the
    /// store.
    fn deposit_overflows(&self, budget: &GlobalMemBudget, client: u16, tx: u32, amount: Amount) -> (r: bool)
        ensures
            r == (admit_next(self@, budget@, client, tx, amount@) is None),
    {
        if budget.admits(ENTRY_MEM_BYTES) || buffer_len(&self.pending) == 0 {
            self.account(client).after_deposit(amount).is_none()
        } else {
            false
        }
    }

    /// Whether applying an event overflows before the next action on the store.
    fn apply_overflows(&self, budget: &GlobalMemBudget, event: &TransactionInfo) -> (r: bool)
        requires
            self.wf(),
        ensures
            r == (apply_next(self@, budget@, event@) is None),
    {
        match (event.type_tx, event.amount) {
            (TransactionType::Deposit, Some(amount)) => {
                if self.knows(event.tx) || self.has_spill {
                    false
                } else {
                    self.deposit_overflows(budget, event.client, event.tx, amount)
                }
            },
            (TransactionType::Withdrawal, Some(amount)) => {
                !self.knows(event.tx) && !self.has_spill && self.account(event.client).after_withdrawal(
                    amount,
                ).is_none()
            },
            (TransactionType::Deposit, None) => false,
            (TransactionType::Withdrawal, None) => false,
            (TransactionType::Dispute, _) => self.claim_overflows(Claim::Dispute, event.client, event.tx),
            (TransactionType::Resolve, _) => self.claim_overflows(Claim::Resolve, event.client, event.tx),
            (TransactionType::Chargeback, _) => {
                self.claim_overflows(Claim::Chargeback, event.client, event.tx)
            },
        }
    }

    /// Apply one event; `None`, and no change, if its amounts overflow.
    pub fn try_apply(&mut self, budget: &mut GlobalMemBudget, event: TransactionInfo) -> (r: Option<Step>)
        requires
            old(self).wf(),
        ensures
            final(self).wf(),
            reached(
                apply_next(old(self)@, old(budget)@, event@),
                (old(self)@, old(budget)@),
                (final(self)@, final(budget)@),
                r,
            ),
    {
        if self.apply_overflows(budget, &event) {
            None
        } else {
            Some(self.apply(budget, event))
        }
    }

    /// Go on after a read; `None`, and no change, if amounts overflow.
    pub fn try_on_read(
        &mut self,
        budget: &mut GlobalMemBudget,
        wait: ReadWait,
        reply: Result<Option<[u8; 18]>, StoreFault>,
    ) -> (r: Option<Step>)
        requires
            old(self).wf(),
        ensures
            final(self).wf(),
            reached(
                read_next(old(self)@, old(budget)@, wait@, reply_view(reply)),
                (old(self)@, old(budget)@),
                (final(self)@, final(budget)@),
                r,
            ),
    {
        let overflows = match reply {
            Err(_) => false,
            Ok(found) => match wait {
                ReadWait::Deposit { client, tx, amount } => found.is_none() && self.deposit_overflows(
                    budget,
                    client,
                    tx,
                    amount,
                ),
                ReadWait::Withdrawal { client, amount, .. } => found.is_none() && self.account(
                    client,
                ).after_withdrawal(amount).is_none(),
                ReadWait::Claim { claim, client, tx } => {
                    let record = match found {
                        Some(bytes) => Some(decode_record(bytes)),
                        None => None,
                    };
                    self.settle_overflows(claim, client, tx, record)
                },
            },
        };
        if overflows {
            None
        } else {
            Some(self.on_read(budget, wait, reply))
        }
    }

    /// Go on after an action of a flush; `None`, and no change, if amounts
    /// overflow.
    pub fn try_on_flush(
        &mut self,
        budget: &mut GlobalMemBudget,
        wait: FlushWait,
        reply: Result<(), StoreFault>,
    ) -> (r: Option<Step>)
        requires
            old(self).wf(),
        ensures
            final(self).wf(),
            reached(
                flushed_next(old(self)@, old(budget)@, wait@, reply),
                (old(self)@, old(budget)@),
                (final(self)@, final(budget)@),
                r,
            ),
    {
        let overflows = match (&wait.stage, &wait.resume) {
            (FlushStage::Committing { .. }, AfterFlush::Insert { client, amount, .. }) => reply.is_ok()
                && self.account(*client).after_deposit(*amount).is_none(),
            _ => false,
        };
        if overflows {
            None
        } else {
            Some(self.on_flush(budget, wait, reply))
        }
    }

    /// The final state of every client seen; `None` if a total overflows.
    /// Either way the engine leaves the budget.
    pub fn try_accounts(self, budget: &mut GlobalMemBudget) -> (r: Option<Vec<Account>>)
        requires
            self.wf(),
        ensures
            r is Some <==> forall|c: u16| #[trigger]
                self@.accounts.contains_key(c) ==> self@.accounts[c].snapshot() is Some,
            r matches Some(rows) ==> is_report(snapshots(rows@), self@.accounts),
            final(budget)@ == retired(self@, old(budget)@),
    {
        let ghost accounts = self@.accounts;
        let ghost order = spec_keys_iter(&self.accounts).remaining().unref();
        let mut reportable = true;
        for client in it: self.accounts.keys()
            invariant
                accounts == self@.accounts,
                it.seq().unref() == order,
                order.to_set() == self.accounts@.dom(),
                reportable <==> forall|j: int|
                    0 <= j < it.index() ==> accounts[#[trigger] order[j]].snapshot() is Some,
        {
            proof {
                assert(order[it.index() as int] == *client);
                assert(order.to_set().contains(*client));
            }
            if self.account(*client).checked_total().is_none() {
                reportable = false;
            }
        }
        proof {
            assert forall|c: u16| reportable && #[trigger] accounts.contains_key(c) implies accounts[c].snapshot()
                is Some by {
                assert(order.to_set().contains(c));
                let i = order.index_of(c);
                assert(order[i] == c);
            }
            assert forall|j: int| 0 <= j < order.len() implies accounts.contains_key(#[trigger] order[j]) by {
                assert(order.to_set().contains(order[j]));
            }
        }
        if reportable {
            Some(self.accounts(budget))
        } else {
            self.drop(budget);
            None
        }
    }

    /// Whether the deposit of `tx` is in memory.
    pub fn is_pending(&self, tx: u32) -> (r: bool)
        requires
            self.wf(),
        ensures
            r == has_tx(self@.pending, tx),
    {
        buffer_get(&self.pending, tx).is_some()
    }

    /// Deposits in memory.
    pub fn pending_len(&self) -> (n: usize)
        ensures
            n == self@.pending.len(),
    {
        buffer_len(&self.pending)
    }

    /// Whether the spill store exists.
    pub fn has_spill(&self) -> (r: bool)
        ensures
            r == self@.has_spill,
    {
        self.has_spill
    }
}

/// Buffering one more deposit keeps an engine valid.
proof fn lemma_with_deposit_keeps_valid(e: EngineState, tx: u32, d: Deposit)
    requires
        e.valid(),
        d.amount.valid(),
    ensures
        (EngineState { pending: with_deposit(e.pending, tx, d), ..e }).valid(),
{
    let s = e.pending;
    let t = with_deposit(s, tx, d);
    if has_tx(s, tx) {
        let k = index_of_tx(s, tx);
        assert(0 <= k < s.len() && s[k].0 == tx);
        assert forall|i: int, j: int| 0 <= i < t.len() && 0 <= j < t.len() && i != j implies (
        #[trigger] t[i]).0 != (#[trigger] t[j]).0 by {
            assert(s[i].0 != s[j].0);
            assert(t[i].0 == s[i].0);
            assert(t[j].0 == s[j].0);
        }
    }
}

/// A report lists every account once, and each row carries the balances of its
/// client's account, their sum as total, and the lock.
pub proof fn law_report_shows_every_account_once(rows: Seq<Snapshot>, accounts: Map<u16, Balances>)
    requires
        is_report(rows, accounts),
    ensures
        forall|c: u16| #[trigger]
            accounts.contains_key(c) <==> exists|i: int| 0 <= i < rows.len() && (#[trigger] rows[i]).client == c,
        forall|i: int, j: int|
            0 <= i < rows.len() && 0 <= j < rows.len() && (#[trigger] rows[i]).client == (#[trigger] rows[j]).client
                ==> i == j,
        forall|i: int|
            0 <= i < rows.len() ==> {
                let account = accounts[(#[trigger] rows[i]).client];
                &&& rows[i].client == account.client
                &&& rows[i].available == account.available
                &&& rows[i].held == account.held
                &&& Some(rows[i].total) == sum(account.available, account.held)
                &&& rows[i].locked <==> account.state == AccountState::Locked
            },
{
    assert forall|i: int| 0 <= i < rows.len() implies {
        let account = accounts[(#[trigger] rows[i]).client];
        &&& rows[i].client == account.client
        &&& rows[i].available == account.available
        &&& rows[i].held == account.held
        &&& Some(rows[i].total) == sum(account.available, account.held)
        &&& rows[i].locked <==> account.state == AccountState::Locked
    } by {
        law_row_carries_own_balances(accounts[rows[i].client]);
    }
}

/// Rows and their values stand in the same order.
pub proof fn law_row_values_stand_in_order(rows: Seq<Account>)
    ensures
        snapshots(rows).len() == rows.len(),
        forall|i: int| 0 <= i < rows.len() ==> #[trigger] snapshots(rows)[i] == rows[i]@,
{
}

/// A call that may refuse either went where `next` says, or there is no such
/// place and nothing changed.
pub proof fn law_refused_call_changes_nothing(
    next: Option<Next>,
    before: (EngineState, BudgetState),
    after: (EngineState, BudgetState),
    step: Option<Step>,
)
    requires
        reached(next, before, after, step),
    ensures
        step is Some <==> next is Some,
        step is None ==> after == before,
        step matches Some(s) ==> {
            &&& (next->0).engine == after.0
            &&& (next->0).budget == after.1
            &&& (next->0).step == s@
        },
{
}

/// The value of a step is that of its parts.
pub proof fn law_step_value_is_its_parts(step: Step)
    ensures
        step matches Step::Done(outcome) ==> step@ == StepView::Done(outcome),
        step matches Step::Read { tx, wait } ==> (step@ matches StepView::Read { tx: id, wait: lookup } && id == tx && (
        match wait {
            ReadWait::Deposit { client, tx, amount } => lookup == (Lookup::Deposit { client, tx, amount: amount@ }),
            ReadWait::Withdrawal { client, tx, amount } => lookup == (Lookup::Withdrawal { client, tx, amount: amount@ }),
            ReadWait::Claim { claim, client, tx } => lookup == (Lookup::Claim { claim, client, tx }),
        })),
        step matches Step::Open(wait) ==> step@ == StepView::Open(wait@),
        step matches Step::Begin(wait) ==> step@ == StepView::Begin(wait@),
        step matches Step::Commit { batch, wait } ==> (step@ matches StepView::Commit { batch: records, wait: flush }
            && flush == wait@ && records.len() == batch@.len() && forall|i: int|
            0 <= i < batch@.len() ==> (#[trigger] records[i]).0 == batch@[i].0 && records[i].1 == batch@[i].1@),
{
}

/// The value of a flush that is waited for is that of its parts.
pub proof fn law_flush_value_is_its_parts(wait: FlushWait)
    ensures
        wait@.stage == wait.stage,
        wait.resume matches AfterFlush::Finish { notice } ==> wait@.resume == (Resume::Finish { notice }),
        wait.resume matches AfterFlush::Insert { client, tx, amount } ==> wait@.resume == (Resume::Insert {
            client,
            tx,
            amount: amount@,
        }),
{
}

/// The value of a reply is that of its bytes.
pub proof fn law_reply_value_is_its_bytes(reply: Result<Option<[u8; 18]>, StoreFault>)
    ensures
        reply is Err ==> reply_view(reply) is Err,
        reply matches Ok(None) ==> reply_view(reply) == Ok::<Option<Seq<u8>>, StoreFault>(None),
        reply matches Ok(Some(bytes)) ==> reply_view(reply) == Ok::<Option<Seq<u8>>, StoreFault>(Some(bytes@)),
{
}

/// The state of an engine is that of its fields.
proof fn law_engine_state_is_its_fields(engine: Payments, budget: GlobalMemBudget, step: Step)
    ensures
        forall|c: u16| #[trigger] engine@.accounts.contains_key(c) <==> engine.accounts@.contains_key(c),
        forall|c: u16| #[trigger]
            engine.accounts@.contains_key(c) ==> engine@.accounts[c] == engine.accounts@[c]@,
        engine@.disputed == engine.disputed@,
        engine@.processed == engine.processed@,
        engine@.pending == entries(engine.pending),
        engine@.has_spill == engine.has_spill,
        engine.at(budget, step).engine == engine@,
        engine.at(budget, step).budget == budget@,
        engine.at(budget, step).step == step@,
{
}

/// A new engine holds nothing.
pub proof fn law_empty_engine_holds_nothing()
    ensures
        forall|c: u16| !#[trigger] empty_engine().accounts.contains_key(c),
        forall|tx: u32| !#[trigger] empty_engine().disputed.contains(tx),
        forall|tx: u32| !#[trigger] empty_engine().processed.contains(tx),
        empty_engine().pending.len() == 0,
        !empty_engine().has_spill,
{
}

/// The value of an optional deposit is that of the deposit.
pub proof fn law_optional_deposit_value(found: Option<DepositRecord>)
    ensures
        found is None <==> opt_deposit(found) is None,
        found matches Some(d) ==> opt_deposit(found) == Some(d@),
{
}

} // verus!
