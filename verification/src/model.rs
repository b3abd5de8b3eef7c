//! What the engine does, as mathematics.
//!
//! The engine never touches the disk itself. Handling one event is a run of
//! steps: each step either ends the event or asks the caller for one action on
//! the spill store (a read, opening the store, beginning a write, committing a
//! batch), and the caller hands the outcome back. The functions below say for
//! every state and every outcome what the next state and the next step are;
//! `None` means that the arithmetic of amounts overflows.
use crate::account::{fresh, Balances};
use crate::amount::Number;
use crate::mem_budget::{at_least_one, wrap, BudgetState, MemPressure};
use crate::models::{Event, TransactionType};
use crate::pending::{deposit_of, distinct, has_tx, with_deposit};
use crate::record::{decoded, encoded, Deposit};
use vstd::prelude::*;

verus! {

/// Memory cost of one buffered deposit, in bytes: its transaction ID and its
/// record.
pub const ENTRY_MEM_BYTES: usize = 24;

/// Something worth a warning that happened to an accepted event.
#[derive(Debug, Clone, Copy, PartialEq, Eq, Structural)]
pub enum Notice {
    /// A deposit or withdrawal with a known transaction ID was ignored.
    Duplicate { tx: u32 },
    /// A deposit was buffered beyond the memory ceiling.
    OverLimit { tx: u32 },
    /// A dispute was ignored: the account is locked or its available funds do
    /// not cover the deposit.
    DisputeIgnored { tx: u32, client: u16 },
}

/// Why an event was refused.
#[derive(Debug, Clone, Copy, PartialEq, Eq, Structural)]
pub enum ApplyError {
    /// A deposit or withdrawal carries no amount.
    MissingAmount { tx: u32, type_tx: TransactionType },
    /// The spill store failed.
    Ledger,
}

/// The spill store reported a failure.
#[derive(Debug, Clone, Copy, PartialEq, Eq, Structural)]
pub struct StoreFault;

/// What an event asks of an earlier deposit.
#[derive(Debug, Clone, Copy, PartialEq, Eq, Structural)]
pub enum Claim {
    Dispute,
    Resolve,
    Chargeback,
}

/// How far a flush has come.
#[derive(Debug, Clone, Copy, PartialEq, Eq, Structural)]
pub enum FlushStage {
    /// The store is being created.
    Opening,
    /// A write is being begun.
    Beginning,
    /// A batch of `count` deposits is being committed.
    Committing { count: usize },
}

/// How an event ended: accepted, perhaps with a notice, or refused.
pub type Outcome = Result<Option<Notice>, ApplyError>;

/// An event that waits for a read of the spill store.
pub enum Lookup {
    Deposit { client: u16, tx: u32, amount: Number },
    Withdrawal { client: u16, tx: u32, amount: Number },
    Claim { claim: Claim, client: u16, tx: u32 },
}

/// What follows a flush.
pub enum Resume {
    Finish { notice: Option<Notice> },
    Insert { client: u16, tx: u32, amount: Number },
}

/// An event that waits for a flush.
pub struct Flush {
    pub stage: FlushStage,
    pub resume: Resume,
}

/// The next thing to do for an event.
#[verifier::ext_equal]
#[allow(inconsistent_fields)]
pub enum StepView {
    /// The event is done.
    Done(Outcome),
    /// Read the record of a transaction.
    Read { tx: u32, wait: Lookup },
    /// Create the store.
    Open(Flush),
    /// Begin a write.
    Begin(Flush),
    /// Write the batch in order and commit.
    Commit { batch: Seq<(u32, Seq<u8>)>, wait: Flush },
}

/// What an engine holds.
#[verifier::ext_equal]
pub struct EngineState {
    /// The account of each client seen.
    pub accounts: Map<u16, Balances>,
    /// Transactions under an open dispute.
    pub disputed: Set<u32>,
    /// Transaction IDs of the withdrawals seen.
    pub processed: Set<u32>,
    /// Deposits in memory, oldest first.
    pub pending: Seq<(u32, Deposit)>,
    /// Whether the spill store exists.
    pub has_spill: bool,
}

/// State and step after one call.
#[verifier::ext_equal]
pub struct Next {
    pub engine: EngineState,
    pub budget: BudgetState,
    pub step: StepView,
}

/// An engine that has seen no event.
pub open spec fn empty_engine() -> EngineState {
    EngineState {
        accounts: Map::empty(),
        disputed: Set::empty(),
        processed: Set::empty(),
        pending: Seq::empty(),
        has_spill: false,
    }
}

impl EngineState {
    /// No deposit is buffered twice, and the amounts of deposits are in range.
    pub open spec fn buffer_valid(self) -> bool {
        &&& distinct(self.pending)
        &&& forall|i: int| 0 <= i < self.pending.len() ==> (#[trigger] self.pending[i]).1.amount.valid()
    }

    /// The buffer is valid, every account stands under its client, and its
    /// balances are in range.
    pub open spec fn valid(self) -> bool {
        &&& self.buffer_valid()
        &&& forall|c: u16| #[trigger]
            self.accounts.contains_key(c) ==> self.accounts[c].client == c && self.accounts[c].valid()
    }

    /// The client's account; a fresh one if the client is new.
    pub open spec fn account(self, client: u16) -> Balances {
        if self.accounts.contains_key(client) {
            self.accounts[client]
        } else {
            fresh(client)
        }
    }

    /// The ID belongs to a withdrawal or to a deposit in memory.
    pub open spec fn knows(self, tx: u32) -> bool {
        self.processed.contains(tx) || has_tx(self.pending, tx)
    }

    pub open spec fn with_account(self, client: u16, account: Balances) -> EngineState {
        EngineState { accounts: self.accounts.insert(client, account), ..self }
    }
}

/// Bytes that `n` buffered deposits cost.
pub open spec fn entry_bytes(n: nat) -> usize {
    if n * ENTRY_MEM_BYTES <= usize::MAX {
        (n * ENTRY_MEM_BYTES) as usize
    } else {
        usize::MAX
    }
}

/// Deposits that one flush evicts: a tenth, and at least one if there is one.
pub open spec fn flush_count(len: nat) -> nat {
    if len == 0 {
        0
    } else if len < 10 {
        1
    } else {
        len / 10
    }
}

/// Buffered deposits at which an engine flushes after an insert.
pub open spec fn flush_threshold(b: BudgetState) -> usize {
    match b.pressure() {
        MemPressure::Low => b.share(ENTRY_MEM_BYTES),
        MemPressure::Medium => at_least_one(b.share(ENTRY_MEM_BYTES) as int / 2),
        MemPressure::High => usize::MAX,
    }
}

/// The batch that stores these deposits.
pub open spec fn batch_of(s: Seq<(u32, Deposit)>) -> Seq<(u32, Seq<u8>)> {
    s.map_values(|e: (u32, Deposit)| (e.0, encoded(e.1)))
}

/// The refusal of an event without an amount.
pub open spec fn missing_amount(event: Event) -> ApplyError {
    ApplyError::MissingAmount { tx: event.tx, type_tx: event.type_tx }
}

pub open spec fn done(e: EngineState, b: BudgetState, outcome: Outcome) -> Option<Next> {
    Some(Next { engine: e, budget: b, step: StepView::Done(outcome) })
}

/// First action of a flush of a buffer that holds deposits: create the store
/// if there is none, otherwise begin a write.
pub open spec fn first_flush_step(has_spill: bool, resume: Resume) -> StepView {
    if has_spill {
        StepView::Begin(Flush { stage: FlushStage::Beginning, resume })
    } else {
        StepView::Open(Flush { stage: FlushStage::Opening, resume })
    }
}

pub open spec fn start_flush(e: EngineState, b: BudgetState, resume: Resume) -> Next {
    Next { engine: e, budget: b, step: first_flush_step(e.has_spill, resume) }
}

/// Buffer a deposit whose bytes are reserved and credit the account; flush if
/// the buffer has reached its threshold.
pub open spec fn insert_next(
    e: EngineState,
    b: BudgetState,
    client: u16,
    tx: u32,
    amount: Number,
    notice: Option<Notice>,
) -> Option<Next> {
    match e.account(client).deposited(amount) {
        None => None,
        Some(account) => {
            let inserted = EngineState {
                pending: with_deposit(e.pending, tx, Deposit { client, amount }),
                ..e.with_account(client, account)
            };
            if inserted.pending.len() >= flush_threshold(b) {
                Some(start_flush(inserted, b, Resume::Finish { notice }))
            } else {
                done(inserted, b, Ok(notice))
            }
        },
    }
}

/// What follows a flush: the end of the event, or the deposit that waited. If
/// its bytes are refused once more they are taken beyond the ceiling.
pub open spec fn resume_next(e: EngineState, b: BudgetState, resume: Resume) -> Option<Next> {
    match resume {
        Resume::Finish { notice } => done(e, b, Ok(notice)),
        Resume::Insert { client, tx, amount } => insert_next(
            e,
            b.take(ENTRY_MEM_BYTES),
            client,
            tx,
            amount,
            if b.admits(ENTRY_MEM_BYTES) {
                None
            } else {
                Some(Notice::OverLimit { tx })
            },
        ),
    }
}

/// Evict the oldest deposits, then go on with `resume`. An empty buffer has
/// nothing to evict.
pub open spec fn flush_next(e: EngineState, b: BudgetState, resume: Resume) -> Option<Next> {
    if e.pending.len() == 0 {
        resume_next(e, b, resume)
    } else {
        Some(start_flush(e, b, resume))
    }
}

/// A deposit that is not a duplicate: reserve its bytes, after a flush if they
/// are refused at first, and insert it.
pub open spec fn admit_next(e: EngineState, b: BudgetState, client: u16, tx: u32, amount: Number) -> Option<
    Next,
> {
    if b.admits(ENTRY_MEM_BYTES) {
        insert_next(e, b.take(ENTRY_MEM_BYTES), client, tx, amount, None)
    } else {
        flush_next(e, b, Resume::Insert { client, tx, amount })
    }
}

/// The end of an event that leaves the budget alone.
pub open spec fn ended(end: Option<(EngineState, Outcome)>, b: BudgetState) -> Option<Next> {
    match end {
        Some((e, outcome)) => done(e, b, outcome),
        None => None,
    }
}

/// A dispute of the client's own deposit, which is undisputed. It opens only if
/// the account covers the amount.
pub open spec fn after_dispute(e: EngineState, client: u16, tx: u32, amount: Number) -> Option<
    (EngineState, Outcome),
> {
    match e.account(client).disputed(amount) {
        None => None,
        Some(account) => if e.account(client).covers(amount) {
            Some(
                (
                    EngineState { disputed: e.disputed.insert(tx), ..e.with_account(client, account) },
                    Ok(None),
                ),
            )
        } else {
            Some((e.with_account(client, account), Ok(Some(Notice::DisputeIgnored { tx, client }))))
        },
    }
}

/// A resolve of the client's own disputed deposit.
pub open spec fn after_resolve(e: EngineState, client: u16, tx: u32, amount: Number) -> Option<
    (EngineState, Outcome),
> {
    match e.account(client).resolved(amount) {
        None => None,
        Some(account) => Some(
            (
                EngineState { disputed: e.disputed.remove(tx), ..e.with_account(client, account) },
                Ok(None),
            ),
        ),
    }
}

/// A chargeback of the client's own disputed deposit.
pub open spec fn after_chargeback(e: EngineState, client: u16, tx: u32, amount: Number) -> Option<
    (EngineState, Outcome),
> {
    match e.account(client).charged_back(amount) {
        None => None,
        Some(account) => Some(
            (
                EngineState { disputed: e.disputed.remove(tx), ..e.with_account(client, account) },
                Ok(None),
            ),
        ),
    }
}

/// A claim on a deposit that was looked up. It is ignored unless the deposit
/// exists and is the client's own, and unless the deposit is undisputed for a
/// dispute, disputed for a resolve or chargeback.
pub open spec fn after_claim(
    e: EngineState,
    claim: Claim,
    client: u16,
    tx: u32,
    found: Option<Deposit>,
) -> Option<(EngineState, Outcome)> {
    match found {
        None => Some((e, Ok(None))),
        Some(d) => if d.client != client || e.disputed.contains(tx) == (claim is Dispute) {
            Some((e, Ok(None)))
        } else {
            match claim {
                Claim::Dispute => after_dispute(e, client, tx, d.amount),
                Claim::Resolve => after_resolve(e, client, tx, d.amount),
                Claim::Chargeback => after_chargeback(e, client, tx, d.amount),
            }
        },
    }
}

/// A withdrawal that is not a duplicate: its ID is recorded and the account is
/// debited if its funds cover the amount.
pub open spec fn after_withdrawal(e: EngineState, client: u16, tx: u32, amount: Number) -> Option<
    (EngineState, Outcome),
> {
    match e.account(client).withdrawn(amount) {
        None => None,
        Some(account) => Some(
            (
                EngineState { processed: e.processed.insert(tx), ..e.with_account(client, account) },
                Ok(None),
            ),
        ),
    }
}

/// A withdrawal: refused without an amount, ignored as a duplicate of a known
/// withdrawal or deposit, otherwise handed to the account. Deposits are looked
/// up in memory first and in the store second.
pub open spec fn withdrawal_step(e: EngineState, event: Event) -> Option<(EngineState, StepView)> {
    match event.amount {
        None => Some((e, StepView::Done(Err(missing_amount(event))))),
        Some(amount) => if e.knows(event.tx) {
            Some((e, StepView::Done(Ok(Some(Notice::Duplicate { tx: event.tx })))))
        } else if e.has_spill {
            Some(
                (
                    e,
                    StepView::Read {
                        tx: event.tx,
                        wait: Lookup::Withdrawal { client: event.client, tx: event.tx, amount },
                    },
                ),
            )
        } else {
            match after_withdrawal(e, event.client, event.tx, amount) {
                Some((after, outcome)) => Some((after, StepView::Done(outcome))),
                None => None,
            }
        },
    }
}

/// A claim on a deposit that is to be looked up, in memory first and in the
/// store second.
pub open spec fn claim_step(e: EngineState, claim: Claim, client: u16, tx: u32) -> Option<
    (EngineState, StepView),
> {
    if has_tx(e.pending, tx) || !e.has_spill {
        match after_claim(e, claim, client, tx, deposit_of(e.pending, tx)) {
            Some((after, outcome)) => Some((after, StepView::Done(outcome))),
            None => None,
        }
    } else {
        Some((e, StepView::Read { tx, wait: Lookup::Claim { claim, client, tx } }))
    }
}

/// A call that leaves the budget alone.
pub open spec fn stepped(to: Option<(EngineState, StepView)>, b: BudgetState) -> Option<Next> {
    match to {
        Some((engine, step)) => Some(Next { engine, budget: b, step }),
        None => None,
    }
}

/// A deposit: refused without an amount, ignored as a duplicate of a known
/// deposit or withdrawal, otherwise admitted.
pub open spec fn deposit_next(e: EngineState, b: BudgetState, event: Event) -> Option<Next> {
    match event.amount {
        None => done(e, b, Err(missing_amount(event))),
        Some(amount) => if e.knows(event.tx) {
            done(e, b, Ok(Some(Notice::Duplicate { tx: event.tx })))
        } else if e.has_spill {
            Some(
                Next {
                    engine: e,
                    budget: b,
                    step: StepView::Read {
                        tx: event.tx,
                        wait: Lookup::Deposit { client: event.client, tx: event.tx, amount },
                    },
                },
            )
        } else {
            admit_next(e, b, event.client, event.tx, amount)
        },
    }
}

/// The first step of an event.
pub open spec fn apply_next(e: EngineState, b: BudgetState, event: Event) -> Option<Next> {
    match event.type_tx {
        TransactionType::Deposit => deposit_next(e, b, event),
        TransactionType::Withdrawal => stepped(withdrawal_step(e, event), b),
        TransactionType::Dispute => stepped(
            claim_step(e, Claim::Dispute, event.client, event.tx),
            b,
        ),
        TransactionType::Resolve => stepped(
            claim_step(e, Claim::Resolve, event.client, event.tx),
            b,
        ),
        TransactionType::Chargeback => stepped(
            claim_step(e, Claim::Chargeback, event.client, event.tx),
            b,
        ),
    }
}

/// The step after a read of the store. A failed read ends the event and
/// changes nothing.
pub open spec fn read_next(
    e: EngineState,
    b: BudgetState,
    wait: Lookup,
    reply: Result<Option<Seq<u8>>, StoreFault>,
) -> Option<Next> {
    match reply {
        Err(_) => done(e, b, Err(ApplyError::Ledger)),
        Ok(found) => match wait {
            Lookup::Deposit { client, tx, amount } => if found is Some {
                done(e, b, Ok(Some(Notice::Duplicate { tx })))
            } else {
                admit_next(e, b, client, tx, amount)
            },
            Lookup::Withdrawal { client, tx, amount } => if found is Some {
                done(e, b, Ok(Some(Notice::Duplicate { tx })))
            } else {
                ended(after_withdrawal(e, client, tx, amount), b)
            },
            Lookup::Claim { claim, client, tx } => ended(
                after_claim(
                    e,
                    claim,
                    client,
                    tx,
                    match found {
                        Some(bytes) => Some(decoded(bytes)),
                        None => None,
                    },
                ),
                b,
            ),
        },
    }
}

/// The step after an action of a flush. A failure ends the event; deposits
/// that have left the buffer by then stay out, and their bytes stay reserved.
pub open spec fn flushed_next(
    e: EngineState,
    b: BudgetState,
    wait: Flush,
    reply: Result<(), StoreFault>,
) -> Option<Next> {
    match (reply, wait.stage) {
        (Err(_), _) => done(e, b, Err(ApplyError::Ledger)),
        (Ok(_), FlushStage::Opening) => Some(
            start_flush(EngineState { has_spill: true, ..e }, b, wait.resume),
        ),
        (Ok(_), FlushStage::Beginning) => {
            let n = flush_count(e.pending.len());
            Some(
                Next {
                    engine: EngineState { pending: e.pending.skip(n as int), ..e },
                    budget: b,
                    step: StepView::Commit {
                        batch: batch_of(e.pending.take(n as int)),
                        wait: Flush {
                            stage: FlushStage::Committing { count: n as usize },
                            resume: wait.resume,
                        },
                    },
                },
            )
        },
        (Ok(_), FlushStage::Committing { count }) => resume_next(
            e,
            b.give(entry_bytes(count as nat)),
            wait.resume,
        ),
    }
}

/// The budget after an engine is gone: the bytes of its buffer are back and
/// it no longer counts as a sharer.
pub open spec fn retired(e: EngineState, b: BudgetState) -> BudgetState {
    let b = b.give(entry_bytes(e.pending.len()));
    BudgetState { actors: wrap(b.actors - 1), ..b }
}

} // verus!
