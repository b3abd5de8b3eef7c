use std::collections::HashMap;

use pecrab::amount::Amount;
use pecrab::dispatch::Router;
use pecrab::engine::{FlushWait, Payments, Step};
use pecrab::mem_budget::{GlobalMemBudget, MemPressure};
use pecrab::model::{ApplyError, Notice, StoreFault, ENTRY_MEM_BYTES};
use pecrab::models::{Account, TransactionInfo, TransactionType};
use redb::{Database, Durability, ReadableDatabase, ReadableTableMetadata, TableDefinition, WriteTransaction};
use tempfile::NamedTempFile;

const DEPOSITS: TableDefinition<u32, [u8; 18]> = TableDefinition::new("deposits");

/// A spill store that can be told to fail.
struct Store {
    db: Option<Database>,
    tmp: Option<NamedTempFile>,
    write: Option<WriteTransaction>,
    fail_read: bool,
    fail_open: bool,
    fail_begin: bool,
    fail_commit: bool,
    batches: Vec<Vec<u32>>,
}

impl Store {
    fn new() -> Store {
        Store {
            db: None,
            tmp: None,
            write: None,
            fail_read: false,
            fail_open: false,
            fail_begin: false,
            fail_commit: false,
            batches: Vec::new(),
        }
    }

    fn read(&self, tx: u32) -> Result<Option<[u8; 18]>, StoreFault> {
        if self.fail_read {
            return Err(StoreFault);
        }
        let txn = self.db.as_ref().unwrap().begin_read().unwrap();
        let table = txn.open_table(DEPOSITS).unwrap();
        Ok(table.get(tx).unwrap().map(|guard| guard.value()))
    }

    fn open(&mut self) -> Result<(), StoreFault> {
        if self.fail_open {
            return Err(StoreFault);
        }
        assert!(self.db.is_none(), "the store is created once");
        let tmp = NamedTempFile::new().unwrap();
        let db = Database::create(tmp.path()).unwrap();
        let mut txn = db.begin_write().unwrap();
        txn.set_durability(Durability::None).unwrap();
        txn.open_table(DEPOSITS).unwrap();
        txn.commit().unwrap();
        self.db = Some(db);
        self.tmp = Some(tmp);
        Ok(())
    }

    fn begin(&mut self) -> Result<(), StoreFault> {
        if self.fail_begin {
            return Err(StoreFault);
        }
        let mut txn = self.db.as_ref().unwrap().begin_write().unwrap();
        txn.set_durability(Durability::None).unwrap();
        self.write = Some(txn);
        Ok(())
    }

    fn commit(&mut self, batch: &[(u32, [u8; 18])]) -> Result<(), StoreFault> {
        let txn = self.write.take().unwrap();
        if self.fail_commit {
            txn.abort().unwrap();
            return Err(StoreFault);
        }
        {
            let mut table = txn.open_table(DEPOSITS).unwrap();
            for (tx, bytes) in batch {
                table.insert(*tx, *bytes).unwrap();
            }
        }
        txn.commit().unwrap();
        self.batches.push(batch.iter().map(|(tx, _)| *tx).collect());
        Ok(())
    }

    fn len(&self) -> u64 {
        match &self.db {
            None => 0,
            Some(db) => {
                let txn = db.begin_read().unwrap();
                txn.open_table(DEPOSITS).unwrap().len().unwrap()
            }
        }
    }
}

type Outcome = Result<Option<Notice>, ApplyError>;

/// An engine with a store of its own.
struct Rig {
    engine: Payments,
    store: Store,
}

impl Rig {
    fn new(budget: &mut GlobalMemBudget) -> Rig {
        Rig {
            engine: Payments::new(budget).unwrap(),
            store: Store::new(),
        }
    }

    fn flushed(&mut self, budget: &mut GlobalMemBudget, wait: FlushWait, reply: Result<(), StoreFault>) -> Step {
        self.engine.try_on_flush(budget, wait, reply).unwrap()
    }

    fn drive(&mut self, budget: &mut GlobalMemBudget, step: Step) -> Outcome {
        let mut step = step;
        loop {
            step = match step {
                Step::Done(outcome) => return outcome,
                Step::Read { tx, wait } => {
                    let reply = self.store.read(tx);
                    self.engine.try_on_read(budget, wait, reply).unwrap()
                }
                Step::Open(wait) => {
                    let reply = self.store.open();
                    self.flushed(budget, wait, reply)
                }
                Step::Begin(wait) => {
                    let reply = self.store.begin();
                    self.flushed(budget, wait, reply)
                }
                Step::Commit { batch, wait } => {
                    let reply = self.store.commit(&batch);
                    self.flushed(budget, wait, reply)
                }
            };
        }
    }

    fn apply(&mut self, budget: &mut GlobalMemBudget, event: TransactionInfo) -> Outcome {
        let step = self.engine.try_apply(budget, event).unwrap();
        self.drive(budget, step)
    }

    fn flush_oldest(&mut self, budget: &mut GlobalMemBudget) -> Outcome {
        let step = self.engine.flush_oldest(budget);
        self.drive(budget, step)
    }

    fn accounts_map(self, budget: &mut GlobalMemBudget) -> HashMap<u16, Account> {
        let rows = self.engine.try_accounts(budget).unwrap();
        let count = rows.len();
        let map: HashMap<u16, Account> = rows.into_iter().map(|a| (a.client, a)).collect();
        assert_eq!(map.len(), count, "one row for each client");
        map
    }
}

fn dec(text: &str) -> Amount {
    Amount::parse(text).unwrap()
}

fn max_amount() -> Amount {
    dec("79228162514264337593543950335")
}

fn event(type_tx: TransactionType, client: u16, tx: u32, amount: Option<Amount>) -> TransactionInfo {
    TransactionInfo {
        type_tx,
        client,
        tx,
        amount,
    }
}

fn deposit(client: u16, tx: u32, amount: Amount) -> TransactionInfo {
    event(TransactionType::Deposit, client, tx, Some(amount))
}

fn withdrawal(client: u16, tx: u32, amount: Amount) -> TransactionInfo {
    event(TransactionType::Withdrawal, client, tx, Some(amount))
}

fn dispute(client: u16, tx: u32) -> TransactionInfo {
    event(TransactionType::Dispute, client, tx, None)
}

fn resolve(client: u16, tx: u32) -> TransactionInfo {
    event(TransactionType::Resolve, client, tx, None)
}

fn chargeback(client: u16, tx: u32) -> TransactionInfo {
    event(TransactionType::Chargeback, client, tx, None)
}

// -- flush_oldest ------------------------------------------------------------

#[test]
fn flush_oldest_evicts_to_redb_and_deposit_still_disputable() {
    let mut b = GlobalMemBudget::new(ENTRY_MEM_BYTES);
    let mut e = Rig::new(&mut b);
    e.apply(&mut b, deposit(1, 1, dec("100.0"))).unwrap();
    e.apply(&mut b, deposit(1, 2, dec("1.0"))).unwrap();

    e.apply(&mut b, dispute(1, 1)).unwrap();

    let accounts = e.accounts_map(&mut b);
    assert_eq!(accounts[&1].held, dec("100.0"));
}

#[test]
fn flush_oldest_keeps_newer_entries_in_memory() {
    let mut b = GlobalMemBudget::unlimited();
    let mut e = Rig::new(&mut b);
    e.apply(&mut b, deposit(1, 1, dec("10.0"))).unwrap();
    e.apply(&mut b, deposit(1, 2, dec("20.0"))).unwrap();

    e.flush_oldest(&mut b).unwrap();

    assert!(!e.engine.is_pending(1));
    assert!(e.engine.is_pending(2));

    e.apply(&mut b, dispute(1, 1)).unwrap();
    e.apply(&mut b, dispute(1, 2)).unwrap();

    let accounts = e.accounts_map(&mut b);
    assert_eq!(accounts[&1].held, dec("30.0"));
}

// -- Deposit -----------------------------------------------------------------

#[test]
fn deposit_creates_account_and_credits_available() {
    let mut b = GlobalMemBudget::unlimited();
    let mut e = Rig::new(&mut b);
    e.apply(&mut b, deposit(1, 1, dec("100.0000"))).unwrap();

    let accounts = e.accounts_map(&mut b);
    let acc = &accounts[&1];
    assert_eq!(acc.available, dec("100.0000"));
    assert_eq!(acc.held, dec("0"));
    assert_eq!(acc.total, dec("100.0000"));
    assert!(!acc.locked);
}

#[test]
fn duplicate_tx_id_is_ignored() {
    let mut b = GlobalMemBudget::unlimited();
    let mut e = Rig::new(&mut b);
    e.apply(&mut b, deposit(1, 1, dec("100.0000"))).unwrap();
    e.apply(&mut b, deposit(1, 1, dec("50.0000"))).unwrap();

    let accounts = e.accounts_map(&mut b);
    assert_eq!(accounts[&1].available, dec("100.0000"));
}

// -- Withdrawal --------------------------------------------------------------

#[test]
fn withdrawal_debits_available() {
    let mut b = GlobalMemBudget::unlimited();
    let mut e = Rig::new(&mut b);
    e.apply(&mut b, deposit(1, 1, dec("100.0000"))).unwrap();
    e.apply(&mut b, withdrawal(1, 2, dec("40.0000"))).unwrap();

    let accounts = e.accounts_map(&mut b);
    assert_eq!(accounts[&1].available, dec("60.0000"));
    assert_eq!(accounts[&1].total, dec("60.0000"));
}

#[test]
fn withdrawal_fails_silently_on_insufficient_funds() {
    let mut b = GlobalMemBudget::unlimited();
    let mut e = Rig::new(&mut b);
    e.apply(&mut b, deposit(1, 1, dec("10.0000"))).unwrap();
    e.apply(&mut b, withdrawal(1, 2, dec("20.0000"))).unwrap();

    let accounts = e.accounts_map(&mut b);
    assert_eq!(accounts[&1].available, dec("10.0000"));
}

// -- Dispute -----------------------------------------------------------------

#[test]
fn dispute_moves_funds_to_held() {
    let mut b = GlobalMemBudget::unlimited();
    let mut e = Rig::new(&mut b);
    e.apply(&mut b, deposit(1, 1, dec("100.0000"))).unwrap();
    e.apply(&mut b, dispute(1, 1)).unwrap();

    let accounts = e.accounts_map(&mut b);
    let acc = &accounts[&1];
    assert_eq!(acc.available, dec("0.0"));
    assert_eq!(acc.held, dec("100.0"));
    assert_eq!(acc.total, dec("100.0"));
}

#[test]
fn dispute_with_insufficient_available_is_ignored() {
    let mut b = GlobalMemBudget::unlimited();
    let mut e = Rig::new(&mut b);
    e.apply(&mut b, deposit(1, 1, dec("100.0"))).unwrap();
    e.apply(&mut b, withdrawal(1, 2, dec("100.0"))).unwrap();
    e.apply(&mut b, dispute(1, 1)).unwrap();

    let accounts = e.accounts_map(&mut b);
    let acc = &accounts[&1];
    assert_eq!(acc.available, dec("0.0"));
    assert_eq!(acc.held, dec("0.0"));
    assert!(!acc.locked);
}

#[test]
fn dispute_unknown_tx_is_ignored() {
    let mut b = GlobalMemBudget::unlimited();
    let mut e = Rig::new(&mut b);
    e.apply(&mut b, deposit(1, 1, dec("100.0000"))).unwrap();
    e.apply(&mut b, dispute(1, 99)).unwrap();

    let accounts = e.accounts_map(&mut b);
    assert_eq!(accounts[&1].available, dec("100.0000"));
    assert_eq!(accounts[&1].held, dec("0.0000"));
}

#[test]
fn dispute_cross_client_is_ignored() {
    let mut b = GlobalMemBudget::unlimited();
    let mut e = Rig::new(&mut b);
    e.apply(&mut b, deposit(1, 1, dec("100.0000"))).unwrap();
    e.apply(&mut b, dispute(2, 1)).unwrap();

    let accounts = e.accounts_map(&mut b);
    assert_eq!(accounts[&1].available, dec("100.0000"));
    assert_eq!(accounts[&1].held, dec("0.0000"));
}

#[test]
fn dispute_idempotency() {
    let mut b = GlobalMemBudget::unlimited();
    let mut e = Rig::new(&mut b);
    e.apply(&mut b, deposit(1, 1, dec("100.0000"))).unwrap();
    e.apply(&mut b, dispute(1, 1)).unwrap();
    e.apply(&mut b, dispute(1, 1)).unwrap();

    let accounts = e.accounts_map(&mut b);
    let acc = &accounts[&1];
    assert_eq!(acc.available, dec("0.0000"));
    assert_eq!(acc.held, dec("100.0000"));
}

// -- Resolve -----------------------------------------------------------------

#[test]
fn resolve_moves_held_back_to_available() {
    let mut b = GlobalMemBudget::unlimited();
    let mut e = Rig::new(&mut b);
    e.apply(&mut b, deposit(1, 1, dec("100.0000"))).unwrap();
    e.apply(&mut b, dispute(1, 1)).unwrap();
    e.apply(&mut b, resolve(1, 1)).unwrap();

    let accounts = e.accounts_map(&mut b);
    let acc = &accounts[&1];
    assert_eq!(acc.available, dec("100.0000"));
    assert_eq!(acc.held, dec("0.0000"));
    assert_eq!(acc.total, dec("100.0000"));
}

#[test]
fn resolve_on_undisputed_tx_is_ignored() {
    let mut b = GlobalMemBudget::unlimited();
    let mut e = Rig::new(&mut b);
    e.apply(&mut b, deposit(1, 1, dec("100.0000"))).unwrap();
    e.apply(&mut b, resolve(1, 1)).unwrap();

    let accounts = e.accounts_map(&mut b);
    assert_eq!(accounts[&1].available, dec("100.0000"));
    assert_eq!(accounts[&1].held, dec("0.0000"));
}

// -- Chargeback --------------------------------------------------------------

#[test]
fn chargeback_deducts_held_and_locks_account() {
    let mut b = GlobalMemBudget::unlimited();
    let mut e = Rig::new(&mut b);
    e.apply(&mut b, deposit(1, 1, dec("100.0000"))).unwrap();
    e.apply(&mut b, dispute(1, 1)).unwrap();
    e.apply(&mut b, chargeback(1, 1)).unwrap();

    let accounts = e.accounts_map(&mut b);
    let acc = &accounts[&1];
    assert_eq!(acc.available, dec("0.0000"));
    assert_eq!(acc.held, dec("0.0000"));
    assert_eq!(acc.total, dec("0.0000"));
    assert!(acc.locked);
}

#[test]
fn chargeback_on_undisputed_tx_is_ignored() {
    let mut b = GlobalMemBudget::unlimited();
    let mut e = Rig::new(&mut b);
    e.apply(&mut b, deposit(1, 1, dec("100.0000"))).unwrap();
    e.apply(&mut b, chargeback(1, 1)).unwrap();

    let accounts = e.accounts_map(&mut b);
    assert!(!accounts[&1].locked);
    assert_eq!(accounts[&1].total, dec("100.0000"));
}

#[test]
fn locked_account_ignores_all_mutations() {
    let mut b = GlobalMemBudget::unlimited();
    let mut e = Rig::new(&mut b);
    e.apply(&mut b, deposit(1, 1, dec("100.0000"))).unwrap();
    e.apply(&mut b, dispute(1, 1)).unwrap();
    e.apply(&mut b, chargeback(1, 1)).unwrap();

    e.apply(&mut b, deposit(1, 2, dec("500.0000"))).unwrap();
    e.apply(&mut b, withdrawal(1, 3, dec("10.0000"))).unwrap();

    let accounts = e.accounts_map(&mut b);
    let acc = &accounts[&1];
    assert_eq!(acc.total, dec("0.0000"));
    assert!(acc.locked);
}

// -- Multi-client ------------------------------------------------------------

#[test]
fn multiple_clients_are_independent() {
    let mut b = GlobalMemBudget::unlimited();
    let mut e = Rig::new(&mut b);
    e.apply(&mut b, deposit(1, 1, dec("100.0000"))).unwrap();
    e.apply(&mut b, deposit(2, 2, dec("200.0000"))).unwrap();
    e.apply(&mut b, withdrawal(1, 3, dec("50.0000"))).unwrap();

    let accounts = e.accounts_map(&mut b);
    assert_eq!(accounts[&1].available, dec("50.0000"));
    assert_eq!(accounts[&2].available, dec("200.0000"));
}

// -- Missing amounts ---------------------------------------------------------

#[test]
fn deposit_without_amount_returns_err() {
    let mut b = GlobalMemBudget::unlimited();
    let mut e = Rig::new(&mut b);
    let result = e.apply(&mut b, event(TransactionType::Deposit, 1, 1, None));
    assert!(result.is_err());
    assert_eq!(
        result,
        Err(ApplyError::MissingAmount {
            tx: 1,
            type_tx: TransactionType::Deposit
        })
    );
}

#[test]
fn withdrawal_without_amount_changes_nothing() {
    let mut b = GlobalMemBudget::unlimited();
    let mut e = Rig::new(&mut b);
    let result = e.apply(&mut b, event(TransactionType::Withdrawal, 3, 7, None));
    assert_eq!(
        result,
        Err(ApplyError::MissingAmount {
            tx: 7,
            type_tx: TransactionType::Withdrawal
        })
    );
    assert!(e.accounts_map(&mut b).is_empty());
}

// -- Global memory budget ----------------------------------------------------

#[test]
fn budget_tracks_bytes_held_in_pending() {
    let mut b = GlobalMemBudget::unlimited();
    let mut e = Rig::new(&mut b);
    e.apply(&mut b, deposit(1, 1, dec("1.0"))).unwrap();
    e.apply(&mut b, deposit(1, 2, dec("2.0"))).unwrap();
    assert_eq!(b.in_use(), ENTRY_MEM_BYTES * 2);
}

#[test]
fn budget_released_when_engine_dropped() {
    let mut b = GlobalMemBudget::unlimited();
    {
        let mut e = Rig::new(&mut b);
        e.apply(&mut b, deposit(1, 1, dec("1.0"))).unwrap();
        e.apply(&mut b, deposit(1, 2, dec("2.0"))).unwrap();
        assert_eq!(b.in_use(), ENTRY_MEM_BYTES * 2);
        e.engine.drop(&mut b);
    }
    assert_eq!(b.in_use(), 0);
    assert_eq!(b.registered_actors(), 0);
}

#[test]
fn budget_released_on_flush() {
    let mut b = GlobalMemBudget::unlimited();
    let mut e = Rig::new(&mut b);
    for tx in 1..=5u32 {
        e.apply(&mut b, deposit(1, tx, dec("1.0"))).unwrap();
    }
    let before = b.in_use();
    e.flush_oldest(&mut b).unwrap();
    assert!(b.in_use() < before, "flush must release bytes to the budget");
    assert_eq!(b.in_use(), 4 * ENTRY_MEM_BYTES);
}

#[test]
fn high_pressure_forces_flush_before_each_insert() {
    let mut b = GlobalMemBudget::new(ENTRY_MEM_BYTES * 2);
    let mut e = Rig::new(&mut b);

    e.apply(&mut b, deposit(1, 1, dec("1.0"))).unwrap();
    e.apply(&mut b, deposit(1, 2, dec("2.0"))).unwrap();
    e.apply(&mut b, deposit(1, 3, dec("3.0"))).unwrap();

    assert!(e.engine.has_spill(), "spill file must have been created");
    assert!(
        b.in_use() <= ENTRY_MEM_BYTES * 2,
        "budget must stay within its hard ceiling under High pressure",
    );
}

#[test]
fn effective_flush_threshold_adapts_to_pressure() {
    let mut b = GlobalMemBudget::new(ENTRY_MEM_BYTES * 10);
    let e = Payments::new(&mut b).unwrap();

    assert_eq!(b.pressure(), MemPressure::Low);
    assert_eq!(e.effective_flush_threshold(&b), 10);

    b.force_reserve(ENTRY_MEM_BYTES * 8);
    assert_eq!(b.pressure(), MemPressure::Medium);
    assert_eq!(e.effective_flush_threshold(&b), 5);

    b.force_reserve(ENTRY_MEM_BYTES * 2);
    assert_eq!(b.pressure(), MemPressure::High);
    assert_eq!(e.effective_flush_threshold(&b), usize::MAX);

    b.release(ENTRY_MEM_BYTES * 10);
}

#[test]
fn effective_flush_threshold_shrinks_as_actors_join() {
    let mut b = GlobalMemBudget::new(ENTRY_MEM_BYTES * 100);

    let e1 = Payments::new(&mut b).unwrap();
    assert_eq!(e1.effective_flush_threshold(&b), 100);

    let e2 = Payments::new(&mut b).unwrap();
    assert_eq!(e2.effective_flush_threshold(&b), 50);
    assert_eq!(e1.effective_flush_threshold(&b), 50);

    e2.drop(&mut b);
    assert_eq!(e1.effective_flush_threshold(&b), 100);
}

#[test]
fn entry_cost_is_key_and_record() {
    assert_eq!(
        ENTRY_MEM_BYTES,
        std::mem::size_of::<u32>() + std::mem::size_of::<pecrab::record::DepositRecord>()
    );
}

#[test]
fn deposit_beyond_the_ceiling_is_kept_with_a_notice() {
    let mut b = GlobalMemBudget::new(ENTRY_MEM_BYTES);
    b.force_reserve(ENTRY_MEM_BYTES);
    let mut e = Rig::new(&mut b);
    let outcome = e.apply(&mut b, deposit(1, 9, dec("5"))).unwrap();
    assert_eq!(outcome, Some(Notice::OverLimit { tx: 9 }));
    assert_eq!(b.in_use(), 2 * ENTRY_MEM_BYTES);
    assert_eq!(e.accounts_map(&mut b)[&1].available, dec("5"));
    assert_eq!(b.in_use(), ENTRY_MEM_BYTES);
}

#[test]
fn lone_engine_never_passes_the_ceiling() {
    let mut b = GlobalMemBudget::new(ENTRY_MEM_BYTES * 3);
    let mut e = Rig::new(&mut b);
    for tx in 1..=40u32 {
        let outcome = e.apply(&mut b, deposit(1, tx, dec("1"))).unwrap();
        assert_eq!(outcome, None);
        assert!(b.in_use() <= b.global_limit());
        assert_eq!(b.in_use(), e.engine.pending_len() * ENTRY_MEM_BYTES);
        assert_eq!(e.engine.pending_len() as u64 + e.store.len(), tx as u64);
    }
    assert_eq!(e.accounts_map(&mut b)[&1].total, dec("40"));
}

#[test]
fn flush_evicts_the_oldest_tenth_in_order() {
    let mut b = GlobalMemBudget::unlimited();
    let mut e = Rig::new(&mut b);
    for tx in [30u32, 10, 20, 5, 1, 2, 3, 4, 6, 7, 8, 9, 11, 12, 13, 14, 15, 16, 17, 18, 19, 21, 22, 23, 24] {
        e.apply(&mut b, deposit(1, tx, dec("1"))).unwrap();
    }
    assert_eq!(e.engine.pending_len(), 25);
    e.flush_oldest(&mut b).unwrap();
    e.flush_oldest(&mut b).unwrap();
    assert_eq!(e.store.batches, vec![vec![30u32, 10], vec![20u32, 5]]);
    assert_eq!(e.engine.pending_len(), 21);
    assert_eq!(b.in_use(), 21 * ENTRY_MEM_BYTES);
}

#[test]
fn flush_of_an_empty_buffer_creates_no_store() {
    let mut b = GlobalMemBudget::unlimited();
    let mut e = Rig::new(&mut b);
    assert_eq!(e.flush_oldest(&mut b), Ok(None));
    assert!(!e.engine.has_spill());
    assert!(e.store.db.is_none());
}

#[test]
fn buffer_flushes_when_it_reaches_the_share() {
    let mut b = GlobalMemBudget::new(ENTRY_MEM_BYTES * 1000);
    let mut e = Rig::new(&mut b);
    let mut others = Vec::new();
    for _ in 0..99 {
        others.push(Payments::new(&mut b).unwrap());
    }
    assert_eq!(e.engine.effective_flush_threshold(&b), 10);
    for tx in 1..=9u32 {
        e.apply(&mut b, deposit(1, tx, dec("1"))).unwrap();
    }
    assert!(!e.engine.has_spill());
    e.apply(&mut b, deposit(1, 10, dec("1"))).unwrap();
    assert_eq!(e.store.batches, vec![vec![1u32]]);
    assert_eq!(e.engine.pending_len(), 9);
}

#[test]
fn duplicate_of_a_spilled_deposit_is_ignored() {
    let mut b = GlobalMemBudget::unlimited();
    let mut e = Rig::new(&mut b);
    e.apply(&mut b, deposit(1, 1, dec("100"))).unwrap();
    e.flush_oldest(&mut b).unwrap();
    let outcome = e.apply(&mut b, deposit(1, 1, dec("50"))).unwrap();
    assert_eq!(outcome, Some(Notice::Duplicate { tx: 1 }));
    assert_eq!(e.engine.pending_len(), 0);
    assert_eq!(e.accounts_map(&mut b)[&1].available, dec("100"));
}

#[test]
fn duplicate_of_a_buffered_deposit_is_noted() {
    let mut b = GlobalMemBudget::unlimited();
    let mut e = Rig::new(&mut b);
    assert_eq!(e.apply(&mut b, deposit(1, 1, dec("100"))), Ok(None));
    assert_eq!(
        e.apply(&mut b, deposit(2, 1, dec("50"))),
        Ok(Some(Notice::Duplicate { tx: 1 }))
    );
    let accounts = e.accounts_map(&mut b);
    assert_eq!(accounts.len(), 1);
    assert_eq!(b.in_use(), 0);
}

#[test]
fn uncovered_dispute_is_noted_and_can_be_tried_again() {
    let mut b = GlobalMemBudget::unlimited();
    let mut e = Rig::new(&mut b);
    e.apply(&mut b, deposit(4, 1, dec("100"))).unwrap();
    e.apply(&mut b, withdrawal(4, 2, dec("1"))).unwrap();
    assert_eq!(
        e.apply(&mut b, dispute(4, 1)),
        Ok(Some(Notice::DisputeIgnored { tx: 1, client: 4 }))
    );
    e.apply(&mut b, deposit(4, 3, dec("1"))).unwrap();
    assert_eq!(e.apply(&mut b, dispute(4, 1)), Ok(None));
    let accounts = e.accounts_map(&mut b);
    assert_eq!(accounts[&4].held, dec("100"));
    assert_eq!(accounts[&4].available, dec("0"));
}

#[test]
fn withdrawal_of_an_unknown_client_opens_an_empty_account() {
    let mut b = GlobalMemBudget::unlimited();
    let mut e = Rig::new(&mut b);
    e.apply(&mut b, withdrawal(8, 1, dec("3"))).unwrap();
    let accounts = e.accounts_map(&mut b);
    assert_eq!(accounts[&8].total, dec("0"));
    assert!(!accounts[&8].locked);
}

#[test]
fn withdrawal_cannot_be_disputed() {
    let mut b = GlobalMemBudget::unlimited();
    let mut e = Rig::new(&mut b);
    e.apply(&mut b, deposit(1, 1, dec("10"))).unwrap();
    e.apply(&mut b, withdrawal(1, 2, dec("4"))).unwrap();
    assert_eq!(e.apply(&mut b, dispute(1, 2)), Ok(None));
    let accounts = e.accounts_map(&mut b);
    assert_eq!(accounts[&1].available, dec("6"));
    assert_eq!(accounts[&1].held, dec("0"));
}

#[test]
fn settled_dispute_cannot_be_settled_again() {
    let mut b = GlobalMemBudget::unlimited();
    let mut e = Rig::new(&mut b);
    e.apply(&mut b, deposit(1, 1, dec("10"))).unwrap();
    e.apply(&mut b, deposit(1, 2, dec("7"))).unwrap();
    e.apply(&mut b, dispute(1, 1)).unwrap();
    e.apply(&mut b, dispute(1, 2)).unwrap();
    e.apply(&mut b, resolve(1, 1)).unwrap();
    e.apply(&mut b, resolve(1, 1)).unwrap();
    e.apply(&mut b, chargeback(1, 1)).unwrap();
    let accounts = e.accounts_map(&mut b);
    assert_eq!(accounts[&1].held, dec("7"));
    assert_eq!(accounts[&1].available, dec("10"));
    assert!(!accounts[&1].locked);
}

#[test]
fn resolved_deposit_can_be_disputed_again() {
    let mut b = GlobalMemBudget::unlimited();
    let mut e = Rig::new(&mut b);
    e.apply(&mut b, deposit(1, 1, dec("10"))).unwrap();
    e.apply(&mut b, dispute(1, 1)).unwrap();
    e.apply(&mut b, resolve(1, 1)).unwrap();
    e.apply(&mut b, dispute(1, 1)).unwrap();
    assert_eq!(e.accounts_map(&mut b)[&1].held, dec("10"));
}

#[test]
fn chargeback_leaves_other_held_funds_frozen() {
    let mut b = GlobalMemBudget::unlimited();
    let mut e = Rig::new(&mut b);
    e.apply(&mut b, deposit(1, 1, dec("10"))).unwrap();
    e.apply(&mut b, deposit(1, 2, dec("5"))).unwrap();
    e.apply(&mut b, deposit(1, 3, dec("1"))).unwrap();
    e.apply(&mut b, dispute(1, 1)).unwrap();
    e.apply(&mut b, dispute(1, 2)).unwrap();
    e.apply(&mut b, chargeback(1, 1)).unwrap();
    e.apply(&mut b, resolve(1, 2)).unwrap();
    assert_eq!(
        e.apply(&mut b, dispute(1, 3)),
        Ok(Some(Notice::DisputeIgnored { tx: 3, client: 1 }))
    );
    let accounts = e.accounts_map(&mut b);
    assert!(accounts[&1].locked);
    assert_eq!(accounts[&1].held, dec("5"));
    assert_eq!(accounts[&1].available, dec("1"));
    assert_eq!(accounts[&1].total, dec("6"));
}

#[test]
fn foreign_settlement_is_ignored() {
    let mut b = GlobalMemBudget::unlimited();
    let mut e = Rig::new(&mut b);
    e.apply(&mut b, deposit(1, 1, dec("10"))).unwrap();
    e.apply(&mut b, dispute(1, 1)).unwrap();
    e.apply(&mut b, resolve(2, 1)).unwrap();
    e.apply(&mut b, chargeback(2, 1)).unwrap();
    let accounts = e.accounts_map(&mut b);
    assert_eq!(accounts.len(), 1);
    assert_eq!(accounts[&1].held, dec("10"));
    assert!(!accounts[&1].locked);
}

// -- Store faults ------------------------------------------------------------

#[test]
fn failed_read_changes_nothing() {
    let mut b = GlobalMemBudget::unlimited();
    let mut e = Rig::new(&mut b);
    e.apply(&mut b, deposit(1, 1, dec("10"))).unwrap();
    e.flush_oldest(&mut b).unwrap();
    e.store.fail_read = true;
    assert_eq!(e.apply(&mut b, dispute(1, 1)), Err(ApplyError::Ledger));
    assert_eq!(e.apply(&mut b, deposit(1, 2, dec("1"))), Err(ApplyError::Ledger));
    e.store.fail_read = false;
    assert_eq!(e.apply(&mut b, dispute(1, 1)), Ok(None));
    let accounts = e.accounts_map(&mut b);
    assert_eq!(accounts[&1].held, dec("10"));
    assert_eq!(accounts[&1].total, dec("10"));
}

#[test]
fn failed_open_and_begin_keep_the_buffer() {
    let mut b = GlobalMemBudget::unlimited();
    let mut e = Rig::new(&mut b);
    e.apply(&mut b, deposit(1, 1, dec("10"))).unwrap();
    e.store.fail_open = true;
    assert_eq!(e.flush_oldest(&mut b), Err(ApplyError::Ledger));
    assert!(!e.engine.has_spill());
    assert!(e.engine.is_pending(1));
    e.store.fail_open = false;
    e.store.fail_begin = true;
    assert_eq!(e.flush_oldest(&mut b), Err(ApplyError::Ledger));
    assert!(e.engine.has_spill());
    assert!(e.engine.is_pending(1));
    assert_eq!(b.in_use(), ENTRY_MEM_BYTES);
    e.store.fail_begin = false;
    assert_eq!(e.flush_oldest(&mut b), Ok(None));
    assert_eq!(b.in_use(), 0);
}

#[test]
fn failed_commit_loses_the_batch_and_keeps_its_bytes_reserved() {
    let mut b = GlobalMemBudget::unlimited();
    let mut e = Rig::new(&mut b);
    e.apply(&mut b, deposit(1, 1, dec("10"))).unwrap();
    e.apply(&mut b, deposit(1, 2, dec("20"))).unwrap();
    e.store.fail_commit = true;
    assert_eq!(e.flush_oldest(&mut b), Err(ApplyError::Ledger));
    assert!(!e.engine.is_pending(1));
    assert!(e.engine.is_pending(2));
    assert_eq!(b.in_use(), 2 * ENTRY_MEM_BYTES);
    e.store.fail_commit = false;
    assert_eq!(e.apply(&mut b, dispute(1, 1)), Ok(None));
    assert_eq!(e.accounts_map(&mut b)[&1].held, dec("0"));
}

// -- Overflow ----------------------------------------------------------------

#[test]
fn overflowing_deposit_is_refused_without_change() {
    let mut b = GlobalMemBudget::unlimited();
    let mut e = Payments::new(&mut b).unwrap();
    assert!(e.try_apply(&mut b, deposit(1, 1, max_amount())).is_some());
    assert!(e.try_apply(&mut b, deposit(1, 2, max_amount())).is_none());
    assert!(!e.is_pending(2));
    assert_eq!(b.in_use(), ENTRY_MEM_BYTES);
    let rows = e.try_accounts(&mut b).unwrap();
    assert_eq!(rows[0].available, max_amount());
}

#[test]
fn overflowing_total_is_not_reported() {
    let mut b = GlobalMemBudget::unlimited();
    let mut e = Rig::new(&mut b);
    e.apply(&mut b, deposit(1, 1, max_amount())).unwrap();
    e.apply(&mut b, dispute(1, 1)).unwrap();
    e.apply(&mut b, deposit(1, 2, max_amount())).unwrap();
    assert!(e.engine.try_apply(&mut b, resolve(1, 1)).is_none());
    assert!(e.engine.try_accounts(&mut b).is_none());
    assert_eq!(b.in_use(), 0);
    assert_eq!(b.registered_actors(), 0);
}

#[test]
fn overflow_after_a_flush_is_refused_without_change() {
    let mut b = GlobalMemBudget::new(ENTRY_MEM_BYTES);
    let mut e = Rig::new(&mut b);
    e.apply(&mut b, deposit(1, 1, max_amount())).unwrap();
    let step = e.engine.try_apply(&mut b, deposit(1, 2, max_amount())).unwrap();
    let step = match step {
        Step::Begin(wait) | Step::Open(wait) => e.engine.try_on_flush(&mut b, wait, Ok(())).unwrap(),
        other => panic!("unexpected step {:?}", other),
    };
    let step = match step {
        Step::Begin(wait) => e.engine.try_on_flush(&mut b, wait, Ok(())).unwrap(),
        other => other,
    };
    match step {
        Step::Commit { batch, wait } => {
            assert_eq!(batch.len(), 1);
            assert!(e.engine.try_on_flush(&mut b, wait, Ok(())).is_none());
        }
        other => panic!("unexpected step {:?}", other),
    }
    assert_eq!(b.in_use(), ENTRY_MEM_BYTES);
}

#[test]
fn overflow_after_a_read_is_refused_without_change() {
    let mut b = GlobalMemBudget::unlimited();
    let mut e = Rig::new(&mut b);
    e.apply(&mut b, deposit(1, 1, max_amount())).unwrap();
    e.flush_oldest(&mut b).unwrap();
    match e.engine.try_apply(&mut b, deposit(1, 2, max_amount())).unwrap() {
        Step::Read { tx, wait } => {
            assert_eq!(tx, 2);
            assert!(e.engine.try_on_read(&mut b, wait, Ok(None)).is_none());
        }
        other => panic!("unexpected step {:?}", other),
    }
    assert_eq!(e.engine.pending_len(), 0);
}

// -- Streams -----------------------------------------------------------------

fn stream() -> Vec<TransactionInfo> {
    let mut events = Vec::new();
    for round in 0..6u32 {
        for client in 1..=3u16 {
            let tx = round * 10 + u32::from(client);
            events.push(deposit(client, tx, dec("10.0001")));
        }
    }
    events.push(withdrawal(1, 1000, dec("5.5")));
    events.push(dispute(1, 1));
    events.push(dispute(2, 1));
    events.push(dispute(2, 12));
    events.push(resolve(2, 12));
    events.push(dispute(3, 23));
    events.push(chargeback(3, 23));
    events.push(deposit(3, 2000, dec("1")));
    events.push(deposit(1, 1, dec("99")));
    events
}

fn run(limit: usize, events: Vec<TransactionInfo>) -> HashMap<u16, Account> {
    let mut b = GlobalMemBudget::new(limit);
    let mut e = Rig::new(&mut b);
    for event in events {
        e.apply(&mut b, event).unwrap();
    }
    e.accounts_map(&mut b)
}

fn assert_same_rows(a: &HashMap<u16, Account>, b: &HashMap<u16, Account>) {
    assert_eq!(a.len(), b.len());
    for (client, row) in a {
        assert_same_row(row, &b[client]);
    }
}

fn assert_same_row(a: &Account, b: &Account) {
    assert_eq!(a.client, b.client);
    assert_eq!(a.available, b.available);
    assert_eq!(a.held, b.held);
    assert_eq!(a.total, b.total);
    assert_eq!(a.locked, b.locked);
}

#[test]
fn storage_tiers_do_not_show() {
    let whole = run(usize::MAX, stream());
    assert_eq!(whole[&1].held, dec("10.0001"));
    assert_eq!(whole[&1].available, dec("44.5005"));
    assert_eq!(whole[&2].total, dec("60.0006"));
    assert!(whole[&3].locked);
    assert_eq!(whole[&3].total, dec("50.0005"));
    for cap in 1..=20usize {
        assert_same_rows(&run(cap * ENTRY_MEM_BYTES, stream()), &whole);
    }
}

#[test]
fn clients_can_be_replayed_apart() {
    let whole = run(usize::MAX, stream());
    for client in 1..=3u16 {
        let own: Vec<TransactionInfo> = stream().into_iter().filter(|e| e.client == client).collect();
        let alone = run(usize::MAX, own);
        assert_eq!(alone.len(), 1);
        assert_same_row(&alone[&client], &whole[&client]);
    }
}

#[test]
fn held_funds_are_the_open_disputes() {
    let mut b = GlobalMemBudget::unlimited();
    let mut e = Rig::new(&mut b);
    for (tx, amount) in [(1u32, "1.5"), (2, "2.25"), (3, "4.125")] {
        e.apply(&mut b, deposit(1, tx, dec(amount))).unwrap();
        e.apply(&mut b, dispute(1, tx)).unwrap();
    }
    e.apply(&mut b, resolve(1, 2)).unwrap();
    let accounts = e.accounts_map(&mut b);
    assert_eq!(accounts[&1].held, dec("5.625"));
    assert_eq!(accounts[&1].available, dec("2.25"));
    assert_eq!(accounts[&1].total, dec("7.875"));
}

#[test]
fn resolve_of_a_negative_deposit_releases_what_is_held() {
    let mut b = GlobalMemBudget::unlimited();
    let mut e = Rig::new(&mut b);
    e.apply(&mut b, deposit(1, 1, dec("-5"))).unwrap();
    e.apply(&mut b, deposit(1, 2, dec("20"))).unwrap();
    e.apply(&mut b, dispute(1, 1)).unwrap();
    e.apply(&mut b, dispute(1, 2)).unwrap();
    e.apply(&mut b, resolve(1, 2)).unwrap();
    let accounts = e.accounts_map(&mut b);
    assert_eq!(accounts[&1].held, dec("0"));
    assert_eq!(accounts[&1].available, dec("15"));
}

#[test]
fn engines_that_share_a_budget_owe_it_their_buffers() {
    let mut b = GlobalMemBudget::new(ENTRY_MEM_BYTES * 6);
    let mut first = Rig::new(&mut b);
    let mut second = Rig::new(&mut b);
    for tx in 1..=30u32 {
        let rig = if tx % 3 == 0 { &mut second } else { &mut first };
        rig.apply(&mut b, deposit((tx % 3) as u16, tx, dec("1"))).unwrap();
        let buffered = first.engine.pending_len() + second.engine.pending_len();
        assert_eq!(b.in_use(), buffered * ENTRY_MEM_BYTES);
    }
    first.engine.drop(&mut b);
    second.engine.drop(&mut b);
    assert_eq!(b.in_use(), 0);
    assert_eq!(b.registered_actors(), 0);
}

#[test]
fn events_end_after_a_few_actions() {
    let mut b = GlobalMemBudget::new(ENTRY_MEM_BYTES);
    let mut e = Rig::new(&mut b);
    e.apply(&mut b, deposit(1, 1, dec("1"))).unwrap();
    let mut step = e.engine.try_apply(&mut b, deposit(1, 2, dec("1"))).unwrap();
    let mut actions = 0;
    loop {
        step = match step {
            Step::Done(outcome) => {
                assert_eq!(outcome, Ok(None));
                break;
            }
            Step::Read { wait, .. } => e.engine.try_on_read(&mut b, wait, Ok(None)).unwrap(),
            Step::Open(wait) | Step::Begin(wait) | Step::Commit { wait, .. } => {
                e.engine.try_on_flush(&mut b, wait, Ok(())).unwrap()
            }
        };
        actions += 1;
    }
    assert!(actions >= 3);
    assert!(actions <= 7);
}

#[test]
fn every_kind_of_claim_on_a_spilled_deposit_finds_it() {
    let mut b = GlobalMemBudget::unlimited();
    let mut e = Rig::new(&mut b);
    e.apply(&mut b, deposit(1, 1, dec("10"))).unwrap();
    e.apply(&mut b, deposit(1, 2, dec("5"))).unwrap();
    e.flush_oldest(&mut b).unwrap();
    e.flush_oldest(&mut b).unwrap();
    assert_eq!(e.engine.pending_len(), 0);
    e.apply(&mut b, dispute(1, 1)).unwrap();
    e.apply(&mut b, resolve(1, 1)).unwrap();
    e.apply(&mut b, dispute(1, 2)).unwrap();
    e.apply(&mut b, chargeback(1, 2)).unwrap();
    let accounts = e.accounts_map(&mut b);
    assert_eq!(accounts[&1].available, dec("10"));
    assert_eq!(accounts[&1].held, dec("0"));
    assert!(accounts[&1].locked);
}

// -- Duplicate IDs -----------------------------------------------------------

#[test]
fn repeated_withdrawal_is_ignored() {
    let mut b = GlobalMemBudget::unlimited();
    let mut e = Rig::new(&mut b);
    e.apply(&mut b, deposit(1, 1, dec("100.0"))).unwrap();
    assert_eq!(e.apply(&mut b, withdrawal(1, 2, dec("40.0"))), Ok(None));
    assert_eq!(
        e.apply(&mut b, withdrawal(1, 2, dec("40.0"))),
        Ok(Some(Notice::Duplicate { tx: 2 }))
    );
    let accounts = e.accounts_map(&mut b);
    assert_eq!(accounts[&1].available, dec("60"));
    assert_eq!(accounts[&1].total, dec("60"));
}

#[test]
fn withdrawal_under_the_id_of_a_deposit_is_ignored() {
    let mut b = GlobalMemBudget::unlimited();
    let mut e = Rig::new(&mut b);
    e.apply(&mut b, deposit(1, 1, dec("100"))).unwrap();
    assert_eq!(
        e.apply(&mut b, withdrawal(1, 1, dec("40"))),
        Ok(Some(Notice::Duplicate { tx: 1 }))
    );
    e.flush_oldest(&mut b).unwrap();
    assert_eq!(e.engine.pending_len(), 0);
    assert_eq!(
        e.apply(&mut b, withdrawal(1, 1, dec("40"))),
        Ok(Some(Notice::Duplicate { tx: 1 }))
    );
    assert_eq!(e.apply(&mut b, withdrawal(1, 2, dec("40"))), Ok(None));
    assert_eq!(
        e.apply(&mut b, withdrawal(1, 2, dec("40"))),
        Ok(Some(Notice::Duplicate { tx: 2 }))
    );
    assert_eq!(e.accounts_map(&mut b)[&1].available, dec("60"));
}

#[test]
fn deposit_under_the_id_of_a_withdrawal_is_ignored() {
    let mut b = GlobalMemBudget::unlimited();
    let mut e = Rig::new(&mut b);
    e.apply(&mut b, deposit(1, 1, dec("10"))).unwrap();
    e.apply(&mut b, withdrawal(1, 2, dec("4"))).unwrap();
    let before = b.in_use();
    assert_eq!(
        e.apply(&mut b, deposit(1, 2, dec("50"))),
        Ok(Some(Notice::Duplicate { tx: 2 }))
    );
    assert_eq!(b.in_use(), before);
    assert_eq!(e.apply(&mut b, dispute(1, 2)), Ok(None));
    let accounts = e.accounts_map(&mut b);
    assert_eq!(accounts[&1].available, dec("6"));
    assert_eq!(accounts[&1].held, dec("0"));
}

#[test]
fn uncovered_withdrawal_uses_its_id() {
    let mut b = GlobalMemBudget::unlimited();
    let mut e = Rig::new(&mut b);
    assert_eq!(e.apply(&mut b, withdrawal(1, 2, dec("4"))), Ok(None));
    e.apply(&mut b, deposit(1, 1, dec("10"))).unwrap();
    assert_eq!(
        e.apply(&mut b, withdrawal(1, 2, dec("4"))),
        Ok(Some(Notice::Duplicate { tx: 2 }))
    );
    assert_eq!(e.accounts_map(&mut b)[&1].available, dec("10"));
}

#[test]
fn refused_event_does_not_use_its_id() {
    let mut b = GlobalMemBudget::unlimited();
    let mut e = Rig::new(&mut b);
    e.apply(&mut b, deposit(1, 1, dec("10"))).unwrap();
    assert!(e.apply(&mut b, event(TransactionType::Withdrawal, 1, 2, None)).is_err());
    assert_eq!(e.apply(&mut b, withdrawal(1, 2, dec("4"))), Ok(None));
    assert_eq!(e.accounts_map(&mut b)[&1].available, dec("6"));
}

#[test]
fn failed_read_refuses_a_withdrawal() {
    let mut b = GlobalMemBudget::unlimited();
    let mut e = Rig::new(&mut b);
    e.apply(&mut b, deposit(1, 1, dec("10"))).unwrap();
    e.flush_oldest(&mut b).unwrap();
    e.store.fail_read = true;
    assert_eq!(e.apply(&mut b, withdrawal(1, 2, dec("4"))), Err(ApplyError::Ledger));
    e.store.fail_read = false;
    assert_eq!(e.apply(&mut b, withdrawal(1, 2, dec("4"))), Ok(None));
    assert_eq!(e.accounts_map(&mut b)[&1].available, dec("6"));
}

#[test]
fn overflowing_withdrawal_is_refused_without_change() {
    let mut b = GlobalMemBudget::unlimited();
    let mut e = Rig::new(&mut b);
    e.apply(&mut b, deposit(1, 1, max_amount())).unwrap();
    assert!(e.engine.try_apply(&mut b, withdrawal(1, 2, dec("-1"))).is_none());
    e.flush_oldest(&mut b).unwrap();
    match e.engine.try_apply(&mut b, withdrawal(1, 2, dec("-1"))).unwrap() {
        Step::Read { tx, wait } => {
            assert_eq!(tx, 2);
            assert!(e.engine.try_on_read(&mut b, wait, Ok(None)).is_none());
        }
        other => panic!("unexpected step {:?}", other),
    }
    assert_eq!(e.apply(&mut b, withdrawal(1, 2, dec("1"))), Ok(None));
}

#[test]
fn engines_leave_no_trace_in_a_budget_in_use() {
    let mut b = GlobalMemBudget::new(ENTRY_MEM_BYTES * 5);
    b.force_reserve(ENTRY_MEM_BYTES * 2 + 1);
    b.register_actor();
    let mut e = Rig::new(&mut b);
    for tx in 1..=20u32 {
        e.apply(&mut b, deposit(1, tx, dec("1"))).unwrap();
    }
    e.engine.drop(&mut b);
    assert_eq!(b.in_use(), ENTRY_MEM_BYTES * 2 + 1);
    assert_eq!(b.registered_actors(), 1);
}

#[test]
fn resolve_restores_what_a_dispute_changed() {
    let mut b = GlobalMemBudget::unlimited();
    let mut e = Rig::new(&mut b);
    e.apply(&mut b, deposit(1, 1, dec("10"))).unwrap();
    e.apply(&mut b, deposit(1, 2, dec("5.5"))).unwrap();
    e.apply(&mut b, dispute(1, 1)).unwrap();
    e.apply(&mut b, dispute(1, 2)).unwrap();
    e.apply(&mut b, resolve(1, 2)).unwrap();
    e.apply(&mut b, resolve(1, 2)).unwrap();
    e.apply(&mut b, chargeback(1, 2)).unwrap();
    let accounts = e.accounts_map(&mut b);
    assert_eq!(accounts[&1].available, dec("5.5"));
    assert_eq!(accounts[&1].held, dec("10"));
    assert!(!accounts[&1].locked);
}

// -- One engine per client ---------------------------------------------------

fn run_parallel(limit: usize, events: Vec<TransactionInfo>) -> HashMap<u16, Account> {
    let mut b = GlobalMemBudget::new(limit);
    let mut router = Router::new();
    let mut engines: Vec<Rig> = Vec::new();
    for event in events {
        let route = router.route(event.client);
        if route.spawn {
            engines.push(Rig::new(&mut b));
        }
        // A refused event is skipped.
        let _ = engines[route.actor].apply(&mut b, event);
    }
    let mut rows = HashMap::new();
    for engine in engines {
        for (client, row) in engine.accounts_map(&mut b) {
            assert!(rows.insert(client, row).is_none(), "one row for each client");
        }
    }
    assert_eq!(b.in_use(), 0);
    rows
}

#[test]
fn one_engine_per_client_reports_what_a_single_engine_reports() {
    let whole = run(usize::MAX, stream());
    assert_same_rows(&run_parallel(usize::MAX, stream()), &whole);
}

#[test]
fn memory_limit_does_not_show_in_the_report() {
    let whole = run_parallel(usize::MAX, stream());
    for limit in [0usize, 1, ENTRY_MEM_BYTES, ENTRY_MEM_BYTES * 2 + 5, ENTRY_MEM_BYTES * 7] {
        assert_same_rows(&run_parallel(limit, stream()), &whole);
    }
}

#[test]
fn refused_events_do_not_count() {
    let mut events = Vec::new();
    for (i, event) in stream().into_iter().enumerate() {
        events.push(TransactionInfo { type_tx: TransactionType::Deposit, client: 9, tx: i as u32, amount: None });
        events.push(event);
        events.push(TransactionInfo { type_tx: TransactionType::Withdrawal, client: 1, tx: 1, amount: None });
    }
    let mut b = GlobalMemBudget::unlimited();
    let mut e = Rig::new(&mut b);
    for event in events {
        let _ = e.apply(&mut b, event);
    }
    assert_same_rows(&e.accounts_map(&mut b), &run(usize::MAX, stream()));
    assert!(run(usize::MAX, Vec::new()).is_empty());
}

#[test]
fn lookup_finds_the_first_use_of_an_id() {
    let mut b = GlobalMemBudget::new(ENTRY_MEM_BYTES);
    let mut e = Rig::new(&mut b);
    e.apply(&mut b, deposit(1, 1, dec("10"))).unwrap();
    e.apply(&mut b, deposit(2, 2, dec("7"))).unwrap();
    e.apply(&mut b, deposit(2, 1, dec("99"))).unwrap();
    e.apply(&mut b, withdrawal(1, 3, dec("1"))).unwrap();
    e.apply(&mut b, deposit(1, 3, dec("50"))).unwrap();
    e.apply(&mut b, deposit(1, 4, dec("1"))).unwrap();
    e.apply(&mut b, dispute(2, 1)).unwrap();
    e.apply(&mut b, dispute(1, 3)).unwrap();
    e.apply(&mut b, dispute(1, 5)).unwrap();
    e.apply(&mut b, dispute(1, 1)).unwrap();
    let accounts = e.accounts_map(&mut b);
    assert_eq!(accounts[&1].held, dec("10"));
    assert_eq!(accounts[&1].available, dec("0"));
    assert_eq!(accounts[&2].held, dec("0"));
    assert_eq!(accounts[&2].available, dec("7"));
}
