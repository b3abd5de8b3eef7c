//! What each call of an engine does, in plain quantities.
//!
//! For every state, every event and every reply of the store the laws say which
//! balances, IDs, buffered deposits and bytes change, what the caller is asked
//! to do next, and how the event ends.
use crate::account::{AccountState, Balances};
use crate::amount::{difference, sum, Number};
use crate::events::holding;
use crate::mem_budget::{law_pressure_follows_watermarks, law_share_is_largest, BudgetState};
use crate::model::{
    after_claim, apply_next, ended, entry_bytes, flush_count, flush_next, flush_threshold, flushed_next, read_next,
    retired, ApplyError, Claim, EngineState, Flush, FlushStage, Lookup, Next, Notice, Resume, StepView, StoreFault,
};
use crate::models::{Event, TransactionType};
use crate::pending::{deposit_of, has_tx, with_deposit};
use crate::record::{decoded, encoded, Deposit};
use vstd::prelude::*;

verus! {

/// What a deposit makes of an account: the sum, unless it is locked.
pub open spec fn credits(before: Balances, amount: Number, after: Option<Balances>) -> bool {
    &&& before.state == AccountState::Locked ==> after == Some(before)
    &&& before.state == AccountState::Active ==> match sum(before.available, amount) {
        Some(available) => after == Some(Balances { available, ..before }),
        None => after is None,
    }
}

/// The account is active and has at least the amount available.
pub open spec fn affords(account: Balances, amount: Number) -> bool {
    account.state == AccountState::Active && amount.units() <= account.available.units()
}

/// What a withdrawal makes of an account: the difference, if it affords it.
pub open spec fn debits(before: Balances, amount: Number, after: Option<Balances>) -> bool {
    &&& !affords(before, amount) ==> after == Some(before)
    &&& affords(before, amount) ==> match difference(before.available, amount) {
        Some(available) => after == Some(Balances { available, ..before }),
        None => after is None,
    }
}

/// What a dispute makes of an account: the amount moves to held, if it affords
/// it.
pub open spec fn holds(before: Balances, amount: Number, after: Option<Balances>) -> bool {
    &&& !affords(before, amount) ==> after == Some(before)
    &&& affords(before, amount) ==> match (difference(before.available, amount), sum(before.held, amount)) {
        (Some(available), Some(held)) => after == Some(Balances { available, held, ..before }),
        _ => after is None,
    }
}

/// What a resolve makes of an account: the amount, or all that is held if that
/// is less, moves back, unless the account is locked.
pub open spec fn releases(before: Balances, amount: Number, after: Option<Balances>) -> bool {
    let moved = if before.held.units() < amount.units() {
        before.held
    } else {
        amount
    };
    &&& before.state == AccountState::Locked ==> after == Some(before)
    &&& before.state == AccountState::Active ==> match (difference(before.held, moved), sum(before.available, moved)) {
        (Some(held), Some(available)) => after == Some(Balances { available, held, ..before }),
        _ => after is None,
    }
}

/// What a chargeback makes of an account: the amount, or all that is held if
/// that is less, is gone and the account locked, unless it was locked before.
pub open spec fn seizes(before: Balances, amount: Number, after: Option<Balances>) -> bool {
    let taken = if before.held.units() < amount.units() {
        before.held
    } else {
        amount
    };
    &&& before.state == AccountState::Locked ==> after == Some(before)
    &&& before.state == AccountState::Active ==> match difference(before.held, taken) {
        Some(held) => after == Some(Balances { held, state: AccountState::Locked, ..before }),
        None => after is None,
    }
}

/// A transaction has an entry exactly if one of the entries carries its ID; the
/// deposit found is that of such an entry. A new deposit goes to the end, a
/// known one to its place.
pub proof fn law_buffer_is_looked_up_by_id(s: Seq<(u32, Deposit)>, tx: u32, d: Deposit)
    ensures
        has_tx(s, tx) <==> exists|i: int| 0 <= i < s.len() && (#[trigger] s[i]).0 == tx,
        deposit_of(s, tx) is Some <==> has_tx(s, tx),
        deposit_of(s, tx) matches Some(found) ==> exists|i: int|
            0 <= i < s.len() && (#[trigger] s[i]).0 == tx && s[i].1 == found,
        !has_tx(s, tx) ==> with_deposit(s, tx, d) == s.push((tx, d)),
        has_tx(s, tx) ==> with_deposit(s, tx, d).len() == s.len() && forall|i: int|
            0 <= i < s.len() ==> #[trigger] with_deposit(s, tx, d)[i] == s[i] || (s[i].0 == tx && with_deposit(
                s,
                tx,
                d,
            )[i] == (tx, d)),
{
}

/// The threshold by pressure. Beyond the ceiling it is out of reach. Below the
/// watermark it is the most deposits, of 24 bytes each, of which every engine
/// can hold as many within the ceiling; between the two it is half of that. It
/// is one deposit at least.
pub proof fn law_threshold_divides_the_ceiling(b: BudgetState, engines: int)
    requires
        engines == (if b.actors == 0 {
            1
        } else {
            b.actors as int
        }),
    ensures
        b.limit <= b.used ==> flush_threshold(b) == usize::MAX,
        b.used < b.limit && b.used * 10_000 < b.limit * b.soft_bps ==> {
            &&& flush_threshold(b) >= 1
            &&& flush_threshold(b) == 1 || flush_threshold(b) * (engines * 24) <= b.limit
            &&& (flush_threshold(b) + 1) * (engines * 24) > b.limit
        },
        b.used < b.limit && b.limit * b.soft_bps <= b.used * 10_000 ==> {
            &&& flush_threshold(b) >= 1
            &&& flush_threshold(b) == 1 || 2 * flush_threshold(b) * (engines * 24) <= b.limit
            &&& 2 * (flush_threshold(b) + 1) * (engines * 24) > b.limit
        },
{
    law_pressure_follows_watermarks(b);
    law_share_is_largest(b, 24, engines, 24);
    let share = b.share(24) as int;
    let limit = b.limit as int;
    let t = flush_threshold(b) as int;
    let each = engines * 24;
    if b.used < b.limit && b.limit * b.soft_bps <= b.used * 10_000 {
        assert(2 * (t + 1) * each > limit) by (nonlinear_arith)
            requires
                2 * (t + 1) >= share + 1,
                (share + 1) * each > limit,
                each >= 24,
        ;
        if t != 1 {
            assert(2 * t * each <= limit) by (nonlinear_arith)
                requires
                    2 * t <= share,
                    share * each <= limit,
                    each >= 24,
            ;
        }
    }
}

/// A flush evicts a tenth of the buffer, rounded down, and one deposit at least
/// if there is one.
pub proof fn law_flush_takes_a_tenth(len: nat)
    ensures
        len == 0 ==> flush_count(len) == 0,
        len > 0 ==> flush_count(len) >= 1,
        flush_count(len) <= 1 || 10 * flush_count(len) <= len,
        len < 10 * (flush_count(len) + 1),
{
}

/// Each buffered deposit costs 24 bytes.
pub proof fn law_deposits_cost_alike(n: nat)
    ensures
        24 * n <= usize::MAX ==> entry_bytes(n) == 24 * n,
        24 * n > usize::MAX ==> entry_bytes(n) == usize::MAX,
{
}

/// The budget after an engine is gone has the bytes of the engine's deposits
/// back, and one sharer less.
pub proof fn law_retired_engine_pays_back(e: EngineState, b: BudgetState)
    ensures
        moves_counter(b, -cost_of(e.pending.len() as int), BudgetState { actors: b.actors, ..retired(e, b) }),
        b.actors > 0 ==> retired(e, b).actors == b.actors - 1,
        b.actors == 0 ==> retired(e, b).actors == usize::MAX,
{
}

/// The first action of a flush that goes on with `resume`.
pub open spec fn asks_for_flush(has_spill: bool, resume: Resume, step: StepView) -> bool {
    &&& has_spill ==> step == StepView::Begin(Flush { stage: FlushStage::Beginning, resume })
    &&& !has_spill ==> step == StepView::Open(Flush { stage: FlushStage::Opening, resume })
}

/// The counter of the budget went up by `bytes`, or down if they are negative,
/// modulo its range; nothing else changed.
pub open spec fn moves_counter(before: BudgetState, bytes: int, after: BudgetState) -> bool {
    let range = usize::MAX + 1;
    &&& after.used == before.used + bytes || after.used == before.used + bytes - range || after.used == before.used
        + bytes + range
    &&& after.limit == before.limit
    &&& after.soft_bps == before.soft_bps
    &&& after.actors == before.actors
}

/// What buffered deposits cost: 24 bytes each, as far as a counter can tell.
pub open spec fn cost_of(deposits: int) -> int {
    if 24 * deposits <= usize::MAX {
        24 * deposits
    } else {
        usize::MAX as int
    }
}

/// A deposit was put in: credited, buffered at the end, 24 bytes taken. The
/// event ends unless the buffer has reached its threshold.
pub open spec fn puts_in(
    e: EngineState,
    b: BudgetState,
    client: u16,
    tx: u32,
    amount: Number,
    notice: Option<Notice>,
    next: Option<Next>,
) -> bool {
    let before = holding(e.accounts, client);
    match next {
        None => credits(before, amount, None),
        Some(n) => {
            &&& credits(before, amount, Some(holding(n.engine.accounts, client)))
            &&& n.engine.accounts == e.accounts.insert(client, holding(n.engine.accounts, client))
            &&& n.engine.disputed == e.disputed
            &&& n.engine.processed == e.processed
            &&& n.engine.has_spill == e.has_spill
            &&& n.engine.pending == e.pending.push((tx, Deposit { client, amount }))
            &&& moves_counter(b, 24, n.budget)
            &&& e.pending.len() + 1 < flush_threshold(n.budget) ==> n.step == StepView::Done(Ok(notice))
            &&& e.pending.len() + 1 >= flush_threshold(n.budget) ==> asks_for_flush(
                e.has_spill,
                Resume::Finish { notice },
                n.step,
            )
        },
    }
}

/// A deposit under a new ID was taken on: put in if its bytes stay within the
/// ceiling; otherwise after a flush, or beyond the ceiling if there is nothing
/// to flush.
pub open spec fn takes_on(
    e: EngineState,
    b: BudgetState,
    client: u16,
    tx: u32,
    amount: Number,
    next: Option<Next>,
) -> bool {
    if b.used + 24 <= b.limit {
        puts_in(e, b, client, tx, amount, None, next)
    } else if e.pending.len() > 0 {
        next matches Some(n) && n.engine == e && n.budget == b && asks_for_flush(
            e.has_spill,
            Resume::Insert { client, tx, amount },
            n.step,
        )
    } else {
        puts_in(e, b, client, tx, amount, Some(Notice::OverLimit { tx }), next)
    }
}

/// The event ended here, with the engine and the budget as they were.
pub open spec fn ends_unchanged(
    e: EngineState,
    b: BudgetState,
    outcome: Result<Option<Notice>, ApplyError>,
    next: Option<Next>,
) -> bool {
    next == Some(Next { engine: e, budget: b, step: StepView::Done(outcome) })
}

/// A withdrawal under a new ID: the account is debited, the ID recorded, and
/// nothing else changes.
pub open spec fn pays_out(
    e: EngineState,
    b: BudgetState,
    client: u16,
    tx: u32,
    amount: Number,
    next: Option<Next>,
) -> bool {
    let before = holding(e.accounts, client);
    match next {
        None => debits(before, amount, None),
        Some(n) => {
            &&& debits(before, amount, Some(holding(n.engine.accounts, client)))
            &&& n.engine == (EngineState {
                accounts: e.accounts.insert(client, holding(n.engine.accounts, client)),
                processed: e.processed.insert(tx),
                disputed: e.disputed,
                pending: e.pending,
                has_spill: e.has_spill,
            })
            &&& n.budget == b
            &&& n.step == StepView::Done(Ok(None))
        },
    }
}

/// A claim on a deposit that was looked up: ignored unless the deposit is the
/// client's own and is undisputed for a dispute, disputed for the others.
/// Otherwise the account follows the claim, and the mark with it. A dispute that
/// the account does not afford ends with a notice and leaves no mark.
pub open spec fn follows_claim(
    e: EngineState,
    b: BudgetState,
    claim: Claim,
    client: u16,
    tx: u32,
    found: Option<Deposit>,
    next: Option<Next>,
) -> bool {
    let before = holding(e.accounts, client);
    match found {
        None => ends_unchanged(e, b, Ok(None), next),
        Some(d) => if d.client != client || (claim == Claim::Dispute) == e.disputed.contains(tx) {
            ends_unchanged(e, b, Ok(None), next)
        } else {
            let after = match next {
                Some(n) => Some(holding(n.engine.accounts, client)),
                None => None,
            };
            &&& claim == Claim::Dispute ==> holds(before, d.amount, after)
            &&& claim == Claim::Resolve ==> releases(before, d.amount, after)
            &&& claim == Claim::Chargeback ==> seizes(before, d.amount, after)
            &&& next matches Some(n) ==> {
                let opens = claim == Claim::Dispute && affords(before, d.amount);
                let ignored = claim == Claim::Dispute && !affords(before, d.amount);
                &&& n.engine.accounts == e.accounts.insert(client, holding(n.engine.accounts, client))
                &&& forall|id: u32| #[trigger]
                    n.engine.disputed.contains(id) <==> if id == tx {
                        opens
                    } else {
                        e.disputed.contains(id)
                    }
                &&& n.engine.processed == e.processed
                &&& n.engine.pending == e.pending
                &&& n.engine.has_spill == e.has_spill
                &&& n.budget == b
                &&& n.step == StepView::Done(
                    Ok(
                        if ignored {
                            Some(Notice::DisputeIgnored { tx, client })
                        } else {
                            None
                        },
                    ),
                )
            }
        },
    }
}

/// Some buffered deposit carries the ID.
pub open spec fn is_buffered(e: EngineState, tx: u32) -> bool {
    exists|i: int| 0 <= i < e.pending.len() && (#[trigger] e.pending[i]).0 == tx
}

/// The first call for a deposit: refused without an amount; ended with a notice
/// under an ID in memory; looked up in the store if there is one; otherwise
/// taken on.
pub proof fn law_deposit_call(e: EngineState, b: BudgetState, event: Event)
    requires
        event.type_tx is Deposit,
    ensures
        event.amount is None ==> ends_unchanged(
            e,
            b,
            Err(ApplyError::MissingAmount { tx: event.tx, type_tx: TransactionType::Deposit }),
            apply_next(e, b, event),
        ),
        event.amount is Some && (e.processed.contains(event.tx) || is_buffered(e, event.tx)) ==> ends_unchanged(
            e,
            b,
            Ok(Some(Notice::Duplicate { tx: event.tx })),
            apply_next(e, b, event),
        ),
        event.amount matches Some(amount) ==> !e.processed.contains(event.tx) && !is_buffered(e, event.tx)
            && e.has_spill ==> apply_next(e, b, event) == Some(
            Next {
                engine: e,
                budget: b,
                step: StepView::Read {
                    tx: event.tx,
                    wait: Lookup::Deposit { client: event.client, tx: event.tx, amount },
                },
            },
        ),
        event.amount matches Some(amount) ==> !e.processed.contains(event.tx) && !is_buffered(e, event.tx)
            && !e.has_spill ==> takes_on(e, b, event.client, event.tx, amount, apply_next(e, b, event)),
{
}

/// The first call for a withdrawal: refused without an amount; ended with a
/// notice under an ID in memory; looked up in the store if there is one;
/// otherwise paid out.
pub proof fn law_withdrawal_call(e: EngineState, b: BudgetState, event: Event)
    requires
        event.type_tx is Withdrawal,
    ensures
        event.amount is None ==> ends_unchanged(
            e,
            b,
            Err(ApplyError::MissingAmount { tx: event.tx, type_tx: TransactionType::Withdrawal }),
            apply_next(e, b, event),
        ),
        event.amount is Some && (e.processed.contains(event.tx) || is_buffered(e, event.tx)) ==> ends_unchanged(
            e,
            b,
            Ok(Some(Notice::Duplicate { tx: event.tx })),
            apply_next(e, b, event),
        ),
        event.amount matches Some(amount) ==> !e.processed.contains(event.tx) && !is_buffered(e, event.tx)
            && e.has_spill ==> apply_next(e, b, event) == Some(
            Next {
                engine: e,
                budget: b,
                step: StepView::Read {
                    tx: event.tx,
                    wait: Lookup::Withdrawal { client: event.client, tx: event.tx, amount },
                },
            },
        ),
        event.amount matches Some(amount) ==> !e.processed.contains(event.tx) && !is_buffered(e, event.tx)
            && !e.has_spill ==> pays_out(e, b, event.client, event.tx, amount, apply_next(e, b, event)),
{
}

/// The first call for a claim: decided at once if the deposit is in memory or
/// there is no store to look in; otherwise the store is read.
pub proof fn law_claim_call(e: EngineState, b: BudgetState, event: Event, claim: Claim)
    requires
        (event.type_tx is Dispute && claim is Dispute) || (event.type_tx is Resolve && claim is Resolve) || (
        event.type_tx is Chargeback && claim is Chargeback),
    ensures
        is_buffered(e, event.tx) ==> exists|i: int|
            0 <= i < e.pending.len() && (#[trigger] e.pending[i]).0 == event.tx && follows_claim(
                e,
                b,
                claim,
                event.client,
                event.tx,
                Some(e.pending[i].1),
                apply_next(e, b, event),
            ),
        !is_buffered(e, event.tx) && !e.has_spill ==> ends_unchanged(e, b, Ok(None), apply_next(e, b, event)),
        !is_buffered(e, event.tx) && e.has_spill ==> apply_next(e, b, event) == Some(
            Next {
                engine: e,
                budget: b,
                step: StepView::Read {
                    tx: event.tx,
                    wait: Lookup::Claim { claim, client: event.client, tx: event.tx },
                },
            },
        ),
{
    if is_buffered(e, event.tx) {
        law_buffer_is_looked_up_by_id(e.pending, event.tx, e.pending[0].1);
        lemma_claim(e, b, claim, event.client, event.tx, deposit_of(e.pending, event.tx), apply_next(e, b, event));
        let found = deposit_of(e.pending, event.tx)->0;
        let i = choose|i: int|
            0 <= i < e.pending.len() && (#[trigger] e.pending[i]).0 == event.tx && e.pending[i].1 == found;
        assert(e.pending[i].0 == event.tx);
    }
}

/// A claim that is decided at once.
proof fn lemma_claim(
    e: EngineState,
    b: BudgetState,
    claim: Claim,
    client: u16,
    tx: u32,
    found: Option<Deposit>,
    next: Option<Next>,
)
    requires
        next == ended(after_claim(e, claim, client, tx, found), b),
    ensures
        follows_claim(e, b, claim, client, tx, found, next),
{
}

/// The call after a read: a failed read ends the event and changes nothing; a
/// deposit or withdrawal whose ID the store knows ends with a notice, one under
/// a new ID is taken on or paid out; a claim is decided on the record found.
pub proof fn law_read_call(
    e: EngineState,
    b: BudgetState,
    wait: Lookup,
    reply: Result<Option<Seq<u8>>, StoreFault>,
)
    requires
        wait matches Lookup::Deposit { client, tx, amount } ==> !is_buffered(e, tx),
    ensures
        reply is Err ==> ends_unchanged(e, b, Err(ApplyError::Ledger), read_next(e, b, wait, reply)),
        reply matches Ok(Some(_)) ==> (wait matches Lookup::Deposit { client, tx, amount } ==> ends_unchanged(
            e,
            b,
            Ok(Some(Notice::Duplicate { tx })),
            read_next(e, b, wait, reply),
        )),
        reply matches Ok(Some(_)) ==> (wait matches Lookup::Withdrawal { client, tx, amount } ==> ends_unchanged(
            e,
            b,
            Ok(Some(Notice::Duplicate { tx })),
            read_next(e, b, wait, reply),
        )),
        reply matches Ok(None) ==> (wait matches Lookup::Deposit { client, tx, amount } ==> takes_on(
            e,
            b,
            client,
            tx,
            amount,
            read_next(e, b, wait, reply),
        )),
        reply matches Ok(None) ==> (wait matches Lookup::Withdrawal { client, tx, amount } ==> pays_out(
            e,
            b,
            client,
            tx,
            amount,
            read_next(e, b, wait, reply),
        )),
        reply matches Ok(None) ==> (wait is Claim ==> ends_unchanged(e, b, Ok(None), read_next(e, b, wait, reply))),
        reply matches Ok(Some(bytes)) ==> (wait matches Lookup::Claim { claim, client, tx } ==> follows_claim(
            e,
            b,
            claim,
            client,
            tx,
            Some(decoded(bytes)),
            read_next(e, b, wait, reply),
        )),
{
    if let (Lookup::Claim { claim, client, tx }, Ok(Some(bytes))) = (wait, reply) {
        lemma_claim(e, b, claim, client, tx, Some(decoded(bytes)), read_next(e, b, wait, reply));
    }
}

/// The call after an action of a flush. A failure ends the event. After the
/// store was created a write begins. After the write was begun the oldest tenth
/// of the buffer, one deposit at least, leaves for the batch in order. After the
/// commit 24 bytes for each of them are given back, and the event ends or its
/// deposit is put in, with a notice if its bytes still go beyond the ceiling.
pub proof fn law_flush_call(
    e: EngineState,
    b: BudgetState,
    wait: Flush,
    reply: Result<(), StoreFault>,
    n: int,
    left: BudgetState,
)
    requires
        wait.resume matches Resume::Insert { client, tx, amount } ==> !is_buffered(e, tx),
        n == (if e.pending.len() == 0 {
            0
        } else if e.pending.len() < 10 {
            1
        } else {
            e.pending.len() as int / 10
        }),
    ensures
        reply is Err ==> ends_unchanged(e, b, Err(ApplyError::Ledger), flushed_next(e, b, wait, reply)),
        reply is Ok && wait.stage is Opening ==> flushed_next(e, b, wait, reply) == Some(
            Next {
                engine: EngineState {
                    accounts: e.accounts,
                    disputed: e.disputed,
                    processed: e.processed,
                    pending: e.pending,
                    has_spill: true,
                },
                budget: b,
                step: StepView::Begin(Flush { stage: FlushStage::Beginning, resume: wait.resume }),
            },
        ),
        reply is Ok && wait.stage is Beginning ==> (flushed_next(e, b, wait, reply) matches Some(
            next,
        ) && next.engine == (EngineState {
            accounts: e.accounts,
            disputed: e.disputed,
            processed: e.processed,
            pending: e.pending.subrange(n, e.pending.len() as int),
            has_spill: e.has_spill,
        }) && next.budget == b && (next.step matches StepView::Commit { batch, wait: after } && after.stage == (
        FlushStage::Committing { count: n as usize }) && after.resume == wait.resume && batch.len() == n && forall|
            i: int,
        |
            0 <= i < n ==> (#[trigger] batch[i]).0 == e.pending[i].0 && batch[i].1 == encoded(e.pending[i].1))),
        reply is Ok ==> (wait.stage matches FlushStage::Committing { count } ==> moves_counter(
            b,
            -cost_of(count as int),
            left,
        ) ==> {
            match wait.resume {
                Resume::Finish { notice } => ends_unchanged(e, left, Ok(notice), flushed_next(e, b, wait, reply)),
                Resume::Insert { client, tx, amount } => puts_in(
                    e,
                    left,
                    client,
                    tx,
                    amount,
                    if left.used + 24 <= left.limit {
                        None
                    } else {
                        Some(Notice::OverLimit { tx })
                    },
                    flushed_next(e, b, wait, reply),
                ),
            }
        }),
{
    assert(e.pending.skip(n) =~= e.pending.subrange(n, e.pending.len() as int));
}

/// A flush on request: nothing happens to an empty buffer; any other buffer is
/// flushed, and the event ends after that without a notice.
pub proof fn law_requested_flush(e: EngineState, b: BudgetState, notice: Option<Notice>)
    ensures
        e.pending.len() == 0 ==> ends_unchanged(e, b, Ok(notice), flush_next(e, b, Resume::Finish { notice })),
        e.pending.len() > 0 ==> (flush_next(e, b, Resume::Finish { notice }) matches Some(n) && n.engine == e
            && n.budget == b && asks_for_flush(e.has_spill, Resume::Finish { notice }, n.step)),
{
}

} // verus!
