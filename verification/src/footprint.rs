//! What an engine reserves of the memory budget.
//!
//! An engine owes the budget the bytes of every deposit in its buffer, and of
//! every deposit in a batch that is being committed. The laws show that each
//! call changes the budget's counter by exactly the change of what the engine
//! owes, that engines leave no trace in the budget once they have retired, and
//! that the counter passes the ceiling only with a notice.
use crate::amount::Number;
use crate::mem_budget::{wrap, BudgetState};
use crate::model::{
    admit_next, apply_next, empty_engine, first_flush_step, flush_count, flush_next, flush_threshold, flushed_next,
    insert_next, read_next, retired, EngineState, Flush, FlushStage, Lookup, Next, Notice, Resume, StepView,
    StoreFault, ENTRY_MEM_BYTES,
};
use crate::models::Event;
use crate::pending::{has_tx, index_of_tx};
use vstd::prelude::*;

verus! {

/// Deposits in a batch that is being committed.
pub open spec fn in_flight(step: StepView) -> int {
    match step {
        StepView::Commit { wait: Flush { stage: FlushStage::Committing { count }, .. }, .. } => count as int,
        _ => 0,
    }
}

/// Bytes that the engine owes the budget.
pub open spec fn owed(e: EngineState, step: StepView) -> int {
    (e.pending.len() + in_flight(step)) * ENTRY_MEM_BYTES
}

/// The counter covers what the engine owes.
pub open spec fn covered(e: EngineState, step: StepView, b: BudgetState) -> bool {
    owed(e, step) <= b.used
}

/// The counter changed by what the engine owes more, or less, unless it ran
/// over; ceiling, watermark and sharers are untouched.
pub open spec fn balances(
    e: EngineState,
    step: StepView,
    b: BudgetState,
    next: Option<Next>,
) -> bool {
    next matches Some(n) ==> {
        &&& b.used + owed(n.engine, n.step) - owed(e, step) <= usize::MAX ==> n.budget.used - b.used == owed(
            n.engine,
            n.step,
        ) - owed(e, step)
        &&& n.budget == (BudgetState { used: n.budget.used, ..b })
    }
}

/// The step carries the notice that the ceiling was passed.
pub open spec fn notes_over_limit(step: StepView) -> bool {
    match step {
        StepView::Done(Ok(Some(Notice::OverLimit { .. }))) => true,
        StepView::Open(Flush { resume: Resume::Finish { notice: Some(Notice::OverLimit { .. }) }, .. }) => true,
        StepView::Begin(Flush { resume: Resume::Finish { notice: Some(Notice::OverLimit { .. }) }, .. }) => true,
        _ => false,
    }
}

/// The first call for an event changes the counter by the change of what the
/// engine owes.
pub proof fn law_apply_balances(e: EngineState, b: BudgetState, event: Event)
    requires
        covered(e, StepView::Done(Ok(None)), b),
    ensures
        balances(e, StepView::Done(Ok(None)), b, apply_next(e, b, event)),
{
}

/// A deposit that waits for a flush is not in the buffer.
pub open spec fn resume_is_new(e: EngineState, resume: Resume) -> bool {
    resume matches Resume::Insert { tx, .. } ==> !has_tx(e.pending, tx)
}

/// So does a call after a read of the store, for a deposit that is not in the
/// buffer.
pub proof fn law_read_balances(
    e: EngineState,
    b: BudgetState,
    tx: u32,
    wait: Lookup,
    reply: Result<Option<Seq<u8>>, StoreFault>,
)
    requires
        covered(e, StepView::Read { tx, wait }, b),
        wait matches Lookup::Deposit { tx: asked, .. } ==> !has_tx(e.pending, asked),
    ensures
        balances(e, StepView::Read { tx, wait }, b, read_next(e, b, wait, reply)),
{
}

/// So does a call after the store was created or a write was begun, whether or
/// not that succeeded.
pub proof fn law_flush_start_balances(e: EngineState, b: BudgetState, wait: Flush, reply: Result<(), StoreFault>)
    requires
        !(wait.stage is Committing),
        covered(e, StepView::Begin(wait), b),
    ensures
        balances(e, StepView::Begin(wait), b, flushed_next(e, b, wait, reply)),
{
}

/// So does a call after a batch was committed: the bytes of the batch are
/// given back.
pub proof fn law_commit_balances(e: EngineState, b: BudgetState, batch: Seq<(u32, Seq<u8>)>, wait: Flush)
    requires
        wait.stage is Committing,
        covered(e, StepView::Commit { batch, wait }, b),
        resume_is_new(e, wait.resume),
    ensures
        balances(e, StepView::Commit { batch, wait }, b, flushed_next(e, b, wait, Ok(()))),
{
}

/// The counter passes the ceiling only with a notice.
pub proof fn law_ceiling_is_passed_with_notice(
    e: EngineState,
    b: BudgetState,
    event: Event,
    lookup: Lookup,
    read: Result<Option<Seq<u8>>, StoreFault>,
    wait: Flush,
    reply: Result<(), StoreFault>,
)
    requires
        b.used <= b.limit,
        wait.stage matches FlushStage::Committing { count } ==> count * ENTRY_MEM_BYTES <= b.used,
    ensures
        apply_next(e, b, event) matches Some(n) ==> n.budget.used <= n.budget.limit || notes_over_limit(n.step),
        read_next(e, b, lookup, read) matches Some(n) ==> n.budget.used <= n.budget.limit || notes_over_limit(
            n.step,
        ),
        flushed_next(e, b, wait, reply) matches Some(n) ==> n.budget.used <= n.budget.limit || notes_over_limit(
            n.step,
        ),
{
}

/// An engine that has the budget for itself never passes the ceiling, if the
/// ceiling has room for one deposit.
pub proof fn law_lone_engine_keeps_ceiling_on_apply(e: EngineState, b: BudgetState, event: Event)
    requires
        b.used == owed(e, StepView::Done(Ok(None))),
        ENTRY_MEM_BYTES <= b.limit,
        b.used <= b.limit,
    ensures
        apply_next(e, b, event) matches Some(n) ==> n.budget.used <= n.budget.limit && n.budget.used == owed(
            n.engine,
            n.step,
        ),
{
}

/// The same after a read of the store.
pub proof fn law_lone_engine_keeps_ceiling_on_read(
    e: EngineState,
    b: BudgetState,
    tx: u32,
    wait: Lookup,
    reply: Result<Option<Seq<u8>>, StoreFault>,
)
    requires
        b.used == owed(e, StepView::Read { tx, wait }),
        wait matches Lookup::Deposit { tx: asked, .. } ==> !has_tx(e.pending, asked),
        ENTRY_MEM_BYTES <= b.limit,
        b.used <= b.limit,
    ensures
        read_next(e, b, wait, reply) matches Some(n) ==> n.budget.used <= n.budget.limit && n.budget.used
            == owed(n.engine, n.step),
{
}

/// The same after a commit.
pub proof fn law_lone_engine_keeps_ceiling_on_commit(
    e: EngineState,
    b: BudgetState,
    batch: Seq<(u32, Seq<u8>)>,
    wait: Flush,
)
    requires
        wait.stage matches FlushStage::Committing { count } && count >= 1,
        b.used == owed(e, StepView::Commit { batch, wait }),
        resume_is_new(e, wait.resume),
        b.used <= b.limit,
    ensures
        flushed_next(e, b, wait, Ok(())) matches Some(n) ==> n.budget.used <= n.budget.limit && n.budget.used
            == owed(n.engine, n.step),
{
}

/// An engine that retires owes nothing any more and shares nothing any more.
pub proof fn law_retired_engine_owes_nothing(e: EngineState, b: BudgetState)
    requires
        owed(e, StepView::Done(Ok(None))) <= b.used,
        b.actors > 0,
    ensures
        retired(e, b).used == b.used - owed(e, StepView::Done(Ok(None))),
        retired(e, b).actors == b.actors - 1,
        retired(e, b).limit == b.limit,
        retired(e, b).soft_bps == b.soft_bps,
{
}

/// At the ceiling a new deposit waits for a flush.
pub proof fn law_high_pressure_flushes_before_insert(
    e: EngineState,
    b: BudgetState,
    client: u16,
    tx: u32,
    amount: Number,
)
    requires
        b.pressure() is High,
        e.pending.len() > 0,
    ensures
        admit_next(e, b, client, tx, amount) == Some(
            (Next {
                engine: e,
                budget: b,
                step: first_flush_step(e.has_spill, Resume::Insert { client, tx, amount }),
            }),
        ),
{
}

/// A deposit ends without a flush exactly if the buffer stays below its
/// threshold.
pub proof fn law_flush_starts_at_threshold(
    e: EngineState,
    b: BudgetState,
    client: u16,
    tx: u32,
    amount: Number,
    notice: Option<Notice>,
)
    requires
        insert_next(e, b, client, tx, amount, notice) is Some,
    ensures
        (insert_next(e, b, client, tx, amount, notice)->0).step is Done <==> (insert_next(
            e,
            b,
            client,
            tx,
            amount,
            notice,
        )->0).engine.pending.len() < flush_threshold(b),
{
}

/// The threshold of an engine shrinks, or stays, as more engines join.
pub proof fn law_threshold_shrinks_as_actors_join(few: BudgetState, many: BudgetState)
    requires
        many == (BudgetState { actors: many.actors, ..few }),
        few.actors <= many.actors,
    ensures
        flush_threshold(many) <= flush_threshold(few),
{
    crate::mem_budget::law_share_shrinks_as_actors_join(few, many, ENTRY_MEM_BYTES);
}

/// Engines that share a budget, each with the step of the event at hand.
pub type Pool = Seq<(EngineState, StepView)>;

/// Bytes that all engines of a pool owe.
pub open spec fn total_owed(pool: Pool) -> int
    decreases pool.len(),
{
    if pool.len() == 0 {
        0
    } else {
        total_owed(pool.drop_last()) + owed(pool.last().0, pool.last().1)
    }
}

/// Bytes of the deposits in all buffers of a pool.
pub open spec fn total_buffered(pool: Pool) -> int
    decreases pool.len(),
{
    if pool.len() == 0 {
        0
    } else {
        total_buffered(pool.drop_last()) + pool.last().0.pending.len() * ENTRY_MEM_BYTES
    }
}

proof fn lemma_total_owed_update(pool: Pool, k: int, e: EngineState, step: StepView)
    requires
        0 <= k < pool.len(),
    ensures
        total_owed(pool.update(k, (e, step))) - total_owed(pool) == owed(e, step) - owed(pool[k].0, pool[k].1),
    decreases pool.len(),
{
    let after = pool.update(k, (e, step));
    if k == pool.len() - 1 {
        assert(after.drop_last() =~= pool.drop_last());
    } else {
        assert(after.drop_last() =~= pool.drop_last().update(k, (e, step)));
        lemma_total_owed_update(pool.drop_last(), k, e, step);
    }
}

/// If the counter is what all engines of a pool owe together, it still is after
/// any engine has made a call that balances.
pub proof fn law_pool_owes_the_counter(pool: Pool, b: BudgetState, k: int, next: Option<Next>)
    requires
        0 <= k < pool.len(),
        b.used == total_owed(pool),
        balances(pool[k].0, pool[k].1, b, next),
    ensures
        next matches Some(n) ==> total_owed(pool.update(k, (n.engine, n.step))) <= usize::MAX ==> n.budget.used
            == total_owed(pool.update(k, (n.engine, n.step))),
{
    if let Some(n) = next {
        lemma_total_owed_update(pool, k, n.engine, n.step);
    }
}

/// The buffers of a pool hold no more than its engines owe, so they stay within
/// the ceiling as long as the counter does.
pub proof fn law_buffers_stay_within_the_counter(pool: Pool)
    ensures
        0 <= total_buffered(pool) <= total_owed(pool),
    decreases pool.len(),
{
    if pool.len() > 0 {
        law_buffers_stay_within_the_counter(pool.drop_last());
    }
}

/// An event that is refused, or ignored as a duplicate, reserves nothing.
pub proof fn law_ignored_event_reserves_nothing(
    e: EngineState,
    b: BudgetState,
    event: Event,
    wait: Lookup,
    reply: Result<Option<Seq<u8>>, StoreFault>,
)
    ensures
        apply_next(e, b, event) matches Some(n) ==> is_ignored(n.step) ==> n.budget == b && n.engine == e,
        read_next(e, b, wait, reply) matches Some(n) ==> is_ignored(n.step) ==> n.budget == b && n.engine == e,
{
}

/// The event ended as a duplicate or with an error.
pub open spec fn is_ignored(step: StepView) -> bool {
    match step {
        StepView::Done(Ok(Some(Notice::Duplicate { .. }))) => true,
        StepView::Done(Err(_)) => true,
        _ => false,
    }
}

/// A call to an engine that no fault of the store preceded.
pub enum Call {
    /// An event, once the one before is done.
    Apply(Event),
    /// A flush on demand, once the event before is done.
    Flush,
    /// The record that a read brought, or that there is none.
    Found(Option<Seq<u8>>),
    /// The store was created, the write was begun or the batch was committed.
    Acted,
}

/// Where a call to an engine leads.
pub open spec fn call_next(e: EngineState, step: StepView, b: BudgetState, call: Call) -> Option<Next> {
    match (step, call) {
        (StepView::Done(_), Call::Apply(event)) => apply_next(e, b, event),
        (StepView::Done(_), Call::Flush) => flush_next(e, b, Resume::Finish { notice: None }),
        (StepView::Read { wait, .. }, Call::Found(found)) => read_next(e, b, wait, Ok(found)),
        (StepView::Open(wait), Call::Acted) => flushed_next(e, b, wait, Ok(())),
        (StepView::Begin(wait), Call::Acted) => flushed_next(e, b, wait, Ok(())),
        (StepView::Commit { wait, .. }, Call::Acted) => flushed_next(e, b, wait, Ok(())),
        _ => None,
    }
}

/// The engine stands where calls can have left it: a deposit that waits is not
/// in the buffer, and the stage of a flush is that of its step.
pub open spec fn consistent(e: EngineState, step: StepView) -> bool {
    match step {
        StepView::Done(_) => true,
        StepView::Read { wait, .. } => wait matches Lookup::Deposit { tx, .. } ==> !has_tx(e.pending, tx),
        StepView::Open(wait) => wait.stage is Opening && resume_is_new(e, wait.resume),
        StepView::Begin(wait) => wait.stage is Beginning && resume_is_new(e, wait.resume),
        StepView::Commit { wait, .. } => wait.stage is Committing && resume_is_new(e, wait.resume),
    }
}

proof fn lemma_apply_is_consistent(e: EngineState, b: BudgetState, event: Event)
    ensures
        apply_next(e, b, event) matches Some(n) ==> consistent(n.engine, n.step),
{
}

proof fn lemma_read_is_consistent(
    e: EngineState,
    b: BudgetState,
    wait: Lookup,
    reply: Result<Option<Seq<u8>>, StoreFault>,
)
    requires
        wait matches Lookup::Deposit { tx, .. } ==> !has_tx(e.pending, tx),
    ensures
        read_next(e, b, wait, reply) matches Some(n) ==> consistent(n.engine, n.step),
{
}

proof fn lemma_flushed_is_consistent(e: EngineState, b: BudgetState, wait: Flush)
    requires
        resume_is_new(e, wait.resume),
    ensures
        flushed_next(e, b, wait, Ok(())) matches Some(n) ==> consistent(n.engine, n.step),
{
    let n = flush_count(e.pending.len()) as int;
    if let Resume::Insert { tx, .. } = wait.resume {
        if has_tx(e.pending.skip(n), tx) {
            let i = index_of_tx(e.pending.skip(n), tx);
            assert(e.pending[i + n].0 == tx);
        }
    }
}

proof fn lemma_flush_on_demand(e: EngineState, b: BudgetState)
    ensures
        balances(
            e,
            StepView::Done(Ok(None)),
            b,
            flush_next(e, b, Resume::Finish { notice: None }),
        ),
        flush_next(e, b, Resume::Finish { notice: None }) matches Some(n) ==> consistent(n.engine, n.step),
{
}

/// Every call changes the counter by the change of what the engine owes, and
/// leaves the engine where the next call can go on.
pub proof fn law_calls_balance(e: EngineState, step: StepView, b: BudgetState, call: Call)
    requires
        consistent(e, step),
        covered(e, step, b),
    ensures
        balances(e, step, b, call_next(e, step, b, call)),
        call_next(e, step, b, call) matches Some(n) ==> consistent(n.engine, n.step),
{
    match (step, call) {
        (StepView::Done(_), Call::Apply(event)) => {
            law_apply_balances(e, b, event);
            lemma_apply_is_consistent(e, b, event);
        },
        (StepView::Done(_), Call::Flush) => {
            lemma_flush_on_demand(e, b);
        },
        (StepView::Read { tx, wait }, Call::Found(found)) => {
            law_read_balances(e, b, tx, wait, Ok(found));
            lemma_read_is_consistent(e, b, wait, Ok(found));
        },
        (StepView::Open(wait), Call::Acted) => {
            law_flush_start_balances(e, b, wait, Ok(()));
            lemma_flushed_is_consistent(e, b, wait);
        },
        (StepView::Begin(wait), Call::Acted) => {
            law_flush_start_balances(e, b, wait, Ok(()));
            lemma_flushed_is_consistent(e, b, wait);
        },
        (StepView::Commit { batch, wait }, Call::Acted) => {
            law_commit_balances(e, b, batch, wait);
            lemma_flushed_is_consistent(e, b, wait);
        },
        _ => {},
    }
}

/// What happens to a budget and the engines that share it.
pub enum Move {
    /// An engine is created.
    Join,
    /// The `k`-th engine is called.
    Call { k: int, call: Call },
    /// The `k`-th engine retires, its last event done.
    Leave { k: int },
}

/// A budget and the engines that share it.
pub struct Shared {
    pub pool: Pool,
    pub budget: BudgetState,
}

/// A move leads from one moment to the next.
pub open spec fn moved(from: Shared, how: Move, to: Shared) -> bool {
    match how {
        Move::Join => to.pool == from.pool.push((empty_engine(), StepView::Done(Ok(None)))) && to.budget == (
        BudgetState { actors: wrap(from.budget.actors + 1), ..from.budget }),
        Move::Call { k, call } => 0 <= k < from.pool.len() && (call_next(
            from.pool[k].0,
            from.pool[k].1,
            from.budget,
            call,
        ) matches Some(n) && to.pool == from.pool.update(k, (n.engine, n.step)) && to.budget == n.budget),
        Move::Leave { k } => 0 <= k < from.pool.len() && from.pool[k].1 is Done && to.pool == from.pool.remove(k)
            && to.budget == retired(from.pool[k].0, from.budget),
    }
}

/// The machine can count what the engines owe, and the engines, on top of what
/// `start` counts.
pub open spec fn countable(start: BudgetState, pool: Pool) -> bool {
    start.used + total_owed(pool) <= usize::MAX && start.actors + pool.len() <= usize::MAX
}

/// The `i`-th move of a history, to a moment that the machine can count.
pub open spec fn moved_at(history: Seq<Shared>, moves: Seq<Move>, i: int) -> bool {
    moved(history[i], moves[i], history[i + 1]) && countable(history[0].budget, history[i + 1].pool)
}

proof fn lemma_total_owed_remove(pool: Pool, k: int)
    requires
        0 <= k < pool.len(),
    ensures
        total_owed(pool.remove(k)) == total_owed(pool) - owed(pool[k].0, pool[k].1),
    decreases pool.len(),
{
    let after = pool.remove(k);
    if k == pool.len() - 1 {
        assert(after =~= pool.drop_last());
    } else {
        assert(after.drop_last() =~= pool.drop_last().remove(k));
        assert(after.last() == pool.last());
        lemma_total_owed_remove(pool.drop_last(), k);
    }
}

proof fn lemma_owed_within_total(pool: Pool, k: int)
    requires
        0 <= k < pool.len(),
    ensures
        0 <= owed(pool[k].0, pool[k].1) <= total_owed(pool),
{
    lemma_total_owed_remove(pool, k);
    law_buffers_stay_within_the_counter(pool.remove(k));
}

/// From a budget that no engine shares, through the creation of engines, any
/// calls to them without a fault of the store and the retirement of any of
/// them: the counter stays what it was plus what the engines owe, and the
/// number of engines what it was plus those that live. Left out is only what
/// the machine cannot count.
pub proof fn law_shared_budget_is_kept(history: Seq<Shared>, moves: Seq<Move>, k: int)
    requires
        history.len() == moves.len() + 1,
        history[0].pool.len() == 0,
        forall|i: int| 0 <= i < moves.len() ==> #[trigger] moved_at(history, moves, i),
        0 <= k <= moves.len(),
    ensures
        history[k].budget.used == history[0].budget.used + total_owed(history[k].pool),
        history[k].budget.actors == history[0].budget.actors + history[k].pool.len(),
        history[k].budget.limit == history[0].budget.limit,
        history[k].budget.soft_bps == history[0].budget.soft_bps,
        forall|j: int|
            0 <= j < history[k].pool.len() ==> consistent(
                (#[trigger] history[k].pool[j]).0,
                history[k].pool[j].1,
            ),
    decreases k,
{
    if k > 0 {
        law_shared_budget_is_kept(history, moves, k - 1);
        assert(moved_at(history, moves, k - 1));
        let from = history[k - 1];
        let to = history[k];
        match moves[k - 1] {
            Move::Join => {
                assert(to.pool.drop_last() =~= from.pool);
            },
            Move::Call { k: i, call } => {
                let (e, step) = from.pool[i];
                lemma_owed_within_total(from.pool, i);
                law_calls_balance(e, step, from.budget, call);
                let n = call_next(e, step, from.budget, call)->0;
                lemma_total_owed_update(from.pool, i, n.engine, n.step);
            },
            Move::Leave { k: i } => {
                lemma_owed_within_total(from.pool, i);
                lemma_total_owed_remove(from.pool, i);
                law_retired_engine_owes_nothing(from.pool[i].0, from.budget);
            },
        }
    }
}

/// No engine of the pool is in the middle of an event.
pub open spec fn all_done(pool: Pool) -> bool {
    forall|j: int| 0 <= j < pool.len() ==> (#[trigger] pool[j]).1 is Done
}

proof fn lemma_done_pool_owes_its_buffers(pool: Pool)
    requires
        all_done(pool),
    ensures
        total_owed(pool) == total_buffered(pool),
    decreases pool.len(),
{
    if pool.len() > 0 {
        let rest = pool.drop_last();
        assert forall|j: int| 0 <= j < rest.len() implies (#[trigger] rest[j]).1 is Done by {
            assert(pool[j] == rest[j]);
        }
        assert(pool[pool.len() - 1].1 is Done);
        lemma_done_pool_owes_its_buffers(rest);
    }
}

/// Between events the counter is the cost of the deposits that the living
/// engines hold in memory, if nobody else uses the budget.
pub proof fn law_counter_is_what_engines_buffer(history: Seq<Shared>, moves: Seq<Move>, k: int)
    requires
        history.len() == moves.len() + 1,
        history[0].pool.len() == 0,
        history[0].budget.used == 0,
        forall|i: int| 0 <= i < moves.len() ==> #[trigger] moved_at(history, moves, i),
        0 <= k <= moves.len(),
        all_done(history[k].pool),
    ensures
        history[k].budget.used == total_buffered(history[k].pool),
{
    law_shared_budget_is_kept(history, moves, k);
    lemma_done_pool_owes_its_buffers(history[k].pool);
}

/// Engines leave no trace: once every engine that was created has retired, the
/// budget is what it was before the first of them, whatever they were fed.
pub proof fn law_engines_leave_no_trace(history: Seq<Shared>, moves: Seq<Move>)
    requires
        history.len() == moves.len() + 1,
        history[0].pool.len() == 0,
        forall|i: int| 0 <= i < moves.len() ==> #[trigger] moved_at(history, moves, i),
        history.last().pool.len() == 0,
    ensures
        history.last().budget == history[0].budget,
{
    law_shared_budget_is_kept(history, moves, moves.len() as int);
}

/// The `i`-th call of an engine's life, to a moment whose bytes the machine can
/// count on top of what `start` counts.
pub open spec fn called_at(start: BudgetState, life: Seq<Next>, calls: Seq<Call>, i: int) -> bool {
    call_next(life[i].engine, life[i].step, life[i].budget, calls[i]) == Some(life[i + 1]) && start.used + owed(
        life[i + 1].engine,
        life[i + 1].step,
    ) <= usize::MAX
}

proof fn lemma_life_balances(start: BudgetState, life: Seq<Next>, calls: Seq<Call>, k: int)
    requires
        start.actors < usize::MAX,
        life.len() == calls.len() + 1,
        life[0] == created(start),
        forall|i: int| 0 <= i < calls.len() ==> #[trigger] called_at(start, life, calls, i),
        0 <= k <= calls.len(),
    ensures
        life[k].budget.used == start.used + owed(life[k].engine, life[k].step),
        life[k].budget == (BudgetState { used: life[k].budget.used, ..life[0].budget }),
        consistent(life[k].engine, life[k].step),
    decreases k,
{
    if k > 0 {
        lemma_life_balances(start, life, calls, k - 1);
        assert(called_at(start, life, calls, k - 1));
        law_calls_balance(life[k - 1].engine, life[k - 1].step, life[k - 1].budget, calls[k - 1]);
    }
}

/// An engine that was just created on this budget.
pub open spec fn created(start: BudgetState) -> Next {
    Next {
        engine: empty_engine(),
        budget: BudgetState { actors: wrap(start.actors + 1), ..start },
        step: StepView::Done(Ok(None)),
    }
}

/// An engine gives back what it took: created on a budget, fed any events
/// without a fault of the store while nobody else uses the budget, and dropped,
/// it leaves the budget as it found it.
pub proof fn law_engine_gives_back_what_it_took(start: BudgetState, life: Seq<Next>, calls: Seq<Call>)
    requires
        start.actors < usize::MAX,
        life.len() == calls.len() + 1,
        life[0] == created(start),
        forall|i: int| 0 <= i < calls.len() ==> #[trigger] called_at(start, life, calls, i),
        life.last().step is Done,
    ensures
        retired(life.last().engine, life.last().budget) == start,
{
    lemma_life_balances(start, life, calls, calls.len() as int);
    law_retired_engine_owes_nothing(life.last().engine, life.last().budget);
}

} // verus!
