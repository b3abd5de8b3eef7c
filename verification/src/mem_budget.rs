//! Aggregate memory tracker shared by every per-client engine.
//!
//! A [`GlobalMemBudget`] holds one counter of reserved bytes under a hard
//! ceiling, and the number of live engines. An engine reserves the cost of an
//! entry before it buffers a deposit and releases the bytes it spills, so the
//! counter bounds the sum of all in-memory buffers. Every operation takes the
//! budget by exclusive reference; callers that share one budget between tasks
//! keep it behind a lock, and each call is then one atomic update.
//!
//! | Pressure                | Condition            | Response of an engine                |
//! |-------------------------|----------------------|--------------------------------------|
//! | [`MemPressure::Low`]    | `used < soft`        | Flush at its fair share              |
//! | [`MemPressure::Medium`] | `soft <= used < hard`| Flush at half of its fair share      |
//! | [`MemPressure::High`]   | `used >= hard`       | Flush when the reservation is refused|
use vstd::prelude::*;

verus! {

/// Pressure level derived from current utilisation.
#[derive(Debug, Clone, Copy, PartialEq, Eq, Structural)]
pub enum MemPressure {
    /// Below the soft watermark.
    Low,
    /// Between the soft and the hard watermark.
    Medium,
    /// At or beyond the hard ceiling.
    High,
}

/// Default soft watermark, in basis points of the hard limit (80 %).
pub const DEFAULT_SOFT_WATERMARK_BPS: u16 = 8_000;

/// Aggregate memory tracker.
pub struct GlobalMemBudget {
    global_limit: usize,
    in_use: usize,
    soft_watermark_bps: u16,
    actor_count: usize,
}

/// What a [`GlobalMemBudget`] holds.
pub struct BudgetState {
    /// Hard ceiling in bytes.
    pub limit: usize,
    /// Bytes reserved at present.
    pub used: usize,
    /// Soft watermark in basis points of `limit`.
    pub soft_bps: u16,
    /// Engines registered at present.
    pub actors: usize,
}

/// `n` reduced to the range of the machine's word, as its atomic counters do.
pub open spec fn wrap(n: int) -> usize {
    if n > usize::MAX {
        (n - usize::MAX - 1) as usize
    } else if n < 0 {
        (n + usize::MAX + 1) as usize
    } else {
        n as usize
    }
}

pub open spec fn at_least_one(n: int) -> usize {
    if n < 1 {
        1
    } else {
        n as usize
    }
}

impl BudgetState {
    /// The soft watermark lies within the hard limit.
    pub open spec fn valid(self) -> bool {
        self.soft_bps <= 10_000
    }

    /// The bytes in use have reached the soft watermark, that is `soft_bps` in
    /// ten thousand of the ceiling.
    pub open spec fn reaches_soft(self) -> bool {
        self.used * 10_000 >= self.limit * self.soft_bps
    }

    /// Whether `bytes` more stay within the ceiling.
    pub open spec fn admits(self, bytes: usize) -> bool {
        self.used + bytes <= self.limit
    }

    /// The budget after `bytes` more were taken, whatever the ceiling.
    pub open spec fn take(self, bytes: usize) -> BudgetState {
        BudgetState { used: wrap(self.used + bytes), ..self }
    }

    /// The budget after `bytes` were given back.
    pub open spec fn give(self, bytes: usize) -> BudgetState {
        BudgetState { used: wrap(self.used - bytes), ..self }
    }

    pub open spec fn pressure(self) -> MemPressure {
        if self.used >= self.limit {
            MemPressure::High
        } else if self.reaches_soft() {
            MemPressure::Medium
        } else {
            MemPressure::Low
        }
    }

    /// The number of engines to divide the ceiling by.
    pub open spec fn sharers(self) -> usize {
        at_least_one(self.actors as int)
    }

    /// Entries of `entry_size` bytes that one engine may buffer.
    pub open spec fn share(self, entry_size: usize) -> usize {
        at_least_one(self.limit as int / at_least_one(entry_size as int) as int / self.sharers() as int)
    }
}

impl View for GlobalMemBudget {
    type V = BudgetState;

    closed spec fn view(&self) -> BudgetState {
        BudgetState {
            limit: self.global_limit,
            used: self.in_use,
            soft_bps: self.soft_watermark_bps,
            actors: self.actor_count,
        }
    }
}

impl GlobalMemBudget {
    /// A budget with the default soft watermark.
    pub fn new(global_limit: usize) -> (budget: Self)
        ensures
            budget@ == (BudgetState {
                limit: global_limit,
                used: 0,
                soft_bps: DEFAULT_SOFT_WATERMARK_BPS,
                actors: 0,
            }),
            budget@.valid(),
    {
        GlobalMemBudget {
            global_limit,
            in_use: 0,
            soft_watermark_bps: DEFAULT_SOFT_WATERMARK_BPS,
            actor_count: 0,
        }
    }

    /// Override the soft watermark (basis points, clamped to 10 000).
    pub fn with_soft_watermark_bps(self, bps: u16) -> (budget: Self)
        ensures
            budget@ == (BudgetState {
                soft_bps: if bps <= 10_000 { bps } else { 10_000 },
                ..self@
            }),
            budget@.valid(),
    {
        let soft_watermark_bps: u16 = if bps <= 10_000 { bps } else { 10_000 };
        GlobalMemBudget { soft_watermark_bps, ..self }
    }

    /// A budget whose ceiling is the largest word.
    pub fn unlimited() -> (budget: Self)
        ensures
            budget@ == (BudgetState {
                limit: usize::MAX,
                used: 0,
                soft_bps: DEFAULT_SOFT_WATERMARK_BPS,
                actors: 0,
            }),
            budget@.valid(),
    {
        GlobalMemBudget::new(usize::MAX)
    }

    /// The hard ceiling in bytes.
    pub fn global_limit(&self) -> (bytes: usize)
        ensures
            bytes == self@.limit,
    {
        self.global_limit
    }

    /// Bytes reserved at present.
    pub fn in_use(&self) -> (bytes: usize)
        ensures
            bytes == self@.used,
    {
        self.in_use
    }

    /// Engines registered at present, not less than one.
    pub fn actor_count(&self) -> (count: usize)
        ensures
            count == self@.sharers(),
    {
        if self.actor_count < 1 {
            1
        } else {
            self.actor_count
        }
    }

    /// Engines registered at present.
    pub fn registered_actors(&self) -> (count: usize)
        ensures
            count == self@.actors,
    {
        self.actor_count
    }

    /// One more engine shares this budget. Pair with
    /// [`deregister_actor`](Self::deregister_actor).
    pub fn register_actor(&mut self)
        ensures
            final(self)@ == (BudgetState { actors: wrap(old(self)@.actors + 1), ..old(self)@ }),
    {
        self.actor_count = self.actor_count.wrapping_add(1);
    }

    /// One engine less shares this budget.
    pub fn deregister_actor(&mut self)
        ensures
            final(self)@ == (BudgetState { actors: wrap(old(self)@.actors - 1), ..old(self)@ }),
    {
        self.actor_count = self.actor_count.wrapping_sub(1);
    }

    /// The fair share of one engine, in entries of `entry_size` bytes; at
    /// least one.
    pub fn suggested_per_actor_cap(&self, entry_size: usize) -> (cap: usize)
        ensures
            cap == self@.share(entry_size),
            cap >= 1,
    {
        let count = self.actor_count();
        let size: usize = if entry_size < 1 { 1 } else { entry_size };
        let cap: usize = self.global_limit / size / count;
        if cap < 1 {
            1
        } else {
            cap
        }
    }

    /// Whether a reservation of `bytes` would be granted at present.
    pub fn admits(&self, bytes: usize) -> (r: bool)
        ensures
            r == self@.admits(bytes),
    {
        match self.in_use.checked_add(bytes) {
            Some(sum) => sum <= self.global_limit,
            None => false,
        }
    }

    /// Reserve `bytes` if they stay within the ceiling; otherwise reserve
    /// nothing. A reservation owes a matching [`release`](Self::release).
    pub fn try_reserve(&mut self, bytes: usize) -> (reserved: bool)
        ensures
            reserved == old(self)@.admits(bytes),
            final(self)@ == if reserved { old(self)@.take(bytes) } else { old(self)@ },
    {
        if self.admits(bytes) {
            self.in_use = self.in_use.wrapping_add(bytes);
            true
        } else {
            false
        }
    }

    /// Reserve `bytes` even beyond the ceiling. Owes a matching
    /// [`release`](Self::release).
    pub fn force_reserve(&mut self, bytes: usize)
        ensures
            final(self)@ == old(self)@.take(bytes),
    {
        self.in_use = self.in_use.wrapping_add(bytes);
    }

    /// Give back `bytes` that were reserved before.
    pub fn release(&mut self, bytes: usize)
        ensures
            final(self)@ == old(self)@.give(bytes),
    {
        self.in_use = self.in_use.wrapping_sub(bytes);
    }

    /// The pressure level at present.
    pub fn pressure(&self) -> (level: MemPressure)
        ensures
            level == self@.pressure(),
    {
        let used: u128 = self.in_use as u128;
        let limit: u128 = self.global_limit as u128;
        let bps: u128 = self.soft_watermark_bps as u128;
        assert(0 <= limit * bps <= u128::MAX) by (nonlinear_arith)
            requires
                limit <= usize::MAX,
                bps <= u16::MAX,
        ;
        if used >= limit {
            MemPressure::High
        } else if used * 10_000 >= limit * bps {
            MemPressure::Medium
        } else {
            MemPressure::Low
        }
    }
}

/// A release gives back exactly what a reservation of the same size took.
pub proof fn law_release_undoes_reservation(budget: BudgetState, bytes: usize)
    ensures
        budget.take(bytes).give(bytes) == budget,
        budget.give(bytes).take(bytes) == budget,
{
}

/// Admitted reservations never carry the counter over the ceiling.
pub proof fn law_admitted_reservation_keeps_ceiling(budget: BudgetState, bytes: usize)
    requires
        budget.used <= budget.limit,
        budget.admits(bytes),
    ensures
        budget.take(bytes).used <= budget.take(bytes).limit,
{
}

/// The soft watermark never lies above the ceiling: who reaches the ceiling
/// reaches the watermark.
pub proof fn law_soft_within_hard(budget: BudgetState)
    requires
        budget.valid(),
    ensures
        0 <= budget.limit * budget.soft_bps <= budget.limit * 10_000,
        budget.used >= budget.limit ==> budget.reaches_soft(),
{
    let limit = budget.limit as int;
    let bps = budget.soft_bps as int;
    assert(0 <= limit * bps <= limit * 10_000) by (nonlinear_arith)
        requires
            0 <= limit,
            0 <= bps <= 10_000,
    ;
}

/// More bytes in use never lower the pressure.
pub proof fn law_pressure_rises_with_use(less: BudgetState, more: BudgetState)
    requires
        less.limit == more.limit,
        less.soft_bps == more.soft_bps,
        less.used <= more.used,
    ensures
        less.pressure() is High ==> more.pressure() is High,
        less.pressure() is Medium ==> !(more.pressure() is Low),
{
}

/// When every engine stays within its share, the buffers of all of them
/// together stay within the ceiling, provided that the ceiling holds at least
/// one entry of each engine.
pub proof fn law_shares_fit_the_ceiling(budget: BudgetState, entry_size: usize)
    requires
        entry_size >= 1,
        entry_size * budget.sharers() <= budget.limit,
    ensures
        budget.share(entry_size) * budget.sharers() * entry_size <= budget.limit,
{
    let limit = budget.limit as int;
    let size = entry_size as int;
    let n = budget.sharers() as int;
    let entries = limit / size;
    let cap = entries / n;
    assert(entries >= n) by (nonlinear_arith)
        requires
            size >= 1,
            size * n <= limit,
            entries == limit / size,
    ;
    assert(cap >= 1) by (nonlinear_arith)
        requires
            n >= 1,
            entries >= n,
            cap == entries / n,
    ;
    assert(cap * n <= entries) by (nonlinear_arith)
        requires
            n >= 1,
            cap == entries / n,
    ;
    assert(entries * size <= limit) by (nonlinear_arith)
        requires
            size >= 1,
            entries == limit / size,
    ;
    assert(cap * n * size <= entries * size) by (nonlinear_arith)
        requires
            size >= 1,
            cap * n <= entries,
    ;
    assert(cap <= limit) by (nonlinear_arith)
        requires
            cap * n * size <= limit,
            n >= 1,
            size >= 1,
            cap >= 1,
    ;
}

/// The share of each engine shrinks, or stays, as more engines join.
pub proof fn law_share_shrinks_as_actors_join(few: BudgetState, many: BudgetState, entry_size: usize)
    requires
        few.limit == many.limit,
        few.actors <= many.actors,
    ensures
        many.share(entry_size) <= few.share(entry_size),
{
    let entries = few.limit as int / at_least_one(entry_size as int) as int;
    let n = few.sharers() as int;
    let m = many.sharers() as int;
    assert(0 <= entries <= few.limit) by (nonlinear_arith)
        requires
            entries == few.limit as int / at_least_one(entry_size as int) as int,
            at_least_one(entry_size as int) >= 1,
    ;
    assert(0 <= entries / m <= entries / n <= entries) by (nonlinear_arith)
        requires
            entries >= 0,
            1 <= n <= m,
    ;
}

/// A reservation is admitted exactly if it stays within the ceiling. Taking bytes
/// adds them to the counter and giving them back subtracts them, modulo the
/// range of the counter; nothing else changes.
pub proof fn law_counter_moves_by_bytes(budget: BudgetState, bytes: usize)
    ensures
        budget.admits(bytes) <==> budget.used + bytes <= budget.limit,
        budget.take(bytes).used - budget.used == bytes || budget.take(bytes).used + usize::MAX + 1 - budget.used == bytes,
        budget.used - budget.give(bytes).used == bytes || budget.used + usize::MAX + 1 - budget.give(bytes).used == bytes,
        budget.take(bytes).limit == budget.limit && budget.give(bytes).limit == budget.limit,
        budget.take(bytes).soft_bps == budget.soft_bps && budget.give(bytes).soft_bps == budget.soft_bps,
        budget.take(bytes).actors == budget.actors && budget.give(bytes).actors == budget.actors,
{
}

/// A counter that goes up and down by one comes back to where it was, and it
/// changes by one unless it leaves its range.
pub proof fn law_counter_moves_by_one(n: usize)
    ensures
        n < usize::MAX ==> wrap(n + 1) == n + 1,
        n == usize::MAX ==> wrap(n + 1) == 0,
        n > 0 ==> wrap(n - 1) == n - 1,
        n == 0 ==> wrap(n - 1) == usize::MAX,
{
}

/// Pressure is high from the ceiling on, medium from the watermark on, and low
/// below both.
pub proof fn law_pressure_follows_watermarks(budget: BudgetState)
    ensures
        budget.pressure() is High <==> budget.limit <= budget.used,
        budget.pressure() is Medium <==> budget.used < budget.limit && budget.limit * budget.soft_bps <= budget.used
            * 10_000,
        budget.pressure() is Low <==> budget.used < budget.limit && budget.used * 10_000 < budget.limit
            * budget.soft_bps,
{
}

/// A share is one entry, or the most entries of which every engine can hold as
/// many within the ceiling. No engine counts as one engine, and no size as one
/// byte.
pub proof fn law_share_is_largest(budget: BudgetState, entry_size: usize, engines: int, size: int)
    requires
        engines == (if budget.actors == 0 {
            1
        } else {
            budget.actors as int
        }),
        size == (if entry_size == 0 {
            1
        } else {
            entry_size as int
        }),
    ensures
        budget.sharers() == engines,
        budget.share(entry_size) >= 1,
        budget.share(entry_size) == 1 || budget.share(entry_size) * (engines * size) <= budget.limit,
        (budget.share(entry_size) + 1) * (engines * size) > budget.limit,
{
    let limit = budget.limit as int;
    let entries = limit / size;
    let cap = entries / engines;
    assert(0 <= limit - entries * size < size) by (nonlinear_arith)
        requires
            size >= 1,
            entries == limit / size,
    ;
    assert(0 <= entries - cap * engines < engines) by (nonlinear_arith)
        requires
            engines >= 1,
            cap == entries / engines,
    ;
    assert(0 <= cap <= entries <= limit) by (nonlinear_arith)
        requires
            limit >= 0,
            size >= 1,
            engines >= 1,
            entries == limit / size,
            cap == entries / engines,
    ;
    assert(cap * (engines * size) <= limit < (cap + 1) * (engines * size)) by (nonlinear_arith)
        requires
            size >= 1,
            engines >= 1,
            0 <= limit - entries * size < size,
            0 <= entries - cap * engines < engines,
    ;
    assert((cap + 1) * (engines * size) <= (budget.share(entry_size) + 1) * (engines * size)) by (nonlinear_arith)
        requires
            size >= 1,
            engines >= 1,
            cap <= budget.share(entry_size),
    ;
}

/// The state of a budget is that of its fields.
proof fn law_budget_state_is_its_fields(budget: GlobalMemBudget)
    ensures
        budget@.limit == budget.global_limit,
        budget@.used == budget.in_use,
        budget@.soft_bps == budget.soft_watermark_bps,
        budget@.actors == budget.actor_count,
{
}

} // verus!
