use pecrab::mem_budget::{GlobalMemBudget, MemPressure};

#[test]
fn try_reserve_within_limit_succeeds() {
    let mut b = GlobalMemBudget::new(1_000);
    assert!(b.try_reserve(400));
    assert!(b.try_reserve(600));
    assert_eq!(b.in_use(), 1_000);
}

#[test]
fn try_reserve_over_limit_rolls_back() {
    let mut b = GlobalMemBudget::new(1_000);
    assert!(b.try_reserve(800));
    assert!(!b.try_reserve(300));
    assert_eq!(b.in_use(), 800, "failed reservation must roll back");
}

#[test]
fn release_returns_bytes() {
    let mut b = GlobalMemBudget::new(1_000);
    assert!(b.try_reserve(800));
    b.release(500);
    assert_eq!(b.in_use(), 300);
    assert!(b.try_reserve(700));
}

#[test]
fn force_reserve_can_exceed_limit() {
    let mut b = GlobalMemBudget::new(100);
    b.force_reserve(250);
    assert_eq!(b.in_use(), 250);
    assert_eq!(b.pressure(), MemPressure::High);
}

#[test]
fn pressure_low_below_soft_watermark() {
    let mut b = GlobalMemBudget::new(1_000); // soft = 800
    b.force_reserve(799);
    assert_eq!(b.pressure(), MemPressure::Low);
}

#[test]
fn pressure_medium_between_soft_and_hard() {
    let mut b = GlobalMemBudget::new(1_000);
    b.force_reserve(850);
    assert_eq!(b.pressure(), MemPressure::Medium);
}

#[test]
fn pressure_high_at_hard_limit() {
    let mut b = GlobalMemBudget::new(1_000);
    b.force_reserve(1_000);
    assert_eq!(b.pressure(), MemPressure::High);
}

#[test]
fn custom_soft_watermark_bps() {
    let mut b = GlobalMemBudget::new(1_000).with_soft_watermark_bps(5_000); // 50 %
    b.force_reserve(500);
    assert_eq!(b.pressure(), MemPressure::Medium);
    b.release(1);
    assert_eq!(b.pressure(), MemPressure::Low);
}

#[test]
fn soft_watermark_clamped_to_ten_thousand() {
    let mut b = GlobalMemBudget::new(1_000).with_soft_watermark_bps(60_000);
    // Clamped to 100 %; soft == hard, so only values >= hard land in Medium/High.
    b.force_reserve(999);
    assert_eq!(b.pressure(), MemPressure::Low);
}

#[test]
fn unlimited_never_hits_high_pressure() {
    let mut b = GlobalMemBudget::unlimited();
    for _ in 0..1_000 {
        assert!(b.try_reserve(1_000_000));
    }
    assert_eq!(b.pressure(), MemPressure::Low);
}

#[test]
fn actor_count_increments_and_decrements() {
    let mut b = GlobalMemBudget::new(1_000);
    assert_eq!(b.registered_actors(), 0);
    b.register_actor();
    b.register_actor();
    assert_eq!(b.actor_count(), 2);
    b.deregister_actor();
    assert_eq!(b.actor_count(), 1);
}

#[test]
fn actor_count_returns_at_least_one_when_zero() {
    let b = GlobalMemBudget::new(1_000);
    // No actors registered; actor_count() must return 1 to avoid division by zero.
    assert_eq!(b.actor_count(), 1);
}

#[test]
fn suggested_per_actor_cap_single_actor() {
    // 1 000 bytes, entry_size = 100: 10 entries per actor.
    let mut b = GlobalMemBudget::new(1_000);
    b.register_actor();
    assert_eq!(b.suggested_per_actor_cap(100), 10);
}

#[test]
fn suggested_per_actor_cap_shrinks_with_more_actors() {
    // 1 000 bytes, entry_size = 100: 10 entries total.
    let mut b = GlobalMemBudget::new(1_000);
    b.register_actor(); // 1 actor: 10 entries each
    assert_eq!(b.suggested_per_actor_cap(100), 10);
    b.register_actor(); // 2 actors: 5 entries each
    assert_eq!(b.suggested_per_actor_cap(100), 5);
    b.register_actor(); // 3 actors: 3 entries each (integer division)
    assert_eq!(b.suggested_per_actor_cap(100), 3);
}

#[test]
fn suggested_per_actor_cap_is_at_least_one() {
    // Budget too small for even one entry.
    let mut b = GlobalMemBudget::new(1);
    b.register_actor();
    assert_eq!(b.suggested_per_actor_cap(100), 1);
}

#[test]
fn suggested_per_actor_cap_unlimited_is_large() {
    let mut b = GlobalMemBudget::unlimited();
    b.register_actor();
    // Should not panic and should return a very large number.
    assert!(b.suggested_per_actor_cap(22) > 1_000_000_000);
}

#[test]
fn counters_wrap_around() {
    let mut b = GlobalMemBudget::new(10);
    b.release(1);
    assert_eq!(b.in_use(), usize::MAX);
    b.force_reserve(1);
    assert_eq!(b.in_use(), 0);
    b.deregister_actor();
    assert_eq!(b.registered_actors(), usize::MAX);
    b.register_actor();
    assert_eq!(b.registered_actors(), 0);
}

#[test]
fn full_counter_refuses_more_under_the_widest_ceiling() {
    let mut b = GlobalMemBudget::unlimited();
    b.force_reserve(usize::MAX);
    assert_eq!(b.pressure(), MemPressure::High);
    assert!(!b.admits(1));
    assert!(!b.try_reserve(1));
    assert_eq!(b.in_use(), usize::MAX);
    assert!(b.try_reserve(0));
    assert_eq!(b.global_limit(), usize::MAX);
}

#[test]
fn soft_watermark_is_not_rounded() {
    let mut b = GlobalMemBudget::new(1);
    assert_eq!(b.pressure(), MemPressure::Low);
    b.force_reserve(1);
    assert_eq!(b.pressure(), MemPressure::High);

    // 80 % of 3 bytes are 2.4 bytes.
    let mut b = GlobalMemBudget::new(3);
    b.force_reserve(2);
    assert_eq!(b.pressure(), MemPressure::Low);

    // 80 % of 6 bytes are 4.8 bytes.
    let mut b = GlobalMemBudget::new(6);
    b.force_reserve(4);
    assert_eq!(b.pressure(), MemPressure::Low);
    b.force_reserve(1);
    assert_eq!(b.pressure(), MemPressure::Medium);

    let b = GlobalMemBudget::new(5).with_soft_watermark_bps(0);
    assert_eq!(b.pressure(), MemPressure::Medium);
}

#[test]
fn zero_entry_size_counts_as_one_byte() {
    let b = GlobalMemBudget::new(12);
    assert_eq!(b.suggested_per_actor_cap(0), 12);
}

#[test]
fn shares_of_all_actors_fit_the_ceiling() {
    let mut b = GlobalMemBudget::new(1_000);
    for actors in 1..=41usize {
        b.register_actor();
        assert!(b.suggested_per_actor_cap(24) * actors * 24 <= 1_000);
    }
}
