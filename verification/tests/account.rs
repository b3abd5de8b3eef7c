use pecrab::account::AccountFsm;
use pecrab::amount::Amount;

fn dec(text: &str) -> Amount {
    Amount::parse(text).unwrap()
}

fn account_with(available: &str) -> AccountFsm {
    let mut account = AccountFsm::new(7);
    account.apply_deposit(dec(available));
    account
}

#[test]
fn fresh_account_is_empty_and_active() {
    let row = AccountFsm::new(7).to_account();
    assert_eq!(row.client, 7);
    assert_eq!(row.available, dec("0"));
    assert_eq!(row.held, dec("0"));
    assert_eq!(row.total, dec("0"));
    assert!(!row.locked);
}

#[test]
fn dispute_and_resolve_keep_the_total() {
    let mut account = account_with("10.5");
    assert!(account.apply_dispute(dec("4")));
    assert_eq!(account.total(), dec("10.5"));
    assert_eq!(account.to_account().held, dec("4"));
    account.apply_resolve(dec("4"));
    assert_eq!(account.total(), dec("10.5"));
    assert_eq!(account.to_account().available, dec("10.5"));
}

#[test]
fn resolve_releases_no_more_than_is_held() {
    let mut account = account_with("10");
    assert!(account.apply_dispute(dec("4")));
    account.apply_resolve(dec("9"));
    let row = account.to_account();
    assert_eq!(row.held, dec("0"));
    assert_eq!(row.available, dec("10"));
}

#[test]
fn chargeback_deducts_no_more_than_is_held() {
    let mut account = account_with("10");
    assert!(account.apply_dispute(dec("4")));
    account.apply_chargeback(dec("9"));
    let row = account.to_account();
    assert_eq!(row.held, dec("0"));
    assert_eq!(row.available, dec("6"));
    assert_eq!(row.total, dec("6"));
    assert!(row.locked);
}

#[test]
fn uncovered_operations_change_nothing() {
    let mut account = account_with("10");
    assert!(!account.apply_dispute(dec("10.0001")));
    account.apply_withdrawal(dec("10.0001"));
    assert_eq!(account.to_account().available, dec("10"));
    assert!(account.covers(dec("10")));
    account.apply_withdrawal(dec("10"));
    assert_eq!(account.to_account().available, dec("0"));
}

#[test]
fn locked_account_ignores_every_operation() {
    let mut account = account_with("10");
    assert!(account.apply_dispute(dec("4")));
    account.apply_chargeback(dec("1"));
    assert!(account.is_locked());
    account.apply_deposit(dec("5"));
    account.apply_withdrawal(dec("5"));
    assert!(!account.apply_dispute(dec("1")));
    account.apply_resolve(dec("3"));
    account.apply_chargeback(dec("3"));
    let row = account.to_account();
    assert_eq!(row.available, dec("6"));
    assert_eq!(row.held, dec("3"));
    assert!(row.locked);
}

#[test]
fn overflow_is_told_apart() {
    let max = dec("79228162514264337593543950335");
    let account = account_with("79228162514264337593543950335");
    assert!(account.after_deposit(max).is_none());
    assert!(account.after_withdrawal(dec("-1")).is_none());
    assert!(account.after_dispute(dec("-1")).is_none());
    assert!(account.after_deposit(dec("0")).is_some());
    assert!(account.after_chargeback(dec("-79228162514264337593543950335")).is_some());
    assert!(account.checked_total().is_some());
}
