//! How one account's balances move.
use transaction_parser::{Account, Amount, Reject};

fn dec(s: &str) -> Amount {
    Amount::from_str(s).unwrap()
}

/// The largest amount there is.
fn max() -> Amount {
    dec("79228162514264337593543950335")
}

fn funded(amount: &str) -> Account {
    let mut account = Account::new(1);
    account.credit(dec(amount)).unwrap();
    account
}

#[test]
fn total_always_tracks_available_plus_held() {
    let mut account = funded("10.0");
    account.move_available_to_held(dec("4.0")).unwrap();
    assert_eq!(account.available(), dec("6.0"));
    assert_eq!(account.held(), dec("4.0"));
    assert_eq!(account.total(), dec("10.0"));
}

#[test]
fn debit_beyond_available_funds_is_refused_and_changes_nothing() {
    let mut account = funded("1.0");
    let outcome = account.debit(dec("1.5"));
    assert!(matches!(outcome, Err(Reject::InsufficientFunds { .. })));
    assert_eq!(account.total(), dec("1.0"));
}

#[test]
fn debit_of_exactly_the_available_balance_succeeds() {
    let mut account = funded("1.0");
    account.debit(dec("1.0")).unwrap();
    assert_eq!(account.available(), Amount::zero());
}

#[test]
fn holding_a_spent_deposit_drives_available_negative() {
    let mut account = funded("5.0");
    account.debit(dec("5.0")).unwrap();
    account.move_available_to_held(dec("5.0")).unwrap();
    assert_eq!(account.available(), dec("-5.0"));
    assert_eq!(account.held(), dec("5.0"));
    assert_eq!(account.total(), Amount::zero());
}

#[test]
fn holding_a_pending_refund_raises_the_total() {
    let mut account = funded("1.0");
    account.add_held(dec("3.0")).unwrap();
    assert_eq!(account.available(), dec("1.0"));
    assert_eq!(account.total(), dec("4.0"));
}

#[test]
fn the_two_move_methods_are_inverses() {
    let mut account = funded("10.0");
    account.move_available_to_held(dec("2.5")).unwrap();
    account.move_held_to_available(dec("2.5")).unwrap();
    assert_eq!(account.available(), dec("10.0"));
    assert_eq!(account.held(), Amount::zero());
}

#[test]
fn the_two_held_methods_are_inverses() {
    let mut account = funded("10.0");
    account.add_held(dec("2.5")).unwrap();
    account.remove_held(dec("2.5")).unwrap();
    assert_eq!(account.total(), dec("10.0"));
    assert_eq!(account.held(), Amount::zero());
}

#[test]
fn credit_overflow_is_refused_and_changes_nothing() {
    let mut account = Account::new(1);
    account.credit(max()).unwrap();
    assert_eq!(account.credit(max()), Err(Reject::Unrepresentable));
    assert_eq!(account.available(), max());
}

#[test]
fn total_overflow_is_refused_even_when_each_field_fits() {
    let mut account = Account::new(1);
    account.credit(max()).unwrap();
    assert_eq!(account.add_held(max()), Err(Reject::Unrepresentable));
    assert_eq!(account.held(), Amount::zero());
}

#[test]
fn arithmetic_that_would_lose_precision_is_refused() {
    // Decimal would answer this one by silently dropping the 0.0001.
    let mut account = funded("10000000000000000000000000");
    assert_eq!(account.credit(dec("0.0001")), Err(Reject::Unrepresentable));
    assert_eq!(account.debit(dec("0.0001")), Err(Reject::Unrepresentable));
    assert_eq!(
        account.move_available_to_held(dec("0.0001")),
        Err(Reject::Unrepresentable)
    );
    assert_eq!(account.available(), dec("10000000000000000000000000"));
    assert_eq!(account.held(), Amount::zero());
}
