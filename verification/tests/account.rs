//! Balance arithmetic of a single account.

use payments_engine_challenge::amount::Amount;
use payments_engine_challenge::engine::v1::account::{Account, InsufficientFunds};
use rust_decimal::Decimal;

fn amt(s: &str) -> Amount {
    let d: Decimal = s.parse().unwrap();
    Amount::new(d.mantissa(), d.scale()).unwrap()
}

fn dec(a: Amount) -> Decimal {
    Decimal::from_i128_with_scale(a.mantissa(), a.scale())
}

fn d(s: &str) -> Decimal {
    s.parse().unwrap()
}

/// The account's fields, amounts as decimals.
fn fields(a: &Account) -> (u16, Decimal, Decimal, bool) {
    (a.client(), dec(a.available()), dec(a.held()), a.locked())
}

#[test]
fn new_should_zero_all_balances_for_given_client() {
    assert_eq!(fields(&Account::new(7)), (7, Decimal::ZERO, Decimal::ZERO, false));
}

#[test]
fn apply_deposit_should_credit_available_and_leave_held() {
    let mut acct = Account::new(1);
    acct.apply_deposit(amt("10.1234"));

    assert_eq!(fields(&acct), (1, d("10.1234"), Decimal::ZERO, false));
}

#[test]
fn apply_deposit_should_accumulate_without_float_drift() {
    let mut acct = Account::new(1);
    let cent = amt("0.0001");

    for _ in 0..10_000 {
        acct.apply_deposit(cent);
    }

    assert_eq!(dec(acct.available()), d("1.0000"));
}

#[test]
fn apply_withdrawal_should_debit_available_and_leave_held_when_funds_sufficient() {
    let mut acct = Account::new(1);
    acct.apply_deposit(amt("10.0000"));

    acct.apply_withdrawal(amt("3.5000")).unwrap();

    assert_eq!(fields(&acct), (1, d("6.5000"), Decimal::ZERO, false));
}

#[test]
fn apply_withdrawal_should_return_err_when_amount_exceeds_available() {
    let mut acct = Account::new(1);
    acct.apply_deposit(amt("1.0000"));

    let err = acct.apply_withdrawal(amt("1.0001")).unwrap_err();

    assert_eq!(err, InsufficientFunds);
}

#[test]
fn apply_withdrawal_should_leave_balances_unchanged_when_amount_exceeds_available() {
    let mut acct = Account::new(1);
    acct.apply_deposit(amt("1.0000"));

    acct.apply_withdrawal(amt("1.0001")).unwrap_err();

    assert_eq!(fields(&acct), (1, d("1.0000"), Decimal::ZERO, false));
}

#[test]
fn apply_withdrawal_should_succeed_when_amount_equals_available() {
    let mut acct = Account::new(1);
    acct.apply_deposit(amt("2.5000"));

    acct.apply_withdrawal(amt("2.5000")).unwrap();

    assert_eq!(dec(acct.available()), Decimal::ZERO);
}

#[test]
fn apply_hold_should_move_amount_from_available_to_held() {
    let mut acct = Account::new(1);
    acct.apply_deposit(amt("10.0000"));

    acct.apply_hold(amt("3.0000"));

    assert_eq!(fields(&acct), (1, d("7.0000"), d("3.0000"), false));
}

#[test]
fn apply_hold_should_leave_total_unchanged() {
    let mut acct = Account::new(1);
    acct.apply_deposit(amt("10.0000"));
    let total_before = dec(acct.total());

    acct.apply_hold(amt("3.0000"));

    assert_eq!(dec(acct.total()), total_before);
}

#[test]
fn apply_hold_should_drive_available_negative_when_amount_exceeds_balance() {
    // A hold may take `available` below zero so `total = available + held`
    // survives after fraud.
    let mut acct = Account::new(1);
    acct.apply_deposit(amt("1.0000"));

    acct.apply_hold(amt("5.0000"));

    assert_eq!(dec(acct.available()), d("-4.0000"));
    assert_eq!(dec(acct.held()), d("5.0000"));
    assert_eq!(dec(acct.total()), d("1.0000"));
}

#[test]
fn apply_release_should_move_amount_from_held_back_to_available() {
    let mut acct = Account::new(1);
    acct.apply_deposit(amt("10.0000"));
    acct.apply_hold(amt("3.0000"));

    acct.apply_release(amt("3.0000"));

    assert_eq!(fields(&acct), (1, d("10.0000"), Decimal::ZERO, false));
}

#[test]
fn apply_release_should_leave_total_unchanged() {
    let mut acct = Account::new(1);
    acct.apply_deposit(amt("10.0000"));
    acct.apply_hold(amt("3.0000"));
    let total_before = dec(acct.total());

    acct.apply_release(amt("3.0000"));

    assert_eq!(dec(acct.total()), total_before);
}

#[test]
fn apply_chargeback_should_drop_held_without_crediting_available() {
    let mut acct = Account::new(1);
    acct.apply_deposit(amt("10.0000"));
    acct.apply_hold(amt("3.0000"));

    acct.apply_chargeback(amt("3.0000"));

    assert_eq!(fields(&acct), (1, d("7.0000"), Decimal::ZERO, true));
}

#[test]
fn apply_chargeback_should_lock_account() {
    let mut acct = Account::new(1);
    acct.apply_deposit(amt("10.0000"));
    acct.apply_hold(amt("10.0000"));

    acct.apply_chargeback(amt("10.0000"));

    assert!(acct.locked());
}

#[test]
fn apply_chargeback_should_drop_total_by_amount() {
    let mut acct = Account::new(1);
    acct.apply_deposit(amt("10.0000"));
    acct.apply_hold(amt("3.0000"));
    let total_before = dec(acct.total());

    acct.apply_chargeback(amt("3.0000"));

    assert_eq!(dec(acct.total()), total_before - d("3.0000"));
}

#[test]
fn apply_chargeback_should_drive_total_negative_for_fraud_sequence() {
    // Deposit then withdraw, then the chargeback reverses the credit.
    let mut acct = Account::new(1);
    acct.apply_deposit(amt("100.0000"));
    acct.apply_withdrawal(amt("80.0000")).unwrap();
    acct.apply_hold(amt("100.0000"));

    acct.apply_chargeback(amt("100.0000"));

    assert_eq!(fields(&acct), (1, d("-80.0000"), Decimal::ZERO, true));
}

#[test]
fn release_after_hold_should_restore_the_balances() {
    let mut a = Account::new(7);
    a.apply_deposit(amt("12.5"));
    let before = (dec(a.available()), dec(a.held()), dec(a.total()), a.locked());
    a.apply_hold(amt("4.25"));
    assert_eq!(dec(a.available()), "8.25".parse::<Decimal>().unwrap());
    assert_eq!(dec(a.held()), "4.25".parse::<Decimal>().unwrap());
    a.apply_release(amt("4.25"));
    assert_eq!((dec(a.available()), dec(a.held()), dec(a.total()), a.locked()), before);
    assert_eq!(a.client(), 7);
}
