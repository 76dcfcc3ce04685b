//! The two-state dispute lifecycle of a deposit record.

use payments_engine_challenge::amount::Amount;
use payments_engine_challenge::engine::v1::ledger::{
    AlreadyDisputed, DepositRecord, DisputeState, NotDisputed,
};
use rust_decimal::Decimal;

fn amt(s: &str) -> Amount {
    let d: Decimal = s.parse().unwrap();
    Amount::new(d.mantissa(), d.scale()).unwrap()
}

fn dec(a: Amount) -> Decimal {
    Decimal::from_i128_with_scale(a.mantissa(), a.scale())
}

#[test]
fn new_should_record_deposit_at_not_disputed_state() {
    let record = DepositRecord::new(1, amt("10.0000"));

    assert_eq!(record.state(), DisputeState::NotDisputed);
}

#[test]
fn try_dispute_should_transition_state_to_disputed_and_return_amount() {
    let mut record = DepositRecord::new(1, amt("10.0000"));

    let amount = record.try_dispute().unwrap();

    assert_eq!(dec(amount), "10.0000".parse::<Decimal>().unwrap());
    assert_eq!(record.state(), DisputeState::Disputed);
}

#[test]
fn try_dispute_should_return_already_disputed_when_record_already_disputed() {
    let mut record = DepositRecord::new(1, amt("10.0000"));
    record.try_dispute().unwrap();

    let err = record.try_dispute().unwrap_err();

    assert_eq!(err, AlreadyDisputed);
}

#[test]
fn try_dispute_should_leave_state_disputed_when_record_already_disputed() {
    let mut record = DepositRecord::new(1, amt("10.0000"));
    record.try_dispute().unwrap();

    let _ = record.try_dispute();

    assert_eq!(record.state(), DisputeState::Disputed);
}

#[test]
fn try_resolve_should_transition_state_to_not_disputed_and_return_amount() {
    let mut record = DepositRecord::new(1, amt("10.0000"));
    record.try_dispute().unwrap();

    let amount = record.try_resolve().unwrap();

    assert_eq!(dec(amount), "10.0000".parse::<Decimal>().unwrap());
    assert_eq!(record.state(), DisputeState::NotDisputed);
}

#[test]
fn try_resolve_should_return_not_disputed_when_record_not_in_disputed_state() {
    let mut record = DepositRecord::new(1, amt("10.0000"));

    let err = record.try_resolve().unwrap_err();

    assert_eq!(err, NotDisputed);
}

#[test]
fn try_resolve_should_leave_state_unchanged_when_record_not_in_disputed_state() {
    let mut record = DepositRecord::new(1, amt("10.0000"));

    let _ = record.try_resolve();

    assert_eq!(record.state(), DisputeState::NotDisputed);
}

#[test]
fn try_dispute_should_be_allowed_after_resolve() {
    let mut record = DepositRecord::new(1, amt("10.0000"));
    record.try_dispute().unwrap();
    record.try_resolve().unwrap();

    let amount = record.try_dispute().unwrap();

    assert_eq!(dec(amount), "10.0000".parse::<Decimal>().unwrap());
    assert_eq!(record.state(), DisputeState::Disputed);
}
