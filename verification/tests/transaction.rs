//! Converting raw rows into transactions, and parsing the `type` column.

use payments_engine_challenge::amount::Amount;
use payments_engine_challenge::engine::error::EngineError;
use payments_engine_challenge::engine::transaction::{RawTransaction, Transaction, TransactionKind};
use rust_decimal::Decimal;

fn amt(s: &str) -> Amount {
    let d: Decimal = s.parse().unwrap();
    Amount::new(d.mantissa(), d.scale()).unwrap()
}

fn raw(kind: TransactionKind, amount: Option<&str>) -> RawTransaction {
    RawTransaction { kind, client: 1, tx: 42, amount: amount.map(amt) }
}

#[test]
fn try_from_should_build_deposit_when_kind_is_deposit() {
    let tx = Transaction::try_from(raw(TransactionKind::Deposit, Some("10.5000"))).unwrap();

    assert_eq!(tx, Transaction::Deposit { client: 1, tx: 42, amount: amt("10.5000") });
}

#[test]
fn try_from_should_build_withdrawal_when_kind_is_withdrawal() {
    let tx = Transaction::try_from(raw(TransactionKind::Withdrawal, Some("3.0000"))).unwrap();

    assert!(matches!(tx, Transaction::Withdrawal { .. }));
}

#[test]
fn try_from_should_build_dispute_when_kind_is_dispute() {
    let tx = Transaction::try_from(raw(TransactionKind::Dispute, None)).unwrap();

    assert_eq!(tx, Transaction::Dispute { client: 1, tx: 42 });
}

#[test]
fn try_from_should_build_resolve_when_kind_is_resolve() {
    let tx = Transaction::try_from(raw(TransactionKind::Resolve, None)).unwrap();

    assert_eq!(tx, Transaction::Resolve { client: 1, tx: 42 });
}

#[test]
fn try_from_should_build_chargeback_when_kind_is_chargeback() {
    let tx = Transaction::try_from(raw(TransactionKind::Chargeback, None)).unwrap();

    assert_eq!(tx, Transaction::Chargeback { client: 1, tx: 42 });
}

#[test]
fn try_from_should_return_missing_amount_when_deposit_has_no_amount() {
    let err = Transaction::try_from(raw(TransactionKind::Deposit, None)).unwrap_err();

    assert!(matches!(err, EngineError::MissingAmount { tx: 42 }));
}

#[test]
fn try_from_should_return_missing_amount_when_withdrawal_has_no_amount() {
    let err = Transaction::try_from(raw(TransactionKind::Withdrawal, None)).unwrap_err();

    assert!(matches!(err, EngineError::MissingAmount { tx: 42 }));
}

#[test]
fn deserialize_should_accept_lowercase_kind() {
    assert_eq!(TransactionKind::parse("deposit").unwrap(), TransactionKind::Deposit);
}

#[test]
fn deserialize_should_accept_uppercase_kind() {
    assert_eq!(TransactionKind::parse("DEPOSIT").unwrap(), TransactionKind::Deposit);
}

#[test]
fn deserialize_should_accept_mixed_case_kind() {
    assert_eq!(TransactionKind::parse("ChargeBack").unwrap(), TransactionKind::Chargeback);
}

#[test]
fn deserialize_should_reject_unknown_kind() {
    assert!(TransactionKind::parse("transfer").is_none());
}

#[test]
fn parse_should_accept_every_kind_in_any_case() {
    assert_eq!(TransactionKind::parse("Withdrawal"), Some(TransactionKind::Withdrawal));
    assert_eq!(TransactionKind::parse("DISPUTE"), Some(TransactionKind::Dispute));
    assert_eq!(TransactionKind::parse("resolve"), Some(TransactionKind::Resolve));
    assert_eq!(TransactionKind::parse("chargeback"), Some(TransactionKind::Chargeback));
}

#[test]
fn parse_should_reject_near_misses() {
    assert_eq!(TransactionKind::parse(""), None);
    assert_eq!(TransactionKind::parse("deposits"), None);
    assert_eq!(TransactionKind::parse("depos"), None);
    assert_eq!(TransactionKind::parse(" deposit"), None);
}
