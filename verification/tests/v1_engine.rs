//! The first engine version: deposits credit accounts, every other
//! transaction is accepted and changes nothing.

use payments_engine_challenge::amount::Amount;
use payments_engine_challenge::engine::transaction::Transaction;
use payments_engine_challenge::engine::v1::Engine;
use rust_decimal::Decimal;

fn amt(s: &str) -> Amount {
    let d: Decimal = s.parse().unwrap();
    Amount::new(d.mantissa(), d.scale()).unwrap()
}

fn dec(a: Amount) -> Decimal {
    Decimal::from_i128_with_scale(a.mantissa(), a.scale())
}

fn process_one_deposit(client: u16, tx: u32, amount: &str) -> Engine {
    let mut engine = Engine::new();
    engine.process(Transaction::Deposit { client, tx, amount: amt(amount) }).unwrap();
    engine
}

fn only_account(engine: &Engine, client: u16) -> payments_engine_challenge::engine::account::Account {
    engine.accounts().into_iter().find(|a| a.client() == client).unwrap()
}

#[test]
fn process_should_credit_available_when_deposit() {
    let engine = process_one_deposit(1, 1, "12.3456");

    assert_eq!(dec(only_account(&engine, 1).available()), "12.3456".parse::<Decimal>().unwrap());
}

#[test]
fn process_should_increase_total_by_amount_when_deposit() {
    let engine = process_one_deposit(1, 1, "12.3456");

    assert_eq!(dec(only_account(&engine, 1).total()), "12.3456".parse::<Decimal>().unwrap());
}

#[test]
fn process_should_leave_held_unchanged_when_deposit() {
    let engine = process_one_deposit(1, 1, "12.3456");

    assert_eq!(dec(only_account(&engine, 1).held()), Decimal::ZERO);
}

#[test]
fn v1_process_should_auto_create_account_when_client_unseen() {
    let mut engine = Engine::new();

    engine.process(Transaction::Deposit { client: 9, tx: 1, amount: amt("1.0000") }).unwrap();

    assert!(engine.accounts().iter().any(|a| a.client() == 9));
}

#[test]
fn v1_process_should_accumulate_when_multiple_deposits_same_client() {
    let mut engine = Engine::new();

    engine.process(Transaction::Deposit { client: 1, tx: 1, amount: amt("1.0000") }).unwrap();
    engine.process(Transaction::Deposit { client: 1, tx: 2, amount: amt("2.5000") }).unwrap();

    assert_eq!(dec(only_account(&engine, 1).available()), "3.5000".parse::<Decimal>().unwrap());
}

#[test]
fn process_should_noop_when_withdrawal() {
    let mut engine = Engine::new();

    engine.process(Transaction::Withdrawal { client: 1, tx: 1, amount: amt("1.0000") }).unwrap();

    assert!(engine.accounts().is_empty());
}

#[test]
fn process_should_noop_when_dispute() {
    let mut engine = Engine::new();

    engine.process(Transaction::Dispute { client: 1, tx: 1 }).unwrap();

    assert!(engine.accounts().is_empty());
}
