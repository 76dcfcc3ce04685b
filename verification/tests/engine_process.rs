//! Behaviour of `Engine::process`: balances, dispute lifecycle, locks,
//! tx-id deduplication and the error returned for each refused event.

use payments_engine_challenge::amount::Amount;
use payments_engine_challenge::engine::account::Account;
use payments_engine_challenge::engine::error::EngineError;
use payments_engine_challenge::engine::ledger::DisputeState;
use payments_engine_challenge::engine::transaction::Transaction;
use payments_engine_challenge::engine::Engine;
use rust_decimal::Decimal;

fn amt(s: &str) -> Amount {
    let d: Decimal = s.parse().unwrap();
    Amount::new(d.mantissa(), d.scale()).unwrap()
}

fn dec(a: Amount) -> Decimal {
    Decimal::from_i128_with_scale(a.mantissa(), a.scale())
}

fn d(s: &str) -> Decimal {
    s.parse().unwrap()
}

/// A single client's account, found through the public `accounts()` list.
fn account_for(engine: &Engine, client: u16) -> Account {
    engine
        .accounts()
        .into_iter()
        .find(|a| a.client() == client)
        .unwrap_or_else(|| panic!("account for client {client} not found"))
}

fn deposit(client: u16, tx: u32, amount: &str) -> Transaction {
    Transaction::Deposit { client, tx, amount: amt(amount) }
}

fn withdrawal(client: u16, tx: u32, amount: &str) -> Transaction {
    Transaction::Withdrawal { client, tx, amount: amt(amount) }
}

/// Deposit then dispute one tx so the next event meets the `Disputed` state.
fn deposit_and_dispute(engine: &mut Engine, client: u16, tx: u32, amount: &str) {
    engine.process(deposit(client, tx, amount)).unwrap();
    engine.process(Transaction::Dispute { client, tx }).unwrap();
}

#[test]
fn tests_process_should_apply_deposit_to_target_client_account() {
    let mut engine = Engine::new();
    engine.process(deposit(1, 1, "12.3456")).unwrap();

    assert_eq!(dec(account_for(&engine, 1).available()), d("12.3456"));
}

#[test]
fn tests_process_should_auto_create_account_when_client_unseen() {
    let mut engine = Engine::new();

    engine.process(deposit(9, 1, "1.0000")).unwrap();

    assert!(engine.account(9).is_some());
}

#[test]
fn tests_process_should_accumulate_when_multiple_deposits_same_client() {
    let mut engine = Engine::new();

    engine.process(deposit(1, 1, "1.0000")).unwrap();
    engine.process(deposit(1, 2, "2.5000")).unwrap();

    assert_eq!(dec(account_for(&engine, 1).available()), d("3.5000"));
}

#[test]
fn tests_process_should_apply_withdrawal_to_target_client_account() {
    let mut engine = Engine::new();
    engine.process(deposit(1, 1, "10.0000")).unwrap();

    engine.process(withdrawal(1, 2, "4.0000")).unwrap();

    assert_eq!(dec(account_for(&engine, 1).available()), d("6.0000"));
}

#[test]
fn tests_process_should_return_insufficient_funds_when_withdrawal_exceeds_available() {
    let mut engine = Engine::new();
    engine.process(deposit(1, 1, "1.0000")).unwrap();

    let err = engine.process(withdrawal(1, 2, "5.0000")).unwrap_err();

    assert!(matches!(err, EngineError::InsufficientFunds { client: 1, tx: 2, .. }));
}

#[test]
fn tests_process_should_auto_create_account_at_zero_when_withdrawal_for_unseen_client() {
    let mut engine = Engine::new();

    let err = engine.process(withdrawal(7, 1, "1.0000")).unwrap_err();

    assert!(matches!(err, EngineError::InsufficientFunds { .. }));
    let acct = account_for(&engine, 7);
    assert_eq!(dec(acct.available()), Decimal::ZERO);
}

#[test]
fn tests_process_should_settle_to_correct_balance_for_mixed_deposit_withdrawal_sequence() {
    let mut engine = Engine::new();
    let txs = [
        deposit(1, 1, "5.0000"),
        withdrawal(1, 2, "1.5000"),
        deposit(1, 3, "2.0000"),
        withdrawal(1, 4, "0.2500"),
    ];

    for tx in txs {
        engine.process(tx).unwrap();
    }

    assert_eq!(dec(account_for(&engine, 1).available()), d("5.2500"));
}

#[test]
fn tests_process_should_hold_funds_when_dispute_targets_existing_deposit() {
    let mut engine = Engine::new();
    engine.process(deposit(1, 1, "10.0000")).unwrap();

    engine.process(Transaction::Dispute { client: 1, tx: 1 }).unwrap();

    let acct = account_for(&engine, 1);
    assert_eq!(dec(acct.available()), Decimal::ZERO);
    assert_eq!(dec(acct.held()), d("10.0000"));
    assert_eq!(dec(acct.total()), d("10.0000"));
}

#[test]
fn tests_process_should_transition_state_to_disputed_when_dispute_succeeds() {
    let mut engine = Engine::new();
    engine.process(deposit(1, 1, "10.0000")).unwrap();

    engine.process(Transaction::Dispute { client: 1, tx: 1 }).unwrap();

    assert_eq!(engine.deposit(1).unwrap().state(), DisputeState::Disputed);
}

#[test]
fn tests_process_should_return_tx_not_found_when_dispute_targets_unknown_tx() {
    let mut engine = Engine::new();

    let err = engine.process(Transaction::Dispute { client: 1, tx: 99 }).unwrap_err();

    assert!(matches!(err, EngineError::TxNotFound { client: 1, tx: 99 }));
}

#[test]
fn tests_process_should_return_already_disputed_when_dispute_fires_twice() {
    let mut engine = Engine::new();
    deposit_and_dispute(&mut engine, 1, 1, "10.0000");

    let err = engine.process(Transaction::Dispute { client: 1, tx: 1 }).unwrap_err();

    assert!(matches!(err, EngineError::AlreadyDisputed { client: 1, tx: 1 }));
}

#[test]
fn tests_process_should_return_client_mismatch_when_dispute_client_differs_from_deposit() {
    let mut engine = Engine::new();
    engine.process(deposit(1, 1, "10.0000")).unwrap();

    let err = engine.process(Transaction::Dispute { client: 2, tx: 1 }).unwrap_err();

    assert!(matches!(err, EngineError::ClientMismatch { client: 2, tx: 1 }));
}

#[test]
fn tests_process_should_release_held_funds_when_resolve_targets_disputed_deposit() {
    let mut engine = Engine::new();
    deposit_and_dispute(&mut engine, 1, 1, "10.0000");

    engine.process(Transaction::Resolve { client: 1, tx: 1 }).unwrap();

    let acct = account_for(&engine, 1);
    assert_eq!(dec(acct.available()), d("10.0000"));
    assert_eq!(dec(acct.held()), Decimal::ZERO);
}

#[test]
fn tests_process_should_transition_state_to_not_disputed_when_resolve_succeeds() {
    let mut engine = Engine::new();
    deposit_and_dispute(&mut engine, 1, 1, "10.0000");

    engine.process(Transaction::Resolve { client: 1, tx: 1 }).unwrap();

    assert_eq!(engine.deposit(1).unwrap().state(), DisputeState::NotDisputed);
}

#[test]
fn tests_process_should_return_tx_not_found_when_resolve_targets_unknown_tx() {
    let mut engine = Engine::new();

    let err = engine.process(Transaction::Resolve { client: 1, tx: 99 }).unwrap_err();

    assert!(matches!(err, EngineError::TxNotFound { client: 1, tx: 99 }));
}

#[test]
fn tests_process_should_return_not_disputed_when_resolve_targets_undisputed_tx() {
    let mut engine = Engine::new();
    engine.process(deposit(1, 1, "10.0000")).unwrap();

    let err = engine.process(Transaction::Resolve { client: 1, tx: 1 }).unwrap_err();

    assert!(matches!(err, EngineError::NotDisputed { client: 1, tx: 1 }));
}

#[test]
fn tests_process_should_return_client_mismatch_when_resolve_client_differs_from_deposit() {
    let mut engine = Engine::new();
    deposit_and_dispute(&mut engine, 1, 1, "10.0000");

    let err = engine.process(Transaction::Resolve { client: 2, tx: 1 }).unwrap_err();

    assert!(matches!(err, EngineError::ClientMismatch { client: 2, tx: 1 }));
}

#[test]
fn tests_process_should_hold_funds_again_when_dispute_fires_after_resolve() {
    // A deposit may be disputed again after a resolve.
    let mut engine = Engine::new();
    deposit_and_dispute(&mut engine, 1, 1, "10.0000");
    engine.process(Transaction::Resolve { client: 1, tx: 1 }).unwrap();

    engine.process(Transaction::Dispute { client: 1, tx: 1 }).unwrap();

    let acct = account_for(&engine, 1);
    assert_eq!(dec(acct.available()), Decimal::ZERO);
    assert_eq!(dec(acct.held()), d("10.0000"));
}

#[test]
fn tests_process_should_drop_held_when_chargeback_targets_disputed_deposit() {
    let mut engine = Engine::new();
    deposit_and_dispute(&mut engine, 1, 1, "10.0000");

    engine.process(Transaction::Chargeback { client: 1, tx: 1 }).unwrap();

    let acct = account_for(&engine, 1);
    assert_eq!(dec(acct.available()), Decimal::ZERO);
    assert_eq!(dec(acct.held()), Decimal::ZERO);
    assert_eq!(dec(acct.total()), Decimal::ZERO);
}

#[test]
fn tests_process_should_lock_account_when_chargeback_targets_disputed_deposit() {
    let mut engine = Engine::new();
    deposit_and_dispute(&mut engine, 1, 1, "10.0000");

    engine.process(Transaction::Chargeback { client: 1, tx: 1 }).unwrap();

    assert!(account_for(&engine, 1).locked());
}

#[test]
fn tests_process_should_transition_state_to_charged_back_when_chargeback_succeeds() {
    let mut engine = Engine::new();
    deposit_and_dispute(&mut engine, 1, 1, "10.0000");

    engine.process(Transaction::Chargeback { client: 1, tx: 1 }).unwrap();

    assert_eq!(engine.deposit(1).unwrap().state(), DisputeState::ChargedBack);
}

#[test]
fn tests_process_should_return_tx_not_found_when_chargeback_targets_unknown_tx() {
    let mut engine = Engine::new();

    let err = engine.process(Transaction::Chargeback { client: 1, tx: 99 }).unwrap_err();

    assert!(matches!(err, EngineError::TxNotFound { client: 1, tx: 99 }));
}

#[test]
fn tests_process_should_return_not_disputed_when_chargeback_targets_undisputed_tx() {
    let mut engine = Engine::new();
    engine.process(deposit(1, 1, "10.0000")).unwrap();

    let err = engine.process(Transaction::Chargeback { client: 1, tx: 1 }).unwrap_err();

    assert!(matches!(err, EngineError::NotDisputed { client: 1, tx: 1 }));
}

#[test]
fn tests_process_should_return_not_disputed_when_chargeback_repeats() {
    let mut engine = Engine::new();
    deposit_and_dispute(&mut engine, 1, 1, "10.0000");
    engine.process(Transaction::Chargeback { client: 1, tx: 1 }).unwrap();

    let err = engine.process(Transaction::Chargeback { client: 1, tx: 1 }).unwrap_err();

    assert!(matches!(err, EngineError::NotDisputed { client: 1, tx: 1 }));
}

#[test]
fn tests_process_should_return_client_mismatch_when_chargeback_client_differs_from_deposit() {
    let mut engine = Engine::new();
    deposit_and_dispute(&mut engine, 1, 1, "10.0000");

    let err = engine.process(Transaction::Chargeback { client: 2, tx: 1 }).unwrap_err();

    assert!(matches!(err, EngineError::ClientMismatch { client: 2, tx: 1 }));
}

#[test]
fn tests_process_should_return_account_locked_when_deposit_targets_locked_account() {
    let mut engine = Engine::new();
    deposit_and_dispute(&mut engine, 1, 1, "10.0000");
    engine.process(Transaction::Chargeback { client: 1, tx: 1 }).unwrap();

    let err = engine.process(deposit(1, 2, "5.0000")).unwrap_err();

    assert!(matches!(err, EngineError::AccountLocked { client: 1, tx: 2 }));
}

#[test]
fn tests_process_should_return_account_locked_when_withdrawal_targets_locked_account() {
    let mut engine = Engine::new();
    // An untainted deposit leaves funds a withdrawal could otherwise take.
    engine.process(deposit(1, 1, "5.0000")).unwrap();
    deposit_and_dispute(&mut engine, 1, 2, "10.0000");
    engine.process(Transaction::Chargeback { client: 1, tx: 2 }).unwrap();

    let err = engine.process(withdrawal(1, 3, "1.0000")).unwrap_err();

    assert!(matches!(err, EngineError::AccountLocked { client: 1, tx: 3 }));
}

#[test]
fn tests_process_should_return_account_locked_when_new_dispute_targets_locked_account() {
    // Deposit tx 2 is undisputed when the chargeback on tx 1 locks the
    // account, so a dispute on tx 2 is a new dispute and is refused.
    let mut engine = Engine::new();
    engine.process(deposit(1, 2, "5.0000")).unwrap();
    deposit_and_dispute(&mut engine, 1, 1, "10.0000");
    engine.process(Transaction::Chargeback { client: 1, tx: 1 }).unwrap();

    let err = engine.process(Transaction::Dispute { client: 1, tx: 2 }).unwrap_err();

    assert!(matches!(err, EngineError::AccountLocked { client: 1, tx: 2 }));
}

#[test]
fn tests_process_should_release_held_when_resolve_targets_disputed_tx_on_locked_account() {
    // A dispute opened before the lock may still be resolved.
    let mut engine = Engine::new();
    deposit_and_dispute(&mut engine, 1, 1, "10.0000");
    deposit_and_dispute(&mut engine, 1, 2, "5.0000");
    engine.process(Transaction::Chargeback { client: 1, tx: 1 }).unwrap();

    engine.process(Transaction::Resolve { client: 1, tx: 2 }).unwrap();

    let acct = account_for(&engine, 1);
    assert_eq!(dec(acct.held()), Decimal::ZERO);
    assert_eq!(dec(acct.available()), d("5.0000"));
    assert!(acct.locked());
}

#[test]
fn tests_process_should_drop_held_when_chargeback_targets_disputed_tx_on_locked_account() {
    // A dispute opened before the lock may still be charged back.
    let mut engine = Engine::new();
    deposit_and_dispute(&mut engine, 1, 1, "10.0000");
    deposit_and_dispute(&mut engine, 1, 2, "5.0000");
    engine.process(Transaction::Chargeback { client: 1, tx: 1 }).unwrap();

    engine.process(Transaction::Chargeback { client: 1, tx: 2 }).unwrap();

    let acct = account_for(&engine, 1);
    assert_eq!(dec(acct.held()), Decimal::ZERO);
    assert_eq!(dec(acct.available()), Decimal::ZERO);
    assert_eq!(dec(acct.total()), Decimal::ZERO);
}

#[test]
fn tests_process_should_drive_total_negative_when_fraud_sequence_charges_back() {
    // Deposit 100, withdraw 80, dispute, chargeback.
    let mut engine = Engine::new();
    engine.process(deposit(1, 1, "100.0000")).unwrap();
    engine.process(withdrawal(1, 2, "80.0000")).unwrap();
    engine.process(Transaction::Dispute { client: 1, tx: 1 }).unwrap();

    engine.process(Transaction::Chargeback { client: 1, tx: 1 }).unwrap();

    let acct = account_for(&engine, 1);
    assert_eq!(dec(acct.available()), d("-80.0000"));
    assert_eq!(dec(acct.total()), d("-80.0000"));
    assert!(acct.locked());
}

#[test]
fn tests_process_should_return_charged_back_when_dispute_targets_charged_back_tx() {
    let mut engine = Engine::new();
    deposit_and_dispute(&mut engine, 1, 1, "10.0000");
    engine.process(Transaction::Chargeback { client: 1, tx: 1 }).unwrap();

    let err = engine.process(Transaction::Dispute { client: 1, tx: 1 }).unwrap_err();

    assert!(matches!(err, EngineError::ChargedBack { client: 1, tx: 1 }));
}

#[test]
fn tests_process_should_return_withdrawal_dispute_when_dispute_targets_withdrawal() {
    let mut engine = Engine::new();
    engine.process(deposit(1, 1, "10.0000")).unwrap();
    engine.process(withdrawal(1, 2, "1.0000")).unwrap();

    let err = engine.process(Transaction::Dispute { client: 1, tx: 2 }).unwrap_err();

    assert!(matches!(err, EngineError::WithdrawalDispute { client: 1, tx: 2 }));
}

#[test]
fn process_should_return_withdrawal_dispute_when_resolve_targets_withdrawal() {
    let mut engine = Engine::new();
    engine.process(deposit(1, 1, "10.0000")).unwrap();
    engine.process(withdrawal(1, 2, "1.0000")).unwrap();

    let err = engine.process(Transaction::Resolve { client: 1, tx: 2 }).unwrap_err();

    assert!(matches!(err, EngineError::WithdrawalDispute { client: 1, tx: 2 }));
}

#[test]
fn process_should_return_withdrawal_dispute_when_chargeback_targets_withdrawal() {
    let mut engine = Engine::new();
    engine.process(deposit(1, 1, "10.0000")).unwrap();
    engine.process(withdrawal(1, 2, "1.0000")).unwrap();

    let err = engine.process(Transaction::Chargeback { client: 1, tx: 2 }).unwrap_err();

    assert!(matches!(err, EngineError::WithdrawalDispute { client: 1, tx: 2 }));
}

#[test]
fn process_should_return_withdrawal_dispute_when_dispute_targets_failed_withdrawal_id() {
    // A withdrawal refused for insufficient funds still consumes its id.
    let mut engine = Engine::new();
    let _ = engine.process(withdrawal(1, 1, "5.0000"));

    let err = engine.process(Transaction::Dispute { client: 1, tx: 1 }).unwrap_err();

    assert!(matches!(err, EngineError::WithdrawalDispute { client: 1, tx: 1 }));
}

#[test]
fn tests_process_should_return_duplicate_tx_id_when_deposit_reuses_existing_deposit_id() {
    let mut engine = Engine::new();
    engine.process(deposit(1, 1, "10.0000")).unwrap();

    let err = engine.process(deposit(1, 1, "5.0000")).unwrap_err();

    assert!(matches!(err, EngineError::DuplicateTxId { client: 1, tx: 1 }));
}

#[test]
fn tests_process_should_return_duplicate_tx_id_when_withdrawal_reuses_existing_deposit_id() {
    let mut engine = Engine::new();
    engine.process(deposit(1, 1, "10.0000")).unwrap();

    let err = engine.process(withdrawal(1, 1, "1.0000")).unwrap_err();

    assert!(matches!(err, EngineError::DuplicateTxId { client: 1, tx: 1 }));
}

#[test]
fn tests_process_should_return_duplicate_tx_id_when_deposit_reuses_existing_withdrawal_id() {
    let mut engine = Engine::new();
    engine.process(deposit(1, 1, "10.0000")).unwrap();
    engine.process(withdrawal(1, 2, "1.0000")).unwrap();

    let err = engine.process(deposit(1, 2, "5.0000")).unwrap_err();

    assert!(matches!(err, EngineError::DuplicateTxId { client: 1, tx: 2 }));
}

#[test]
fn tests_process_should_return_duplicate_tx_id_when_withdrawal_reuses_existing_withdrawal_id() {
    let mut engine = Engine::new();
    engine.process(deposit(1, 1, "10.0000")).unwrap();
    engine.process(withdrawal(1, 2, "1.0000")).unwrap();

    let err = engine.process(withdrawal(1, 2, "1.0000")).unwrap_err();

    assert!(matches!(err, EngineError::DuplicateTxId { client: 1, tx: 2 }));
}

#[test]
fn process_should_return_non_positive_amount_when_deposit_amount_is_negative() {
    let mut engine = Engine::new();

    let err = engine.process(deposit(1, 1, "-5.0000")).unwrap_err();

    assert!(matches!(err, EngineError::NonPositiveAmount { client: 1, tx: 1, .. }));
}

#[test]
fn process_should_return_non_positive_amount_when_deposit_amount_is_zero() {
    let mut engine = Engine::new();

    let err = engine
        .process(Transaction::Deposit { client: 1, tx: 1, amount: Amount::zero() })
        .unwrap_err();

    assert!(matches!(err, EngineError::NonPositiveAmount { client: 1, tx: 1, .. }));
}

#[test]
fn process_should_leave_state_untouched_when_deposit_amount_non_positive() {
    let mut engine = Engine::new();

    let _ = engine.process(deposit(1, 1, "-5.0000"));

    // No account created, no tx id consumed.
    assert!(engine.account(1).is_none());
    assert!(engine.deposit(1).is_none());
    assert!(!engine.has_seen(1));
}

#[test]
fn process_should_accept_subsequent_deposit_reusing_id_after_non_positive_rejection() {
    // The id stays free after a non-positive rejection.
    let mut engine = Engine::new();

    let _ = engine.process(deposit(1, 1, "-5.0000"));
    engine.process(deposit(1, 1, "10.0000")).unwrap();

    assert_eq!(dec(account_for(&engine, 1).available()), d("10.0000"));
}

#[test]
fn process_should_return_non_positive_amount_when_withdrawal_amount_is_negative() {
    let mut engine = Engine::new();
    engine.process(deposit(1, 1, "10.0000")).unwrap();

    let err = engine.process(withdrawal(1, 2, "-3.0000")).unwrap_err();

    assert!(matches!(err, EngineError::NonPositiveAmount { client: 1, tx: 2, .. }));
}

#[test]
fn process_should_return_non_positive_amount_when_withdrawal_amount_is_zero() {
    let mut engine = Engine::new();
    engine.process(deposit(1, 1, "10.0000")).unwrap();

    let err = engine
        .process(Transaction::Withdrawal { client: 1, tx: 2, amount: Amount::zero() })
        .unwrap_err();

    assert!(matches!(err, EngineError::NonPositiveAmount { client: 1, tx: 2, .. }));
}

#[test]
fn process_should_leave_state_untouched_when_withdrawal_amount_non_positive() {
    let mut engine = Engine::new();

    let _ = engine.process(withdrawal(1, 1, "-3.0000"));

    assert!(engine.account(1).is_none());
    assert!(!engine.has_seen(1));
}

#[test]
fn process_should_accept_subsequent_withdrawal_reusing_id_after_non_positive_rejection() {
    let mut engine = Engine::new();
    engine.process(deposit(1, 1, "10.0000")).unwrap();

    let _ = engine.process(withdrawal(1, 2, "-3.0000"));
    engine.process(withdrawal(1, 2, "4.0000")).unwrap();

    assert_eq!(dec(account_for(&engine, 1).available()), d("6.0000"));
}

#[test]
fn tests_process_should_record_withdrawal_tx_id_even_when_insufficient_funds_rejects() {
    let mut engine = Engine::new();

    let _ = engine.process(withdrawal(1, 1, "1.0000"));

    let err = engine.process(withdrawal(1, 1, "1.0000")).unwrap_err();

    assert!(matches!(err, EngineError::DuplicateTxId { client: 1, tx: 1 }));
}

#[test]
fn process_should_keep_deposits_subset_of_seen_txs_through_mixed_events() {
    // Every tx id filed as a deposit was also seen, through every kind of
    // mutation: failed withdrawals, duplicates, mismatches, locks and the
    // whole dispute lifecycle.
    let mut engine = Engine::new();
    let events = [
        deposit(1, 1, "10.0000"),
        deposit(2, 2, "5.0000"),
        withdrawal(1, 3, "2.0000"),
        withdrawal(2, 4, "100.0000"),
        deposit(1, 1, "1.0000"),
        Transaction::Dispute { client: 9, tx: 2 },
        Transaction::Dispute { client: 1, tx: 1 },
        Transaction::Resolve { client: 1, tx: 1 },
        Transaction::Dispute { client: 1, tx: 1 },
        Transaction::Chargeback { client: 1, tx: 1 },
        deposit(1, 5, "1.0000"),
        withdrawal(1, 6, "1.0000"),
    ];
    for event in events {
        let _ = engine.process(event);
    }

    for tx in 0..=6u32 {
        if engine.deposit(tx).is_some() {
            assert!(engine.has_seen(tx), "invariant violated: tx {tx} in deposits but not seen");
        }
    }
}

#[test]
fn process_should_leave_balances_unchanged_when_withdrawal_rejected() {
    let mut engine = Engine::new();
    engine.process(deposit(1, 1, "1.0000")).unwrap();

    engine.process(withdrawal(1, 2, "5.0000")).unwrap_err();

    assert_eq!(dec(engine.account(1).unwrap().available()), d("1.0000"));
}

#[test]
fn process_should_leave_balances_unchanged_when_dispute_targets_unknown_tx() {
    let mut engine = Engine::new();
    engine.process(deposit(1, 1, "5.0000")).unwrap();

    engine.process(Transaction::Dispute { client: 1, tx: 99 }).unwrap_err();

    let acct = engine.account(1).unwrap();
    assert_eq!(dec(acct.available()), d("5.0000"));
    assert_eq!(dec(acct.held()), Decimal::ZERO);
}

#[test]
fn process_should_leave_balances_unchanged_when_dispute_repeats() {
    let mut engine = Engine::new();
    engine.process(deposit(1, 1, "10.0000")).unwrap();
    engine.process(Transaction::Dispute { client: 1, tx: 1 }).unwrap();

    let _ = engine.process(Transaction::Dispute { client: 1, tx: 1 });

    let acct = engine.account(1).unwrap();
    assert_eq!(dec(acct.available()), Decimal::ZERO);
    assert_eq!(dec(acct.held()), d("10.0000"));
}

#[test]
fn process_should_leave_balances_unchanged_when_dispute_client_mismatches() {
    let mut engine = Engine::new();
    engine.process(deposit(1, 1, "10.0000")).unwrap();

    let _ = engine.process(Transaction::Dispute { client: 2, tx: 1 });

    let acct = engine.account(1).unwrap();
    assert_eq!(dec(acct.available()), d("10.0000"));
    assert_eq!(dec(acct.held()), Decimal::ZERO);
}

#[test]
fn process_should_leave_balances_unchanged_when_resolve_targets_undisputed_tx() {
    let mut engine = Engine::new();
    engine.process(deposit(1, 1, "10.0000")).unwrap();

    let _ = engine.process(Transaction::Resolve { client: 1, tx: 1 });

    let acct = engine.account(1).unwrap();
    assert_eq!(dec(acct.available()), d("10.0000"));
    assert_eq!(dec(acct.held()), Decimal::ZERO);
}

#[test]
fn process_should_leave_balances_unchanged_when_resolve_client_mismatches() {
    let mut engine = Engine::new();
    engine.process(deposit(1, 1, "10.0000")).unwrap();
    engine.process(Transaction::Dispute { client: 1, tx: 1 }).unwrap();

    let _ = engine.process(Transaction::Resolve { client: 2, tx: 1 });

    let acct = engine.account(1).unwrap();
    assert_eq!(dec(acct.available()), Decimal::ZERO);
    assert_eq!(dec(acct.held()), d("10.0000"));
}

#[test]
fn process_should_leave_balances_unchanged_when_deposit_targets_locked_account() {
    let mut engine = Engine::new();
    deposit_and_dispute(&mut engine, 1, 1, "10.0000");
    engine.process(Transaction::Chargeback { client: 1, tx: 1 }).unwrap();

    let _ = engine.process(deposit(1, 2, "5.0000"));

    let acct = engine.account(1).unwrap();
    assert_eq!(dec(acct.available()), Decimal::ZERO);
    assert_eq!(dec(acct.held()), Decimal::ZERO);
}

#[test]
fn process_should_leave_balances_unchanged_when_withdrawal_targets_locked_account() {
    let mut engine = Engine::new();
    engine.process(deposit(1, 1, "5.0000")).unwrap();
    deposit_and_dispute(&mut engine, 1, 2, "10.0000");
    engine.process(Transaction::Chargeback { client: 1, tx: 2 }).unwrap();
    let before = dec(engine.account(1).unwrap().available());

    let _ = engine.process(withdrawal(1, 3, "1.0000"));

    assert_eq!(dec(engine.account(1).unwrap().available()), before);
}

#[test]
fn process_should_leave_balances_unchanged_when_deposit_reuses_existing_deposit_id() {
    let mut engine = Engine::new();
    engine.process(deposit(1, 1, "10.0000")).unwrap();

    let _ = engine.process(deposit(1, 1, "5.0000"));

    assert_eq!(dec(engine.account(1).unwrap().available()), d("10.0000"));
}

#[test]
fn process_should_leave_balances_unchanged_when_withdrawal_reuses_existing_deposit_id() {
    let mut engine = Engine::new();
    engine.process(deposit(1, 1, "10.0000")).unwrap();

    let _ = engine.process(withdrawal(1, 1, "1.0000"));

    let acct = engine.account(1).unwrap();
    assert_eq!(dec(acct.available()), d("10.0000"));
}
