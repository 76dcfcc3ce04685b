//! Engine error variants.
//!
//! The engine has no side effects besides its own state: it returns
//! structured errors and the driver decides which to surface and which to
//! swallow.
use crate::amount::Amount;
use vstd::prelude::*;

verus! {

/// Errors produced while converting input rows or processing transactions.
#[derive(Debug)]
pub enum EngineError {
    /// Row's `type` column does not match any known transaction kind.
    UnknownTransactionType {
        /// Raw value of the `type` column.
        kind: String,
    },
    /// Deposit or withdrawal row arrived without an `amount` column.
    MissingAmount {
        /// Tx id of the offending row.
        tx: u32,
    },
    /// Withdrawal would drive `available` below zero. Balances unchanged.
    InsufficientFunds {
        /// Client id.
        client: u16,
        /// Tx id of the rejected withdrawal.
        tx: u32,
        /// Amount the client tried to withdraw.
        amount: Amount,
    },
    /// Deposit or withdrawal carries a non-positive amount. The tx id stays
    /// free for a corrected retry.
    NonPositiveAmount {
        /// Client id.
        client: u16,
        /// Tx id of the rejected row.
        tx: u32,
        /// Offending amount.
        amount: Amount,
    },
    /// Dispute / resolve / chargeback referenced a tx the engine has never seen.
    TxNotFound {
        /// Client id from the offending row.
        client: u16,
        /// Referenced tx id.
        tx: u32,
    },
    /// Dispute / resolve / chargeback references a withdrawal, which is not
    /// disputable.
    WithdrawalDispute {
        /// Client id from the offending row.
        client: u16,
        /// Referenced tx id.
        tx: u32,
    },
    /// Dispute fired against a tx already in `Disputed` state (idempotent).
    AlreadyDisputed {
        /// Client id from the offending row.
        client: u16,
        /// Referenced tx id.
        tx: u32,
    },
    /// Resolve / chargeback fired against a tx not currently in `Disputed` state.
    NotDisputed {
        /// Client id from the offending row.
        client: u16,
        /// Referenced tx id.
        tx: u32,
    },
    /// Dispute / resolve / chargeback whose client differs from the client
    /// recorded for the deposit.
    ClientMismatch {
        /// Client id from the offending row.
        client: u16,
        /// Referenced tx id.
        tx: u32,
    },
    /// Dispute fired against a tx in the terminal `ChargedBack` state.
    ChargedBack {
        /// Client id from the offending row.
        client: u16,
        /// Referenced tx id.
        tx: u32,
    },
    /// Deposit, withdrawal or new dispute targeted an account locked by a
    /// previous chargeback.
    AccountLocked {
        /// Client id from the offending row.
        client: u16,
        /// Referenced tx id.
        tx: u32,
    },
    /// Deposit or withdrawal reused a tx id that has already been seen.
    DuplicateTxId {
        /// Client id from the offending row.
        client: u16,
        /// Referenced tx id.
        tx: u32,
    },
}

} // verus!
