//! Errors of the first engine version. Variants are the ones its design
//! reserves for transactions it does not act on yet.
use crate::amount::Amount;
use vstd::prelude::*;

verus! {

/// Errors produced while converting input rows or processing transactions.
#[derive(Debug)]
pub enum EngineError {
    /// Row's `type` column does not match any known transaction kind.
    UnknownTransactionType { kind: String },
    /// Deposit or withdrawal row arrived without an `amount` column.
    MissingAmount { tx: u32 },
    /// Withdrawal would drive `available` below zero.
    InsufficientFunds { client: u16, tx: u32, amount: Amount },
    /// Dispute / resolve / chargeback referenced an unknown tx.
    TxNotFound { client: u16, tx: u32 },
    /// Dispute event references a withdrawal; only deposits are disputable.
    WithdrawalDispute { client: u16, tx: u32 },
    /// Dispute fired against a tx already in `Disputed` state.
    AlreadyDisputed { client: u16, tx: u32 },
    /// Resolve / chargeback fired against a tx not in `Disputed` state.
    NotDisputed { client: u16, tx: u32 },
    /// Lifecycle event whose client differs from the recorded client.
    ClientMismatch { client: u16, tx: u32 },
    /// Dispute fired against a charged-back tx.
    ChargedBack { client: u16, tx: u32 },
    /// Deposit, withdrawal, or new dispute targeted a locked account.
    AccountLocked { client: u16, tx: u32 },
}

} // verus!
