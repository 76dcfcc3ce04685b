//! Per-transaction ledger entries of the first engine version: a deposit's
//! dispute lifecycle with two states.
use crate::amount::Amount;
use vstd::prelude::*;

verus! {

/// Lifecycle state of a deposit with respect to disputes.
#[derive(Debug, PartialEq, Eq, Clone, Copy, Structural)]
pub enum DisputeState {
    /// Initial state; no hold applied.
    NotDisputed,
    /// A dispute has fired; the funds are held pending resolution.
    Disputed,
}

/// The abstract state of a deposit record.
pub struct DepositView {
    pub client: u16,
    pub amount: Amount,
    pub state: DisputeState,
}

/// Stored snapshot of a deposit.
#[derive(Debug, Clone, Copy)]
pub struct DepositRecord {
    client: u16,
    amount: Amount,
    state: DisputeState,
}

impl View for DepositRecord {
    type V = DepositView;

    closed spec fn view(&self) -> DepositView {
        DepositView { client: self.client, amount: self.amount, state: self.state }
    }
}

impl DepositRecord {
    /// Record a fresh deposit, starting at `NotDisputed`.
    pub fn new(client: u16, amount: Amount) -> (r: DepositRecord)
        ensures
            r@ == (DepositView { client, amount, state: DisputeState::NotDisputed }),
    {
        DepositRecord { client, amount, state: DisputeState::NotDisputed }
    }

    /// Client that made the deposit.
    pub fn client(&self) -> (r: u16)
        ensures
            r == self@.client,
    {
        self.client
    }

    /// Deposited amount.
    pub fn amount(&self) -> (r: Amount)
        ensures
            r == self@.amount,
    {
        self.amount
    }

    /// Current lifecycle state.
    pub fn state(&self) -> (r: DisputeState)
        ensures
            r == self@.state,
    {
        self.state
    }

    /// `NotDisputed -> Disputed`, returning the held amount; refused, with
    /// the state untouched, when already disputed.
    pub fn try_dispute(&mut self) -> (r: Result<Amount, AlreadyDisputed>)
        ensures
            old(self)@.state == DisputeState::NotDisputed ==> r == Ok::<Amount, AlreadyDisputed>(
                old(self)@.amount,
            ) && final(self)@ == (DepositView { state: DisputeState::Disputed, ..old(self)@ }),
            old(self)@.state == DisputeState::Disputed ==> r == Err::<Amount, AlreadyDisputed>(
                AlreadyDisputed,
            ) && final(self)@ == old(self)@,
    {
        if self.state == DisputeState::Disputed {
            return Err(AlreadyDisputed);
        }
        self.state = DisputeState::Disputed;
        Ok(self.amount)
    }

    /// `Disputed -> NotDisputed`, returning the released amount; a resolved
    /// record may be disputed again. Refused when not disputed.
    pub fn try_resolve(&mut self) -> (r: Result<Amount, NotDisputed>)
        ensures
            old(self)@.state == DisputeState::Disputed ==> r == Ok::<Amount, NotDisputed>(
                old(self)@.amount,
            ) && final(self)@ == (DepositView { state: DisputeState::NotDisputed, ..old(self)@ }),
            old(self)@.state == DisputeState::NotDisputed ==> r == Err::<Amount, NotDisputed>(
                NotDisputed,
            ) && final(self)@ == old(self)@,
    {
        if self.state != DisputeState::Disputed {
            return Err(NotDisputed);
        }
        self.state = DisputeState::NotDisputed;
        Ok(self.amount)
    }
}

/// Returned by [`DepositRecord::try_dispute`] when already disputed.
#[derive(Debug, PartialEq, Eq, Clone, Copy, Structural)]
pub struct AlreadyDisputed;

/// Returned by [`DepositRecord::try_resolve`] when not disputed.
#[derive(Debug, PartialEq, Eq, Clone, Copy, Structural)]
pub struct NotDisputed;

/// Tx ledger entry.
#[derive(Debug, Clone, Copy)]
pub enum TxRecord {
    /// A deposit, kept so disputes can find it later.
    Deposit(DepositRecord),
}

} // verus!
