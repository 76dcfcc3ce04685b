//! Per-deposit ledger entries and their dispute lifecycle.
//!
//! The lifecycle has three states: `NotDisputed -> Disputed` (dispute),
//! `Disputed -> NotDisputed` (resolve) and `Disputed -> ChargedBack`
//! (chargeback). `ChargedBack` is terminal.
use crate::amount::Amount;
use vstd::prelude::*;

verus! {

/// Lifecycle state of a deposit with respect to disputes.
#[derive(Debug, PartialEq, Eq, Clone, Copy, Structural)]
pub enum DisputeState {
    /// Initial state; no hold applied.
    NotDisputed,
    /// A dispute has fired; the funds are held pending resolution.
    Disputed,
    /// The deposit was reversed. Terminal.
    ChargedBack,
}

/// Why a dispute was refused.
#[derive(Debug, PartialEq, Eq, Clone, Copy, Structural)]
pub enum DisputeRejection {
    /// The deposit is already under dispute.
    AlreadyDisputed,
    /// The deposit was charged back and accepts no further disputes.
    ChargedBack,
}

/// Returned by [`DepositRecord::try_resolve`] and
/// [`DepositRecord::try_chargeback`] when the record is not in `Disputed`
/// state.
#[derive(Debug, PartialEq, Eq, Clone, Copy, Structural)]
pub struct NotDisputed;

/// The abstract state of a deposit record.
pub struct DepositView {
    pub client: u16,
    pub amount: Amount,
    pub state: DisputeState,
}

impl DepositView {
    pub open spec fn with_state(self, state: DisputeState) -> DepositView {
        DepositView { state, ..self }
    }
}

/// Stored snapshot of a deposit, enough to serve its dispute lifecycle.
#[derive(Debug, Clone, Copy)]
pub struct DepositRecord {
    client: u16,
    amount: Amount,
    state: DisputeState,
}

impl View for DepositRecord {
    type V = DepositView;

    closed spec fn view(&self) -> DepositView {
        DepositView { client: self.client, amount: self.amount, state: self.state }
    }
}

impl DepositRecord {
    /// Record a fresh deposit, starting at `NotDisputed`.
    pub fn new(client: u16, amount: Amount) -> (r: DepositRecord)
        ensures
            r@ == (DepositView { client, amount, state: DisputeState::NotDisputed }),
    {
        DepositRecord { client, amount, state: DisputeState::NotDisputed }
    }

    /// Client that made the deposit.
    pub fn client(&self) -> (r: u16)
        ensures
            r == self@.client,
    {
        self.client
    }

    /// Deposited amount.
    pub fn amount(&self) -> (r: Amount)
        ensures
            r == self@.amount,
    {
        self.amount
    }

    /// Current lifecycle state.
    pub fn state(&self) -> (r: DisputeState)
        ensures
            r == self@.state,
    {
        self.state
    }

    /// `NotDisputed -> Disputed`, returning the amount to hold. Refused,
    /// with the state untouched, when the record is already disputed or
    /// charged back.
    pub fn try_dispute(&mut self) -> (r: Result<Amount, DisputeRejection>)
        ensures
            old(self)@.state == DisputeState::NotDisputed ==> r == Ok::<Amount, DisputeRejection>(
                old(self)@.amount,
            ) && final(self)@ == old(self)@.with_state(DisputeState::Disputed),
            old(self)@.state == DisputeState::Disputed ==> r == Err::<Amount, DisputeRejection>(
                DisputeRejection::AlreadyDisputed,
            ) && final(self)@ == old(self)@,
            old(self)@.state == DisputeState::ChargedBack ==> r == Err::<
                Amount,
                DisputeRejection,
            >(DisputeRejection::ChargedBack) && final(self)@ == old(self)@,
    {
        match self.state {
            DisputeState::Disputed => Err(DisputeRejection::AlreadyDisputed),
            DisputeState::ChargedBack => Err(DisputeRejection::ChargedBack),
            DisputeState::NotDisputed => {
                self.state = DisputeState::Disputed;
                Ok(self.amount)
            },
        }
    }

    /// `Disputed -> NotDisputed`, returning the amount to release. A resolved
    /// record behaves like one that was never disputed.
    pub fn try_resolve(&mut self) -> (r: Result<Amount, NotDisputed>)
        ensures
            old(self)@.state == DisputeState::Disputed ==> r == Ok::<Amount, NotDisputed>(
                old(self)@.amount,
            ) && final(self)@ == old(self)@.with_state(DisputeState::NotDisputed),
            old(self)@.state != DisputeState::Disputed ==> r == Err::<Amount, NotDisputed>(
                NotDisputed,
            ) && final(self)@ == old(self)@,
    {
        if self.state != DisputeState::Disputed {
            return Err(NotDisputed);
        }
        self.state = DisputeState::NotDisputed;
        Ok(self.amount)
    }

    /// `Disputed -> ChargedBack`, returning the amount to reverse.
    pub fn try_chargeback(&mut self) -> (r: Result<Amount, NotDisputed>)
        ensures
            old(self)@.state == DisputeState::Disputed ==> r == Ok::<Amount, NotDisputed>(
                old(self)@.amount,
            ) && final(self)@ == old(self)@.with_state(DisputeState::ChargedBack),
            old(self)@.state != DisputeState::Disputed ==> r == Err::<Amount, NotDisputed>(
                NotDisputed,
            ) && final(self)@ == old(self)@,
    {
        if self.state != DisputeState::Disputed {
            return Err(NotDisputed);
        }
        self.state = DisputeState::ChargedBack;
        Ok(self.amount)
    }
}

} // verus!
