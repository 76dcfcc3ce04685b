//! In-memory payments engine.
//!
//! Per-client account state lives in [`Engine`] alongside a split ledger:
//! disputable deposits are kept in a map keyed by tx id, and every tx id
//! seen (deposit and withdrawal alike) is kept in a set, so a withdrawal id
//! reused by a deposit (or the other way round) is refused as a duplicate.
//!
//! The behaviour of [`Engine::process`] is the state machine [`step`] over
//! the abstract state [`EngineView`].
pub mod account;
pub mod error;
pub mod held;
pub mod io;
pub mod ledger;
pub mod laws;
pub mod transaction;
pub mod v1;
pub mod v2;

use std::collections::HashMap;
use std::collections::HashSet;

use crate::amount::Amount;
use account::{Account, AccountView};
use error::EngineError;
use ledger::{DepositRecord, DepositView, DisputeRejection, DisputeState};
use transaction::Transaction;
use vstd::prelude::*;

verus! {

broadcast use {vstd::std_specs::hash::group_hash_axioms, crate::amount::group_amount_lemmas};

/// The abstract state of an engine.
pub struct EngineView {
    /// Accounts by client id.
    pub accounts: Map<u16, AccountView>,
    /// Deposits by tx id: the records the dispute lifecycle walks.
    pub deposits: Map<u32, DepositView>,
    /// Every deposit and withdrawal tx id ever accepted for processing.
    pub seen: Set<u32>,
}

/// The state of a new engine: no accounts, no deposits, no tx id seen.
pub open spec fn initial_state() -> EngineView {
    EngineView {
        accounts: Map::empty(),
        deposits: Map::empty(),
        seen: Set::empty(),
    }
}

/// The client's account is locked by a chargeback.
pub open spec fn is_locked(s: EngineView, client: u16) -> bool {
    s.accounts.contains_key(client) && s.accounts[client].locked
}

/// The client's account, or a fresh one when the client is unseen.
pub open spec fn account_of(s: EngineView, client: u16) -> AccountView {
    if s.accounts.contains_key(client) {
        s.accounts[client]
    } else {
        AccountView::fresh(client)
    }
}

/// The error for a lifecycle event whose tx id names no deposit: the id
/// belongs to a withdrawal when it was seen, otherwise it is unknown.
pub open spec fn missing_deposit(seen: bool, client: u16, tx: u32) -> EngineError {
    if seen {
        EngineError::WithdrawalDispute { client, tx }
    } else {
        EngineError::TxNotFound { client, tx }
    }
}

pub open spec fn with_account(s: EngineView, a: AccountView) -> EngineView {
    EngineView { accounts: s.accounts.insert(a.client, a), ..s }
}

/// One transaction applied to the abstract state: the new state and the
/// result `process` returns.
pub open spec fn step(s: EngineView, t: Transaction) -> (EngineView, Result<(), EngineError>) {
    match t {
        Transaction::Deposit { client, tx, amount } => {
            if amount.units() <= 0 {
                (s, Err(EngineError::NonPositiveAmount { client, tx, amount }))
            } else if is_locked(s, client) {
                (s, Err(EngineError::AccountLocked { client, tx }))
            } else if s.seen.contains(tx) {
                (s, Err(EngineError::DuplicateTxId { client, tx }))
            } else {
                (
                    EngineView {
                        accounts: s.accounts.insert(
                            client,
                            account_of(s, client).deposit(amount),
                        ),
                        deposits: s.deposits.insert(
                            tx,
                            DepositView { client, amount, state: DisputeState::NotDisputed },
                        ),
                        seen: s.seen.insert(tx),
                    },
                    Ok(()),
                )
            }
        },
        Transaction::Withdrawal { client, tx, amount } => {
            if amount.units() <= 0 {
                (s, Err(EngineError::NonPositiveAmount { client, tx, amount }))
            } else if is_locked(s, client) {
                (s, Err(EngineError::AccountLocked { client, tx }))
            } else if s.seen.contains(tx) {
                (s, Err(EngineError::DuplicateTxId { client, tx }))
            } else {
                let a = account_of(s, client);
                let consumed = EngineView { seen: s.seen.insert(tx), ..s };
                if amount.units() > a.available.units() {
                    (
                        with_account(consumed, a),
                        Err(EngineError::InsufficientFunds { client, tx, amount }),
                    )
                } else {
                    (with_account(consumed, a.withdraw(amount)), Ok(()))
                }
            }
        },
        Transaction::Dispute { client, tx } => {
            if !s.deposits.contains_key(tx) {
                (s, Err(missing_deposit(s.seen.contains(tx), client, tx)))
            } else {
                let d = s.deposits[tx];
                if d.client != client {
                    (s, Err(EngineError::ClientMismatch { client, tx }))
                } else if d.state == DisputeState::NotDisputed && is_locked(s, client) {
                    (s, Err(EngineError::AccountLocked { client, tx }))
                } else if d.state == DisputeState::Disputed {
                    (s, Err(EngineError::AlreadyDisputed { client, tx }))
                } else if d.state == DisputeState::ChargedBack {
                    (s, Err(EngineError::ChargedBack { client, tx }))
                } else {
                    (
                        EngineView {
                            accounts: s.accounts.insert(
                                client,
                                account_of(s, client).hold(d.amount),
                            ),
                            deposits: s.deposits.insert(
                                tx,
                                d.with_state(DisputeState::Disputed),
                            ),
                            seen: s.seen,
                        },
                        Ok(()),
                    )
                }
            }
        },
        Transaction::Resolve { client, tx } => {
            if !s.deposits.contains_key(tx) {
                (s, Err(missing_deposit(s.seen.contains(tx), client, tx)))
            } else {
                let d = s.deposits[tx];
                if d.client != client {
                    (s, Err(EngineError::ClientMismatch { client, tx }))
                } else if d.state != DisputeState::Disputed {
                    (s, Err(EngineError::NotDisputed { client, tx }))
                } else {
                    (
                        EngineView {
                            accounts: s.accounts.insert(
                                client,
                                account_of(s, client).release(d.amount),
                            ),
                            deposits: s.deposits.insert(
                                tx,
                                d.with_state(DisputeState::NotDisputed),
                            ),
                            seen: s.seen,
                        },
                        Ok(()),
                    )
                }
            }
        },
        Transaction::Chargeback { client, tx } => {
            if !s.deposits.contains_key(tx) {
                (s, Err(missing_deposit(s.seen.contains(tx), client, tx)))
            } else {
                let d = s.deposits[tx];
                if d.client != client {
                    (s, Err(EngineError::ClientMismatch { client, tx }))
                } else if d.state != DisputeState::Disputed {
                    (s, Err(EngineError::NotDisputed { client, tx }))
                } else {
                    (
                        EngineView {
                            accounts: s.accounts.insert(
                                client,
                                account_of(s, client).charge_back(d.amount),
                            ),
                            deposits: s.deposits.insert(
                                tx,
                                d.with_state(DisputeState::ChargedBack),
                            ),
                            seen: s.seen,
                        },
                        Ok(()),
                    )
                }
            }
        },
    }
}

/// The state after the transactions, applied in order.
pub open spec fn after_txs(s: EngineView, txs: Seq<Transaction>) -> EngineView
    decreases txs.len(),
{
    if txs.len() == 0 {
        s
    } else {
        step(after_txs(s, txs.drop_last()), txs.last()).0
    }
}

/// Every transaction's balance arithmetic is representable in the state it
/// is applied to.
pub open spec fn txs_fit(s: EngineView, txs: Seq<Transaction>) -> bool
    decreases txs.len(),
{
    if txs.len() == 0 {
        true
    } else {
        txs_fit(s, txs.drop_last()) && step_fits(after_txs(s, txs.drop_last()), txs.last())
    }
}

pub proof fn lemma_txs_fit_prefix(s: EngineView, txs: Seq<Transaction>, k: int)
    requires
        0 <= k < txs.len(),
        txs_fit(s, txs),
    ensures
        txs_fit(s, txs.take(k)),
        step_fits(after_txs(s, txs.take(k)), txs[k]),
    decreases txs.len(),
{
    if k == txs.len() - 1 {
        assert(txs.take(k) =~= txs.drop_last());
    } else {
        lemma_txs_fit_prefix(s, txs.drop_last(), k);
        assert(txs.drop_last().take(k) =~= txs.take(k));
    }
}

/// The balance arithmetic `step` performs on `t` is representable.
pub open spec fn step_fits(s: EngineView, t: Transaction) -> bool {
    match t {
        Transaction::Deposit { client, tx, amount } => amount.units() > 0 && !is_locked(s, client)
            && !s.seen.contains(tx) ==> account_of(s, client).can_deposit(amount),
        Transaction::Withdrawal { client, tx, amount } => amount.units() > 0 && !is_locked(
            s,
            client,
        ) && !s.seen.contains(tx) && amount.units() <= account_of(s, client).available.units()
            ==> account_of(s, client).can_withdraw(amount),
        Transaction::Dispute { client, tx } => s.deposits.contains_key(tx)
            && s.deposits[tx].client == client && s.deposits[tx].state
            == DisputeState::NotDisputed && !is_locked(s, client) ==> account_of(
            s,
            client,
        ).can_hold(s.deposits[tx].amount),
        Transaction::Resolve { client, tx } => s.deposits.contains_key(tx)
            && s.deposits[tx].client == client && s.deposits[tx].state == DisputeState::Disputed
            ==> account_of(s, client).can_release(s.deposits[tx].amount),
        Transaction::Chargeback { client, tx } => s.deposits.contains_key(tx)
            && s.deposits[tx].client == client && s.deposits[tx].state == DisputeState::Disputed
            ==> account_of(s, client).can_charge_back(s.deposits[tx].amount),
    }
}

/// The invariant of the abstract state.
pub open spec fn engine_inv(s: EngineView) -> bool {
    &&& forall|c: u16| #[trigger]
        s.accounts.contains_key(c) ==> s.accounts[c].client == c && s.accounts[c].wf()
    &&& forall|tx: u32| #[trigger] s.deposits.contains_key(tx) ==> s.seen.contains(tx)
    &&& forall|tx: u32| #[trigger]
        s.deposits.contains_key(tx) ==> {
            &&& s.deposits[tx].amount.wf()
            &&& s.deposits[tx].amount.units() > 0
            &&& s.accounts.contains_key(s.deposits[tx].client)
        }
}

/// `list` holds each account of `accounts` exactly once.
pub open spec fn lists_accounts(list: Seq<AccountView>, accounts: Map<u16, AccountView>) -> bool {
    &&& forall|i: int|
        0 <= i < list.len() ==> accounts.contains_key(#[trigger] list[i].client) && accounts[list[i].client]
            == list[i]
    &&& forall|c: u16| #[trigger]
        accounts.contains_key(c) ==> exists|i: int| 0 <= i < list.len() && #[trigger] list[i].client == c
    &&& forall|i: int, j: int|
        0 <= i < list.len() && 0 <= j < list.len() && i != j ==> #[trigger] list[i].client
            != #[trigger] list[j].client
}

/// The views of a sequence of accounts.
pub open spec fn account_views(list: Seq<Account>) -> Seq<AccountView> {
    list.map_values(|a: Account| a@)
}

/// Split-ledger payments engine.
pub struct Engine {
    accounts: HashMap<u16, Account>,
    deposits: HashMap<u32, DepositRecord>,
    seen_txs: HashSet<u32>,
    /// Clients in the order their accounts were created.
    clients: Vec<u16>,
}

impl View for Engine {
    type V = EngineView;

    closed spec fn view(&self) -> EngineView {
        EngineView {
            accounts: self.accounts@.map_values(|a: Account| a@),
            deposits: self.deposits@.map_values(|d: DepositRecord| d@),
            seen: self.seen_txs@,
        }
    }
}

impl Engine {
    /// The engine's representation is consistent with its abstract state,
    /// which satisfies [`engine_inv`].
    pub closed spec fn wf(&self) -> bool {
        &&& engine_inv(self@)
        &&& self.clients@.no_duplicates()
        &&& forall|i: int|
            0 <= i < self.clients@.len() ==> self.accounts@.contains_key(#[trigger] self.clients@[i])
        &&& forall|c: u16| #[trigger]
            self.accounts@.contains_key(c) ==> self.clients@.contains(c)
    }

    /// Every well-formed engine satisfies the invariant.
    pub proof fn lemma_inv(&self)
        requires
            self.wf(),
        ensures
            engine_inv(self@),
    {
    }

    /// Create an empty engine.
    pub fn new() -> (r: Engine)
        ensures
            r.wf(),
            r@ == initial_state(),
    {
        let r = Engine {
            accounts: HashMap::new(),
            deposits: HashMap::new(),
            seen_txs: HashSet::new(),
            clients: Vec::new(),
        };
        assert(r@.accounts =~= Map::<u16, AccountView>::empty());
        assert(r@.deposits =~= Map::<u32, DepositView>::empty());
        r
    }

    /// True when the client's account is locked.
    fn account_locked(&self, client: u16) -> (r: bool)
        requires
            self.wf(),
        ensures
            r == is_locked(self@, client),
    {
        match self.accounts.get(&client) {
            Some(a) => a.locked(),
            None => false,
        }
    }

    /// The client's account, or a fresh one.
    fn account_entry(&self, client: u16) -> (r: Account)
        requires
            self.wf(),
        ensures
            r@ == account_of(self@, client),
    {
        match self.accounts.get(&client) {
            Some(a) => *a,
            None => Account::new(client),
        }
    }

    /// Store `acct` under its client.
    fn store_account(&mut self, acct: Account)
        requires
            old(self).wf(),
        ensures
            final(self).wf(),
            final(self)@ == with_account(old(self)@, acct@),
    {
        proof {
            use_type_invariant(&acct);
        }
        let client = acct.client();
        let ghost old_clients = self.clients@;
        if !self.accounts.contains_key(&client) {
            self.clients.push(client);
            proof {
                assert forall|c: u16| old(self).accounts@.contains_key(c) implies #[trigger] self.clients@.contains(c) by {
                    let j = choose|j: int| 0 <= j < old_clients.len() && old_clients[j] == c;
                    assert(self.clients@[j] == c);
                }
                assert(self.clients@[old_clients.len() as int] == client);
            }
        }
        self.accounts.insert(client, acct);
        assert(self@.accounts =~= old(self)@.accounts.insert(client, acct@));
        assert(self@.deposits =~= old(self)@.deposits);
    }

    /// True when processing `tx` keeps every balance representable; when it
    /// is false, `process` may not be called with `tx`.
    pub fn can_process(&self, tx: &Transaction) -> (r: bool)
        requires
            self.wf(),
        ensures
            r == step_fits(self@, *tx),
    {
        match *tx {
            Transaction::Deposit { client, tx, amount } => {
                if !amount.is_positive() || self.account_locked(client) || self.seen_txs.contains(
                    &tx,
                ) {
                    true
                } else {
                    self.account_entry(client).can_deposit(amount)
                }
            },
            Transaction::Withdrawal { client, tx, amount } => {
                if !amount.is_positive() || self.account_locked(client) || self.seen_txs.contains(
                    &tx,
                ) {
                    true
                } else {
                    let a = self.account_entry(client);
                    if amount.greater_than(&a.available()) {
                        true
                    } else {
                        a.can_withdraw(amount)
                    }
                }
            },
            Transaction::Dispute { client, tx } => match self.deposits.get(&tx) {
                None => true,
                Some(d) => {
                    if d.client() != client || d.state() != DisputeState::NotDisputed
                        || self.account_locked(client) {
                        true
                    } else {
                        self.account_entry(client).can_hold(d.amount())
                    }
                },
            },
            Transaction::Resolve { client, tx } => match self.deposits.get(&tx) {
                None => true,
                Some(d) => {
                    if d.client() != client || d.state() != DisputeState::Disputed {
                        true
                    } else {
                        self.account_entry(client).can_release(d.amount())
                    }
                },
            },
            Transaction::Chargeback { client, tx } => match self.deposits.get(&tx) {
                None => true,
                Some(d) => {
                    if d.client() != client || d.state() != DisputeState::Disputed {
                        true
                    } else {
                        self.account_entry(client).can_charge_back(d.amount())
                    }
                },
            },
        }
    }

    /// Apply `tx` to the engine state.
    ///
    /// Once a chargeback has locked an account, deposits, withdrawals and
    /// *new* disputes on it are refused; resolves and chargebacks of
    /// disputes opened before the lock still process. Deposit and
    /// withdrawal tx ids are deduplicated across both kinds. The errors, and
    /// when each arises, are those of [`step`]:
    ///
    /// - `NonPositiveAmount`: deposit or withdrawal amount `<= 0`; the tx id
    ///   is not consumed.
    /// - `AccountLocked`: deposit, withdrawal or new dispute on a locked account.
    /// - `DuplicateTxId`: deposit or withdrawal reusing a seen tx id.
    /// - `InsufficientFunds`: withdrawal above `available`; the tx id is
    ///   consumed and the account is created if it was missing.
    /// - `TxNotFound` / `WithdrawalDispute`: lifecycle event on an unknown
    ///   id / on a withdrawal id.
    /// - `ClientMismatch`: lifecycle event whose client is not the depositor.
    /// - `AlreadyDisputed` / `ChargedBack`: dispute on a disputed /
    ///   charged-back deposit.
    /// - `NotDisputed`: resolve or chargeback on a deposit not in dispute.
    pub fn process(&mut self, tx: Transaction) -> (r: Result<(), EngineError>)
        requires
            old(self).wf(),
            step_fits(old(self)@, tx),
        ensures
            final(self).wf(),
            final(self)@ == step(old(self)@, tx).0,
            r == step(old(self)@, tx).1,
    {
        match tx {
            Transaction::Deposit { client, tx, amount } => self.apply_deposit(client, tx, amount),
            Transaction::Withdrawal { client, tx, amount } => self.apply_withdrawal(
                client,
                tx,
                amount,
            ),
            Transaction::Dispute { client, tx } => self.apply_dispute(client, tx),
            Transaction::Resolve { client, tx } => self.apply_resolve(client, tx),
            Transaction::Chargeback { client, tx } => self.apply_chargeback(client, tx),
        }
    }

    fn apply_deposit(&mut self, client: u16, tx: u32, amount: Amount) -> (r: Result<
        (),
        EngineError,
    >)
        requires
            old(self).wf(),
            step_fits(old(self)@, Transaction::Deposit { client, tx, amount }),
        ensures
            final(self).wf(),
            final(self)@ == step(old(self)@, Transaction::Deposit { client, tx, amount }).0,
            r == step(old(self)@, Transaction::Deposit { client, tx, amount }).1,
    {
        proof {
            use_type_invariant(&amount);
        }
        if !amount.is_positive() {
            return Err(EngineError::NonPositiveAmount { client, tx, amount });
        }
        if self.account_locked(client) {
            return Err(EngineError::AccountLocked { client, tx });
        }
        let ghost pre = self@;
        if !self.seen_txs.insert(tx) {
            assert(self.seen_txs@ =~= pre.seen);
            return Err(EngineError::DuplicateTxId { client, tx });
        }
        assert(self@.accounts =~= pre.accounts);
        assert(self@.deposits =~= pre.deposits);
        let mut acct = self.account_entry(client);
        acct.apply_deposit(amount);
        self.store_account(acct);
        let ghost mid = self@;
        self.deposits.insert(tx, DepositRecord::new(client, amount));
        proof {
            assert(self@.deposits =~= mid.deposits.insert(
                tx,
                DepositView { client, amount, state: DisputeState::NotDisputed },
            ));
            assert(self@.accounts =~= mid.accounts);
        }
        Ok(())
    }

    fn apply_withdrawal(&mut self, client: u16, tx: u32, amount: Amount) -> (r: Result<
        (),
        EngineError,
    >)
        requires
            old(self).wf(),
            step_fits(old(self)@, Transaction::Withdrawal { client, tx, amount }),
        ensures
            final(self).wf(),
            final(self)@ == step(old(self)@, Transaction::Withdrawal { client, tx, amount }).0,
            r == step(old(self)@, Transaction::Withdrawal { client, tx, amount }).1,
    {
        proof {
            use_type_invariant(&amount);
        }
        if !amount.is_positive() {
            return Err(EngineError::NonPositiveAmount { client, tx, amount });
        }
        if self.account_locked(client) {
            return Err(EngineError::AccountLocked { client, tx });
        }
        let ghost pre = self@;
        if !self.seen_txs.insert(tx) {
            assert(self.seen_txs@ =~= pre.seen);
            return Err(EngineError::DuplicateTxId { client, tx });
        }
        assert(self@.accounts =~= pre.accounts);
        assert(self@.deposits =~= pre.deposits);
        // The tx id is consumed even when the debit is refused.
        let mut acct = self.account_entry(client);
        let result = acct.apply_withdrawal(amount);
        proof {
            use_type_invariant(&acct);
        }
        self.store_account(acct);
        match result {
            Ok(()) => Ok(()),
            Err(_) => Err(EngineError::InsufficientFunds { client, tx, amount }),
        }
    }

    /// The deposit record a lifecycle event targets, or the error for an
    /// id that is unknown or names a withdrawal.
    fn get_deposit(&self, client: u16, tx: u32) -> (r: Result<DepositRecord, EngineError>)
        requires
            self.wf(),
        ensures
            self@.deposits.contains_key(tx) ==> (r matches Ok(d) && d@ == self@.deposits[tx]),
            !self@.deposits.contains_key(tx) ==> r == Err::<DepositRecord, EngineError>(
                missing_deposit(self@.seen.contains(tx), client, tx),
            ),
    {
        match self.deposits.get(&tx) {
            Some(d) => Ok(*d),
            None => Err(missing_deposit_error(self.seen_txs.contains(&tx), client, tx)),
        }
    }

    /// Store `record` under `tx`, which already names a deposit.
    fn store_deposit(&mut self, tx: u32, record: DepositRecord)
        requires
            old(self).wf(),
            old(self)@.deposits.contains_key(tx),
            record@.client == old(self)@.deposits[tx].client,
            record@.amount == old(self)@.deposits[tx].amount,
        ensures
            final(self)@ == (EngineView {
                deposits: old(self)@.deposits.insert(tx, record@),
                ..old(self)@
            }),
            final(self).wf(),
    {
        self.deposits.insert(tx, record);
        assert(self@.deposits =~= old(self)@.deposits.insert(tx, record@));
        assert(self@.accounts =~= old(self)@.accounts);
    }

    fn apply_dispute(&mut self, client: u16, tx: u32) -> (r: Result<(), EngineError>)
        requires
            old(self).wf(),
            step_fits(old(self)@, Transaction::Dispute { client, tx }),
        ensures
            final(self).wf(),
            final(self)@ == step(old(self)@, Transaction::Dispute { client, tx }).0,
            r == step(old(self)@, Transaction::Dispute { client, tx }).1,
    {
        let mut deposit = match self.get_deposit(client, tx) {
            Ok(d) => d,
            Err(e) => return Err(e),
        };
        if deposit.client() != client {
            return Err(EngineError::ClientMismatch { client, tx });
        }
        // New disputes are refused on a locked account.
        if deposit.state() == DisputeState::NotDisputed && self.account_locked(client) {
            return Err(EngineError::AccountLocked { client, tx });
        }
        let amount = match deposit.try_dispute() {
            Ok(amount) => amount,
            Err(DisputeRejection::AlreadyDisputed) => {
                return Err(EngineError::AlreadyDisputed { client, tx });
            },
            Err(DisputeRejection::ChargedBack) => {
                return Err(EngineError::ChargedBack { client, tx });
            },
        };
        let ghost pre = self@;
        self.store_deposit(tx, deposit);
        let mut acct = self.account_entry(client);
        acct.apply_hold(amount);
        proof {
            use_type_invariant(&acct);
        }
        self.store_account(acct);
        proof {
            let post = step(pre, Transaction::Dispute { client, tx }).0;
            assert(self@.accounts =~= post.accounts);
        }
        Ok(())
    }

    fn apply_resolve(&mut self, client: u16, tx: u32) -> (r: Result<(), EngineError>)
        requires
            old(self).wf(),
            step_fits(old(self)@, Transaction::Resolve { client, tx }),
        ensures
            final(self).wf(),
            final(self)@ == step(old(self)@, Transaction::Resolve { client, tx }).0,
            r == step(old(self)@, Transaction::Resolve { client, tx }).1,
    {
        let mut deposit = match self.get_deposit(client, tx) {
            Ok(d) => d,
            Err(e) => return Err(e),
        };
        if deposit.client() != client {
            return Err(EngineError::ClientMismatch { client, tx });
        }
        let amount = match deposit.try_resolve() {
            Ok(amount) => amount,
            Err(_) => return Err(EngineError::NotDisputed { client, tx }),
        };
        let ghost pre = self@;
        self.store_deposit(tx, deposit);
        let mut acct = self.account_entry(client);
        acct.apply_release(amount);
        proof {
            use_type_invariant(&acct);
        }
        self.store_account(acct);
        proof {
            let post = step(pre, Transaction::Resolve { client, tx }).0;
            assert(self@.accounts =~= post.accounts);
        }
        Ok(())
    }

    fn apply_chargeback(&mut self, client: u16, tx: u32) -> (r: Result<(), EngineError>)
        requires
            old(self).wf(),
            step_fits(old(self)@, Transaction::Chargeback { client, tx }),
        ensures
            final(self).wf(),
            final(self)@ == step(old(self)@, Transaction::Chargeback { client, tx }).0,
            r == step(old(self)@, Transaction::Chargeback { client, tx }).1,
    {
        let mut deposit = match self.get_deposit(client, tx) {
            Ok(d) => d,
            Err(e) => return Err(e),
        };
        if deposit.client() != client {
            return Err(EngineError::ClientMismatch { client, tx });
        }
        let amount = match deposit.try_chargeback() {
            Ok(amount) => amount,
            Err(_) => return Err(EngineError::NotDisputed { client, tx }),
        };
        let ghost pre = self@;
        self.store_deposit(tx, deposit);
        // A chargeback of a dispute opened before the lock is allowed, so
        // there is no lock check here.
        let mut acct = self.account_entry(client);
        acct.apply_chargeback(amount);
        proof {
            use_type_invariant(&acct);
        }
        self.store_account(acct);
        proof {
            let post = step(pre, Transaction::Chargeback { client, tx }).0;
            assert(self@.accounts =~= post.accounts);
        }
        Ok(())
    }

    /// The account of `client`, if it has one.
    pub fn account(&self, client: u16) -> (r: Option<Account>)
        requires
            self.wf(),
        ensures
            r is Some <==> self@.accounts.contains_key(client),
            r matches Some(a) ==> a@ == self@.accounts[client],
    {
        match self.accounts.get(&client) {
            Some(a) => Some(*a),
            None => None,
        }
    }

    /// The deposit record filed under `tx`, if `tx` names a deposit.
    pub fn deposit(&self, tx: u32) -> (r: Option<DepositRecord>)
        requires
            self.wf(),
        ensures
            r is Some <==> self@.deposits.contains_key(tx),
            r matches Some(d) ==> d@ == self@.deposits[tx],
    {
        match self.deposits.get(&tx) {
            Some(d) => Some(*d),
            None => None,
        }
    }

    /// True when a deposit or withdrawal has consumed `tx`.
    pub fn has_seen(&self, tx: u32) -> (r: bool)
        ensures
            r == self@.seen.contains(tx),
    {
        self.seen_txs.contains(&tx)
    }

    /// All known accounts, each exactly once, in the order they were created.
    pub fn accounts(&self) -> (r: Vec<Account>)
        requires
            self.wf(),
        ensures
            lists_accounts(account_views(r@), self@.accounts),
    {
        let mut out: Vec<Account> = Vec::new();
        let mut i: usize = 0;
        while i < self.clients.len()
            invariant
                self.wf(),
                0 <= i <= self.clients@.len(),
                out@.len() == i,
                forall|j: int|
                    0 <= j < i ==> (#[trigger] out@[j])@ == self@.accounts[self.clients@[j]],
            decreases self.clients@.len() - i,
        {
            let c = self.clients[i];
            let a = *self.accounts.get(&c).unwrap();
            out.push(a);
            i = i + 1;
        }
        proof {
            let v = account_views(out@);
            assert forall|j: int| 0 <= j < v.len() implies self@.accounts.contains_key(
                #[trigger] v[j].client,
            ) && self@.accounts[v[j].client] == v[j] by {
                assert(self@.accounts.contains_key(self.clients@[j]));
            }
            assert forall|a: int, b: int|
                0 <= a < v.len() && 0 <= b < v.len() && a != b implies #[trigger] v[a].client
                != #[trigger] v[b].client by {
                assert(self@.accounts.contains_key(self.clients@[a]));
                assert(self@.accounts.contains_key(self.clients@[b]));
            }
            assert forall|c: u16| #[trigger] self@.accounts.contains_key(c) implies exists|j: int|
                0 <= j < v.len() && #[trigger] v[j].client == c by {
                let j = choose|j: int| 0 <= j < self.clients@.len() && self.clients@[j] == c;
                assert(v[j].client == c);
            }
        }
        out
    }
}

impl Default for Engine {
    fn default() -> (r: Engine)
        ensures
            r.wf(),
            r@ == initial_state(),
    {
        Engine::new()
    }
}

/// The error for a lifecycle event whose tx id names no deposit record:
/// `WithdrawalDispute` when the id was seen (it belongs to a withdrawal),
/// `TxNotFound` otherwise.
pub fn missing_deposit_error(seen: bool, client: u16, tx: u32) -> (r: EngineError)
    ensures
        r == missing_deposit(seen, client, tx),
{
    if seen {
        EngineError::WithdrawalDispute { client, tx }
    } else {
        EngineError::TxNotFound { client, tx }
    }
}

} // verus!
