//! The split-ledger engine under its benchmark name.
//!
//! The storage layout compared against a single enum-tagged ledger: a map
//! of disputable deposits plus a set of every tx id seen. A hit in the set
//! without a matching deposit record is by construction a withdrawal id,
//! which is not disputable. Its observable behaviour is the state machine
//! [`step`](super::step), the same as [`super::Engine`]'s.
pub mod io;

use std::collections::HashMap;
use std::collections::HashSet;

use super::account::{Account, AccountView};
use super::error::EngineError;
use super::ledger::{DepositRecord, DepositView, DisputeRejection, DisputeState};
use super::transaction::Transaction;
use super::{
    account_of, account_views, engine_inv, initial_state, is_locked, lists_accounts,
    missing_deposit, missing_deposit_error, step, step_fits, with_account, EngineView,
};
use vstd::prelude::*;

verus! {

broadcast use {vstd::std_specs::hash::group_hash_axioms, crate::amount::group_amount_lemmas};

/// Split-ledger payments engine.
pub struct Engine {
    accounts: HashMap<u16, Account>,
    deposits: HashMap<u32, DepositRecord>,
    seen_txs: HashSet<u32>,
    /// Clients in the order their accounts were created.
    clients: Vec<u16>,
}

impl View for Engine {
    type V = EngineView;

    closed spec fn view(&self) -> EngineView {
        EngineView {
            accounts: self.accounts@.map_values(|a: Account| a@),
            deposits: self.deposits@.map_values(|d: DepositRecord| d@),
            seen: self.seen_txs@,
        }
    }
}

impl Engine {
    /// The representation is consistent with the abstract state, which
    /// satisfies [`engine_inv`].
    pub closed spec fn wf(&self) -> bool {
        &&& engine_inv(self@)
        &&& self.clients@.no_duplicates()
        &&& forall|i: int|
            0 <= i < self.clients@.len() ==> self.accounts@.contains_key(#[trigger] self.clients@[i])
        &&& forall|c: u16| #[trigger]
            self.accounts@.contains_key(c) ==> self.clients@.contains(c)
    }

    /// Create an empty engine.
    pub fn new() -> (r: Engine)
        ensures
            r.wf(),
            r@ == initial_state(),
    {
        let r = Engine {
            accounts: HashMap::new(),
            deposits: HashMap::new(),
            seen_txs: HashSet::new(),
            clients: Vec::new(),
        };
        assert(r@.accounts =~= Map::<u16, AccountView>::empty());
        assert(r@.deposits =~= Map::<u32, DepositView>::empty());
        r
    }

    fn account_locked(&self, client: u16) -> (r: bool)
        requires
            self.wf(),
        ensures
            r == is_locked(self@, client),
    {
        match self.accounts.get(&client) {
            Some(a) => a.locked(),
            None => false,
        }
    }

    /// The client's account, or a fresh one.
    fn account_entry(&self, client: u16) -> (r: Account)
        requires
            self.wf(),
        ensures
            r@ == account_of(self@, client),
    {
        match self.accounts.get(&client) {
            Some(a) => *a,
            None => Account::new(client),
        }
    }

    /// Store `acct` under its client, recording a new client's place.
    fn store_account(&mut self, acct: Account)
        requires
            old(self).wf(),
        ensures
            final(self).wf(),
            final(self)@ == with_account(old(self)@, acct@),
    {
        proof {
            use_type_invariant(&acct);
        }
        let client = acct.client();
        let ghost old_clients = self.clients@;
        if !self.accounts.contains_key(&client) {
            self.clients.push(client);
            proof {
                assert forall|c: u16| old(self).accounts@.contains_key(c) implies #[trigger] self.clients@.contains(c) by {
                    let j = choose|j: int| 0 <= j < old_clients.len() && old_clients[j] == c;
                    assert(self.clients@[j] == c);
                }
                assert(self.clients@[old_clients.len() as int] == client);
            }
        }
        self.accounts.insert(client, acct);
        assert(self@.accounts =~= old(self)@.accounts.insert(client, acct@));
        assert(self@.deposits =~= old(self)@.deposits);
    }

    /// True when processing `tx` keeps every balance representable; when it
    /// is false, `process` may not be called with `tx`.
    pub fn can_process(&self, tx: &Transaction) -> (r: bool)
        requires
            self.wf(),
        ensures
            r == step_fits(self@, *tx),
    {
        match *tx {
            Transaction::Deposit { client, tx, amount } => {
                !amount.is_positive() || self.account_locked(client) || self.seen_txs.contains(&tx)
                    || self.account_entry(client).can_deposit(amount)
            },
            Transaction::Withdrawal { client, tx, amount } => {
                if !amount.is_positive() || self.account_locked(client) || self.seen_txs.contains(
                    &tx,
                ) {
                    true
                } else {
                    let a = self.account_entry(client);
                    amount.greater_than(&a.available()) || a.can_withdraw(amount)
                }
            },
            Transaction::Dispute { client, tx } => match self.deposits.get(&tx) {
                None => true,
                Some(d) => {
                    d.client() != client || d.state() != DisputeState::NotDisputed
                        || self.account_locked(client) || self.account_entry(client).can_hold(
                        d.amount(),
                    )
                },
            },
            Transaction::Resolve { client, tx } => match self.deposits.get(&tx) {
                None => true,
                Some(d) => {
                    d.client() != client || d.state() != DisputeState::Disputed
                        || self.account_entry(client).can_release(d.amount())
                },
            },
            Transaction::Chargeback { client, tx } => match self.deposits.get(&tx) {
                None => true,
                Some(d) => {
                    d.client() != client || d.state() != DisputeState::Disputed
                        || self.account_entry(client).can_charge_back(d.amount())
                },
            },
        }
    }

    /// Apply `tx`; same observable behaviour as [`super::Engine::process`]:
    /// the new state and the result are [`step`]'s.
    pub fn process(&mut self, tx: Transaction) -> (r: Result<(), EngineError>)
        requires
            old(self).wf(),
            step_fits(old(self)@, tx),
        ensures
            final(self).wf(),
            final(self)@ == step(old(self)@, tx).0,
            r == step(old(self)@, tx).1,
    {
        match tx {
            Transaction::Deposit { client, tx, amount } => {
                proof {
                    use_type_invariant(&amount);
                }
                if !amount.is_positive() {
                    return Err(EngineError::NonPositiveAmount { client, tx, amount });
                }
                if self.account_locked(client) {
                    return Err(EngineError::AccountLocked { client, tx });
                }
                let ghost pre = self@;
                if !self.seen_txs.insert(tx) {
                    assert(self.seen_txs@ =~= pre.seen);
                    return Err(EngineError::DuplicateTxId { client, tx });
                }
                assert(self@.accounts =~= pre.accounts);
                assert(self@.deposits =~= pre.deposits);
                let mut acct = self.account_entry(client);
                acct.apply_deposit(amount);
                self.store_account(acct);
                let ghost mid = self@;
                self.deposits.insert(tx, DepositRecord::new(client, amount));
                proof {
                    assert(self@.deposits =~= mid.deposits.insert(
                        tx,
                        DepositView { client, amount, state: DisputeState::NotDisputed },
                    ));
                    assert(self@.accounts =~= mid.accounts);
                }
                Ok(())
            },
            Transaction::Withdrawal { client, tx, amount } => {
                proof {
                    use_type_invariant(&amount);
                }
                if !amount.is_positive() {
                    return Err(EngineError::NonPositiveAmount { client, tx, amount });
                }
                if self.account_locked(client) {
                    return Err(EngineError::AccountLocked { client, tx });
                }
                let ghost pre = self@;
                if !self.seen_txs.insert(tx) {
                    assert(self.seen_txs@ =~= pre.seen);
                    return Err(EngineError::DuplicateTxId { client, tx });
                }
                assert(self@.accounts =~= pre.accounts);
                assert(self@.deposits =~= pre.deposits);
                // The tx id is reserved before the debit is tried, so a
                // refused withdrawal still consumes it.
                let mut acct = self.account_entry(client);
                let result = acct.apply_withdrawal(amount);
                self.store_account(acct);
                match result {
                    Ok(()) => Ok(()),
                    Err(_) => Err(EngineError::InsufficientFunds { client, tx, amount }),
                }
            },
            Transaction::Dispute { client, tx } => self.apply_dispute(client, tx),
            Transaction::Resolve { client, tx } => self.apply_resolve(client, tx),
            Transaction::Chargeback { client, tx } => self.apply_chargeback(client, tx),
        }
    }

    /// The deposit record a lifecycle event targets, or the error for an
    /// id that is unknown or names a withdrawal.
    fn deposit_lookup(&self, client: u16, tx: u32) -> (r: Result<DepositRecord, EngineError>)
        requires
            self.wf(),
        ensures
            self@.deposits.contains_key(tx) ==> (r matches Ok(d) && d@ == self@.deposits[tx]),
            !self@.deposits.contains_key(tx) ==> r == Err::<DepositRecord, EngineError>(
                missing_deposit(self@.seen.contains(tx), client, tx),
            ),
    {
        match self.deposits.get(&tx) {
            Some(d) => Ok(*d),
            None => Err(missing_deposit_error(self.seen_txs.contains(&tx), client, tx)),
        }
    }

    /// Write back the record under `tx`, which already names a deposit.
    fn store_deposit(&mut self, tx: u32, record: DepositRecord)
        requires
            old(self).wf(),
            old(self)@.deposits.contains_key(tx),
            record@.client == old(self)@.deposits[tx].client,
            record@.amount == old(self)@.deposits[tx].amount,
        ensures
            final(self)@ == (EngineView {
                deposits: old(self)@.deposits.insert(tx, record@),
                ..old(self)@
            }),
            final(self).wf(),
    {
        self.deposits.insert(tx, record);
        assert(self@.deposits =~= old(self)@.deposits.insert(tx, record@));
        assert(self@.accounts =~= old(self)@.accounts);
    }

    fn apply_dispute(&mut self, client: u16, tx: u32) -> (r: Result<(), EngineError>)
        requires
            old(self).wf(),
            step_fits(old(self)@, Transaction::Dispute { client, tx }),
        ensures
            final(self).wf(),
            final(self)@ == step(old(self)@, Transaction::Dispute { client, tx }).0,
            r == step(old(self)@, Transaction::Dispute { client, tx }).1,
    {
        let mut deposit = match self.deposit_lookup(client, tx) {
            Ok(d) => d,
            Err(e) => return Err(e),
        };
        if deposit.client() != client {
            return Err(EngineError::ClientMismatch { client, tx });
        }
        if deposit.state() == DisputeState::NotDisputed && self.account_locked(client) {
            return Err(EngineError::AccountLocked { client, tx });
        }
        let amount = match deposit.try_dispute() {
            Ok(amount) => amount,
            Err(DisputeRejection::AlreadyDisputed) => {
                return Err(EngineError::AlreadyDisputed { client, tx });
            },
            Err(DisputeRejection::ChargedBack) => {
                return Err(EngineError::ChargedBack { client, tx });
            },
        };
        let ghost pre = self@;
        self.store_deposit(tx, deposit);
        let mut acct = self.account_entry(client);
        acct.apply_hold(amount);
        self.store_account(acct);
        proof {
            let post = step(pre, Transaction::Dispute { client, tx }).0;
            assert(self@.accounts =~= post.accounts);
        }
        Ok(())
    }

    fn apply_resolve(&mut self, client: u16, tx: u32) -> (r: Result<(), EngineError>)
        requires
            old(self).wf(),
            step_fits(old(self)@, Transaction::Resolve { client, tx }),
        ensures
            final(self).wf(),
            final(self)@ == step(old(self)@, Transaction::Resolve { client, tx }).0,
            r == step(old(self)@, Transaction::Resolve { client, tx }).1,
    {
        let mut deposit = match self.deposit_lookup(client, tx) {
            Ok(d) => d,
            Err(e) => return Err(e),
        };
        if deposit.client() != client {
            return Err(EngineError::ClientMismatch { client, tx });
        }
        let amount = match deposit.try_resolve() {
            Ok(amount) => amount,
            Err(_) => return Err(EngineError::NotDisputed { client, tx }),
        };
        let ghost pre = self@;
        self.store_deposit(tx, deposit);
        let mut acct = self.account_entry(client);
        acct.apply_release(amount);
        self.store_account(acct);
        proof {
            let post = step(pre, Transaction::Resolve { client, tx }).0;
            assert(self@.accounts =~= post.accounts);
        }
        Ok(())
    }

    fn apply_chargeback(&mut self, client: u16, tx: u32) -> (r: Result<(), EngineError>)
        requires
            old(self).wf(),
            step_fits(old(self)@, Transaction::Chargeback { client, tx }),
        ensures
            final(self).wf(),
            final(self)@ == step(old(self)@, Transaction::Chargeback { client, tx }).0,
            r == step(old(self)@, Transaction::Chargeback { client, tx }).1,
    {
        let mut deposit = match self.deposit_lookup(client, tx) {
            Ok(d) => d,
            Err(e) => return Err(e),
        };
        if deposit.client() != client {
            return Err(EngineError::ClientMismatch { client, tx });
        }
        let amount = match deposit.try_chargeback() {
            Ok(amount) => amount,
            Err(_) => return Err(EngineError::NotDisputed { client, tx }),
        };
        let ghost pre = self@;
        self.store_deposit(tx, deposit);
        let mut acct = self.account_entry(client);
        acct.apply_chargeback(amount);
        self.store_account(acct);
        proof {
            let post = step(pre, Transaction::Chargeback { client, tx }).0;
            assert(self@.accounts =~= post.accounts);
        }
        Ok(())
    }

    /// All known accounts, each exactly once, in the order they were created.
    pub fn accounts(&self) -> (r: Vec<Account>)
        requires
            self.wf(),
        ensures
            lists_accounts(account_views(r@), self@.accounts),
    {
        let mut out: Vec<Account> = Vec::new();
        let mut i: usize = 0;
        while i < self.clients.len()
            invariant
                self.wf(),
                0 <= i <= self.clients@.len(),
                out@.len() == i,
                forall|j: int|
                    0 <= j < i ==> (#[trigger] out@[j])@ == self@.accounts[self.clients@[j]],
            decreases self.clients@.len() - i,
        {
            let c = self.clients[i];
            let a = *self.accounts.get(&c).unwrap();
            out.push(a);
            i = i + 1;
        }
        proof {
            let v = account_views(out@);
            assert forall|j: int| 0 <= j < v.len() implies self@.accounts.contains_key(
                #[trigger] v[j].client,
            ) && self@.accounts[v[j].client] == v[j] by {
                assert(self@.accounts.contains_key(self.clients@[j]));
            }
            assert forall|a: int, b: int|
                0 <= a < v.len() && 0 <= b < v.len() && a != b implies #[trigger] v[a].client
                != #[trigger] v[b].client by {
                assert(self@.accounts.contains_key(self.clients@[a]));
                assert(self@.accounts.contains_key(self.clients@[b]));
            }
            assert forall|c: u16| #[trigger] self@.accounts.contains_key(c) implies exists|j: int|
                0 <= j < v.len() && #[trigger] v[j].client == c by {
                let j = choose|j: int| 0 <= j < self.clients@.len() && self.clients@[j] == c;
                assert(v[j].client == c);
            }
        }
        out
    }
}

impl Default for Engine {
    fn default() -> (r: Engine)
        ensures
            r.wf(),
            r@ == initial_state(),
    {
        Engine::new()
    }
}

} // verus!
