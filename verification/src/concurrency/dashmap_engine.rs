//! `DashMap`-backed engine: three sharded concurrent maps in place of the
//! production engine's three single-threaded ones.
//!
//! Each transaction runs as a sequence of map operations: read the
//! deposit record, check it, write it back, then read, update and write
//! back the account. Here the engine is handled through `&mut self`, so no
//! other caller interleaves and each transaction has exactly the effect
//! [`step`] gives it, the production engine's.
use crate::amount::Amount;
use crate::engine::account::{Account, AccountView};
use crate::engine::error::EngineError;
use crate::engine::io::{after_rows, records_text, rows_fit, snapshot_text, write_snapshots};
use crate::engine::ledger::{DepositRecord, DepositView, DisputeRejection, DisputeState};
use crate::engine::transaction::{RawTransaction, Transaction};
use crate::engine::{
    account_of, account_views, engine_inv, initial_state, is_locked, lists_accounts, missing_deposit,
    missing_deposit_error, step, step_fits, with_account, EngineView,
};
use super::workload::{lemma_permutation_lists, sorted_accounts, sorted_by_client};
use dashmap::{DashMap, DashSet};
use vstd::prelude::*;

verus! {

broadcast use crate::amount::group_amount_lemmas;

#[verifier::external_type_specification]
#[verifier::external_body]
#[verifier::reject_recursive_types(K)]
#[verifier::reject_recursive_types(V)]
#[verifier::reject_recursive_types(S)]
pub struct ExDashMap<K, V, S>(DashMap<K, V, S>);

#[verifier::external_type_specification]
#[verifier::external_body]
#[verifier::reject_recursive_types(K)]
#[verifier::reject_recursive_types(S)]
pub struct ExDashSet<K, S>(DashSet<K, S>);

/// The entries of the account map.
pub uninterp spec fn dash_accounts(m: DashMap<u16, Account>) -> Map<u16, Account>;

/// The entries of the deposit map.
pub uninterp spec fn dash_deposits(m: DashMap<u32, DepositRecord>) -> Map<u32, DepositRecord>;

/// The members of the tx id set.
pub uninterp spec fn dash_seen(s: DashSet<u32>) -> Set<u32>;

/// `DashMap::new` for the account map: no entries.
#[verifier::external_body]
fn account_map_new() -> (r: DashMap<u16, Account>)
    ensures
        dash_accounts(r).dom() == Set::<u16>::empty(),
{
    DashMap::new()
}

/// `DashMap::get` on the account map, the account copied out of the guard:
/// the entry under `client`, if any.
#[verifier::external_body]
fn account_map_get(m: &DashMap<u16, Account>, client: u16) -> (r: Option<Account>)
    ensures
        r == (if dash_accounts(*m).contains_key(client) {
            Some(dash_accounts(*m)[client])
        } else {
            None
        }),
{
    m.get(&client).map(|e| *e.value())
}

/// `DashMap::insert` on the account map: the entry under `client` becomes
/// `acct` (the replaced value is dropped).
#[verifier::external_body]
fn account_map_insert(m: &mut DashMap<u16, Account>, client: u16, acct: Account)
    ensures
        dash_accounts(*final(m)) == dash_accounts(*old(m)).insert(client, acct),
{
    m.insert(client, acct);
}

/// `DashMap::iter` on the account map, each entry copied out: every entry
/// exactly once, in an order the source leaves open.
#[verifier::external_body]
fn account_map_entries(m: &DashMap<u16, Account>) -> (r: Vec<(u16, Account)>)
    ensures
        forall|i: int|
            0 <= i < r@.len() ==> dash_accounts(*m).contains_key((#[trigger] r@[i]).0)
                && dash_accounts(*m)[r@[i].0] == r@[i].1,
        forall|c: u16| #[trigger]
            dash_accounts(*m).contains_key(c) ==> exists|i: int| 0 <= i < r@.len() && #[trigger] r@[i].0 == c,
        forall|i: int, j: int|
            0 <= i < r@.len() && 0 <= j < r@.len() && i != j ==> (#[trigger] r@[i]).0 != (#[trigger] r@[j]).0,
{
    m.iter().map(|e| (*e.key(), *e.value())).collect()
}

/// `DashMap::new` for the deposit map: no entries.
#[verifier::external_body]
fn deposit_map_new() -> (r: DashMap<u32, DepositRecord>)
    ensures
        dash_deposits(r).dom() == Set::<u32>::empty(),
{
    DashMap::new()
}

/// `DashMap::get` on the deposit map, the record copied out of the guard:
/// the entry under `tx`, if any.
#[verifier::external_body]
fn deposit_map_get(m: &DashMap<u32, DepositRecord>, tx: u32) -> (r: Option<DepositRecord>)
    ensures
        r == (if dash_deposits(*m).contains_key(tx) {
            Some(dash_deposits(*m)[tx])
        } else {
            None
        }),
{
    m.get(&tx).map(|e| *e.value())
}

/// `DashMap::insert` on the deposit map: the entry under `tx` becomes
/// `record` (the replaced value is dropped).
#[verifier::external_body]
fn deposit_map_insert(m: &mut DashMap<u32, DepositRecord>, tx: u32, record: DepositRecord)
    ensures
        dash_deposits(*final(m)) == dash_deposits(*old(m)).insert(tx, record),
{
    m.insert(tx, record);
}

/// `DashSet::new`: no members.
#[verifier::external_body]
fn seen_set_new() -> (r: DashSet<u32>)
    ensures
        dash_seen(r) == Set::<u32>::empty(),
{
    DashSet::new()
}

/// `DashSet::insert`: `tx` becomes a member; true when it was not one.
#[verifier::external_body]
fn seen_set_insert(s: &mut DashSet<u32>, tx: u32) -> (r: bool)
    ensures
        dash_seen(*final(s)) == dash_seen(*old(s)).insert(tx),
        r == !dash_seen(*old(s)).contains(tx),
{
    s.insert(tx)
}

/// `DashSet::contains`.
#[verifier::external_body]
fn seen_set_contains(s: &DashSet<u32>, tx: u32) -> (r: bool)
    ensures
        r == dash_seen(*s).contains(tx),
{
    s.contains(&tx)
}

/// Sharded engine with the production engine's observable behaviour.
pub struct DashEngine {
    accounts: DashMap<u16, Account>,
    deposits: DashMap<u32, DepositRecord>,
    seen_txs: DashSet<u32>,
}

impl View for DashEngine {
    type V = EngineView;

    closed spec fn view(&self) -> EngineView {
        EngineView {
            accounts: dash_accounts(self.accounts).map_values(|a: Account| a@),
            deposits: dash_deposits(self.deposits).map_values(|d: DepositRecord| d@),
            seen: dash_seen(self.seen_txs),
        }
    }
}

impl DashEngine {
    /// The abstract state satisfies [`engine_inv`].
    pub closed spec fn wf(&self) -> bool {
        engine_inv(self@)
    }

    /// Construct an empty engine.
    pub fn new() -> (r: DashEngine)
        ensures
            r.wf(),
            r@ == initial_state(),
    {
        let r = DashEngine {
            accounts: account_map_new(),
            deposits: deposit_map_new(),
            seen_txs: seen_set_new(),
        };
        assert(r@.accounts =~= Map::<u16, AccountView>::empty());
        assert(r@.deposits =~= Map::<u32, DepositView>::empty());
        r
    }

    fn account_locked(&self, client: u16) -> (r: bool)
        requires
            self.wf(),
        ensures
            r == is_locked(self@, client),
    {
        match account_map_get(&self.accounts, client) {
            Some(a) => a.locked(),
            None => false,
        }
    }

    /// The client's account, or a fresh one.
    fn account_entry(&self, client: u16) -> (r: Account)
        requires
            self.wf(),
        ensures
            r@ == account_of(self@, client),
    {
        match account_map_get(&self.accounts, client) {
            Some(a) => a,
            None => Account::new(client),
        }
    }

    /// Store `acct` under its client.
    fn store_account(&mut self, acct: Account)
        requires
            old(self).wf(),
        ensures
            final(self).wf(),
            final(self)@ == with_account(old(self)@, acct@),
    {
        proof {
            use_type_invariant(&acct);
        }
        account_map_insert(&mut self.accounts, acct.client(), acct);
        assert(self@.accounts =~= old(self)@.accounts.insert(acct@.client, acct@));
    }

    /// Classify a lifecycle event on a tx id with no deposit record:
    /// `WithdrawalDispute` when the id was seen, `TxNotFound` otherwise.
    fn classify_missing(&self, client: u16, tx: u32) -> (r: EngineError)
        ensures
            r == missing_deposit(self@.seen.contains(tx), client, tx),
    {
        missing_deposit_error(seen_set_contains(&self.seen_txs, tx), client, tx)
    }

    /// True when submitting `tx` keeps every balance representable; when it
    /// is false, `submit` may not be called with `tx`.
    pub fn can_submit(&self, tx: &Transaction) -> (r: bool)
        requires
            self.wf(),
        ensures
            r == step_fits(self@, *tx),
    {
        match *tx {
            Transaction::Deposit { client, tx, amount } => {
                if !amount.is_positive() || self.account_locked(client) || seen_set_contains(
                    &self.seen_txs,
                    tx,
                ) {
                    true
                } else {
                    self.account_entry(client).can_deposit(amount)
                }
            },
            Transaction::Withdrawal { client, tx, amount } => {
                if !amount.is_positive() || self.account_locked(client) || seen_set_contains(
                    &self.seen_txs,
                    tx,
                ) {
                    true
                } else {
                    let a = self.account_entry(client);
                    amount.greater_than(&a.available()) || a.can_withdraw(amount)
                }
            },
            Transaction::Dispute { client, tx } => match deposit_map_get(&self.deposits, tx) {
                None => true,
                Some(d) => {
                    if d.client() != client || d.state() != DisputeState::NotDisputed
                        || self.account_locked(client) {
                        true
                    } else {
                        self.account_entry(client).can_hold(d.amount())
                    }
                },
            },
            Transaction::Resolve { client, tx } => match deposit_map_get(&self.deposits, tx) {
                None => true,
                Some(d) => {
                    d.client() != client || d.state() != DisputeState::Disputed
                        || self.account_entry(client).can_release(d.amount())
                },
            },
            Transaction::Chargeback { client, tx } => match deposit_map_get(&self.deposits, tx) {
                None => true,
                Some(d) => {
                    d.client() != client || d.state() != DisputeState::Disputed
                        || self.account_entry(client).can_charge_back(d.amount())
                },
            },
        }
    }

    /// Apply one transaction, with exactly the effect and result of the
    /// production engine's `process`: the new state and result are
    /// [`step`]'s.
    pub fn submit(&mut self, tx: Transaction) -> (r: Result<(), EngineError>)
        requires
            old(self).wf(),
            step_fits(old(self)@, tx),
        ensures
            final(self).wf(),
            final(self)@ == step(old(self)@, tx).0,
            r == step(old(self)@, tx).1,
    {
        match tx {
            Transaction::Deposit { client, tx, amount } => self.apply_deposit(client, tx, amount),
            Transaction::Withdrawal { client, tx, amount } => self.apply_withdrawal(
                client,
                tx,
                amount,
            ),
            Transaction::Dispute { client, tx } => self.apply_dispute(client, tx),
            Transaction::Resolve { client, tx } => self.apply_resolve(client, tx),
            Transaction::Chargeback { client, tx } => self.apply_chargeback(client, tx),
        }
    }

    fn apply_deposit(&mut self, client: u16, tx: u32, amount: Amount) -> (r: Result<
        (),
        EngineError,
    >)
        requires
            old(self).wf(),
            step_fits(old(self)@, Transaction::Deposit { client, tx, amount }),
        ensures
            final(self).wf(),
            final(self)@ == step(old(self)@, Transaction::Deposit { client, tx, amount }).0,
            r == step(old(self)@, Transaction::Deposit { client, tx, amount }).1,
    {
        proof {
            use_type_invariant(&amount);
        }
        if !amount.is_positive() {
            return Err(EngineError::NonPositiveAmount { client, tx, amount });
        }
        if self.account_locked(client) {
            return Err(EngineError::AccountLocked { client, tx });
        }
        let ghost pre = self@;
        if !seen_set_insert(&mut self.seen_txs, tx) {
            assert(self@.seen =~= pre.seen);
            return Err(EngineError::DuplicateTxId { client, tx });
        }
        let mut acct = match account_map_get(&self.accounts, client) {
            Some(a) => a,
            None => Account::new(client),
        };
        assert(acct@ == account_of(pre, client));
        deposit_map_insert(&mut self.deposits, tx, DepositRecord::new(client, amount));
        acct.apply_deposit(amount);
        account_map_insert(&mut self.accounts, client, acct);
        proof {
            assert(self@.deposits =~= pre.deposits.insert(
                tx,
                DepositView { client, amount, state: DisputeState::NotDisputed },
            ));
            assert(self@.accounts =~= pre.accounts.insert(client, acct@));
        }
        Ok(())
    }

    fn apply_withdrawal(&mut self, client: u16, tx: u32, amount: Amount) -> (r: Result<
        (),
        EngineError,
    >)
        requires
            old(self).wf(),
            step_fits(old(self)@, Transaction::Withdrawal { client, tx, amount }),
        ensures
            final(self).wf(),
            final(self)@ == step(old(self)@, Transaction::Withdrawal { client, tx, amount }).0,
            r == step(old(self)@, Transaction::Withdrawal { client, tx, amount }).1,
    {
        proof {
            use_type_invariant(&amount);
        }
        if !amount.is_positive() {
            return Err(EngineError::NonPositiveAmount { client, tx, amount });
        }
        if self.account_locked(client) {
            return Err(EngineError::AccountLocked { client, tx });
        }
        let ghost pre = self@;
        if !seen_set_insert(&mut self.seen_txs, tx) {
            assert(self@.seen =~= pre.seen);
            return Err(EngineError::DuplicateTxId { client, tx });
        }
        // The tx id is consumed even when the debit is refused.
        let mut acct = self.account_entry(client);
        let result = acct.apply_withdrawal(amount);
        proof {
            use_type_invariant(&acct);
        }
        self.store_account(acct);
        match result {
            Ok(()) => Ok(()),
            Err(_) => Err(EngineError::InsufficientFunds { client, tx, amount }),
        }
    }

    /// Write back the record under `tx`, which already names a deposit.
    fn store_deposit(&mut self, tx: u32, record: DepositRecord)
        requires
            old(self).wf(),
            old(self)@.deposits.contains_key(tx),
            record@.client == old(self)@.deposits[tx].client,
            record@.amount == old(self)@.deposits[tx].amount,
        ensures
            final(self)@ == (EngineView {
                deposits: old(self)@.deposits.insert(tx, record@),
                ..old(self)@
            }),
            final(self).wf(),
    {
        deposit_map_insert(&mut self.deposits, tx, record);
        assert(self@.deposits =~= old(self)@.deposits.insert(tx, record@));
    }

    fn apply_dispute(&mut self, client: u16, tx: u32) -> (r: Result<(), EngineError>)
        requires
            old(self).wf(),
            step_fits(old(self)@, Transaction::Dispute { client, tx }),
        ensures
            final(self).wf(),
            final(self)@ == step(old(self)@, Transaction::Dispute { client, tx }).0,
            r == step(old(self)@, Transaction::Dispute { client, tx }).1,
    {
        let mut dep = match deposit_map_get(&self.deposits, tx) {
            Some(d) => d,
            None => return Err(self.classify_missing(client, tx)),
        };
        if dep.client() != client {
            return Err(EngineError::ClientMismatch { client, tx });
        }
        if dep.state() == DisputeState::NotDisputed && self.account_locked(client) {
            return Err(EngineError::AccountLocked { client, tx });
        }
        let amount = match dep.try_dispute() {
            Ok(amount) => amount,
            Err(DisputeRejection::AlreadyDisputed) => {
                return Err(EngineError::AlreadyDisputed { client, tx });
            },
            Err(DisputeRejection::ChargedBack) => {
                return Err(EngineError::ChargedBack { client, tx });
            },
        };
        let ghost pre = self@;
        self.store_deposit(tx, dep);
        let mut acct = self.account_entry(client);
        acct.apply_hold(amount);
        proof {
            use_type_invariant(&acct);
        }
        self.store_account(acct);
        proof {
            let post = step(pre, Transaction::Dispute { client, tx }).0;
            assert(self@.accounts =~= post.accounts);
        }
        Ok(())
    }

    fn apply_resolve(&mut self, client: u16, tx: u32) -> (r: Result<(), EngineError>)
        requires
            old(self).wf(),
            step_fits(old(self)@, Transaction::Resolve { client, tx }),
        ensures
            final(self).wf(),
            final(self)@ == step(old(self)@, Transaction::Resolve { client, tx }).0,
            r == step(old(self)@, Transaction::Resolve { client, tx }).1,
    {
        let mut dep = match deposit_map_get(&self.deposits, tx) {
            Some(d) => d,
            None => return Err(self.classify_missing(client, tx)),
        };
        if dep.client() != client {
            return Err(EngineError::ClientMismatch { client, tx });
        }
        let amount = match dep.try_resolve() {
            Ok(amount) => amount,
            Err(_) => return Err(EngineError::NotDisputed { client, tx }),
        };
        let ghost pre = self@;
        self.store_deposit(tx, dep);
        let mut acct = self.account_entry(client);
        acct.apply_release(amount);
        proof {
            use_type_invariant(&acct);
        }
        self.store_account(acct);
        proof {
            let post = step(pre, Transaction::Resolve { client, tx }).0;
            assert(self@.accounts =~= post.accounts);
        }
        Ok(())
    }

    fn apply_chargeback(&mut self, client: u16, tx: u32) -> (r: Result<(), EngineError>)
        requires
            old(self).wf(),
            step_fits(old(self)@, Transaction::Chargeback { client, tx }),
        ensures
            final(self).wf(),
            final(self)@ == step(old(self)@, Transaction::Chargeback { client, tx }).0,
            r == step(old(self)@, Transaction::Chargeback { client, tx }).1,
    {
        let mut dep = match deposit_map_get(&self.deposits, tx) {
            Some(d) => d,
            None => return Err(self.classify_missing(client, tx)),
        };
        if dep.client() != client {
            return Err(EngineError::ClientMismatch { client, tx });
        }
        let amount = match dep.try_chargeback() {
            Ok(amount) => amount,
            Err(_) => return Err(EngineError::NotDisputed { client, tx }),
        };
        let ghost pre = self@;
        self.store_deposit(tx, dep);
        // A chargeback of a dispute opened before the lock is allowed, so
        // there is no lock check.
        let mut acct = self.account_entry(client);
        acct.apply_chargeback(amount);
        proof {
            use_type_invariant(&acct);
        }
        self.store_account(acct);
        proof {
            let post = step(pre, Transaction::Chargeback { client, tx }).0;
            assert(self@.accounts =~= post.accounts);
        }
        Ok(())
    }

    /// Every known account, each once, sorted by client id.
    pub fn snapshot(&self) -> (r: Vec<Account>)
        requires
            self.wf(),
        ensures
            lists_accounts(account_views(r@), self@.accounts),
            sorted_by_client(r@),
    {
        let entries = account_map_entries(&self.accounts);
        let mut listed: Vec<Account> = Vec::new();
        let mut i: usize = 0;
        while i < entries.len()
            invariant
                0 <= i <= entries@.len(),
                listed@.len() == i,
                forall|j: int| 0 <= j < i ==> #[trigger] listed@[j] == entries@[j].1,
            decreases entries@.len() - i,
        {
            listed.push(entries[i].1);
            i = i + 1;
        }
        proof {
            let m = dash_accounts(self.accounts);
            let v = account_views(listed@);
            assert forall|j: int| 0 <= j < v.len() implies self@.accounts.contains_key(
                #[trigger] v[j].client,
            ) && self@.accounts[v[j].client] == v[j] by {
                assert(m.contains_key(entries@[j].0));
                assert(self@.accounts.contains_key(entries@[j].0));
                assert(self@.accounts[entries@[j].0].client == entries@[j].0);
            }
            assert forall|c: u16| #[trigger] self@.accounts.contains_key(c) implies exists|j: int|
                0 <= j < v.len() && #[trigger] v[j].client == c by {
                assert(m.contains_key(c));
                let j = choose|j: int| 0 <= j < entries@.len() && #[trigger] entries@[j].0 == c;
                assert(v[j].client == c);
            }
            assert forall|a: int, b: int|
                0 <= a < v.len() && 0 <= b < v.len() && a != b implies #[trigger] v[a].client
                != #[trigger] v[b].client by {
                assert(m.contains_key(entries@[a].0));
                assert(m.contains_key(entries@[b].0));
                assert(self@.accounts.contains_key(entries@[a].0));
                assert(self@.accounts.contains_key(entries@[b].0));
                assert(self@.accounts[entries@[a].0].client == entries@[a].0);
                assert(self@.accounts[entries@[b].0].client == entries@[b].0);
            }
        }
        let r = sorted_accounts(listed);
        proof {
            lemma_permutation_lists(listed@, r@, self@.accounts);
        }
        r
    }
}

impl Default for DashEngine {
    fn default() -> (r: DashEngine)
        ensures
            r.wf(),
            r@ == initial_state(),
    {
        DashEngine::new()
    }
}

/// Process the rows through a fresh sharded engine and render the
/// resulting accounts sorted by client. `None` when some row's arithmetic
/// is not representable.
pub fn run(rows: Vec<RawTransaction>) -> (r: Option<Vec<Vec<String>>>)
    ensures
        r is Some <==> rows_fit(initial_state(), rows@),
        r matches Some(records) ==> exists|list: Seq<Account>|
            lists_accounts(account_views(list), after_rows(initial_state(), rows@).accounts)
                && sorted_by_client(list) && records_text(records@) == snapshot_text(
                account_views(list),
            ),
{
    let mut engine = DashEngine::new();
    let mut i: usize = 0;
    while i < rows.len()
        invariant
            engine.wf(),
            0 <= i <= rows@.len(),
            rows_fit(initial_state(), rows@.take(i as int)),
            engine@ == after_rows(initial_state(), rows@.take(i as int)),
        decreases rows@.len() - i,
    {
        proof {
            assert(rows@.take(i + 1).drop_last() =~= rows@.take(i as int));
            assert(rows@.take(i + 1).last() == rows@[i as int]);
        }
        if let Ok(tx) = Transaction::try_from(rows[i]) {
            if !engine.can_submit(&tx) {
                proof {
                    if rows_fit(initial_state(), rows@) {
                        crate::engine::io::lemma_rows_fit_prefix(initial_state(), rows@, i as int);
                    }
                }
                return None;
            }
            let _ = engine.submit(tx);
        }
        i = i + 1;
    }
    assert(rows@.take(rows@.len() as int) =~= rows@);
    let accounts = engine.snapshot();
    Some(write_snapshots(&accounts))
}

} // verus!
