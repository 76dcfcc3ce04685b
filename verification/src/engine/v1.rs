//! First engine version: per-client accounts credited by deposits.
//!
//! Only deposits act on the state; withdrawals and the dispute lifecycle
//! are accepted and leave it unchanged.
pub mod error;
pub mod io;
pub mod ledger;

pub use super::account;

use std::collections::HashMap;

use super::account::{Account, AccountView};
use super::transaction::Transaction;
use super::{account_views, lists_accounts};
use error::EngineError;
use vstd::prelude::*;

verus! {

broadcast use vstd::std_specs::hash::group_hash_axioms;

/// The client's account, or a fresh one.
pub open spec fn account_in(accounts: Map<u16, AccountView>, client: u16) -> AccountView {
    if accounts.contains_key(client) {
        accounts[client]
    } else {
        AccountView::fresh(client)
    }
}

/// The accounts after `t`: a deposit credits the client's account (created
/// when unseen); every other transaction changes nothing.
pub open spec fn step(accounts: Map<u16, AccountView>, t: Transaction) -> Map<u16, AccountView> {
    match t {
        Transaction::Deposit { client, amount, .. } => accounts.insert(
            client,
            account_in(accounts, client).deposit(amount),
        ),
        _ => accounts,
    }
}

/// The deposit's arithmetic is representable.
pub open spec fn step_fits(accounts: Map<u16, AccountView>, t: Transaction) -> bool {
    match t {
        Transaction::Deposit { client, amount, .. } => account_in(accounts, client).can_deposit(
            amount,
        ),
        _ => true,
    }
}

/// Every account is filed under its own client and is a valid account.
pub open spec fn accounts_valid(accounts: Map<u16, AccountView>) -> bool {
    forall|c: u16| #[trigger]
        accounts.contains_key(c) ==> accounts[c].client == c && accounts[c].wf()
}

/// In-memory payments engine holding the per-client account map.
pub struct Engine {
    accounts: HashMap<u16, Account>,
    /// Clients in the order their accounts were created.
    clients: Vec<u16>,
}

impl View for Engine {
    type V = Map<u16, AccountView>;

    closed spec fn view(&self) -> Map<u16, AccountView> {
        self.accounts@.map_values(|a: Account| a@)
    }
}

impl Engine {
    /// Each account is valid, filed under its own client and listed once.
    pub closed spec fn wf(&self) -> bool {
        &&& accounts_valid(self@)
        &&& self.clients@.no_duplicates()
        &&& forall|i: int|
            0 <= i < self.clients@.len() ==> self.accounts@.contains_key(#[trigger] self.clients@[i])
        &&& forall|c: u16| #[trigger] self.accounts@.contains_key(c) ==> self.clients@.contains(c)
    }

    /// A well-formed engine's accounts are valid and filed under their
    /// clients.
    pub proof fn lemma_accounts_valid(&self)
        requires
            self.wf(),
        ensures
            accounts_valid(self@),
    {
    }

    /// Create an empty engine.
    pub fn new() -> (r: Engine)
        ensures
            r.wf(),
            accounts_valid(r@),
            r@ == Map::<u16, AccountView>::empty(),
    {
        let r = Engine { accounts: HashMap::new(), clients: Vec::new() };
        assert(r@ =~= Map::<u16, AccountView>::empty());
        r
    }

    /// True when processing `tx` keeps every balance representable.
    pub fn can_process(&self, tx: &Transaction) -> (r: bool)
        requires
            self.wf(),
        ensures
            r == step_fits(self@, *tx),
    {
        match *tx {
            Transaction::Deposit { client, amount, .. } => self.account_entry(client).can_deposit(
                amount,
            ),
            _ => true,
        }
    }

    fn account_entry(&self, client: u16) -> (r: Account)
        requires
            self.wf(),
        ensures
            r@ == account_in(self@, client),
    {
        match self.accounts.get(&client) {
            Some(a) => *a,
            None => Account::new(client),
        }
    }

    /// Apply `tx`: a deposit credits the client's `available` (creating the
    /// account when unseen); the other kinds are accepted as no-ops.
    /// Always succeeds.
    pub fn process(&mut self, tx: Transaction) -> (r: Result<(), EngineError>)
        requires
            old(self).wf(),
            step_fits(old(self)@, tx),
        ensures
            final(self).wf(),
            accounts_valid(final(self)@),
            final(self)@ == step(old(self)@, tx),
            r is Ok,
    {
        match tx {
            Transaction::Deposit { client, amount, .. } => {
                let mut acct = self.account_entry(client);
                acct.apply_deposit(amount);
                proof {
                    use_type_invariant(&acct);
                }
                let ghost old_clients = self.clients@;
                if !self.accounts.contains_key(&client) {
                    self.clients.push(client);
                    proof {
                        assert forall|c: u16| old(self).accounts@.contains_key(
                            c,
                        ) implies #[trigger] self.clients@.contains(c) by {
                            let j = choose|j: int| 0 <= j < old_clients.len() && old_clients[j] == c;
                            assert(self.clients@[j] == c);
                        }
                        assert(self.clients@[old_clients.len() as int] == client);
                    }
                }
                self.accounts.insert(client, acct);
                assert(self@ =~= step(old(self)@, tx));
                Ok(())
            },
            _ => Ok(()),
        }
    }

    /// All known accounts, each exactly once, in the order they were created.
    pub fn accounts(&self) -> (r: Vec<Account>)
        requires
            self.wf(),
        ensures
            lists_accounts(account_views(r@), self@),
    {
        let mut out: Vec<Account> = Vec::new();
        let mut i: usize = 0;
        while i < self.clients.len()
            invariant
                self.wf(),
                0 <= i <= self.clients@.len(),
                out@.len() == i,
                forall|j: int| 0 <= j < i ==> (#[trigger] out@[j])@ == self@[self.clients@[j]],
            decreases self.clients@.len() - i,
        {
            let c = self.clients[i];
            let a = *self.accounts.get(&c).unwrap();
            out.push(a);
            i = i + 1;
        }
        proof {
            let v = account_views(out@);
            assert forall|j: int| 0 <= j < v.len() implies self@.contains_key(
                #[trigger] v[j].client,
            ) && self@[v[j].client] == v[j] by {
                assert(self@.contains_key(self.clients@[j]));
            }
            assert forall|a: int, b: int|
                0 <= a < v.len() && 0 <= b < v.len() && a != b implies #[trigger] v[a].client
                != #[trigger] v[b].client by {
                assert(self@.contains_key(self.clients@[a]));
                assert(self@.contains_key(self.clients@[b]));
            }
            assert forall|c: u16| #[trigger] self@.contains_key(c) implies exists|j: int|
                0 <= j < v.len() && #[trigger] v[j].client == c by {
                let j = choose|j: int| 0 <= j < self.clients@.len() && self.clients@[j] == c;
                assert(v[j].client == c);
            }
        }
        out
    }
}

impl Default for Engine {
    fn default() -> (r: Engine)
        ensures
            r.wf(),
            r@.is_empty(),
    {
        Engine::new()
    }
}

} // verus!
