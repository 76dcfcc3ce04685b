//! Per-client account state.
//!
//! `total` is never stored: it is derived as `available + held`, so the
//! identity `total == available + held` holds by construction. Every
//! mutation goes through the methods below, and each keeps the account
//! well formed: the balances are valid amounts whose sum is representable.
use crate::amount::{add_fits, spec_add, spec_sub, sub_fits, Amount};
use vstd::prelude::*;

verus! {

broadcast use crate::amount::group_amount_lemmas;

/// The abstract state of an account.
pub struct AccountView {
    pub client: u16,
    pub available: Amount,
    pub held: Amount,
    pub locked: bool,
}

impl AccountView {
    /// A fresh account with zeroed balances.
    pub open spec fn fresh(client: u16) -> AccountView {
        AccountView {
            client,
            available: Amount::spec_zero(),
            held: Amount::spec_zero(),
            locked: false,
        }
    }

    /// Both balances are valid and their sum is representable.
    pub open spec fn wf(self) -> bool {
        &&& self.available.wf()
        &&& self.held.wf()
        &&& add_fits(self.available, self.held)
    }

    /// `available + held`.
    pub open spec fn total(self) -> Amount {
        spec_add(self.available, self.held)
    }

    pub open spec fn deposit(self, amount: Amount) -> AccountView {
        AccountView { available: spec_add(self.available, amount), ..self }
    }

    pub open spec fn withdraw(self, amount: Amount) -> AccountView {
        AccountView { available: spec_sub(self.available, amount), ..self }
    }

    pub open spec fn hold(self, amount: Amount) -> AccountView {
        AccountView {
            available: spec_sub(self.available, amount),
            held: spec_add(self.held, amount),
            ..self
        }
    }

    pub open spec fn release(self, amount: Amount) -> AccountView {
        AccountView {
            available: spec_add(self.available, amount),
            held: spec_sub(self.held, amount),
            ..self
        }
    }

    pub open spec fn charge_back(self, amount: Amount) -> AccountView {
        AccountView { held: spec_sub(self.held, amount), locked: true, ..self }
    }

    /// The deposit's arithmetic, and the new total, are representable.
    pub open spec fn can_deposit(self, amount: Amount) -> bool {
        &&& add_fits(self.available, amount)
        &&& add_fits(spec_add(self.available, amount), self.held)
    }

    pub open spec fn can_withdraw(self, amount: Amount) -> bool {
        &&& sub_fits(self.available, amount)
        &&& add_fits(spec_sub(self.available, amount), self.held)
    }

    pub open spec fn can_hold(self, amount: Amount) -> bool {
        &&& sub_fits(self.available, amount)
        &&& add_fits(self.held, amount)
        &&& add_fits(spec_sub(self.available, amount), spec_add(self.held, amount))
    }

    pub open spec fn can_release(self, amount: Amount) -> bool {
        &&& add_fits(self.available, amount)
        &&& sub_fits(self.held, amount)
        &&& add_fits(spec_add(self.available, amount), spec_sub(self.held, amount))
    }

    pub open spec fn can_charge_back(self, amount: Amount) -> bool {
        &&& sub_fits(self.held, amount)
        &&& add_fits(self.available, spec_sub(self.held, amount))
    }
}

/// Releasing an amount undoes holding it: after a hold and a matching
/// release, available, held and total have their former values, and the
/// client and lock flag are unchanged throughout.
pub proof fn law_release_undoes_hold(a: AccountView, amount: Amount)
    requires
        a.wf(),
        amount.wf(),
        a.can_hold(amount),
        a.hold(amount).can_release(amount),
    ensures
        a.hold(amount).release(amount).available.units() == a.available.units(),
        a.hold(amount).release(amount).held.units() == a.held.units(),
        a.hold(amount).release(amount).total().units() == a.total().units(),
        a.hold(amount).release(amount).client == a.client,
        a.hold(amount).release(amount).locked == a.locked,
{
    let h = a.hold(amount);
    let r = h.release(amount);
    assert(h.available.wf() && h.held.wf());
    assert(r.available.wf() && r.held.wf());
}

/// Snapshot of a single client's balances and lock status.
#[derive(Clone, Copy, Debug)]
pub struct Account {
    client: u16,
    available: Amount,
    held: Amount,
    locked: bool,
}

impl View for Account {
    type V = AccountView;

    closed spec fn view(&self) -> AccountView {
        AccountView {
            client: self.client,
            available: self.available,
            held: self.held,
            locked: self.locked,
        }
    }
}

impl Account {
    /// Every account is well formed.
    #[verifier::type_invariant]
    pub open spec fn wf(self) -> bool {
        self@.wf()
    }

    /// Two accounts with the same abstract state are the same account value.
    pub proof fn lemma_view_injective(x: Account, y: Account)
        requires
            x@ == y@,
        ensures
            x == y,
    {
    }

    /// Create a fresh account with zeroed balances.
    pub fn new(client: u16) -> (r: Account)
        ensures
            r@ == AccountView::fresh(client),
    {
        let zero = Amount::zero();
        Account { client, available: zero, held: zero, locked: false }
    }

    /// Client id.
    pub fn client(&self) -> (r: u16)
        ensures
            r == self@.client,
    {
        self.client
    }

    /// Funds available for withdrawal.
    pub fn available(&self) -> (r: Amount)
        ensures
            r == self@.available,
    {
        self.available
    }

    /// Funds held pending dispute resolution.
    pub fn held(&self) -> (r: Amount)
        ensures
            r == self@.held,
    {
        self.held
    }

    /// Derived view: `available + held`.
    pub fn total(&self) -> (r: Amount)
        ensures
            r == self@.total(),
            r.units() == self@.available.units() + self@.held.units(),
    {
        proof {
            use_type_invariant(self);
        }
        self.available.plus(self.held)
    }

    /// True after a chargeback has frozen the account.
    pub fn locked(&self) -> (r: bool)
        ensures
            r == self@.locked,
    {
        self.locked
    }

    pub fn can_deposit(&self, amount: Amount) -> (r: bool)
        ensures
            r == self@.can_deposit(amount),
    {
        proof {
            use_type_invariant(self);
        }
        self.available.can_add(&amount) && self.available.plus(amount).can_add(&self.held)
    }

    pub fn can_withdraw(&self, amount: Amount) -> (r: bool)
        ensures
            r == self@.can_withdraw(amount),
    {
        proof {
            use_type_invariant(self);
        }
        self.available.can_sub(&amount) && self.available.minus(amount).can_add(&self.held)
    }

    pub fn can_hold(&self, amount: Amount) -> (r: bool)
        ensures
            r == self@.can_hold(amount),
    {
        proof {
            use_type_invariant(self);
        }
        self.available.can_sub(&amount) && self.held.can_add(&amount) && self.available.minus(
            amount,
        ).can_add(&self.held.plus(amount))
    }

    pub fn can_release(&self, amount: Amount) -> (r: bool)
        ensures
            r == self@.can_release(amount),
    {
        proof {
            use_type_invariant(self);
        }
        self.available.can_add(&amount) && self.held.can_sub(&amount) && self.available.plus(
            amount,
        ).can_add(&self.held.minus(amount))
    }

    pub fn can_charge_back(&self, amount: Amount) -> (r: bool)
        ensures
            r == self@.can_charge_back(amount),
    {
        proof {
            use_type_invariant(self);
        }
        self.held.can_sub(&amount) && self.available.can_add(&self.held.minus(amount))
    }

    /// Credit `amount` to `available`; `held` is unchanged, so `total`
    /// increases by `amount`.
    pub fn apply_deposit(&mut self, amount: Amount)
        requires
            old(self)@.can_deposit(amount),
        ensures
            final(self)@ == old(self)@.deposit(amount),
            final(self)@.available.units() == old(self)@.available.units() + amount.units(),
            final(self)@.total().units() == old(self)@.total().units() + amount.units(),
    {
        proof {
            use_type_invariant(&*self);
            use_type_invariant(&amount);
        }
        let available = self.available.plus(amount);
        *self = Account { available, ..*self };
    }

    /// Debit `amount` from `available`; `held` is unchanged.
    ///
    /// Returns [`InsufficientFunds`], leaving the balances untouched, when
    /// `amount` exceeds `available`.
    pub fn apply_withdrawal(&mut self, amount: Amount) -> (r: Result<(), InsufficientFunds>)
        requires
            amount.units() <= old(self)@.available.units() ==> old(self)@.can_withdraw(amount),
        ensures
            amount.units() > old(self)@.available.units() ==> r is Err && final(self)@ == old(self)@,
            amount.units() <= old(self)@.available.units() ==> r is Ok && final(self)@ == old(self)@.withdraw(amount),
            r is Ok ==> final(self)@.total().units() == old(self)@.total().units()
                - amount.units(),
    {
        proof {
            use_type_invariant(&*self);
            use_type_invariant(&amount);
        }
        if amount.greater_than(&self.available) {
            return Err(InsufficientFunds);
        }
        let available = self.available.minus(amount);
        *self = Account { available, ..*self };
        Ok(())
    }

    /// Move `amount` from `available` to `held`; `total` is unchanged. A hold
    /// may drive `available` negative.
    pub fn apply_hold(&mut self, amount: Amount)
        requires
            old(self)@.can_hold(amount),
        ensures
            final(self)@ == old(self)@.hold(amount),
            final(self)@.total().units() == old(self)@.total().units(),
    {
        proof {
            use_type_invariant(&*self);
            use_type_invariant(&amount);
        }
        let available = self.available.minus(amount);
        let held = self.held.plus(amount);
        *self = Account { available, held, ..*self };
    }

    /// Inverse of [`Account::apply_hold`]: move `amount` from `held` back to
    /// `available`; `total` is unchanged.
    pub fn apply_release(&mut self, amount: Amount)
        requires
            old(self)@.can_release(amount),
        ensures
            final(self)@ == old(self)@.release(amount),
            final(self)@.total().units() == old(self)@.total().units(),
    {
        proof {
            use_type_invariant(&*self);
            use_type_invariant(&amount);
        }
        let held = self.held.minus(amount);
        let available = self.available.plus(amount);
        *self = Account { available, held, ..*self };
    }

    /// Drop `amount` from `held` without crediting `available`, and lock the
    /// account; `total` decreases by `amount`.
    pub fn apply_chargeback(&mut self, amount: Amount)
        requires
            old(self)@.can_charge_back(amount),
        ensures
            final(self)@ == old(self)@.charge_back(amount),
            final(self)@.total().units() == old(self)@.total().units() - amount.units(),
            final(self)@.locked,
    {
        proof {
            use_type_invariant(&*self);
            use_type_invariant(&amount);
        }
        let held = self.held.minus(amount);
        *self = Account { held, locked: true, ..*self };
    }
}

/// Returned by [`Account::apply_withdrawal`] when the requested debit exceeds
/// `available`.
#[derive(Debug, PartialEq, Eq, Structural)]
pub struct InsufficientFunds;

} // verus!
