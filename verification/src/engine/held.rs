//! Held funds are exactly the disputed deposits: every account's `held`
//! balance is the sum of the amounts of its deposits that are under
//! dispute, in every reachable state.
use crate::engine::ledger::{DepositView, DisputeState};
use crate::engine::transaction::Transaction;
use crate::engine::laws::transaction_wf;
use crate::engine::{account_of, engine_inv, initial_state, step, step_fits, EngineView};
use vstd::prelude::*;
use vstd::set::fold::{is_fun_commutative, lemma_fold_empty, lemma_fold_insert};

verus! {

broadcast use crate::amount::group_amount_lemmas;

/// What deposit `tx` adds to `client`'s held funds: its amount while it is
/// the client's and disputed, nothing otherwise.
pub open spec fn disputed_units(deposits: Map<u32, DepositView>, client: u16, tx: u32) -> int {
    if deposits[tx].client == client && deposits[tx].state == DisputeState::Disputed {
        deposits[tx].amount.units()
    } else {
        0
    }
}

/// One step of the sum of disputed amounts.
pub open spec fn add_disputed(deposits: Map<u32, DepositView>, client: u16) -> spec_fn(int, u32) -> int {
    |acc: int, tx: u32| acc + disputed_units(deposits, client, tx)
}

/// The sum of the amounts of `client`'s disputed deposits.
pub open spec fn disputed_total(deposits: Map<u32, DepositView>, client: u16) -> int {
    deposits.dom().fold(0, add_disputed(deposits, client))
}

/// Every account holds exactly the sum of its disputed deposits.
pub open spec fn held_matches_disputes(s: EngineView) -> bool {
    &&& s.deposits.dom().finite()
    &&& forall|c: u16| #[trigger]
        s.accounts.contains_key(c) ==> s.accounts[c].held.units() == disputed_total(s.deposits, c)
}

proof fn lemma_add_disputed_commutative(deposits: Map<u32, DepositView>, client: u16)
    ensures
        is_fun_commutative(add_disputed(deposits, client)),
{
}

/// Folds whose contributions agree on a set are equal.
proof fn lemma_fold_agree(s: Set<u32>, d1: Map<u32, DepositView>, d2: Map<u32, DepositView>, client: u16)
    requires
        s.finite(),
        forall|tx: u32|
            s.contains(tx) ==> #[trigger] disputed_units(d1, client, tx) == disputed_units(
                d2,
                client,
                tx,
            ),
    ensures
        s.fold(0, add_disputed(d1, client)) == s.fold(0, add_disputed(d2, client)),
    decreases s.len(),
{
    lemma_add_disputed_commutative(d1, client);
    lemma_add_disputed_commutative(d2, client);
    if s.len() == 0 {
        assert(s =~= Set::<u32>::empty());
        lemma_fold_empty(0int, add_disputed(d1, client));
        lemma_fold_empty(0int, add_disputed(d2, client));
    } else {
        let tx = s.choose();
        let r = s.remove(tx);
        lemma_fold_agree(r, d1, d2, client);
        lemma_fold_insert(r, 0int, add_disputed(d1, client), tx);
        lemma_fold_insert(r, 0int, add_disputed(d2, client), tx);
        assert(r.insert(tx) =~= s);
    }
}

/// A fold whose contributions are all zero is zero.
proof fn lemma_fold_zero(s: Set<u32>, d: Map<u32, DepositView>, client: u16)
    requires
        s.finite(),
        forall|tx: u32| s.contains(tx) ==> #[trigger] disputed_units(d, client, tx) == 0,
    ensures
        s.fold(0, add_disputed(d, client)) == 0,
    decreases s.len(),
{
    lemma_add_disputed_commutative(d, client);
    if s.len() == 0 {
        assert(s =~= Set::<u32>::empty());
        lemma_fold_empty(0int, add_disputed(d, client));
    } else {
        let tx = s.choose();
        let r = s.remove(tx);
        lemma_fold_zero(r, d, client);
        lemma_fold_insert(r, 0int, add_disputed(d, client), tx);
        assert(r.insert(tx) =~= s);
    }
}

/// Taking one deposit out of the sum.
proof fn lemma_fold_remove(s: Set<u32>, d: Map<u32, DepositView>, client: u16, tx: u32)
    requires
        s.finite(),
        s.contains(tx),
    ensures
        s.fold(0, add_disputed(d, client)) == s.remove(tx).fold(0, add_disputed(d, client))
            + disputed_units(d, client, tx),
{
    lemma_add_disputed_commutative(d, client);
    lemma_fold_insert(s.remove(tx), 0int, add_disputed(d, client), tx);
    assert(s.remove(tx).insert(tx) =~= s);
}

/// Replacing the record under `tx` changes the sum by the difference of
/// the two records' contributions.
proof fn lemma_total_after_insert(d: Map<u32, DepositView>, tx: u32, rec: DepositView, client: u16)
    requires
        d.dom().finite(),
    ensures
        disputed_total(d.insert(tx, rec), client) == disputed_total(d, client) - (if d.contains_key(
            tx,
        ) {
            disputed_units(d, client, tx)
        } else {
            0
        }) + disputed_units(d.insert(tx, rec), client, tx),
{
    let d2 = d.insert(tx, rec);
    let rest = d.dom().remove(tx);
    assert(d2.dom().remove(tx) =~= rest);
    lemma_fold_remove(d2.dom(), d2, client, tx);
    assert forall|t: u32| rest.contains(t) implies #[trigger] disputed_units(d2, client, t)
        == disputed_units(d, client, t) by {
        assert(d2[t] == d[t]);
    }
    lemma_fold_agree(rest, d2, d, client);
    if d.contains_key(tx) {
        lemma_fold_remove(d.dom(), d, client, tx);
    } else {
        assert(rest =~= d.dom());
    }
}

/// A client with no deposit has nothing disputed.
proof fn lemma_total_without_deposits(d: Map<u32, DepositView>, client: u16)
    requires
        d.dom().finite(),
        forall|tx: u32| #[trigger] d.contains_key(tx) ==> d[tx].client != client,
    ensures
        disputed_total(d, client) == 0,
{
    lemma_fold_zero(d.dom(), d, client);
}

/// A new engine holds nothing and has no deposits.
pub proof fn law_held_matches_disputes_initially()
    ensures
        held_matches_disputes(initial_state()),
{
}

/// Every step keeps each account's held funds equal to the sum of its
/// disputed deposits: a dispute holds the deposit's amount, a resolve or
/// chargeback releases it, and nothing else moves held funds or dispute
/// states.
pub proof fn law_step_keeps_held_matching_disputes(s: EngineView, t: Transaction)
    requires
        engine_inv(s),
        held_matches_disputes(s),
        step_fits(s, t),
        transaction_wf(t),
    ensures
        held_matches_disputes(step(s, t).0),
{
    let (s2, r) = step(s, t);
    assert(s2.deposits.dom().finite()) by {
        let tx = match t {
            Transaction::Deposit { tx, .. } => tx,
            Transaction::Withdrawal { tx, .. } => tx,
            Transaction::Dispute { tx, .. } => tx,
            Transaction::Resolve { tx, .. } => tx,
            Transaction::Chargeback { tx, .. } => tx,
        };
        assert(s2.deposits.dom().subset_of(s.deposits.dom().insert(tx)));
        vstd::set_lib::lemma_set_subset_finite(s.deposits.dom().insert(tx), s2.deposits.dom());
    }
    assert forall|c: u16| #[trigger] s2.accounts.contains_key(c) implies s2.accounts[c].held.units()
        == disputed_total(s2.deposits, c) by {
        match t {
            Transaction::Deposit { client, tx, amount } => {
                if r is Ok {
                    assert(!s.deposits.contains_key(tx));
                    lemma_total_after_insert(
                        s.deposits,
                        tx,
                        DepositView { client, amount, state: DisputeState::NotDisputed },
                        c,
                    );
                    if c == client && !s.accounts.contains_key(c) {
                        lemma_total_without_deposits(s.deposits, c);
                    }
                }
            },
            Transaction::Withdrawal { client, .. } => {
                if c == client && !s.accounts.contains_key(c) {
                    lemma_total_without_deposits(s.deposits, c);
                }
            },
            Transaction::Dispute { client, tx } => {
                if r is Ok {
                    let d = s.deposits[tx];
                    let a = account_of(s, client);
                    assert(a.wf());
                    assert(d.amount.wf());
                    lemma_total_after_insert(s.deposits, tx, d.with_state(DisputeState::Disputed), c);
                }
            },
            Transaction::Resolve { client, tx } => {
                if r is Ok {
                    let d = s.deposits[tx];
                    let a = account_of(s, client);
                    assert(a.wf());
                    assert(d.amount.wf());
                    lemma_total_after_insert(
                        s.deposits,
                        tx,
                        d.with_state(DisputeState::NotDisputed),
                        c,
                    );
                }
            },
            Transaction::Chargeback { client, tx } => {
                if r is Ok {
                    let d = s.deposits[tx];
                    let a = account_of(s, client);
                    assert(a.wf());
                    assert(d.amount.wf());
                    lemma_total_after_insert(
                        s.deposits,
                        tx,
                        d.with_state(DisputeState::ChargedBack),
                        c,
                    );
                }
            },
        }
    }
}

} // verus!
