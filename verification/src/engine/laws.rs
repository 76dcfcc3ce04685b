//! Properties of the engine's state machine that span transactions.
//!
//! Each law is stated over [`step`], the function that
//! [`Engine::process`](super::Engine::process) is proved to compute.
use crate::amount::Amount;
use crate::engine::account::AccountView;
use crate::engine::error::EngineError;
use crate::engine::ledger::DisputeState;
use crate::engine::transaction::{client_of, tx_of, Transaction};
use crate::engine::{account_of, after_txs, engine_inv, is_locked, step, step_fits, txs_fit, EngineView};
use vstd::prelude::*;

verus! {

broadcast use crate::amount::group_amount_lemmas;

/// The amounts a transaction carries are valid.
pub open spec fn transaction_wf(t: Transaction) -> bool {
    match t {
        Transaction::Deposit { amount, .. } => amount.wf(),
        Transaction::Withdrawal { amount, .. } => amount.wf(),
        _ => true,
    }
}

/// Every step keeps the engine invariant: each account is well formed and
/// filed under its own client, every deposit id was seen, and every deposit
/// is positive and belongs to an existing account.
pub proof fn law_step_keeps_invariant(s: EngineView, t: Transaction)
    requires
        engine_inv(s),
        transaction_wf(t),
        step_fits(s, t),
    ensures
        engine_inv(step(s, t).0),
{
    let s2 = step(s, t).0;
    let c = client_of(t);
    assert(s.accounts.contains_key(c) ==> account_of(s, c).wf());
    assert forall|x: u16| #[trigger] s2.accounts.contains_key(x) implies s2.accounts[x].client == x
        && s2.accounts[x].wf() by {
        if x != c {
            assert(s.accounts.contains_key(x));
        }
    }
}

/// A refused transaction leaves the state untouched, with one exception: a
/// withdrawal refused for insufficient funds consumes its tx id (and creates
/// the client's account if it was missing).
pub proof fn law_refusal_leaves_state_unchanged(s: EngineView, t: Transaction)
    requires
        step(s, t).1 is Err,
        !(step(s, t).1 matches Err(EngineError::InsufficientFunds { .. })),
    ensures
        step(s, t).0 == s,
{
}

/// A withdrawal refused for insufficient funds changes no balance and no
/// deposit record; it only records its tx id and the client's account.
pub proof fn law_insufficient_funds_changes_no_balance(s: EngineView, t: Transaction)
    requires
        engine_inv(s),
        step(s, t).1 matches Err(EngineError::InsufficientFunds { .. }),
    ensures
        t is Withdrawal,
        match t {
            Transaction::Withdrawal { client, tx, .. } => {
                &&& step(s, t).0.seen == s.seen.insert(tx)
                &&& step(s, t).0.deposits == s.deposits
                &&& step(s, t).0.accounts == s.accounts.insert(client, account_of(s, client))
            },
            _ => false,
        },
{
}

/// A non-positive deposit or withdrawal is refused without consuming its tx
/// id, so a corrected retry with the same id is not a duplicate.
pub proof fn law_non_positive_amount_consumes_nothing(s: EngineView, t: Transaction)
    requires
        match t {
            Transaction::Deposit { amount, .. } => amount.units() <= 0,
            Transaction::Withdrawal { amount, .. } => amount.units() <= 0,
            _ => false,
        },
    ensures
        step(s, t).1 matches Err(EngineError::NonPositiveAmount { .. }),
        step(s, t).0 == s,
{
}

/// Once locked, an account stays locked.
pub proof fn law_lock_is_permanent(s: EngineView, t: Transaction, client: u16)
    requires
        engine_inv(s),
        is_locked(s, client),
    ensures
        is_locked(step(s, t).0, client),
{
    let s2 = step(s, t).0;
    if step(s, t).1 is Ok || (step(s, t).1 matches Err(EngineError::InsufficientFunds { .. })) {
        assert(s2.accounts.contains_key(client));
        if client == client_of(t) {
            assert(account_of(s, client) == s.accounts[client]);
        }
    } else {
        law_refusal_leaves_state_unchanged(s, t);
    }
}

/// A locked account refuses deposits, withdrawals and new disputes.
pub proof fn law_locked_account_refuses_new_activity(s: EngineView, t: Transaction)
    requires
        is_locked(s, client_of(t)),
        match t {
            Transaction::Deposit { amount, .. } => amount.units() > 0,
            Transaction::Withdrawal { amount, .. } => amount.units() > 0,
            Transaction::Dispute { client, tx } => s.deposits.contains_key(tx)
                && s.deposits[tx].client == client && s.deposits[tx].state
                == DisputeState::NotDisputed,
            _ => false,
        },
    ensures
        step(s, t).1 matches Err(EngineError::AccountLocked { .. }),
        step(s, t).0 == s,
{
}

/// Tx ids are never forgotten, and a positive deposit or withdrawal on an
/// unlocked account that reuses a seen id is refused as a duplicate.
pub proof fn law_seen_ids_are_final(s: EngineView, t: Transaction)
    ensures
        s.seen.subset_of(step(s, t).0.seen),
        match t {
            Transaction::Deposit { client, tx, amount } => amount.units() > 0 && !is_locked(
                s,
                client,
            ) && s.seen.contains(tx) ==> step(s, t).1 matches Err(
                EngineError::DuplicateTxId { .. },
            ),
            Transaction::Withdrawal { client, tx, amount } => amount.units() > 0 && !is_locked(
                s,
                client,
            ) && s.seen.contains(tx) ==> step(s, t).1 matches Err(
                EngineError::DuplicateTxId { .. },
            ),
            _ => true,
        },
{
}

/// A charged-back deposit stays charged back, and a deposit record, once
/// made, is never removed and keeps its client and amount.
pub proof fn law_deposit_records_are_stable(s: EngineView, t: Transaction, tx: u32)
    requires
        engine_inv(s),
        s.deposits.contains_key(tx),
    ensures
        step(s, t).0.deposits.contains_key(tx),
        step(s, t).0.deposits[tx].client == s.deposits[tx].client,
        step(s, t).0.deposits[tx].amount == s.deposits[tx].amount,
        s.deposits[tx].state == DisputeState::ChargedBack ==> step(s, t).0.deposits[tx].state
            == DisputeState::ChargedBack,
{
}

/// Disputes and resolves move funds between `available` and `held` and
/// never change any account's total.
pub proof fn law_dispute_and_resolve_keep_totals(s: EngineView, t: Transaction, client: u16)
    requires
        engine_inv(s),
        step_fits(s, t),
        t is Dispute || t is Resolve,
        s.accounts.contains_key(client),
    ensures
        step(s, t).0.accounts.contains_key(client),
        step(s, t).0.accounts[client].total().units() == s.accounts[client].total().units(),
{
    let a = s.accounts[client];
    assert(a.wf());
    let s2 = step(s, t).0;
    if step(s, t).1 is Ok && client_of(t) == client {
        let tx = match t {
            Transaction::Dispute { tx, .. } => tx,
            Transaction::Resolve { tx, .. } => tx,
            _ => 0,
        };
        let amount = s.deposits[tx].amount;
        assert(amount.wf());
        let b = s2.accounts[client];
        if t is Dispute {
            assert(b == a.hold(amount));
        } else {
            assert(b == a.release(amount));
        }
    }
}

/// A successful chargeback locks the client's account, leaves `available`
/// as it was and takes the deposited amount out of `held` and `total`.
pub proof fn law_chargeback_reverses_the_deposit(s: EngineView, client: u16, tx: u32)
    requires
        engine_inv(s),
        step_fits(s, Transaction::Chargeback { client, tx }),
        step(s, Transaction::Chargeback { client, tx }).1 is Ok,
    ensures
        ({
            let s2 = step(s, Transaction::Chargeback { client, tx }).0;
            let before = s.accounts[client];
            let after = s2.accounts[client];
            let amount = s.deposits[tx].amount;
            &&& is_locked(s2, client)
            &&& s2.deposits[tx].state == DisputeState::ChargedBack
            &&& after.available == before.available
            &&& after.held.units() == before.held.units() - amount.units()
            &&& after.total().units() == before.total().units() - amount.units()
        }),
{
    let a = s.accounts[client];
    assert(a.wf());
    assert(s.deposits[tx].amount.wf());
}

/// A resolve undoes the dispute before it: the deposit record is back to
/// `NotDisputed` and the client's balances have their earlier values.
pub proof fn law_resolve_undoes_dispute(s: EngineView, client: u16, tx: u32)
    requires
        engine_inv(s),
        step_fits(s, Transaction::Dispute { client, tx }),
        step(s, Transaction::Dispute { client, tx }).1 is Ok,
        step_fits(step(s, Transaction::Dispute { client, tx }).0, Transaction::Resolve { client, tx }),
    ensures
        ({
            let s1 = step(s, Transaction::Dispute { client, tx }).0;
            let (s2, r) = step(s1, Transaction::Resolve { client, tx });
            &&& r is Ok
            &&& s2.deposits == s.deposits
            &&& s2.seen == s.seen
            &&& s2.accounts.dom() == s.accounts.dom()
            &&& s2.accounts[client].available.units() == s.accounts[client].available.units()
            &&& s2.accounts[client].held.units() == s.accounts[client].held.units()
            &&& s2.accounts[client].locked == s.accounts[client].locked
            &&& forall|c: u16| c != client && #[trigger] s.accounts.contains_key(c) ==> s2.accounts[c]
                == s.accounts[c]
        }),
{
    let s1 = step(s, Transaction::Dispute { client, tx }).0;
    let a = s.accounts[client];
    assert(a.wf());
    let amount = s.deposits[tx].amount;
    assert(amount.wf());
    law_step_keeps_invariant(s, Transaction::Dispute { client, tx });
    let s2 = step(s1, Transaction::Resolve { client, tx }).0;
    assert(s2.deposits =~= s.deposits);
    assert(s2.accounts.dom() =~= s.accounts.dom());
}

/// A lock does not stop the settling of disputes opened before it: a
/// resolve or chargeback of a disputed deposit by its own client succeeds
/// whether or not the account is locked.
pub proof fn law_locked_account_settles_pending_disputes(s: EngineView, t: Transaction)
    requires
        match t {
            Transaction::Resolve { client, tx } => s.deposits.contains_key(tx)
                && s.deposits[tx].client == client && s.deposits[tx].state
                == DisputeState::Disputed,
            Transaction::Chargeback { client, tx } => s.deposits.contains_key(tx)
                && s.deposits[tx].client == client && s.deposits[tx].state
                == DisputeState::Disputed,
            _ => false,
        },
    ensures
        step(s, t).1 is Ok,
{
}

/// A resolved deposit may be disputed again: after a successful resolve,
/// the same client's dispute of it succeeds unless the account is locked.
pub proof fn law_resolved_deposit_can_be_disputed_again(s: EngineView, client: u16, tx: u32)
    requires
        step(s, Transaction::Resolve { client, tx }).1 is Ok,
    ensures
        ({
            let s1 = step(s, Transaction::Resolve { client, tx }).0;
            !is_locked(s1, client) ==> step(s1, Transaction::Dispute { client, tx }).1 is Ok
        }),
{
}

/// Two transactions on different clients and different tx ids touch
/// disjoint parts of the state.
pub open spec fn independent(t1: Transaction, t2: Transaction) -> bool {
    client_of(t1) != client_of(t2) && tx_of(t1) != tx_of(t2)
}

/// Two states agree on what a transaction of `client` and tx id `x` reads
/// and writes.
pub open spec fn agree_at(s1: EngineView, s2: EngineView, client: u16, x: u32) -> bool {
    &&& s1.accounts.contains_key(client) == s2.accounts.contains_key(client)
    &&& s1.accounts.contains_key(client) ==> s1.accounts[client] == s2.accounts[client]
    &&& s1.deposits.contains_key(x) == s2.deposits.contains_key(x)
    &&& s1.deposits.contains_key(x) ==> s1.deposits[x] == s2.deposits[x]
    &&& s1.seen.contains(x) == s2.seen.contains(x)
}

/// Every account is filed under its own client id.
pub open spec fn filed_by_client(s: EngineView) -> bool {
    forall|c: u16| #[trigger] s.accounts.contains_key(c) ==> s.accounts[c].client == c
}

proof fn lemma_step_keeps_filing(s: EngineView, t: Transaction)
    requires
        filed_by_client(s),
    ensures
        filed_by_client(step(s, t).0),
{
    let s2 = step(s, t).0;
    assert forall|c: u16| #[trigger] s2.accounts.contains_key(c) implies s2.accounts[c].client == c by {
        if c != client_of(t) {
            assert(s.accounts.contains_key(c));
        }
    }
}

/// A step changes only its client's account and its tx id's records.
proof fn lemma_step_frame(s: EngineView, t: Transaction)
    requires
        filed_by_client(s),
    ensures
        forall|c: u16|
            c != client_of(t) ==> (#[trigger] step(s, t).0.accounts.contains_key(c)
                == s.accounts.contains_key(c) && (s.accounts.contains_key(c)
                ==> step(s, t).0.accounts[c] == s.accounts[c])),
        forall|x: u32|
            x != tx_of(t) ==> (#[trigger] step(s, t).0.deposits.contains_key(x)
                == s.deposits.contains_key(x) && (s.deposits.contains_key(x)
                ==> step(s, t).0.deposits[x] == s.deposits[x])),
        forall|x: u32| x != tx_of(t) ==> #[trigger] step(s, t).0.seen.contains(x) == s.seen.contains(x),
{
    let s2 = step(s, t).0;
    assert forall|c: u16| c != client_of(t) implies (#[trigger] s2.accounts.contains_key(c)
        == s.accounts.contains_key(c) && (s.accounts.contains_key(c) ==> s2.accounts[c]
        == s.accounts[c])) by {
    }
}

/// A step reads only its client's account and its tx id's records: from
/// states that agree there it returns the same result, writes the same, and
/// is representable in both or neither.
proof fn lemma_step_local(s1: EngineView, s2: EngineView, t: Transaction)
    requires
        agree_at(s1, s2, client_of(t), tx_of(t)),
    ensures
        step(s1, t).1 == step(s2, t).1,
        agree_at(step(s1, t).0, step(s2, t).0, client_of(t), tx_of(t)),
        step_fits(s1, t) == step_fits(s2, t),
{
    assert(is_locked(s1, client_of(t)) == is_locked(s2, client_of(t)));
    assert(account_of(s1, client_of(t)) == account_of(s2, client_of(t)));
}

/// Transactions on different clients and different tx ids commute: in
/// either order they reach the same state, each gets the result it gets
/// when applied first, and neither changes whether the other's arithmetic
/// is representable.
pub proof fn law_independent_steps_commute(s: EngineView, t1: Transaction, t2: Transaction)
    requires
        filed_by_client(s),
        independent(t1, t2),
    ensures
        step(step(s, t1).0, t2).0 == step(step(s, t2).0, t1).0,
        step(step(s, t1).0, t2).1 == step(s, t2).1,
        step(step(s, t2).0, t1).1 == step(s, t1).1,
        step_fits(step(s, t1).0, t2) == step_fits(s, t2),
        step_fits(step(s, t2).0, t1) == step_fits(s, t1),
{
    let (c1, x1) = (client_of(t1), tx_of(t1));
    let (c2, x2) = (client_of(t2), tx_of(t2));
    let s1 = step(s, t1).0;
    let s2 = step(s, t2).0;
    lemma_step_frame(s, t1);
    lemma_step_frame(s, t2);
    lemma_step_keeps_filing(s, t1);
    lemma_step_keeps_filing(s, t2);
    assert(agree_at(s1, s, c2, x2));
    assert(agree_at(s2, s, c1, x1));
    lemma_step_local(s1, s, t2);
    lemma_step_local(s2, s, t1);
    let a = step(s1, t2).0;
    let b = step(s2, t1).0;
    lemma_step_frame(s1, t2);
    lemma_step_frame(s2, t1);
    assert(a.accounts =~= b.accounts) by {
        assert forall|c: u16| #[trigger] a.accounts.contains_key(c) == b.accounts.contains_key(c) by {
            if c != c1 && c != c2 {
                assert(s1.accounts.contains_key(c) == s.accounts.contains_key(c));
            }
        }
        assert forall|c: u16| #[trigger] a.accounts.contains_key(c) implies a.accounts[c]
            == b.accounts[c] by {
            if c != c1 && c != c2 {
                assert(s1.accounts.contains_key(c) == s.accounts.contains_key(c));
            }
        }
    }
    assert(a.deposits =~= b.deposits) by {
        assert forall|x: u32| #[trigger] a.deposits.contains_key(x) == b.deposits.contains_key(x) by {
            if x != x1 && x != x2 {
                assert(s1.deposits.contains_key(x) == s.deposits.contains_key(x));
            }
        }
        assert forall|x: u32| #[trigger] a.deposits.contains_key(x) implies a.deposits[x]
            == b.deposits[x] by {
            if x != x1 && x != x2 {
                assert(s1.deposits.contains_key(x) == s.deposits.contains_key(x));
            }
        }
    }
    assert(a.seen =~= b.seen) by {
        assert forall|x: u32| #[trigger] a.seen.contains(x) == b.seen.contains(x) by {
            if x != x1 && x != x2 {
                assert(s1.seen.contains(x) == s.seen.contains(x));
            }
        }
    }
}

/// Every transaction of `a` is independent of every transaction of `b`.
pub open spec fn independent_seqs(a: Seq<Transaction>, b: Seq<Transaction>) -> bool {
    forall|i: int, j: int|
        0 <= i < a.len() && 0 <= j < b.len() ==> independent(#[trigger] a[i], #[trigger] b[j])
}

proof fn lemma_after_keeps_filing(s: EngineView, u: Seq<Transaction>)
    requires
        filed_by_client(s),
    ensures
        filed_by_client(after_txs(s, u)),
    decreases u.len(),
{
    if u.len() > 0 {
        lemma_after_keeps_filing(s, u.drop_last());
        lemma_step_keeps_filing(after_txs(s, u.drop_last()), u.last());
    }
}

/// Running `u` then `v` is running `u`, then `v` from where `u` left off.
proof fn lemma_after_concat(s: EngineView, u: Seq<Transaction>, v: Seq<Transaction>)
    ensures
        after_txs(s, u + v) == after_txs(after_txs(s, u), v),
        txs_fit(s, u + v) == (txs_fit(s, u) && txs_fit(after_txs(s, u), v)),
    decreases v.len(),
{
    if v.len() == 0 {
        assert(u + v =~= u);
    } else {
        lemma_after_concat(s, u, v.drop_last());
        assert((u + v).drop_last() =~= u + v.drop_last());
        assert((u + v).last() == v.last());
    }
}

/// A transaction independent of all of `b` can be moved across `b`.
proof fn lemma_move_across(s: EngineView, b: Seq<Transaction>, t: Transaction)
    requires
        filed_by_client(s),
        forall|j: int| 0 <= j < b.len() ==> independent(t, #[trigger] b[j]),
    ensures
        step(after_txs(s, b), t).0 == after_txs(step(s, t).0, b),
        step_fits(after_txs(s, b), t) == step_fits(s, t),
        txs_fit(step(s, t).0, b) == txs_fit(s, b),
    decreases b.len(),
{
    if b.len() > 0 {
        let b1 = b.drop_last();
        let u = b.last();
        lemma_move_across(s, b1, t);
        lemma_after_keeps_filing(s, b1);
        let m = after_txs(s, b1);
        assert(independent(t, b[b.len() - 1]));
        law_independent_steps_commute(m, t, u);
        lemma_step_keeps_filing(s, t);
        lemma_move_across_fits(s, b1, t);
    }
}

/// Fits of `b` do not change when an independent transaction runs first.
proof fn lemma_move_across_fits(s: EngineView, b: Seq<Transaction>, t: Transaction)
    requires
        filed_by_client(s),
        forall|j: int| 0 <= j < b.len() ==> independent(t, #[trigger] b[j]),
    ensures
        after_txs(step(s, t).0, b) == step(after_txs(s, b), t).0,
        txs_fit(step(s, t).0, b) == txs_fit(s, b),
    decreases b.len(),
{
    if b.len() > 0 {
        let b1 = b.drop_last();
        let u = b.last();
        lemma_move_across_fits(s, b1, t);
        lemma_after_keeps_filing(s, b1);
        let m = after_txs(s, b1);
        assert(independent(t, b[b.len() - 1]));
        law_independent_steps_commute(m, t, u);
    }
}

/// The sequences' transactions, one sequence after the other.
pub open spec fn concat_all(ss: Seq<Seq<Transaction>>) -> Seq<Transaction>
    decreases ss.len(),
{
    if ss.len() == 0 {
        Seq::empty()
    } else {
        concat_all(ss.drop_last()) + ss.last()
    }
}

/// `x` interleaves all of `ss`: it consists of their transactions, each
/// sequence's in its own order.
pub open spec fn interleaves_all(x: Seq<Transaction>, ss: Seq<Seq<Transaction>>) -> bool
    decreases x.len(),
{
    if x.len() == 0 {
        forall|k: int| 0 <= k < ss.len() ==> (#[trigger] ss[k]).len() == 0
    } else {
        exists|k: int|
            0 <= k < ss.len() && (#[trigger] ss[k]).len() > 0 && x.last() == ss[k].last()
                && interleaves_all(x.drop_last(), ss.update(k, ss[k].drop_last()))
    }
}

/// Any two of the sequences are independent.
pub open spec fn pairwise_independent(ss: Seq<Seq<Transaction>>) -> bool {
    forall|p: int, q: int|
        0 <= p < ss.len() && 0 <= q < ss.len() && p != q ==> independent_seqs(
            #[trigger] ss[p],
            #[trigger] ss[q],
        )
}

proof fn lemma_concat_all_empty(ss: Seq<Seq<Transaction>>)
    requires
        forall|k: int| 0 <= k < ss.len() ==> (#[trigger] ss[k]).len() == 0,
    ensures
        concat_all(ss) == Seq::<Transaction>::empty(),
    decreases ss.len(),
{
    if ss.len() > 0 {
        lemma_concat_all_empty(ss.drop_last());
        assert(ss[ss.len() - 1].len() == 0);
        assert(concat_all(ss) =~= Seq::<Transaction>::empty());
    }
}

proof fn lemma_concat_all_concat(a: Seq<Seq<Transaction>>, b: Seq<Seq<Transaction>>)
    ensures
        concat_all(a + b) == concat_all(a) + concat_all(b),
    decreases b.len(),
{
    if b.len() == 0 {
        assert(a + b =~= a);
        assert(concat_all(a) + concat_all(b) =~= concat_all(a));
    } else {
        lemma_concat_all_concat(a, b.drop_last());
        assert((a + b).drop_last() =~= a + b.drop_last());
        assert(concat_all(a + b) =~= concat_all(a) + concat_all(b));
    }
}

/// The sequences before `k`, then sequence `k`, then the rest.
proof fn lemma_concat_all_split(ss: Seq<Seq<Transaction>>, k: int)
    requires
        0 <= k < ss.len(),
    ensures
        concat_all(ss) == concat_all(ss.take(k)) + ss[k] + concat_all(ss.skip(k + 1)),
{
    assert(ss =~= ss.take(k) + seq![ss[k]] + ss.skip(k + 1));
    lemma_concat_all_concat(ss.take(k) + seq![ss[k]], ss.skip(k + 1));
    lemma_concat_all_concat(ss.take(k), seq![ss[k]]);
    let one = seq![ss[k]];
    assert(one.drop_last() =~= Seq::<Seq<Transaction>>::empty());
    assert(one.last() == ss[k]);
    assert(concat_all(one.drop_last()) == Seq::<Transaction>::empty());
    assert(concat_all(one) == concat_all(one.drop_last()) + ss[k]);
    assert(Seq::<Transaction>::empty() + ss[k] =~= ss[k]);
}

/// Every transaction of a concatenation comes from one of the sequences.
proof fn lemma_concat_all_member(ss: Seq<Seq<Transaction>>, j: int)
    requires
        0 <= j < concat_all(ss).len(),
    ensures
        exists|q: int, i: int|
            0 <= q < ss.len() && 0 <= i < ss[q].len() && concat_all(ss)[j] == #[trigger] ss[q][i],
    decreases ss.len(),
{
    let init = ss.drop_last();
    if j < concat_all(init).len() {
        lemma_concat_all_member(init, j);
        let (q, i) = choose|q: int, i: int|
            0 <= q < init.len() && 0 <= i < init[q].len() && concat_all(init)[j] == #[trigger] init[q][i];
        assert(ss[q] == init[q]);
    } else {
        let i = j - concat_all(init).len();
        assert(concat_all(ss)[j] == ss[ss.len() - 1][i]);
    }
}

/// Running any interleaving of pairwise independent sequences of
/// transactions reaches the state that running them one after the other
/// reaches, and is representable exactly when that is: engines that apply
/// independent producers' streams concurrently, in whatever order the
/// scheduler picks, end in the single-threaded engine's state.
pub proof fn law_interleavings_of_independent_streams_agree(
    s: EngineView,
    x: Seq<Transaction>,
    ss: Seq<Seq<Transaction>>,
)
    requires
        filed_by_client(s),
        pairwise_independent(ss),
        interleaves_all(x, ss),
    ensures
        after_txs(s, x) == after_txs(s, concat_all(ss)),
        txs_fit(s, x) == txs_fit(s, concat_all(ss)),
    decreases x.len(),
{
    if x.len() == 0 {
        lemma_concat_all_empty(ss);
    } else {
        let k = choose|k: int|
            0 <= k < ss.len() && (#[trigger] ss[k]).len() > 0 && x.last() == ss[k].last()
                && interleaves_all(x.drop_last(), ss.update(k, ss[k].drop_last()));
        let sk = ss[k];
        let t = sk.last();
        let t1 = sk.drop_last();
        let ss2 = ss.update(k, t1);
        assert(pairwise_independent(ss2)) by {
            assert forall|p: int, q: int|
                0 <= p < ss2.len() && 0 <= q < ss2.len() && p != q implies independent_seqs(
                #[trigger] ss2[p],
                #[trigger] ss2[q],
            ) by {
                assert(independent_seqs(ss[p], ss[q]));
                assert forall|i: int, j: int|
                    0 <= i < ss2[p].len() && 0 <= j < ss2[q].len() implies independent(
                    #[trigger] ss2[p][i],
                    #[trigger] ss2[q][j],
                ) by {
                    assert(ss2[p][i] == ss[p][i]);
                    assert(ss2[q][j] == ss[q][j]);
                }
            }
        }
        law_interleavings_of_independent_streams_agree(s, x.drop_last(), ss2);
        lemma_concat_all_split(ss, k);
        lemma_concat_all_split(ss2, k);
        assert(ss2.take(k) =~= ss.take(k));
        assert(ss2.skip(k + 1) =~= ss.skip(k + 1));
        let a = concat_all(ss.take(k));
        let b = concat_all(ss.skip(k + 1));
        assert(concat_all(ss2) == a + t1 + b);
        assert(concat_all(ss) == a + sk + b);
        assert(sk =~= t1 + seq![t]);
        // The state before `t` and `b`.
        lemma_after_concat(s, a + t1, b);
        lemma_after_concat(s, a + t1, seq![t]);
        lemma_after_concat(s, a + t1 + seq![t], b);
        assert(a + sk =~= a + t1 + seq![t]);
        assert(seq![t].drop_last() =~= Seq::<Transaction>::empty());
        lemma_after_keeps_filing(s, a + t1);
        let m = after_txs(s, a + t1);
        assert forall|j: int| 0 <= j < b.len() implies independent(t, #[trigger] b[j]) by {
            lemma_concat_all_member(ss.skip(k + 1), j);
            let (q, i) = choose|q: int, i: int|
                0 <= q < ss.skip(k + 1).len() && 0 <= i < ss.skip(k + 1)[q].len() && b[j]
                    == #[trigger] ss.skip(k + 1)[q][i];
            assert(ss.skip(k + 1)[q] == ss[k + 1 + q]);
            assert(independent_seqs(ss[k], ss[k + 1 + q]));
            assert(sk[sk.len() - 1] == t);
        }
        lemma_move_across(m, b, t);
        let one = seq![t];
        assert(after_txs(m, one.drop_last()) == m);
        assert(after_txs(m, one) == step(m, t).0);
        assert(txs_fit(m, one.drop_last()));
        assert(txs_fit(m, one) == step_fits(m, t));
        assert(after_txs(s, x) == step(after_txs(s, x.drop_last()), t).0);
        assert(after_txs(s, x.drop_last()) == after_txs(m, b));
        assert(after_txs(s, a + t1 + seq![t]) == step(m, t).0);
        assert(concat_all(ss) =~= a + t1 + seq![t] + b);
    }
}

/// The account of every client that has a charged-back deposit is locked,
/// and only those accounts are locked.
pub open spec fn locks_match_chargebacks(s: EngineView) -> bool {
    forall|c: u16| #[trigger]
        s.accounts.contains_key(c) ==> (s.accounts[c].locked <==> exists|tx: u32|
            #[trigger] s.deposits.contains_key(tx) && s.deposits[tx].client == c
                && s.deposits[tx].state == DisputeState::ChargedBack)
}

/// An engine with no accounts has no locks to explain.
pub proof fn law_locks_match_chargebacks_initially(s: EngineView)
    requires
        s.accounts == Map::<u16, AccountView>::empty(),
    ensures
        locks_match_chargebacks(s),
{
}

/// Every step keeps locks and chargebacks in correspondence: an account is
/// locked exactly when one of its deposits was charged back.
pub proof fn law_step_keeps_locks_matching_chargebacks(s: EngineView, t: Transaction)
    requires
        engine_inv(s),
        locks_match_chargebacks(s),
    ensures
        locks_match_chargebacks(step(s, t).0),
{
    let s2 = step(s, t).0;
    let c0 = client_of(t);
    assert forall|c: u16| #[trigger] s2.accounts.contains_key(c) implies (s2.accounts[c].locked
        <==> exists|tx: u32|
        #[trigger] s2.deposits.contains_key(tx) && s2.deposits[tx].client == c
            && s2.deposits[tx].state == DisputeState::ChargedBack) by {
        if step(s, t).1 is Ok || (step(s, t).1 matches Err(EngineError::InsufficientFunds { .. })) {
            if s.accounts.contains_key(c) {
                if s.accounts[c].locked {
                    let w = choose|tx: u32|
                        #[trigger] s.deposits.contains_key(tx) && s.deposits[tx].client == c
                            && s.deposits[tx].state == DisputeState::ChargedBack;
                    assert(s2.deposits.contains_key(w) && s2.deposits[w].client == c
                        && s2.deposits[w].state == DisputeState::ChargedBack);
                } else {
                    match t {
                        Transaction::Chargeback { client, tx } => {
                            if c == client {
                                assert(s2.deposits.contains_key(tx));
                            } else {
                                assert forall|x: u32| #[trigger]
                                    s2.deposits.contains_key(x) && s2.deposits[x].client == c
                                        implies s2.deposits[x].state
                                    != DisputeState::ChargedBack by {
                                    assert(s.deposits.contains_key(x));
                                }
                            }
                        },
                        _ => {
                            assert forall|x: u32| #[trigger]
                                s2.deposits.contains_key(x) && s2.deposits[x].client == c
                                    implies s2.deposits[x].state != DisputeState::ChargedBack by {
                                if s.deposits.contains_key(x) {
                                } else {
                                }
                            }
                        },
                    }
                }
            } else {
                // A fresh account: no deposit of this client existed before.
                assert forall|x: u32| #[trigger]
                    s2.deposits.contains_key(x) && s2.deposits[x].client == c implies s2.deposits[x].state
                    != DisputeState::ChargedBack by {
                    if s.deposits.contains_key(x) {
                        assert(s.accounts.contains_key(s.deposits[x].client));
                    }
                }
            }
        } else {
            law_refusal_leaves_state_unchanged(s, t);
        }
    }
}

/// A positive withdrawal of at most the available balance, on an unlocked
/// account under an unseen tx id, succeeds: available falls by exactly the
/// amount (so withdrawing all of it leaves zero), held is unchanged, and
/// the tx id is consumed.
pub proof fn law_covered_withdrawal_succeeds(s: EngineView, client: u16, tx: u32, amount: Amount)
    requires
        engine_inv(s),
        amount.wf(),
        0 < amount.units() <= account_of(s, client).available.units(),
        !is_locked(s, client),
        !s.seen.contains(tx),
        step_fits(s, Transaction::Withdrawal { client, tx, amount }),
    ensures
        step(s, Transaction::Withdrawal { client, tx, amount }).1 == Ok::<(), EngineError>(()),
        step(s, Transaction::Withdrawal { client, tx, amount }).0.accounts.contains_key(client),
        step(s, Transaction::Withdrawal { client, tx, amount }).0.accounts[client].available.units()
            == account_of(s, client).available.units() - amount.units(),
        step(s, Transaction::Withdrawal { client, tx, amount }).0.accounts[client].held.units()
            == account_of(s, client).held.units(),
        step(s, Transaction::Withdrawal { client, tx, amount }).0.seen.contains(tx),
{
    let a = account_of(s, client);
    assert(a.wf() && a.client == client);
}

/// A positive withdrawal on an unlocked account under an unseen tx id is
/// refused for insufficient funds exactly when the amount exceeds the
/// available balance; an amount equal to it is not refused.
pub proof fn law_withdrawal_refused_iff_amount_exceeds_available(
    s: EngineView,
    client: u16,
    tx: u32,
    amount: Amount,
)
    requires
        amount.units() > 0,
        !is_locked(s, client),
        !s.seen.contains(tx),
    ensures
        (step(s, Transaction::Withdrawal { client, tx, amount }).1 matches Err(
            EngineError::InsufficientFunds { .. },
        )) <==> amount.units() > account_of(s, client).available.units(),
        step(s, Transaction::Withdrawal { client, tx, amount }).1 is Ok <==> amount.units()
            <= account_of(s, client).available.units(),
{
}

} // verus!
