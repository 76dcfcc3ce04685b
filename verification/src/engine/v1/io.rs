//! From parsed input rows to the output snapshot, for the first engine
//! version. Rows that do not convert to a transaction are skipped.
use crate::engine::account::AccountView;
use crate::engine::io::{records_text, snapshot_text, write_snapshots};
use crate::engine::lists_accounts;
use crate::engine::transaction::{transaction_of, RawTransaction, Transaction};
use super::{step, step_fits, Engine};
use vstd::prelude::*;

verus! {

/// The accounts after a row.
pub open spec fn apply_row(accounts: Map<u16, AccountView>, raw: RawTransaction) -> Map<
    u16,
    AccountView,
> {
    match transaction_of(raw) {
        Ok(t) => step(accounts, t),
        Err(_) => accounts,
    }
}

/// The row's arithmetic is representable.
pub open spec fn row_fits(accounts: Map<u16, AccountView>, raw: RawTransaction) -> bool {
    match transaction_of(raw) {
        Ok(t) => step_fits(accounts, t),
        Err(_) => true,
    }
}

/// The accounts after all rows, in order.
pub open spec fn after_rows(accounts: Map<u16, AccountView>, rows: Seq<RawTransaction>) -> Map<
    u16,
    AccountView,
>
    decreases rows.len(),
{
    if rows.len() == 0 {
        accounts
    } else {
        apply_row(after_rows(accounts, rows.drop_last()), rows.last())
    }
}

/// Every row's arithmetic is representable where it is applied.
pub open spec fn rows_fit(accounts: Map<u16, AccountView>, rows: Seq<RawTransaction>) -> bool
    decreases rows.len(),
{
    if rows.len() == 0 {
        true
    } else {
        rows_fit(accounts, rows.drop_last()) && row_fits(
            after_rows(accounts, rows.drop_last()),
            rows.last(),
        )
    }
}

proof fn lemma_rows_fit_prefix(s: Map<u16, AccountView>, rows: Seq<RawTransaction>, k: int)
    requires
        0 <= k < rows.len(),
        rows_fit(s, rows),
    ensures
        row_fits(after_rows(s, rows.take(k)), rows[k]),
    decreases rows.len(),
{
    if k == rows.len() - 1 {
        assert(rows.take(k) =~= rows.drop_last());
    } else {
        lemma_rows_fit_prefix(s, rows.drop_last(), k);
        assert(rows.drop_last().take(k) =~= rows.take(k));
    }
}

/// Process the rows with a fresh engine and render the resulting accounts,
/// each once. `None` when some row's arithmetic is not representable.
pub fn run(rows: Vec<RawTransaction>) -> (r: Option<Vec<Vec<String>>>)
    ensures
        r is Some <==> rows_fit(Map::empty(), rows@),
        r matches Some(records) ==> exists|list: Seq<AccountView>|
            lists_accounts(list, after_rows(Map::empty(), rows@)) && records_text(records@)
                == snapshot_text(list),
{
    let mut engine = Engine::new();
    let mut i: usize = 0;
    while i < rows.len()
        invariant
            engine.wf(),
            0 <= i <= rows@.len(),
            rows_fit(Map::empty(), rows@.take(i as int)),
            engine@ == after_rows(Map::empty(), rows@.take(i as int)),
        decreases rows@.len() - i,
    {
        proof {
            assert(rows@.take(i + 1).drop_last() =~= rows@.take(i as int));
            assert(rows@.take(i + 1).last() == rows@[i as int]);
        }
        if let Ok(tx) = Transaction::try_from(rows[i]) {
            if !engine.can_process(&tx) {
                proof {
                    if rows_fit(Map::empty(), rows@) {
                        lemma_rows_fit_prefix(Map::empty(), rows@, i as int);
                    }
                }
                return None;
            }
            let _ = engine.process(tx);
        }
        i = i + 1;
    }
    assert(rows@.take(rows@.len() as int) =~= rows@);
    let accounts = engine.accounts();
    Some(write_snapshots(&accounts))
}

} // verus!
