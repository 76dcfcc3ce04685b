//! From parsed input rows to the output snapshot, with the split-ledger
//! engine under its benchmark name.
use crate::engine::account::AccountView;
use crate::engine::io::{after_rows, records_text, rows_fit, snapshot_text, write_snapshots};
use crate::engine::transaction::{RawTransaction, Transaction};
use crate::engine::{initial_state, lists_accounts};
use super::Engine;
use vstd::prelude::*;

verus! {

/// Process the rows with a fresh engine and render the resulting accounts,
/// each once. `None` when some row's arithmetic is not representable.
pub fn run(rows: Vec<RawTransaction>) -> (r: Option<Vec<Vec<String>>>)
    ensures
        r is Some <==> rows_fit(initial_state(), rows@),
        r matches Some(records) ==> exists|list: Seq<AccountView>|
            lists_accounts(list, after_rows(initial_state(), rows@).accounts) && records_text(
                records@,
            ) == snapshot_text(list),
{
    let mut engine = Engine::new();
    let mut i: usize = 0;
    while i < rows.len()
        invariant
            engine.wf(),
            0 <= i <= rows@.len(),
            rows_fit(initial_state(), rows@.take(i as int)),
            engine@ == after_rows(initial_state(), rows@.take(i as int)),
        decreases rows@.len() - i,
    {
        proof {
            assert(rows@.take(i + 1).drop_last() =~= rows@.take(i as int));
            assert(rows@.take(i + 1).last() == rows@[i as int]);
        }
        if let Ok(tx) = Transaction::try_from(rows[i]) {
            if !engine.can_process(&tx) {
                proof {
                    if rows_fit(initial_state(), rows@) {
                        crate::engine::io::lemma_rows_fit_prefix(initial_state(), rows@, i as int);
                    }
                }
                return None;
            }
            let _ = engine.process(tx);
        }
        i = i + 1;
    }
    assert(rows@.take(rows@.len() as int) =~= rows@);
    let accounts = engine.accounts();
    Some(write_snapshots(&accounts))
}

} // verus!
