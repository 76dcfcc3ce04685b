//! Payments engine: per-client accounts driven by a stream of deposits,
//! withdrawals and the dispute lifecycle of deposits.
pub mod amount;
pub mod bench_support;
pub mod concurrency;
pub mod engine;
pub mod text;

use engine::account::AccountView;
use engine::io::{after_rows, records_text, rows_fit, snapshot_text};
use engine::transaction::RawTransaction;
use engine::{initial_state, lists_accounts};
use vstd::prelude::*;

verus! {

/// Process the input rows and render the per-client account snapshot.
///
/// Delegates to [`engine::io::run`]: rows that do not convert, and
/// transactions the engine refuses, are skipped. `None` when some row's
/// arithmetic is not representable.
pub fn run(rows: Vec<RawTransaction>) -> (r: Option<Vec<Vec<String>>>)
    ensures
        r is Some <==> rows_fit(initial_state(), rows@),
        r matches Some(records) ==> exists|list: Seq<AccountView>|
            lists_accounts(list, after_rows(initial_state(), rows@).accounts) && records_text(
                records@,
            ) == snapshot_text(list),
{
    engine::io::run(rows)
}

} // verus!
