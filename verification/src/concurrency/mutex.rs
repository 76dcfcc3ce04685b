//! The `Arc<Mutex<Engine>>` variant: one global lock around the production
//! engine, taken for every submitted transaction.
//!
//! The shared handle and its multi-producer driver need threads and a
//! `std` mutex; what is verified here is what the variant computes over one
//! input stream: every row is applied under the lock in turn, which is the
//! production engine applied row after row.
use crate::engine::account::Account;
use crate::engine::io::{after_rows, records_text, rows_fit, snapshot_text};
use crate::engine::transaction::RawTransaction;
use crate::engine::{account_views, initial_state, lists_accounts};
use super::workload::sorted_by_client;
use vstd::prelude::*;

verus! {

/// Process the rows through the variant and render the resulting accounts
/// sorted by client. `None` when some row's arithmetic is not
/// representable.
///
/// Over one input stream every row takes the lock in turn, so the accounts
/// are those of the production engine applied row after row, as in
/// [`super::baseline::run`].
pub fn run(rows: Vec<RawTransaction>) -> (r: Option<Vec<Vec<String>>>)
    ensures
        r is Some <==> rows_fit(initial_state(), rows@),
        r matches Some(records) ==> exists|list: Seq<Account>|
            lists_accounts(account_views(list), after_rows(initial_state(), rows@).accounts)
                && sorted_by_client(list) && records_text(records@) == snapshot_text(
                account_views(list),
            ),
{
    super::baseline::run(rows)
}

} // verus!
