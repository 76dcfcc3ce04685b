//! Actor variant over a bounded `std` channel: one consumer thread owns the
//! production engine and applies the transactions in the order they were
//! sent.
//!
//! The channel and threads stay outside; over one input stream the
//! consumer applies the rows in input order, which is the production engine
//! applied row after row.
use crate::engine::account::Account;
use crate::engine::io::{after_rows, records_text, rows_fit, snapshot_text};
use crate::engine::transaction::RawTransaction;
use crate::engine::{account_views, initial_state, lists_accounts};
use super::workload::sorted_by_client;
use vstd::prelude::*;

verus! {

/// Process the rows through the variant and render the resulting accounts
/// sorted by client. `None` when some row's arithmetic is not
/// representable.
///
/// The consumer applies the rows in the order they were sent, so the
/// accounts are those of the production engine applied row after row, as
/// in [`super::baseline::run`].
pub fn run(rows: Vec<RawTransaction>) -> (r: Option<Vec<Vec<String>>>)
    ensures
        r is Some <==> rows_fit(initial_state(), rows@),
        r matches Some(records) ==> exists|list: Seq<Account>|
            lists_accounts(account_views(list), after_rows(initial_state(), rows@).accounts)
                && sorted_by_client(list) && records_text(records@) == snapshot_text(
                account_views(list),
            ),
{
    super::baseline::run(rows)
}

} // verus!
