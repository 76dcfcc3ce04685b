//! From parsed input rows to the output snapshot.
//!
//! Rows that do not convert to a transaction, and transactions the engine
//! refuses, are skipped: they are partner errors, local to their row. The
//! snapshot is a header record followed by one record per account, with
//! amounts at exactly four fractional digits.
use crate::engine::account::{Account, AccountView};
use crate::engine::transaction::{transaction_of, RawTransaction, Transaction};
use crate::engine::{account_views, initial_state, lists_accounts, step, step_fits, Engine, EngineView};
use crate::text::{bool_string, bool_text, decimal_string, decimal_text, fixed4_string, fixed4_text, word};
use vstd::prelude::*;

verus! {

/// The characters of each string.
pub open spec fn texts(v: Seq<String>) -> Seq<Seq<char>> {
    v.map_values(|s: String| s@)
}

/// The characters of each field of each record.
pub open spec fn records_text(r: Seq<Vec<String>>) -> Seq<Seq<Seq<char>>> {
    r.map_values(|v: Vec<String>| texts(v@))
}

/// `client,available,held,total,locked`.
pub open spec fn header_text() -> Seq<Seq<char>> {
    seq![
        seq!['c', 'l', 'i', 'e', 'n', 't'],
        seq!['a', 'v', 'a', 'i', 'l', 'a', 'b', 'l', 'e'],
        seq!['h', 'e', 'l', 'd'],
        seq!['t', 'o', 't', 'a', 'l'],
        seq!['l', 'o', 'c', 'k', 'e', 'd'],
    ]
}

/// The record of one account.
pub open spec fn row_text(a: AccountView) -> Seq<Seq<char>> {
    seq![
        decimal_text(a.client as nat),
        fixed4_text(a.available),
        fixed4_text(a.held),
        fixed4_text(a.total()),
        bool_text(a.locked),
    ]
}

/// The header followed by one record per listed account, in list order.
pub open spec fn snapshot_text(list: Seq<AccountView>) -> Seq<Seq<Seq<char>>> {
    seq![header_text()] + list.map_values(|a: AccountView| row_text(a))
}

/// The state after a row: the row's transaction applied, or nothing when
/// the row does not convert.
pub open spec fn apply_row(s: EngineView, raw: RawTransaction) -> EngineView {
    match transaction_of(raw) {
        Ok(t) => step(s, t).0,
        Err(_) => s,
    }
}

/// The row's arithmetic is representable.
pub open spec fn row_fits(s: EngineView, raw: RawTransaction) -> bool {
    match transaction_of(raw) {
        Ok(t) => step_fits(s, t),
        Err(_) => true,
    }
}

/// The state after all rows, in order.
pub open spec fn after_rows(s: EngineView, rows: Seq<RawTransaction>) -> EngineView
    decreases rows.len(),
{
    if rows.len() == 0 {
        s
    } else {
        apply_row(after_rows(s, rows.drop_last()), rows.last())
    }
}

/// Every row's arithmetic is representable where it is applied.
pub open spec fn rows_fit(s: EngineView, rows: Seq<RawTransaction>) -> bool
    decreases rows.len(),
{
    if rows.len() == 0 {
        true
    } else {
        rows_fit(s, rows.drop_last()) && row_fits(after_rows(s, rows.drop_last()), rows.last())
    }
}

pub proof fn lemma_rows_fit_prefix(s: EngineView, rows: Seq<RawTransaction>, k: int)
    requires
        0 <= k < rows.len(),
        rows_fit(s, rows),
    ensures
        rows_fit(s, rows.take(k)),
        row_fits(after_rows(s, rows.take(k)), rows[k]),
    decreases rows.len(),
{
    if k == rows.len() - 1 {
        assert(rows.take(k) =~= rows.drop_last());
    } else {
        lemma_rows_fit_prefix(s, rows.drop_last(), k);
        assert(rows.drop_last().take(k) =~= rows.take(k));
    }
}

/// The header record.
pub fn snapshot_header() -> (r: Vec<String>)
    ensures
        texts(r@) == header_text(),
{
    let r = vec![
        word(vec!['c', 'l', 'i', 'e', 'n', 't']),
        word(vec!['a', 'v', 'a', 'i', 'l', 'a', 'b', 'l', 'e']),
        word(vec!['h', 'e', 'l', 'd']),
        word(vec!['t', 'o', 't', 'a', 'l']),
        word(vec!['l', 'o', 'c', 'k', 'e', 'd']),
    ];
    assert(texts(r@) =~= header_text());
    r
}

/// The record of one account.
pub fn snapshot_row(acct: &Account) -> (r: Vec<String>)
    ensures
        texts(r@) == row_text(acct@),
{
    let r = vec![
        decimal_string(acct.client() as u128),
        fixed4_string(acct.available()),
        fixed4_string(acct.held()),
        fixed4_string(acct.total()),
        bool_string(acct.locked()),
    ];
    assert(texts(r@) =~= row_text(acct@));
    r
}

/// The snapshot of `accounts`: the header, then one record per account in
/// the given order.
pub fn write_snapshots(accounts: &Vec<Account>) -> (r: Vec<Vec<String>>)
    ensures
        records_text(r@) == snapshot_text(account_views(accounts@)),
{
    let mut r: Vec<Vec<String>> = Vec::new();
    r.push(snapshot_header());
    let mut i: usize = 0;
    while i < accounts.len()
        invariant
            0 <= i <= accounts@.len(),
            r@.len() == i + 1,
            texts(r@[0]@) == header_text(),
            forall|j: int| 0 <= j < i ==> texts(#[trigger] r@[j + 1]@) == row_text(accounts@[j]@),
        decreases accounts@.len() - i,
    {
        r.push(snapshot_row(&accounts[i]));
        i = i + 1;
    }
    assert(records_text(r@) =~= snapshot_text(account_views(accounts@))) by {
        let v = account_views(accounts@);
        assert forall|j: int| 0 <= j < r@.len() implies #[trigger] records_text(r@)[j] == snapshot_text(v)[j] by {
            if j > 0 {
                assert(texts(r@[(j - 1) + 1]@) == row_text(accounts@[j - 1]@));
            }
        }
    }
    r
}

/// Feed the rows to `engine` in order, skipping rows that do not convert
/// and ignoring refused transactions. Stops before the first row whose
/// arithmetic would not be representable and returns how many rows were
/// applied.
pub fn drive_input(engine: &mut Engine, rows: &Vec<RawTransaction>) -> (done: usize)
    requires
        old(engine).wf(),
    ensures
        final(engine).wf(),
        done <= rows@.len(),
        rows_fit(old(engine)@, rows@.take(done as int)),
        final(engine)@ == after_rows(old(engine)@, rows@.take(done as int)),
        done < rows@.len() ==> !row_fits(final(engine)@, rows@[done as int]),
{
    let mut i: usize = 0;
    while i < rows.len()
        invariant
            engine.wf(),
            0 <= i <= rows@.len(),
            rows_fit(old(engine)@, rows@.take(i as int)),
            engine@ == after_rows(old(engine)@, rows@.take(i as int)),
        decreases rows@.len() - i,
    {
        let ghost before = engine@;
        proof {
            assert(rows@.take(i + 1).drop_last() =~= rows@.take(i as int));
            assert(rows@.take(i + 1).last() == rows@[i as int]);
        }
        match Transaction::try_from(rows[i]) {
            Ok(tx) => {
                if !engine.can_process(&tx) {
                    return i;
                }
                let _ = engine.process(tx);
            },
            Err(_) => {},
        }
        i = i + 1;
    }
    assert(rows@.take(rows@.len() as int) =~= rows@);
    i
}

/// Process the rows with a fresh engine and render the resulting accounts,
/// each once, in the engine's listing order. `None` when some row's
/// arithmetic is not representable.
pub fn run(rows: Vec<RawTransaction>) -> (r: Option<Vec<Vec<String>>>)
    ensures
        r is Some <==> rows_fit(initial_state(), rows@),
        r matches Some(records) ==> exists|list: Seq<AccountView>|
            lists_accounts(list, after_rows(initial_state(), rows@).accounts) && records_text(
                records@,
            ) == snapshot_text(list),
{
    let mut engine = Engine::new();
    let done = drive_input(&mut engine, &rows);
    if done < rows.len() {
        proof {
            if rows_fit(initial_state(), rows@) {
                lemma_rows_fit_prefix(initial_state(), rows@, done as int);
            }
        }
        return None;
    }
    assert(rows@.take(rows@.len() as int) =~= rows@);
    let accounts = engine.accounts();
    let records = write_snapshots(&accounts);
    proof {
        let list = account_views(accounts@);
        assert(lists_accounts(list, after_rows(initial_state(), rows@).accounts));
    }
    Some(records)
}

/// Two listings of the same accounts hold the same accounts, each once.
pub proof fn lemma_listings_same_multiset(la: Seq<AccountView>, lb: Seq<AccountView>, m: Map<
    u16,
    AccountView,
>)
    requires
        lists_accounts(la, m),
        lists_accounts(lb, m),
    ensures
        la.to_multiset() == lb.to_multiset(),
        la.len() == lb.len(),
{
    broadcast use vstd::seq_lib::group_to_multiset_ensures;
    broadcast use vstd::multiset::group_multiset_axioms;

    assert(la.no_duplicates()) by {
        assert forall|i: int, j: int| 0 <= i < la.len() && 0 <= j < la.len() && i != j implies la[i]
            != la[j] by {
            assert(la[i].client != la[j].client);
        }
    }
    assert(lb.no_duplicates()) by {
        assert forall|i: int, j: int| 0 <= i < lb.len() && 0 <= j < lb.len() && i != j implies lb[i]
            != lb[j] by {
            assert(lb[i].client != lb[j].client);
        }
    }
    la.lemma_multiset_has_no_duplicates();
    lb.lemma_multiset_has_no_duplicates();
    vstd::seq_lib::to_multiset_len(la);
    vstd::seq_lib::to_multiset_len(lb);
    assert forall|x: AccountView| la.contains(x) <==> lb.contains(x) by {
        if la.contains(x) {
            let i = choose|i: int| 0 <= i < la.len() && la[i] == x;
            assert(m.contains_key(la[i].client));
            let j = choose|j: int| 0 <= j < lb.len() && #[trigger] lb[j].client == x.client;
            assert(lb[j] == m[x.client]);
        }
        if lb.contains(x) {
            let j = choose|j: int| 0 <= j < lb.len() && lb[j] == x;
            assert(m.contains_key(lb[j].client));
            let i = choose|i: int| 0 <= i < la.len() && #[trigger] la[i].client == x.client;
            assert(la[i] == m[x.client]);
        }
    }
    assert forall|x: AccountView| la.to_multiset().count(x) == lb.to_multiset().count(x) by {
        if la.contains(x) {
            assert(la.to_multiset().contains(x));
            assert(lb.to_multiset().contains(x));
        } else {
            assert(!lb.contains(x));
        }
    }
    assert(la.to_multiset() =~= lb.to_multiset());
}

/// Every run's snapshot of the same rows is the same up to the order of the
/// account records: whatever two listings of the resulting accounts the
/// runs render (see [`snapshot_text`]: the header, then one
/// [`row_text`] record per listed account), they share the header, list the
/// same accounts each once (so their records are the same up to order).
pub proof fn law_runs_agree_up_to_record_order(
    rows: Seq<RawTransaction>,
    la: Seq<AccountView>,
    lb: Seq<AccountView>,
)
    requires
        lists_accounts(la, after_rows(initial_state(), rows).accounts),
        lists_accounts(lb, after_rows(initial_state(), rows).accounts),
    ensures
        snapshot_text(la).len() == snapshot_text(lb).len(),
        snapshot_text(la)[0] == snapshot_text(lb)[0],
        la.to_multiset() == lb.to_multiset(),
        forall|x: AccountView| #[trigger] la.contains(x) <==> lb.contains(x),
{
    let m = after_rows(initial_state(), rows).accounts;
    lemma_listings_same_multiset(la, lb, m);
    assert forall|x: AccountView| #[trigger] la.contains(x) <==> lb.contains(x) by {
        broadcast use vstd::seq_lib::group_to_multiset_ensures;

        assert(la.to_multiset().count(x) == lb.to_multiset().count(x));
    }
}

/// The number a string of decimal digits spells, most significant first.
pub open spec fn decimal_value(text: Seq<char>) -> int
    decreases text.len(),
{
    if text.len() == 0 {
        0
    } else {
        decimal_value(text.drop_last()) * 10 + (text.last() as int - '0' as int)
    }
}

proof fn lemma_digit_value(d: nat)
    requires
        d < 10,
    ensures
        crate::text::digit_char(d) as int - '0' as int == d,
{
    assert('0' as int == 48 && '1' as int == 49 && '2' as int == 50 && '3' as int == 51 && '4' as int
        == 52 && '5' as int == 53 && '6' as int == 54 && '7' as int == 55 && '8' as int == 56 && '9' as int
        == 57);
}

proof fn lemma_decimal_text_value(n: nat)
    ensures
        decimal_value(decimal_text(n)) == n,
    decreases n,
{
    if n < 10 {
        let t = decimal_text(n);
        lemma_digit_value(n);
        assert(t.drop_last() =~= Seq::<char>::empty());
        assert(decimal_value(t.drop_last()) == 0);
        assert(t.last() == crate::text::digit_char(n));
    } else {
        lemma_decimal_text_value(n / 10);
        let t = decimal_text(n);
        assert(t.drop_last() =~= decimal_text(n / 10));
        assert(t.last() == crate::text::digit_char(n % 10));
        lemma_digit_value(n % 10);
        assert((n / 10) * 10 + n % 10 == n) by (nonlinear_arith);
    }
}

/// The first field of an account's record spells the account's client id in
/// decimal: read back as a number it is that id, for every id.
pub proof fn law_record_starts_with_client_id(a: AccountView)
    ensures
        decimal_value(row_text(a)[0]) == a.client,
{
    lemma_decimal_text_value(a.client as nat);
}

/// Every data record of a snapshot starts with its account's client id:
/// read back as a decimal number, the first field of record `i + 1` is the
/// client of the `i`-th listed account.
pub proof fn law_snapshot_records_carry_client_ids(list: Seq<AccountView>)
    ensures
        forall|i: int|
            0 <= i < list.len() ==> decimal_value(#[trigger] snapshot_text(list)[i + 1][0])
                == list[i].client,
{
    assert forall|i: int| 0 <= i < list.len() implies decimal_value(
        #[trigger] snapshot_text(list)[i + 1][0],
    ) == list[i].client by {
        assert(snapshot_text(list)[i + 1] == row_text(list[i]));
        law_record_starts_with_client_id(list[i]);
    }
}

} // verus!
