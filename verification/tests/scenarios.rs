//! End-to-end runs from CSV text to the rendered snapshot. Data rows are
//! sorted before comparing, since the order of the records is left open,
//! and every scenario also runs through each concurrency variant, whose
//! normalised output must equal the engine's.

use payments_engine_challenge::amount::Amount;
use payments_engine_challenge::concurrency::{actor_crossbeam, actor_std, baseline, dashmap_engine, mutex};
use payments_engine_challenge::engine::transaction::{RawTransaction, TransactionKind};
use payments_engine_challenge::run;
use rust_decimal::Decimal;

/// Parse CSV text into rows; a row that does not parse is skipped, as the
/// binary skips it.
fn rows_from_csv(input: &str) -> Vec<RawTransaction> {
    let mut rdr = csv::ReaderBuilder::new()
        .trim(csv::Trim::All)
        .flexible(true)
        .from_reader(input.as_bytes());
    let mut rows = Vec::new();
    for rec in rdr.records() {
        let Ok(rec) = rec else { continue };
        let Some(kind) = TransactionKind::parse(rec.get(0).unwrap_or("")) else {
            continue;
        };
        let Some(client) = rec.get(1).and_then(|s| s.parse::<u16>().ok()) else {
            continue;
        };
        let Some(tx) = rec.get(2).and_then(|s| s.parse::<u32>().ok()) else {
            continue;
        };
        let amount = match rec.get(3) {
            None | Some("") => None,
            Some(s) => match s.parse::<Decimal>() {
                Ok(d) => Amount::new(d.mantissa(), d.scale()),
                Err(_) => continue,
            },
        };
        rows.push(RawTransaction { kind, client, tx, amount });
    }
    rows
}

/// Records as CSV text: the header, then the data rows sorted.
fn normalise(records: &[Vec<String>]) -> String {
    let mut lines: Vec<String> = records.iter().map(|r| r.join(",")).collect();
    let header = lines.remove(0);
    lines.sort();
    let mut out = header;
    out.push('\n');
    for l in lines {
        out.push_str(&l);
        out.push('\n');
    }
    out
}

type VariantRunner = fn(Vec<RawTransaction>) -> Option<Vec<Vec<String>>>;

/// Every concurrency variant renders the same normalised snapshot as the
/// engine.
fn cross_variant_check(rows: &[RawTransaction], oracle: &str) {
    let cases: [(&str, VariantRunner); 5] = [
        ("baseline", baseline::run),
        ("mutex", mutex::run),
        ("dashmap", dashmap_engine::run),
        ("actor_std", actor_std::run),
        ("actor_crossbeam", actor_crossbeam::run),
    ];
    for (name, run_fn) in cases {
        let got = normalise(&run_fn(rows.to_vec()).unwrap());
        assert_eq!(got, oracle, "concurrency variant `{name}` diverged from the engine's output");
    }
}

fn run_and_normalise(input: &str) -> String {
    let rows = rows_from_csv(input);
    let oracle = normalise(&run(rows.clone()).unwrap());
    cross_variant_check(&rows, &oracle);
    oracle
}

const HEADER: &str = "client,available,held,total,locked\n";

#[test]
fn deposits_only_should_emit_correct_balances_per_client() {
    let out = run_and_normalise(
        "type,client,tx,amount\ndeposit,1,1,1.0\ndeposit,2,2,2.0\ndeposit,1,3,2.0\n",
    );
    assert_eq!(out, format!("{HEADER}1,3.0000,0.0000,3.0000,false\n2,2.0000,0.0000,2.0000,false\n"));
}

#[test]
fn deposit_with_one_decimal_should_render_as_four_decimal_places() {
    let out = run_and_normalise("type,client,tx,amount\ndeposit,1,1,1.5\n");
    assert_eq!(out, format!("{HEADER}1,1.5000,0.0000,1.5000,false\n"));
}

#[test]
fn unknown_row_type_should_be_skipped_without_failing_the_pipeline() {
    let out = run_and_normalise("type,client,tx,amount\ntransfer,1,1,5.0\ndeposit,1,2,3.0\n");
    assert_eq!(out, format!("{HEADER}1,3.0000,0.0000,3.0000,false\n"));
}

#[test]
fn deposit_then_dispute_should_hold_funds_in_snapshot() {
    // Client 1 deposits 10 and disputes it: the funds move from available
    // to held, total stays 10. Client 2's deposit is undisputed.
    let out = run_and_normalise(
        "type,client,tx,amount\ndeposit,1,1,10\ndeposit,2,2,5\ndispute,1,1,\n",
    );
    assert_eq!(
        out,
        format!("{HEADER}1,0.0000,10.0000,10.0000,false\n2,5.0000,0.0000,5.0000,false\n")
    );
}

#[test]
fn deposit_dispute_resolve_should_release_held_funds_in_snapshot() {
    let out = run_and_normalise(
        "type,client,tx,amount\ndeposit,1,1,10\ndispute,1,1,\nresolve,1,1,\n",
    );
    assert_eq!(out, format!("{HEADER}1,10.0000,0.0000,10.0000,false\n"));
}

#[test]
fn redispute_after_resolve_should_hold_funds_again_in_snapshot() {
    let out = run_and_normalise(
        "type,client,tx,amount\ndeposit,1,1,10\ndispute,1,1,\nresolve,1,1,\ndispute,1,1,\n",
    );
    assert_eq!(out, format!("{HEADER}1,0.0000,10.0000,10.0000,false\n"));
}

#[test]
fn deposits_and_withdrawals_should_settle_to_expected_balances() {
    // Client 1: 10 in, 3.5 out. Client 2: 4 in, 9 out refused, 1.25 out.
    // Client 3: a refused withdrawal creates the account at zero.
    let out = run_and_normalise(
        "type,client,tx,amount\n\
         deposit,1,1,10\n\
         deposit,2,2,4\n\
         withdrawal,1,3,3.5\n\
         withdrawal,2,4,9\n\
         withdrawal,2,5,1.25\n\
         withdrawal,3,6,1\n",
    );
    assert_eq!(
        out,
        format!(
            "{HEADER}1,6.5000,0.0000,6.5000,false\n2,2.7500,0.0000,2.7500,false\n3,0.0000,0.0000,0.0000,false\n"
        )
    );
}

#[test]
fn deposit_dispute_chargeback_should_lock_account_in_snapshot() {
    let out = run_and_normalise(
        "type,client,tx,amount\ndeposit,1,1,10\ndispute,1,1,\nchargeback,1,1,\n",
    );
    assert_eq!(out, format!("{HEADER}1,0.0000,0.0000,0.0000,true\n"));
}

#[test]
fn fraud_sequence_should_drive_balance_negative_in_snapshot() {
    let out = run_and_normalise(
        "type,client,tx,amount\ndeposit,1,1,100\nwithdrawal,1,2,80\ndispute,1,1,\nchargeback,1,1,\n",
    );
    assert_eq!(out, format!("{HEADER}1,-80.0000,0.0000,-80.0000,true\n"));
}

#[test]
fn malformed_row_in_middle_should_skip_and_continue_in_snapshot() {
    let out = run_and_normalise(
        "type,client,tx,amount\ndeposit,1,1,5.0\ndeposit,1,2,abc\ndeposit,1,3,2.0\n",
    );
    assert_eq!(out, format!("{HEADER}1,7.0000,0.0000,7.0000,false\n"));
}

#[test]
fn duplicate_tx_ids_should_apply_only_first_event_in_snapshot() {
    // The second use of tx 1 is refused; so is a withdrawal reusing the
    // deposit's tx 2, which leaves that deposit's funds untouched.
    let out = run_and_normalise(
        "type,client,tx,amount\n\
         deposit,1,1,10\n\
         deposit,1,1,5\n\
         deposit,1,2,3\n\
         withdrawal,1,2,1\n",
    );
    assert_eq!(out, format!("{HEADER}1,13.0000,0.0000,13.0000,false\n"));
}

#[test]
fn mixed_ignorable_events_should_complete_without_crashing_in_snapshot() {
    // A dispute of an unknown tx, a duplicate tx id, a deposit on a locked
    // account and a resolve of an undisputed tx are all refused.
    let out = run_and_normalise(
        "type,client,tx,amount\n\
         deposit,1,1,10\n\
         dispute,1,99,\n\
         deposit,1,1,10\n\
         deposit,2,2,5\n\
         dispute,2,2,\n\
         chargeback,2,2,\n\
         deposit,2,3,1\n\
         resolve,1,1,\n",
    );
    assert_eq!(
        out,
        format!("{HEADER}1,10.0000,0.0000,10.0000,false\n2,0.0000,0.0000,0.0000,true\n")
    );
}

#[test]
fn non_positive_amounts_should_be_rejected_without_consuming_tx_ids_in_snapshot() {
    // The negative deposit and withdrawal are refused without consuming
    // their tx ids, so the corrected deposit on tx 2 applies.
    let out = run_and_normalise(
        "type,client,tx,amount\n\
         deposit,1,1,5\n\
         deposit,1,2,-3\n\
         withdrawal,1,3,-2\n\
         deposit,1,2,4\n",
    );
    assert_eq!(out, format!("{HEADER}1,9.0000,0.0000,9.0000,false\n"));
}

#[test]
fn prior_dispute_resolve_should_still_succeed_after_lock_in_snapshot() {
    // Tx 1's chargeback locks the account; tx 2, disputed before the
    // lock, is still resolved after it.
    let out = run_and_normalise(
        "type,client,tx,amount\n\
         deposit,1,1,10\n\
         deposit,1,2,5\n\
         dispute,1,1,\n\
         dispute,1,2,\n\
         chargeback,1,1,\n\
         resolve,1,2,\n",
    );
    assert_eq!(out, format!("{HEADER}1,5.0000,0.0000,5.0000,true\n"));
}
