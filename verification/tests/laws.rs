//! Properties that span transactions, on concrete event sequences.

use payments_engine_challenge::amount::Amount;
use payments_engine_challenge::bench_support::{generate_streams, StreamWorkloadParams};
use payments_engine_challenge::engine::ledger::DisputeState;
use payments_engine_challenge::engine::transaction::Transaction;
use payments_engine_challenge::engine::Engine;
use rust_decimal::Decimal;

fn amt(s: &str) -> Amount {
    let d: Decimal = s.parse().unwrap();
    Amount::new(d.mantissa(), d.scale()).unwrap()
}

fn dec(a: Amount) -> Decimal {
    Decimal::from_i128_with_scale(a.mantissa(), a.scale())
}

fn deposit(client: u16, tx: u32, amount: &str) -> Transaction {
    Transaction::Deposit { client, tx, amount: amt(amount) }
}

/// Sum of the client's deposits that are under dispute, over tx ids `1..=n`.
fn disputed_sum(engine: &Engine, client: u16, n: u32) -> Decimal {
    (1..=n)
        .filter_map(|tx| engine.deposit(tx))
        .filter(|d| d.client() == client && d.state() == DisputeState::Disputed)
        .map(|d| dec(d.amount()))
        .sum()
}

#[test]
fn held_should_equal_the_sum_of_disputed_deposits_after_every_event() {
    let mut engine = Engine::new();
    let events = [
        deposit(1, 1, "10.0000"),
        deposit(1, 2, "2.5"),
        deposit(2, 3, "7"),
        Transaction::Dispute { client: 1, tx: 1 },
        Transaction::Dispute { client: 1, tx: 2 },
        Transaction::Dispute { client: 2, tx: 3 },
        Transaction::Resolve { client: 1, tx: 1 },
        Transaction::Dispute { client: 1, tx: 1 },
        Transaction::Chargeback { client: 1, tx: 2 },
        Transaction::Withdrawal { client: 2, tx: 4, amount: amt("100") },
        Transaction::Resolve { client: 2, tx: 3 },
        Transaction::Dispute { client: 2, tx: 1 },
    ];
    for t in events {
        let _ = engine.process(t);
        for a in engine.accounts() {
            assert_eq!(dec(a.held()), disputed_sum(&engine, a.client(), 4));
        }
    }
}

#[test]
fn lock_should_be_permanent_and_match_a_chargeback() {
    let mut engine = Engine::new();
    engine.process(deposit(1, 1, "5")).unwrap();
    engine.process(deposit(2, 2, "5")).unwrap();
    engine.process(Transaction::Dispute { client: 1, tx: 1 }).unwrap();
    assert!(!engine.account(1).unwrap().locked());
    engine.process(Transaction::Chargeback { client: 1, tx: 1 }).unwrap();

    for t in [
        deposit(1, 3, "1"),
        Transaction::Dispute { client: 1, tx: 1 },
        Transaction::Resolve { client: 1, tx: 1 },
        Transaction::Withdrawal { client: 1, tx: 4, amount: amt("1") },
    ] {
        let _ = engine.process(t);
        assert!(engine.account(1).unwrap().locked());
    }
    assert_eq!(engine.deposit(1).unwrap().state(), DisputeState::ChargedBack);
    assert!(!engine.account(2).unwrap().locked());
}

#[test]
fn dispute_and_resolve_should_keep_the_total_and_restore_balances() {
    let mut engine = Engine::new();
    engine.process(deposit(1, 1, "10")).unwrap();
    engine.process(Transaction::Withdrawal { client: 1, tx: 2, amount: amt("3.25") }).unwrap();
    let before = engine.account(1).unwrap();

    engine.process(Transaction::Dispute { client: 1, tx: 1 }).unwrap();
    let during = engine.account(1).unwrap();
    assert_eq!(dec(during.total()), dec(before.total()));

    engine.process(Transaction::Resolve { client: 1, tx: 1 }).unwrap();
    let after = engine.account(1).unwrap();
    assert_eq!(dec(after.available()), dec(before.available()));
    assert_eq!(dec(after.held()), dec(before.held()));
    assert_eq!(engine.deposit(1).unwrap().state(), DisputeState::NotDisputed);
}

#[test]
fn refused_events_should_leave_the_snapshot_unchanged() {
    let mut engine = Engine::new();
    engine.process(deposit(1, 1, "4")).unwrap();
    let snapshot = |e: &Engine| {
        e.accounts()
            .iter()
            .map(|a| (a.client(), dec(a.available()), dec(a.held()), a.locked()))
            .collect::<Vec<_>>()
    };
    let before = snapshot(&engine);

    for t in [
        deposit(1, 1, "1"),
        deposit(1, 5, "0"),
        Transaction::Dispute { client: 2, tx: 1 },
        Transaction::Resolve { client: 1, tx: 1 },
        Transaction::Chargeback { client: 1, tx: 7 },
    ] {
        assert!(engine.process(t).is_err());
        assert_eq!(snapshot(&engine), before);
    }
}

fn snapshot(e: &Engine) -> Vec<(u16, Decimal, Decimal, bool)> {
    let mut v: Vec<_> = e
        .accounts()
        .iter()
        .map(|a| (a.client(), dec(a.available()), dec(a.held()), a.locked()))
        .collect();
    v.sort_by_key(|t| t.0);
    v
}

#[test]
fn independent_transactions_should_commute() {
    let base = [deposit(1, 1, "10"), deposit(2, 2, "4")];
    let t1 = Transaction::Dispute { client: 1, tx: 1 };
    let t2 = Transaction::Withdrawal { client: 2, tx: 3, amount: amt("5") };

    let mut a = Engine::new();
    let mut b = Engine::new();
    for t in base {
        a.process(t).unwrap();
        b.process(t).unwrap();
    }
    let ra = (format!("{:?}", a.process(t1)), format!("{:?}", a.process(t2)));
    let rb2 = format!("{:?}", b.process(t2));
    let rb1 = format!("{:?}", b.process(t1));

    assert_eq!(snapshot(&a), snapshot(&b));
    assert_eq!(ra, (rb1, rb2));
}

#[test]
fn interleaving_zero_overlap_streams_should_match_running_them_in_order() {
    let params = StreamWorkloadParams { tx_count: 2_000, producers: 2, clients: 20, overlap_pct: 0, seed: 9 };
    let streams = generate_streams(params);
    let (s0, s1) = (&streams[0].txs, &streams[1].txs);

    let mut sequential = Engine::new();
    for t in s0.iter().chain(s1.iter()) {
        let _ = sequential.process(*t);
    }
    // Alternate between the streams, two from the second for each of the first.
    let mut interleaved = Engine::new();
    let (mut i, mut j) = (0, 0);
    while i < s0.len() || j < s1.len() {
        if i < s0.len() {
            let _ = interleaved.process(s0[i]);
            i += 1;
        }
        for _ in 0..2 {
            if j < s1.len() {
                let _ = interleaved.process(s1[j]);
                j += 1;
            }
        }
    }

    assert_eq!(snapshot(&sequential), snapshot(&interleaved));
}
