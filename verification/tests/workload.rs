//! Latency samples, recorders and the single-threaded bench driver.

use std::time::Instant;

use payments_engine_challenge::bench_support::{generate_streams, StreamWorkloadParams};
use payments_engine_challenge::concurrency::baseline;
use payments_engine_challenge::concurrency::workload::{
    latency_sample, merge_recorders, sorted_accounts, LatencyRecorder, HIGHEST_LATENCY_NS,
};
use payments_engine_challenge::amount::Amount;
use payments_engine_challenge::engine::account::Account;
use payments_engine_challenge::engine::Engine;

#[test]
fn latency_sample_should_saturate_into_the_trackable_range() {
    assert_eq!(latency_sample(10, 3, 100), 7);
    assert_eq!(latency_sample(3, 10, 100), 1);
    assert_eq!(latency_sample(5, 5, 100), 1);
    assert_eq!(latency_sample(500, 0, 100), 100);
    assert_eq!(latency_sample(u64::MAX, 0, HIGHEST_LATENCY_NS), HIGHEST_LATENCY_NS);
}

#[test]
fn recorder_should_count_each_recorded_sample() {
    let start = Instant::now();
    let mut r = LatencyRecorder::new();
    assert!(r.is_standard());
    for _ in 0..5 {
        r.record(start, 0);
    }

    assert_eq!(r.histogram.len(), 5);
    assert!(r.histogram.max() >= 1);
}

#[test]
fn merge_recorders_should_hold_every_sample() {
    let start = Instant::now();
    let mut a = LatencyRecorder::new();
    let mut b = LatencyRecorder::default();
    a.record(start, 0);
    a.record(start, 0);
    for _ in 0..3 {
        b.record(start, 0);
    }

    let merged = merge_recorders(&[a, b]);

    assert_eq!(merged.histogram.len(), 5);
    assert!(merged.is_standard());
}

#[test]
fn baseline_run_workload_should_apply_every_stream_in_order() {
    let params = StreamWorkloadParams { tx_count: 3_000, producers: 3, clients: 30, overlap_pct: 50, seed: 11 };
    let streams = generate_streams(params);

    let mut engine = Engine::new();
    for s in &streams {
        for tx in &s.txs {
            let _ = engine.process(*tx);
        }
    }
    let expected = sorted_accounts(engine.accounts());

    let result = baseline::run_workload(3, streams).unwrap();

    assert_eq!(result.recorders.len(), 1);
    assert_eq!(result.recorders[0].histogram.len(), 3_000);
    assert_eq!(result.accounts.len(), expected.len());
    for (x, y) in result.accounts.iter().zip(expected.iter()) {
        assert_eq!(x.client(), y.client());
        assert_eq!(x.available(), y.available());
        assert_eq!(x.held(), y.held());
        assert_eq!(x.locked(), y.locked());
    }
}

#[test]
fn sorted_accounts_should_keep_equal_clients_in_input_order() {
    let with = |client: u16, units: i128| {
        let mut a = Account::new(client);
        a.apply_deposit(Amount::new(units, 0).unwrap());
        a
    };
    let input = vec![with(3, 1), with(1, 2), with(3, 3), with(2, 4), with(1, 5)];
    let out = sorted_accounts(input);
    let seen: Vec<(u16, i128)> = out.iter().map(|a| (a.client(), a.available().mantissa())).collect();
    assert_eq!(seen, vec![(1, 2), (1, 5), (2, 4), (3, 1), (3, 3)]);
}
