//! The synthetic workload generators.

use payments_engine_challenge::bench_support::{
    generate, generate_default, generate_streams, one_shot_params, transaction_for, StreamWorkloadParams,
    WorkloadParams, CLIENTS, DEFAULT_SEED, PRODUCERS,
};
use payments_engine_challenge::amount::Amount;
use payments_engine_challenge::engine::transaction::Transaction;
use std::collections::HashSet;

fn client(t: &Transaction) -> u16 {
    match *t {
        Transaction::Deposit { client, .. }
        | Transaction::Withdrawal { client, .. }
        | Transaction::Dispute { client, .. }
        | Transaction::Resolve { client, .. }
        | Transaction::Chargeback { client, .. } => client,
    }
}

fn tx(t: &Transaction) -> u32 {
    match *t {
        Transaction::Deposit { tx, .. }
        | Transaction::Withdrawal { tx, .. }
        | Transaction::Dispute { tx, .. }
        | Transaction::Resolve { tx, .. }
        | Transaction::Chargeback { tx, .. } => tx,
    }
}

#[test]
fn generate_should_be_deterministic_for_a_given_seed() {
    let a = generate(WorkloadParams { tx_count: 10_000, ..Default::default() });
    let b = generate(WorkloadParams { tx_count: 10_000, ..Default::default() });

    assert_eq!(a, b);
}

#[test]
fn generate_should_produce_requested_tx_count() {
    let workload = generate(WorkloadParams { tx_count: 1234, ..Default::default() });

    assert_eq!(workload.len(), 1234);
}

#[test]
fn generate_should_emit_deposit_for_first_lifecycle_pick_when_pool_empty() {
    // A lifecycle pick with no deposit emitted yet becomes a deposit, so
    // the first row is never a dispute, resolve or chargeback.
    let workload = generate(WorkloadParams { tx_count: 1, ..Default::default() });

    let kind = match workload[0] {
        Transaction::Deposit { .. } => "deposit",
        Transaction::Withdrawal { .. } => "withdrawal",
        _ => "lifecycle",
    };
    assert!(
        kind == "deposit" || kind == "withdrawal",
        "first tx should be a deposit or withdrawal, got {kind}",
    );
}

#[test]
fn generate_should_diverge_under_different_seeds() {
    let a = generate(WorkloadParams { tx_count: 1_000, seed: 1, ..Default::default() });
    let b = generate(WorkloadParams { tx_count: 1_000, seed: 2, ..Default::default() });

    assert_ne!(a, b);
}

#[test]
fn generate_should_number_fresh_ids_and_target_earlier_deposits() {
    let workload = generate(WorkloadParams { tx_count: 5_000, clients: 50, seed: 7 });
    let mut next = 1u32;
    let mut deposits: HashSet<(u16, u32)> = HashSet::new();
    for t in &workload {
        assert!(client(t) < 50);
        match *t {
            Transaction::Deposit { client, tx, amount } => {
                assert_eq!(tx, next);
                next += 1;
                assert_eq!(amount.scale(), 4);
                assert!((1..=10_000_000).contains(&amount.mantissa()));
                deposits.insert((client, tx));
            }
            Transaction::Withdrawal { tx, amount, .. } => {
                assert_eq!(tx, next);
                next += 1;
                assert_eq!(amount.scale(), 4);
                assert!((1..=10_000_000).contains(&amount.mantissa()));
            }
            _ => assert!(deposits.contains(&(client(t), tx(t)))),
        }
    }
}

#[test]
fn generate_default_should_use_default_clients() {
    let workload = generate_default(2_000);

    assert_eq!(workload.len(), 2_000);
    assert!(workload.iter().all(|t| client(t) < CLIENTS));
}

#[test]
fn one_shot_params_should_pin_producers_clients_and_seed() {
    let p = one_shot_params(500, 30);

    assert_eq!(p.tx_count, 500);
    assert_eq!(p.producers, PRODUCERS);
    assert_eq!(p.clients, CLIENTS);
    assert_eq!(p.overlap_pct, 30);
    assert_eq!(p.seed, DEFAULT_SEED);
}

#[test]
fn generate_streams_should_split_tx_count_evenly_with_leftover_first() {
    let params = StreamWorkloadParams { tx_count: 1_003, producers: 4, ..Default::default() };
    let streams = generate_streams(params);

    let lens: Vec<usize> = streams.iter().map(|s| s.txs.len()).collect();
    assert_eq!(lens, vec![251, 251, 251, 250]);
}

#[test]
fn generate_streams_should_keep_lifecycle_events_within_their_stream() {
    let params = StreamWorkloadParams { tx_count: 4_000, producers: 4, ..Default::default() };
    let streams = generate_streams(params);

    let mut next = 1u32;
    for s in &streams {
        let mut deposits: HashSet<(u16, u32)> = HashSet::new();
        for t in &s.txs {
            match *t {
                Transaction::Deposit { client, tx, .. } => {
                    assert_eq!(tx, next);
                    next += 1;
                    deposits.insert((client, tx));
                }
                Transaction::Withdrawal { tx, .. } => {
                    assert_eq!(tx, next);
                    next += 1;
                }
                _ => assert!(deposits.contains(&(client(t), tx(t)))),
            }
        }
    }
}

#[test]
fn generate_streams_should_partition_clients_at_zero_overlap() {
    let params = StreamWorkloadParams {
        tx_count: 8_000,
        producers: 8,
        clients: 80,
        overlap_pct: 0,
        seed: 3,
    };
    let streams = generate_streams(params);

    for (p, s) in streams.iter().enumerate() {
        let lo = 10 * p as u16;
        assert!(s.txs.iter().all(|t| (lo..lo + 10).contains(&client(t))));
    }
}

#[test]
fn generate_streams_should_draw_from_the_shared_pool_at_full_overlap() {
    let params = StreamWorkloadParams {
        tx_count: 2_000,
        producers: 4,
        clients: 40,
        overlap_pct: 100,
        seed: 5,
    };
    let streams = generate_streams(params);

    assert!(streams.iter().all(|s| s.txs.iter().all(|t| client(t) < 40)));
}

#[test]
fn transaction_for_should_follow_the_mix() {
    let amount = Amount::new(12_345, 4).unwrap();
    let target = Some((9u16, 4u32));
    assert_eq!(
        transaction_for(0, 3, target, 11, amount),
        Transaction::Deposit { client: 3, tx: 11, amount }
    );
    assert_eq!(
        transaction_for(49, 3, target, 11, amount),
        Transaction::Deposit { client: 3, tx: 11, amount }
    );
    assert_eq!(
        transaction_for(50, 3, target, 11, amount),
        Transaction::Withdrawal { client: 3, tx: 11, amount }
    );
    assert_eq!(
        transaction_for(79, 3, None, 11, amount),
        Transaction::Withdrawal { client: 3, tx: 11, amount }
    );
    assert_eq!(transaction_for(80, 3, target, 11, amount), Transaction::Dispute { client: 9, tx: 4 });
    assert_eq!(transaction_for(89, 3, target, 11, amount), Transaction::Dispute { client: 9, tx: 4 });
    assert_eq!(transaction_for(90, 3, target, 11, amount), Transaction::Resolve { client: 9, tx: 4 });
    assert_eq!(transaction_for(96, 3, target, 11, amount), Transaction::Resolve { client: 9, tx: 4 });
    assert_eq!(
        transaction_for(97, 3, target, 11, amount),
        Transaction::Chargeback { client: 9, tx: 4 }
    );
    assert_eq!(
        transaction_for(99, 3, target, 11, amount),
        Transaction::Chargeback { client: 9, tx: 4 }
    );
    assert_eq!(
        transaction_for(85, 3, None, 11, amount),
        Transaction::Deposit { client: 3, tx: 11, amount }
    );
}
