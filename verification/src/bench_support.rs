//! Synthetic workload generator for the engine benchmarks.
//!
//! The generator draws from a `SmallRng` seeded with the caller's seed; the
//! kind of each transaction follows the draw through [`transaction_for`].
//! No contract here says which workload a seed gives: the generator's
//! output stream is not the same on every target. What the contracts
//! below promise holds of every outcome of the draws: how many transactions
//! come out, which tx ids they carry, that every dispute lifecycle event
//! points at a deposit emitted earlier, and the ranges of clients and
//! amounts.
use crate::amount::Amount;
use crate::engine::laws::{
    concat_all, filed_by_client, independent, independent_seqs, interleaves_all,
    law_interleavings_of_independent_streams_agree, pairwise_independent,
};
use crate::engine::transaction::{client_of, tx_of, Transaction};
use crate::engine::{after_txs, txs_fit, EngineView};
use rand::rngs::SmallRng;
use rand::Rng;
use rand::SeedableRng;
use vstd::prelude::*;

verus! {

/// Default seed of the bundled throughput and memory workloads.
pub const DEFAULT_SEED: u64 = 0x0000_7ABE_5EED;

/// Default client cardinality.
pub const CLIENTS: u16 = 10_000;

/// Throughput bench size.
pub const TX_THROUGHPUT: usize = 1_000_000;

/// Memory bench size.
pub const TX_MEMORY: usize = 10_000_000;

/// Number of producer threads used by the multi-producer bench drivers.
pub const PRODUCERS: usize = 8;

/// Bounded-channel capacity for the actor variants.
pub const CHANNEL_CAPACITY: usize = 1024;

/// Default tx count of the throughput bench's pre-built workload.
pub const TX_BENCH: usize = TX_THROUGHPUT;

/// Smallest generated amount, in units of `0.0001`.
pub const MIN_AMOUNT_UNITS: u64 = 1;

/// Largest generated amount, in units of `0.0001` (that is, `1000.0000`).
pub const MAX_AMOUNT_UNITS: u64 = 10_000_000;

#[verifier::external_type_specification]
#[verifier::external_body]
pub struct ExSmallRng(SmallRng);

/// `SmallRng::seed_from_u64`. Nothing is claimed of the generator's state.
#[verifier::external_body]
fn seeded_rng(seed: u64) -> SmallRng {
    SmallRng::seed_from_u64(seed)
}

/// `Rng::random_range` on `0..hi` for `u32`: a value below `hi`. The range
/// must not be empty (the call panics on an empty range).
#[verifier::external_body]
fn random_below_u32(rng: &mut SmallRng, hi: u32) -> (r: u32)
    requires
        0 < hi,
    ensures
        r < hi,
{
    rng.random_range(0..hi)
}

/// `Rng::random_range` on `lo..hi` for `u16`: a value in the half-open
/// range, which must not be empty.
#[verifier::external_body]
fn random_in_u16(rng: &mut SmallRng, lo: u16, hi: u16) -> (r: u16)
    requires
        lo < hi,
    ensures
        lo <= r < hi,
{
    rng.random_range(lo..hi)
}

/// `Rng::random_range` on `lo..=hi` for `u64`: a value in the closed
/// range, which must not be empty.
#[verifier::external_body]
fn random_in_u64_inclusive(rng: &mut SmallRng, lo: u64, hi: u64) -> (r: u64)
    requires
        lo <= hi,
    ensures
        lo <= r <= hi,
{
    rng.random_range(lo..=hi)
}

/// `Rng::random_range` on `0..hi` for `usize`: a value below `hi`, which
/// must be positive.
#[verifier::external_body]
fn random_below_usize(rng: &mut SmallRng, hi: usize) -> (r: usize)
    requires
        0 < hi,
    ensures
        r < hi,
{
    rng.random_range(0..hi)
}

/// Deposits and withdrawals introduce a tx id; lifecycle events refer to one.
pub open spec fn is_fresh(t: Transaction) -> bool {
    t is Deposit || t is Withdrawal
}

/// The amount of a deposit or withdrawal.
pub open spec fn amount_of(t: Transaction) -> Amount {
    match t {
        Transaction::Deposit { amount, .. } => amount,
        Transaction::Withdrawal { amount, .. } => amount,
        _ => Amount::spec_zero(),
    }
}

/// How many deposits and withdrawals `s` holds.
pub open spec fn fresh_count(s: Seq<Transaction>) -> nat
    decreases s.len(),
{
    if s.len() == 0 {
        0
    } else {
        fresh_count(s.drop_last()) + if is_fresh(s.last()) {
            1nat
        } else {
            0nat
        }
    }
}

/// The deposits and withdrawals of `s` carry the ids `base + 1`,
/// `base + 2`, ... in order.
pub open spec fn numbered_from(s: Seq<Transaction>, base: nat) -> bool {
    forall|i: int|
        0 <= i < s.len() && is_fresh(#[trigger] s[i]) ==> tx_of(s[i]) == base + fresh_count(
            s.take(i),
        ) + 1
}

/// Some deposit of `s` before position `i` has this client and tx id.
pub open spec fn deposit_before(s: Seq<Transaction>, i: int, client: u16, tx: u32) -> bool {
    exists|j: int|
        0 <= j < i && (#[trigger] s[j]) is Deposit && client_of(s[j]) == client && tx_of(s[j])
            == tx
}

/// Every dispute, resolve and chargeback of `s` names the client and tx id
/// of a deposit that comes before it.
pub open spec fn lifecycle_targets_earlier_deposits(s: Seq<Transaction>) -> bool {
    forall|i: int|
        0 <= i < s.len() && !is_fresh(#[trigger] s[i]) ==> deposit_before(
            s,
            i,
            client_of(s[i]),
            tx_of(s[i]),
        )
}

/// A generated amount: four fractional digits, in `(0, 1000]`.
pub open spec fn generated_amount(a: Amount) -> bool {
    &&& a.spec_scale() == 4
    &&& MIN_AMOUNT_UNITS <= a.spec_mantissa() <= MAX_AMOUNT_UNITS
}

/// Every deposit and withdrawal of `s` carries a generated amount.
pub open spec fn amounts_generated(s: Seq<Transaction>) -> bool {
    forall|i: int| 0 <= i < s.len() && is_fresh(#[trigger] s[i]) ==> generated_amount(amount_of(s[i]))
}

/// Every transaction of `s` names a client below `n`.
pub open spec fn clients_below(s: Seq<Transaction>, n: int) -> bool {
    forall|i: int| 0 <= i < s.len() ==> client_of(#[trigger] s[i]) < n
}

proof fn lemma_fresh_count_push(s: Seq<Transaction>, t: Transaction)
    ensures
        fresh_count(s.push(t)) == fresh_count(s) + if is_fresh(t) {
            1nat
        } else {
            0nat
        },
{
    assert(s.push(t).drop_last() =~= s);
}

proof fn lemma_fresh_count_bound(s: Seq<Transaction>)
    ensures
        fresh_count(s) <= s.len(),
    decreases s.len(),
{
    if s.len() > 0 {
        lemma_fresh_count_bound(s.drop_last());
    }
}

/// Appending a transaction keeps the numbering when a fresh one carries the
/// next id.
proof fn lemma_push_numbered(s: Seq<Transaction>, t: Transaction, base: nat)
    requires
        numbered_from(s, base),
        is_fresh(t) ==> tx_of(t) == base + fresh_count(s) + 1,
    ensures
        numbered_from(s.push(t), base),
{
    let u = s.push(t);
    assert forall|i: int| 0 <= i < u.len() && is_fresh(#[trigger] u[i]) implies tx_of(u[i]) == base
        + fresh_count(u.take(i)) + 1 by {
        if i < s.len() {
            assert(u.take(i) =~= s.take(i));
            assert(u[i] == s[i]);
        } else {
            assert(u.take(i) =~= s);
        }
    }
}

/// Appending a transaction keeps the deposits already there.
proof fn lemma_push_deposit_before(s: Seq<Transaction>, t: Transaction, i: int, client: u16, tx: u32)
    requires
        deposit_before(s, i, client, tx),
        i <= s.len(),
    ensures
        deposit_before(s.push(t), i, client, tx),
{
    let j = choose|j: int|
        0 <= j < i && (#[trigger] s[j]) is Deposit && client_of(s[j]) == client && tx_of(s[j])
            == tx;
    assert(s.push(t)[j] == s[j]);
}

/// Appending a transaction keeps every lifecycle event's target when a new
/// lifecycle event names a deposit already there.
proof fn lemma_push_targets(s: Seq<Transaction>, t: Transaction)
    requires
        lifecycle_targets_earlier_deposits(s),
        !is_fresh(t) ==> deposit_before(s, s.len() as int, client_of(t), tx_of(t)),
    ensures
        lifecycle_targets_earlier_deposits(s.push(t)),
{
    let u = s.push(t);
    assert forall|i: int| 0 <= i < u.len() && !is_fresh(#[trigger] u[i]) implies deposit_before(
        u,
        i,
        client_of(u[i]),
        tx_of(u[i]),
    ) by {
        if i < s.len() {
            assert(u[i] == s[i]);
            lemma_push_deposit_before(s, t, i, client_of(s[i]), tx_of(s[i]));
        } else {
            lemma_push_deposit_before(s, t, i, client_of(t), tx_of(t));
        }
    }
}

/// A random four-decimal-place amount in `(0, 1000]`, strictly positive so
/// generated rows never carry a non-positive amount.
fn random_amount(rng: &mut SmallRng) -> (r: Amount)
    ensures
        generated_amount(r),
{
    let units = random_in_u64_inclusive(rng, MIN_AMOUNT_UNITS, MAX_AMOUNT_UNITS);
    match Amount::new(units as i128, 4) {
        Some(a) => a,
        None => {
            assert(false);
            Amount::zero()
        },
    }
}

/// A uniformly drawn element of `pool`, or `None` when it is empty.
fn sample<T: Copy>(rng: &mut SmallRng, pool: &Vec<T>) -> (r: Option<T>)
    ensures
        r is None <==> pool@.len() == 0,
        r matches Some(x) ==> exists|k: int| 0 <= k < pool@.len() && pool@[k] == x,
{
    if pool.len() == 0 {
        None
    } else {
        let k = random_below_usize(rng, pool.len());
        let x = pool[k];
        assert(pool@[k as int] == x);
        Some(x)
    }
}

/// The transaction one draw of the mix gives. `pick` (below 100) selects the
/// kind: below 50 a deposit, below 80 a withdrawal, below 90 a dispute,
/// below 97 a resolve, otherwise a chargeback. A deposit or withdrawal goes
/// to `client` with the fresh id `next_tx` and `amount`; a lifecycle event
/// names the `target` deposit as (client, tx id), and with no target a
/// deposit is emitted in its place.
pub open spec fn mixed_transaction(
    pick: u32,
    client: u16,
    target: Option<(u16, u32)>,
    next_tx: u32,
    amount: Amount,
) -> Transaction {
    if pick < 50 {
        Transaction::Deposit { client, tx: next_tx, amount }
    } else if pick < 80 {
        Transaction::Withdrawal { client, tx: next_tx, amount }
    } else {
        match target {
            None => Transaction::Deposit { client, tx: next_tx, amount },
            Some((c, t)) => if pick < 90 {
                Transaction::Dispute { client: c, tx: t }
            } else if pick < 97 {
                Transaction::Resolve { client: c, tx: t }
            } else {
                Transaction::Chargeback { client: c, tx: t }
            },
        }
    }
}

/// The transaction one draw of the mix gives; both generators build every
/// transaction through this (see [`mixed_transaction`]).
pub fn transaction_for(
    pick: u32,
    client: u16,
    target: Option<(u16, u32)>,
    next_tx: u32,
    amount: Amount,
) -> (r: Transaction)
    ensures
        r == mixed_transaction(pick, client, target, next_tx, amount),
{
    if pick < 50 {
        Transaction::Deposit { client, tx: next_tx, amount }
    } else if pick < 80 {
        Transaction::Withdrawal { client, tx: next_tx, amount }
    } else {
        match target {
            None => Transaction::Deposit { client, tx: next_tx, amount },
            Some((c, t)) => {
                if pick < 90 {
                    Transaction::Dispute { client: c, tx: t }
                } else if pick < 97 {
                    Transaction::Resolve { client: c, tx: t }
                } else {
                    Transaction::Chargeback { client: c, tx: t }
                }
            },
        }
    }
}

/// Knobs of the single-stream generator.
#[derive(Debug, Clone, Copy)]
pub struct WorkloadParams {
    /// Total tx count emitted.
    pub tx_count: usize,
    /// Number of distinct client ids the generator may pick from.
    pub clients: u16,
    /// Seed for the deterministic `SmallRng`.
    pub seed: u64,
}

impl Default for WorkloadParams {
    fn default() -> (r: WorkloadParams)
        ensures
            r == (WorkloadParams { tx_count: TX_THROUGHPUT, clients: CLIENTS, seed: DEFAULT_SEED }),
    {
        WorkloadParams { tx_count: TX_THROUGHPUT, clients: CLIENTS, seed: DEFAULT_SEED }
    }
}

/// What the single-stream generator promises of its output.
pub open spec fn generated_workload(r: Seq<Transaction>, params: WorkloadParams) -> bool {
    &&& r.len() == params.tx_count
    &&& numbered_from(r, 0)
    &&& lifecycle_targets_earlier_deposits(r)
    &&& amounts_generated(r)
    &&& clients_below(r, params.clients as int)
}

/// Generate a workload of `tx_count` transactions using the default client
/// cardinality and seed.
pub fn generate_default(tx_count: usize) -> (r: Vec<Transaction>)
    requires
        tx_count < u32::MAX,
    ensures
        generated_workload(
            r@,
            WorkloadParams { tx_count, clients: CLIENTS, seed: DEFAULT_SEED },
        ),
{
    let params = WorkloadParams { tx_count, ..WorkloadParams::default() };
    generate(params)
}

/// Generate a workload with the mix 50% deposit, 30% withdrawal, 10%
/// dispute, 7% resolve, 3% chargeback.
///
/// Deposits and withdrawals get the tx ids 1, 2, 3, ... in order. A
/// lifecycle event targets a uniformly drawn deposit emitted earlier; when
/// there is none yet, a deposit is emitted in its place. Dispute state is
/// not tracked, so some resolves and chargebacks land on undisputed
/// deposits, as a partner's stream would.
pub fn generate(params: WorkloadParams) -> (r: Vec<Transaction>)
    requires
        params.clients > 0,
        params.tx_count < u32::MAX,
    ensures
        generated_workload(r@, params),
{
    let WorkloadParams { tx_count, clients, seed } = params;
    let mut rng = seeded_rng(seed);
    let mut workload: Vec<Transaction> = Vec::new();
    // Deposits emitted so far, as (client, tx id): the targets of the
    // lifecycle events. Deposits never leave the pool.
    let mut deposit_pool: Vec<(u16, u32)> = Vec::new();
    let mut next_tx: u32 = 1;
    let mut n: usize = 0;
    while n < tx_count
        invariant
            0 < clients,
            tx_count < u32::MAX,
            n <= tx_count,
            workload@.len() == n,
            next_tx == fresh_count(workload@) + 1,
            numbered_from(workload@, 0),
            lifecycle_targets_earlier_deposits(workload@),
            amounts_generated(workload@),
            clients_below(workload@, clients as int),
            forall|k: int|
                0 <= k < deposit_pool@.len() ==> deposit_before(
                    workload@,
                    workload@.len() as int,
                    (#[trigger] deposit_pool@[k]).0,
                    deposit_pool@[k].1,
                ),
        decreases tx_count - n,
    {
        proof {
            lemma_fresh_count_bound(workload@);
        }
        let ghost before = workload@;
        let pick = random_below_u32(&mut rng, 100);
        // A lifecycle event targets an earlier deposit; with none yet, a
        // deposit is emitted in its place.
        let target = if pick < 80 {
            None
        } else {
            sample(&mut rng, &deposit_pool)
        };
        let fresh = match target {
            Some(_) => false,
            None => true,
        };
        let (client, amount) = if fresh {
            let client = random_in_u16(&mut rng, 0, clients);
            (client, random_amount(&mut rng))
        } else {
            (0u16, Amount::zero())
        };
        let tx = transaction_for(pick, client, target, next_tx, amount);
        if fresh {
            if pick < 50 || pick >= 80 {
                deposit_pool.push((client, next_tx));
            }
            next_tx = next_tx + 1;
        }
        workload.push(tx);
        proof {
            lemma_fresh_count_push(before, tx);
            lemma_push_numbered(before, tx, 0);
            lemma_push_targets(before, tx);
            let len = before.len() as int;
            assert forall|k: int| 0 <= k < deposit_pool@.len() implies deposit_before(
                workload@,
                workload@.len() as int,
                (#[trigger] deposit_pool@[k]).0,
                deposit_pool@[k].1,
            ) by {
                if deposit_before(before, len, deposit_pool@[k].0, deposit_pool@[k].1) {
                    lemma_push_deposit_before(before, tx, len, deposit_pool@[k].0, deposit_pool@[k].1);
                    let j = choose|j: int|
                        0 <= j < len && (#[trigger] workload@[j]) is Deposit && client_of(workload@[j])
                            == deposit_pool@[k].0 && tx_of(workload@[j]) == deposit_pool@[k].1;
                    assert(0 <= j < workload@.len());
                } else {
                    assert(workload@[len] == tx);
                }
            }
        }
        n = n + 1;
    }
    workload
}


/// Per-producer slice of a multi-stream workload: the transactions one
/// producer thread submits, in order.
#[derive(Debug, Clone, Default)]
pub struct ProducerStream {
    /// Transactions destined for this producer's thread, in order.
    pub txs: Vec<Transaction>,
}

/// Knobs of the multi-stream generator.
#[derive(Debug, Clone, Copy)]
pub struct StreamWorkloadParams {
    /// Total tx count summed across all producer streams.
    pub tx_count: usize,
    /// Producer stream count.
    pub producers: usize,
    /// Total client-id cardinality, split into a shared pool and one
    /// private partition per producer.
    pub clients: u16,
    /// Client-pool overlap ratio in percent: `0` gives each producer a
    /// disjoint partition, `100` lets every producer touch every client.
    pub overlap_pct: u8,
    /// Seed for the deterministic `SmallRng`.
    pub seed: u64,
}

impl Default for StreamWorkloadParams {
    fn default() -> (r: StreamWorkloadParams)
        ensures
            r == (StreamWorkloadParams {
                tx_count: TX_THROUGHPUT,
                producers: PRODUCERS,
                clients: CLIENTS,
                overlap_pct: 100,
                seed: DEFAULT_SEED,
            }),
    {
        StreamWorkloadParams {
            tx_count: TX_THROUGHPUT,
            producers: PRODUCERS,
            clients: CLIENTS,
            overlap_pct: 100,
            seed: DEFAULT_SEED,
        }
    }
}

/// The transactions of all streams, stream after stream.
pub open spec fn all_txs(streams: Seq<ProducerStream>) -> Seq<Transaction>
    decreases streams.len(),
{
    if streams.len() == 0 {
        Seq::empty()
    } else {
        all_txs(streams.drop_last()) + streams.last().txs@
    }
}

/// The transactions of a concatenation of streams are those of the first
/// part followed by those of the second.
pub proof fn lemma_all_txs_concat(a: Seq<ProducerStream>, b: Seq<ProducerStream>)
    ensures
        all_txs(a + b) == all_txs(a) + all_txs(b),
    decreases b.len(),
{
    if b.len() == 0 {
        assert(a + b =~= a);
        assert(all_txs(a) + all_txs(b) =~= all_txs(a));
    } else {
        lemma_all_txs_concat(a, b.drop_last());
        assert((a + b).drop_last() =~= a + b.drop_last());
        assert(all_txs(a + b) =~= all_txs(a) + all_txs(b));
    }
}

/// The transactions of the first `p` streams, then stream `p`'s, then the
/// rest.
pub proof fn lemma_all_txs_split(streams: Seq<ProducerStream>, p: int)
    requires
        0 <= p < streams.len(),
    ensures
        all_txs(streams) == all_txs(streams.take(p)) + streams[p].txs@ + all_txs(
            streams.skip(p + 1),
        ),
        all_txs(streams.take(p + 1)) == all_txs(streams.take(p)) + streams[p].txs@,
{
    let head = streams.take(p + 1);
    let tail = streams.skip(p + 1);
    assert(streams =~= head + tail);
    lemma_all_txs_concat(head, tail);
    assert(head.drop_last() =~= streams.take(p));
    assert(head.last() == streams[p]);
}

/// Size of the shared client pool: `clients * overlap_pct / 100`, ids
/// `0 .. shared`.
pub open spec fn shared_clients(params: StreamWorkloadParams) -> int {
    (params.clients * params.overlap_pct) / 100
}

/// Size of each producer's private partition: what the shared pool leaves,
/// split evenly (the producer count taken as a `u16`).
pub open spec fn private_share(params: StreamWorkloadParams) -> int {
    (params.clients - shared_clients(params)) / (params.producers as int % 0x1_0000)
}

/// A client drawn for a stream: from the shared pool `0 .. shared`, or from
/// the stream's private partition `lo .. hi`, or `0` when both are empty.
pub open spec fn client_choice(c: int, shared: int, lo: int, hi: int) -> bool {
    ||| 0 < shared && 0 <= c < shared
    ||| lo < hi && lo <= c < hi
    ||| shared == 0 && hi <= lo && c == 0
}

/// The client ids a draw may take, as a range `lo..hi`: with an overlap
/// coin below `overlap_pct` the shared pool `0..shared`, otherwise the
/// private partition `lo..hi`; an empty pool falls through to the other
/// one, and with both empty the client is 0.
pub open spec fn client_pool(coin: u32, overlap_pct: u8, shared: u16, lo: u16, hi: u16) -> (int, int) {
    if coin < overlap_pct && shared > 0 {
        (0, shared as int)
    } else if hi > lo {
        (lo as int, hi as int)
    } else if shared > 0 {
        (0, shared as int)
    } else {
        (0, 1)
    }
}

/// Draw a client from the pool the overlap coin selects.
fn draw_client(rng: &mut SmallRng, coin: u32, overlap_pct: u8, shared: u16, lo: u16, hi: u16) -> (r: u16)
    ensures
        client_pool(coin, overlap_pct, shared, lo, hi).0 <= r < client_pool(
            coin,
            overlap_pct,
            shared,
            lo,
            hi,
        ).1,
{
    if coin < overlap_pct as u32 && shared > 0 {
        random_in_u16(rng, 0, shared)
    } else if hi > lo {
        random_in_u16(rng, lo, hi)
    } else if shared > 0 {
        random_in_u16(rng, 0, shared)
    } else {
        0
    }
}

/// The overlap coin decides the pool: a draw whose coin is below
/// `overlap_pct` takes a shared client whenever the shared pool is
/// non-empty, even when the private partition is non-empty too; a draw
/// whose coin is not below it takes a private client whenever the
/// partition is non-empty. Either way the client is a valid choice.
pub proof fn law_overlap_coin_selects_the_pool(
    coin: u32,
    overlap_pct: u8,
    shared: u16,
    lo: u16,
    hi: u16,
    c: int,
)
    requires
        client_pool(coin, overlap_pct, shared, lo, hi).0 <= c < client_pool(
            coin,
            overlap_pct,
            shared,
            lo,
            hi,
        ).1,
    ensures
        coin < overlap_pct && shared > 0 ==> 0 <= c < shared,
        coin >= overlap_pct && hi > lo ==> lo <= c < hi,
        hi <= lo && shared > 0 ==> 0 <= c < shared,
        hi <= lo && shared == 0 ==> c == 0,
        client_choice(c, shared as int, lo as int, hi as int),
{
}

/// Every transaction of `s` names a client drawn as [`client_choice`] says.
pub open spec fn clients_chosen(s: Seq<Transaction>, shared: int, lo: int, hi: int) -> bool {
    forall|i: int| 0 <= i < s.len() ==> client_choice(client_of(#[trigger] s[i]) as int, shared, lo, hi)
}

/// The first client id of producer `p`'s private partition.
pub open spec fn partition_start(params: StreamWorkloadParams, p: int) -> int {
    shared_clients(params) + private_share(params) * p
}

/// The number of transactions of producer `p`'s stream: an even split, the
/// first `tx_count % producers` streams taking one more.
pub open spec fn stream_len(params: StreamWorkloadParams, p: int) -> int {
    params.tx_count / params.producers + if p < params.tx_count % params.producers {
        1int
    } else {
        0int
    }
}

/// What the multi-stream generator promises of its output.
pub open spec fn generated_streams(r: Seq<ProducerStream>, params: StreamWorkloadParams) -> bool {
    &&& r.len() == params.producers
    &&& all_txs(r).len() == params.tx_count
    &&& numbered_from(all_txs(r), 0)
    &&& forall|p: int| 0 <= p < r.len() ==> stream_generated((#[trigger] r[p]).txs@, params, p)
}

proof fn lemma_fresh_count_concat(a: Seq<Transaction>, b: Seq<Transaction>)
    ensures
        fresh_count(a + b) == fresh_count(a) + fresh_count(b),
    decreases b.len(),
{
    if b.len() > 0 {
        lemma_fresh_count_concat(a, b.drop_last());
        assert((a + b).drop_last() =~= a + b.drop_last());
    } else {
        assert(a + b =~= a);
    }
}

/// Numbering continues across a concatenation.
proof fn lemma_numbered_concat(a: Seq<Transaction>, b: Seq<Transaction>)
    requires
        numbered_from(a, 0),
        numbered_from(b, fresh_count(a)),
    ensures
        numbered_from(a + b, 0),
{
    let u = a + b;
    assert forall|i: int| 0 <= i < u.len() && is_fresh(#[trigger] u[i]) implies tx_of(u[i]) == 0
        + fresh_count(u.take(i)) + 1 by {
        if i < a.len() {
            assert(u.take(i) =~= a.take(i));
            assert(u[i] == a[i]);
        } else {
            let k = i - a.len();
            assert(u[i] == b[k]);
            assert(u.take(i) =~= a + b.take(k));
            lemma_fresh_count_concat(a, b.take(k));
        }
    }
}

/// Draw one stream of `target` transactions whose fresh tx ids start at
/// `first_tx`. Lifecycle events only target deposits this stream emitted.
#[verifier::spinoff_prover]
fn generate_stream(
    rng: &mut SmallRng,
    target: usize,
    first_tx: u32,
    shared: u16,
    lo: u16,
    hi: u16,
    overlap_pct: u8,
) -> (r: (Vec<Transaction>, u32))
    requires
        1 <= first_tx,
        first_tx + target <= u32::MAX,
    ensures
        r.0@.len() == target,
        r.1 == first_tx + fresh_count(r.0@),
        numbered_from(r.0@, (first_tx - 1) as nat),
        lifecycle_targets_earlier_deposits(r.0@),
        amounts_generated(r.0@),
        clients_chosen(r.0@, shared as int, lo as int, hi as int),
{
    let mut txs: Vec<Transaction> = Vec::new();
    // This stream's deposits so far, as (tx id, client).
    let mut pool: Vec<(u32, u16)> = Vec::new();
    let mut next_tx: u32 = first_tx;
    let mut n: usize = 0;
    while n < target
        invariant
            1 <= first_tx,
            first_tx + target <= u32::MAX,
            n <= target,
            txs@.len() == n,
            next_tx == first_tx + fresh_count(txs@),
            numbered_from(txs@, (first_tx - 1) as nat),
            lifecycle_targets_earlier_deposits(txs@),
            amounts_generated(txs@),
            clients_chosen(txs@, shared as int, lo as int, hi as int),
            forall|k: int|
                0 <= k < pool@.len() ==> deposit_before(
                    txs@,
                    txs@.len() as int,
                    (#[trigger] pool@[k]).1,
                    pool@[k].0,
                ),
        decreases target - n,
    {
        proof {
            lemma_fresh_count_bound(txs@);
        }
        let ghost before = txs@;
        let pick = random_below_u32(rng, 100);
        // The overlap coin: below `overlap_pct` the client comes from the
        // shared pool (see `client_pool`).
        let coin = random_below_u32(rng, 100);
        let client = draw_client(rng, coin, overlap_pct, shared, lo, hi);
        // A lifecycle event targets a deposit of this stream; with none yet,
        // a deposit is emitted in its place.
        let target = if pick < 80 {
            None
        } else {
            match sample(rng, &pool) {
                Some((target_tx, target_client)) => Some((target_client, target_tx)),
                None => None,
            }
        };
        let fresh = match target {
            Some(_) => false,
            None => true,
        };
        let amount = if fresh {
            random_amount(rng)
        } else {
            Amount::zero()
        };
        let tx = transaction_for(pick, client, target, next_tx, amount);
        if fresh {
            if pick < 50 || pick >= 80 {
                pool.push((next_tx, client));
            }
            next_tx = next_tx + 1;
        }
        txs.push(tx);
        proof {
            lemma_fresh_count_push(before, tx);
            lemma_push_numbered(before, tx, (first_tx - 1) as nat);
            lemma_push_targets(before, tx);
            let len = before.len() as int;
            if !is_fresh(tx) {
                let j = choose|j: int|
                    0 <= j < len && (#[trigger] before[j]) is Deposit && client_of(before[j])
                        == client_of(tx) && tx_of(before[j]) == tx_of(tx);
                assert(client_choice(client_of(before[j]) as int, shared as int, lo as int, hi as int));
            }
            assert forall|i: int| 0 <= i < txs@.len() implies client_choice(
                client_of(#[trigger] txs@[i]) as int,
                shared as int,
                lo as int,
                hi as int,
            ) by {
                if i < len {
                    assert(txs@[i] == before[i]);
                }
            }
            assert forall|k: int| 0 <= k < pool@.len() implies deposit_before(
                txs@,
                txs@.len() as int,
                (#[trigger] pool@[k]).1,
                pool@[k].0,
            ) by {
                if deposit_before(before, len, pool@[k].1, pool@[k].0) {
                    lemma_push_deposit_before(before, tx, len, pool@[k].1, pool@[k].0);
                    let j = choose|j: int|
                        0 <= j < len && (#[trigger] txs@[j]) is Deposit && client_of(txs@[j])
                            == pool@[k].1 && tx_of(txs@[j]) == pool@[k].0;
                    assert(0 <= j < txs@.len());
                } else {
                    assert(txs@[len] == tx);
                }
            }
        }
        n = n + 1;
    }
    (txs, next_tx)
}

/// The properties [`generated_streams`] promises of stream `p`.
pub open spec fn stream_generated(s: Seq<Transaction>, params: StreamWorkloadParams, p: int) -> bool {
    &&& s.len() == stream_len(params, p)
    &&& lifecycle_targets_earlier_deposits(s)
    &&& amounts_generated(s)
    &&& clients_chosen(s, shared_clients(params), partition_start(params, p), partition_start(params, p + 1))
}

proof fn lemma_partition_bounds(per: int, p: int, producers: int, total: int)
    requires
        0 <= per,
        0 <= p < producers,
        per * producers <= total,
    ensures
        0 <= per * p,
        per * p + per <= total,
        per * (p + 1) == per * p + per,
{
    assert(0 <= per * p) by (nonlinear_arith)
        requires
            0 <= per,
            0 <= p,
    ;
    assert(per * (p + 1) <= per * producers) by (nonlinear_arith)
        requires
            0 <= per,
            p + 1 <= producers,
    ;
    assert(per * (p + 1) == per * p + per) by (nonlinear_arith);
}

/// Generate a per-producer workload split.
///
/// Each stream is self-contained: lifecycle events of a stream only target
/// deposits the same stream emitted earlier, so a stream's order is what
/// the single-threaded engine would see for that stream alone. Fresh tx ids
/// run 1, 2, 3, ... through the streams in order.
///
/// The clients are carved into a shared pool of
/// `clients * overlap_pct / 100` ids and one private partition per
/// producer. With `overlap_pct == 0` there is no shared pool and the
/// producers' clients are disjoint (given at least one client per
/// producer); with more overlap, a fraction of each stream's draws come
/// from the shared pool.
#[verifier::spinoff_prover]
pub fn generate_streams(params: StreamWorkloadParams) -> (r: Vec<ProducerStream>)
    requires
        params.producers > 0,
        params.clients > 0,
        params.overlap_pct <= 100,
        params.tx_count < u32::MAX,
        params.producers as int % 0x1_0000 != 0,
        params.producers <= u16::MAX || private_share(params) == 0,
    ensures
        generated_streams(r@, params),
{
    let StreamWorkloadParams { tx_count, producers, clients, overlap_pct, seed } = params;
    assert(clients as int * overlap_pct as int <= 0xffff * 100) by (nonlinear_arith)
        requires
            clients <= 0xffff,
            overlap_pct <= 100,
    ;
    let shared_wide: u32 = (clients as u32 * overlap_pct as u32) / 100;
    assert(shared_wide <= clients) by (nonlinear_arith)
        requires
            shared_wide == (clients as int * overlap_pct as int) / 100,
            overlap_pct <= 100,
            0 <= clients,
    ;
    let shared_count: u16 = if shared_wide < clients as u32 {
        shared_wide as u16
    } else {
        clients
    };
    let private_total: u16 = clients - shared_count;
    // The producer count taken as a `u16`.
    let divisor: u16 = (producers % 0x1_0000) as u16;
    let private_per_producer: u16 = private_total / divisor;
    proof {
        assert(shared_count == shared_clients(params));
        assert(private_per_producer == private_share(params));
        assert(private_per_producer as int * divisor <= private_total) by (nonlinear_arith)
            requires
                private_per_producer == private_total as int / divisor as int,
                0 < divisor,
        ;
    }
    let mut rng = seeded_rng(seed);
    let per_producer: usize = tx_count / producers;
    proof {
        vstd::arithmetic::div_mod::lemma_fundamental_div_mod(tx_count as int, producers as int);
        assert(per_producer * producers == producers * (tx_count as int / producers as int)) by (nonlinear_arith)
            requires
                per_producer == tx_count as int / producers as int,
        ;
    }
    let leftover: usize = tx_count - per_producer * producers;
    let mut streams: Vec<ProducerStream> = Vec::new();
    let mut next_tx: u32 = 1;
    let mut p: usize = 0;
    while p < producers
        invariant
            params.producers == producers,
            params.tx_count == tx_count,
            params.clients == clients,
            0 < producers,
            tx_count < u32::MAX,
            p <= producers,
            per_producer == tx_count / producers,
            per_producer * producers + leftover == tx_count,
            leftover == tx_count % producers,
            shared_count == shared_clients(params),
            private_per_producer == private_share(params),
            shared_count + private_total == clients,
            private_per_producer * divisor <= private_total,
            divisor == producers as int % 0x1_0000,
            producers <= u16::MAX || private_per_producer == 0,
            streams@.len() == p,
            all_txs(streams@).len() == per_producer * p + if p < leftover {
                p as int
            } else {
                leftover as int
            },
            next_tx == 1 + fresh_count(all_txs(streams@)),
            numbered_from(all_txs(streams@), 0),
            forall|q: int| 0 <= q < p ==> stream_generated((#[trigger] streams@[q]).txs@, params, q),
        decreases producers - p,
    {
        let target: usize = per_producer + if p < leftover {
            1
        } else {
            0
        };
        proof {
            lemma_partition_bounds(
                per_producer as int,
                p as int,
                producers as int,
                per_producer * producers,
            );
            lemma_fresh_count_bound(all_txs(streams@));
            if private_per_producer > 0 {
                assert(divisor == producers);
                lemma_partition_bounds(
                    private_per_producer as int,
                    p as int,
                    producers as int,
                    private_total as int,
                );
            }
        }
        // The stream's private partition, with the producer index taken
        // as a `u16`.
        let pu: u16 = (p % 0x1_0000) as u16;
        proof {
            if private_per_producer == 0 {
                assert(private_per_producer * pu == 0) by (nonlinear_arith)
                    requires
                        private_per_producer == 0,
                ;
            } else {
                assert(pu == p);
            }
        }
        let private_lo: u16 = shared_count + private_per_producer * pu;
        let private_hi: u16 = private_lo + private_per_producer;
        proof {
            let per = private_per_producer as int;
            assert(per * (p + 1) == per * p + per) by (nonlinear_arith);
            assert(private_per_producer * pu == per * p);
            assert(private_lo == shared_count + per * p);
            assert(private_lo == partition_start(params, p as int));
            assert(private_hi == partition_start(params, p + 1));
            assert(target == stream_len(params, p as int));
        }
        let ghost before = streams@;
        let (txs, next) = generate_stream(
            &mut rng,
            target,
            next_tx,
            shared_count,
            private_lo,
            private_hi,
            overlap_pct,
        );
        streams.push(ProducerStream { txs });
        proof {
            assert(streams@.drop_last() =~= before);
            assert(all_txs(streams@) == all_txs(before) + txs@);
            lemma_fresh_count_concat(all_txs(before), txs@);
            lemma_numbered_concat(all_txs(before), txs@);
            assert forall|q: int| 0 <= q < p + 1 implies stream_generated(
                (#[trigger] streams@[q]).txs@,
                params,
                q,
            ) by {
                if q < p {
                    assert(streams@[q] == before[q]);
                }
            }
            assert(per_producer * (p + 1) == per_producer * p + per_producer) by (nonlinear_arith);
        }
        next_tx = next;
        p = p + 1;
    }
    streams
}

/// With no client overlap and at least one client per producer, no client
/// appears in two different producers' streams: the engines can then be
/// cross-checked for strict equality whatever order the streams interleave
/// in.
pub proof fn law_zero_overlap_streams_share_no_client(
    params: StreamWorkloadParams,
    r: Seq<ProducerStream>,
    p: int,
    q: int,
    i: int,
    j: int,
)
    requires
        generated_streams(r, params),
        params.overlap_pct == 0,
        params.producers <= params.clients,
        0 <= p < r.len(),
        0 <= q < r.len(),
        p != q,
        0 <= i < r[p].txs@.len(),
        0 <= j < r[q].txs@.len(),
    ensures
        client_of(r[p].txs@[i]) != client_of(r[q].txs@[j]),
{
    let per = private_share(params);
    let n = params.producers as int;
    let c = params.clients as int;
    assert(shared_clients(params) == 0);
    assert(n % 0x1_0000 == n);
    assert(per >= 1) by (nonlinear_arith)
        requires
            per == c / n,
            0 < n <= c,
    ;
    assert(stream_generated(r[p].txs@, params, p));
    assert(stream_generated(r[q].txs@, params, q));
    let x = client_of(r[p].txs@[i]) as int;
    let y = client_of(r[q].txs@[j]) as int;
    assert(per * p <= x < per * (p + 1)) by (nonlinear_arith)
        requires
            client_choice(x, 0, per * p, per * (p + 1)),
            per >= 1,
            p >= 0,
    ;
    assert(per * q <= y < per * (q + 1)) by (nonlinear_arith)
        requires
            client_choice(y, 0, per * q, per * (q + 1)),
            per >= 1,
            q >= 0,
    ;
    if p < q {
        assert(per * (p + 1) <= per * q) by (nonlinear_arith)
            requires
                per >= 1,
                p + 1 <= q,
        ;
    } else {
        assert(per * (q + 1) <= per * p) by (nonlinear_arith)
            requires
                per >= 1,
                q + 1 <= p,
        ;
    }
}

proof fn lemma_fresh_count_prefix(s: Seq<Transaction>, i: int)
    requires
        0 <= i <= s.len(),
    ensures
        fresh_count(s.take(i)) <= fresh_count(s),
{
    assert(s =~= s.take(i) + s.skip(i));
    lemma_fresh_count_concat(s.take(i), s.skip(i));
}

/// The tx ids a stream carries lie above the fresh ids of what precedes it
/// and at most as far as its own fresh ids reach.
proof fn lemma_stream_ids_in_range(
    before: Seq<Transaction>,
    s: Seq<Transaction>,
    rest: Seq<Transaction>,
    i: int,
)
    requires
        numbered_from(before + s + rest, 0),
        lifecycle_targets_earlier_deposits(s),
        0 <= i < s.len(),
    ensures
        fresh_count(before) < tx_of(s[i]) <= fresh_count(before) + fresh_count(s),
{
    let all = before + s + rest;
    let j = if is_fresh(s[i]) {
        i
    } else {
        choose|j: int|
            0 <= j < i && (#[trigger] s[j]) is Deposit && client_of(s[j]) == client_of(s[i])
                && tx_of(s[j]) == tx_of(s[i])
    };
    assert(is_fresh(s[j]) && tx_of(s[j]) == tx_of(s[i]));
    let k = before.len() + j;
    assert(all[k] == s[j]);
    assert(all.take(k) =~= before + s.take(j));
    lemma_fresh_count_concat(before, s.take(j));
    assert(s.take(j + 1).drop_last() =~= s.take(j));
    lemma_fresh_count_prefix(s, j + 1);
}

/// The fresh ids of a prefix of the streams grow with the prefix.
proof fn lemma_prefix_fresh_count_monotone(r: Seq<ProducerStream>, p: int, q: int)
    requires
        0 <= p <= q <= r.len(),
    ensures
        fresh_count(all_txs(r.take(p))) <= fresh_count(all_txs(r.take(q))),
{
    assert(r.take(q) =~= r.take(p) + r.subrange(p, q));
    lemma_all_txs_concat(r.take(p), r.subrange(p, q));
    lemma_fresh_count_concat(all_txs(r.take(p)), all_txs(r.subrange(p, q)));
}

/// With no client overlap and at least one client per producer, two
/// different producers' streams are independent: they have no client and
/// no tx id in common.
pub proof fn law_zero_overlap_streams_are_independent(
    params: StreamWorkloadParams,
    r: Seq<ProducerStream>,
    p: int,
    q: int,
)
    requires
        generated_streams(r, params),
        params.overlap_pct == 0,
        params.producers <= params.clients,
        0 <= p < r.len(),
        0 <= q < r.len(),
        p != q,
    ensures
        independent_seqs(r[p].txs@, r[q].txs@),
{
    let sp = r[p].txs@;
    let sq = r[q].txs@;
    assert(stream_generated(sp, params, p));
    assert(stream_generated(sq, params, q));
    lemma_all_txs_split(r, p);
    lemma_all_txs_split(r, q);
    let ap = all_txs(r.take(p));
    let aq = all_txs(r.take(q));
    lemma_fresh_count_concat(ap, sp);
    lemma_fresh_count_concat(aq, sq);
    if p < q {
        lemma_prefix_fresh_count_monotone(r, p + 1, q);
    } else {
        lemma_prefix_fresh_count_monotone(r, q + 1, p);
    }
    assert forall|i: int, j: int| 0 <= i < sp.len() && 0 <= j < sq.len() implies independent(
        #[trigger] sp[i],
        #[trigger] sq[j],
    ) by {
        law_zero_overlap_streams_share_no_client(params, r, p, q, i, j);
        lemma_stream_ids_in_range(ap, sp, all_txs(r.skip(p + 1)), i);
        lemma_stream_ids_in_range(aq, sq, all_txs(r.skip(q + 1)), j);
    }
}

/// The transactions of each stream.
pub open spec fn stream_txs(r: Seq<ProducerStream>) -> Seq<Seq<Transaction>> {
    r.map_values(|p: ProducerStream| p.txs@)
}

proof fn lemma_concat_stream_txs(r: Seq<ProducerStream>)
    ensures
        concat_all(stream_txs(r)) == all_txs(r),
    decreases r.len(),
{
    if r.len() > 0 {
        lemma_concat_stream_txs(r.drop_last());
        assert(stream_txs(r).drop_last() =~= stream_txs(r.drop_last()));
    } else {
        assert(stream_txs(r) =~= Seq::<Seq<Transaction>>::empty());
    }
}

/// With no client overlap and at least one client per producer, any
/// interleaving of all producers' streams leaves the engine in the state
/// the streams reach one after the other, and is representable exactly
/// when that is: the concurrent variants can be checked for strict
/// equality against the single-threaded engine, whatever order the
/// producers' transactions are applied in.
pub proof fn law_zero_overlap_interleavings_agree(
    params: StreamWorkloadParams,
    r: Seq<ProducerStream>,
    x: Seq<Transaction>,
    s: EngineView,
)
    requires
        generated_streams(r, params),
        params.overlap_pct == 0,
        params.producers <= params.clients,
        interleaves_all(x, stream_txs(r)),
        filed_by_client(s),
    ensures
        after_txs(s, x) == after_txs(s, all_txs(r)),
        txs_fit(s, x) == txs_fit(s, all_txs(r)),
{
    let ss = stream_txs(r);
    assert forall|p: int, q: int|
        0 <= p < ss.len() && 0 <= q < ss.len() && p != q implies independent_seqs(
        #[trigger] ss[p],
        #[trigger] ss[q],
    ) by {
        law_zero_overlap_streams_are_independent(params, r, p, q);
    }
    assert(pairwise_independent(ss));
    law_interleavings_of_independent_streams_agree(s, x, ss);
    lemma_concat_stream_txs(r);
}

/// Workload parameters of every one-shot bench run at a given
/// `(tx_count, overlap_pct)` cell: the default client count and seed, and
/// [`PRODUCERS`] streams.
pub fn one_shot_params(tx_count: usize, overlap_pct: u8) -> (r: StreamWorkloadParams)
    requires
        tx_count > 0,
        overlap_pct <= 100,
    ensures
        r == (StreamWorkloadParams {
            tx_count,
            producers: PRODUCERS,
            clients: CLIENTS,
            overlap_pct,
            seed: DEFAULT_SEED,
        }),
{
    StreamWorkloadParams { tx_count, producers: PRODUCERS, overlap_pct, ..StreamWorkloadParams::default() }
}

/// Headline metrics of a one-shot bench run.
pub struct OneShotReport<'a> {
    /// Variant name (`baseline`, `mutex`, ...), stamped on every line so
    /// several runs' outputs can be told apart.
    pub variant: &'a str,
    /// Client-overlap ratio the run used (0..=100).
    pub overlap_pct: u8,
    /// Transactions drained.
    pub tx_count: usize,
    /// Account count produced.
    pub accounts: usize,
    /// Wall-clock time across the timed region.
    pub elapsed: std::time::Duration,
    /// Peak resident set size in kibibytes.
    pub peak_rss_kb: i64,
    /// Apply latency p50 in nanoseconds.
    pub p50_ns: u64,
    /// Apply latency p90 in nanoseconds.
    pub p90_ns: u64,
    /// Apply latency p99 in nanoseconds.
    pub p99_ns: u64,
}

} // verus!
