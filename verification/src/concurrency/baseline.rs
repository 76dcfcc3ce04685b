//! Single-threaded baseline: the production engine behind the variant
//! contract (streaming `submit`, then a client-sorted snapshot). It is the
//! lower bound the concurrent variants are measured against.
use crate::engine::account::Account;
use crate::engine::error::EngineError;
use crate::engine::io::{after_rows, records_text, rows_fit, snapshot_text, write_snapshots};
use crate::engine::transaction::{RawTransaction, Transaction};
use crate::bench_support::{all_txs, lemma_all_txs_split, ProducerStream};
use crate::engine::{
    account_views, after_txs, initial_state, lemma_txs_fit_prefix, lists_accounts, step, step_fits,
    txs_fit, Engine, EngineView,
};
use super::workload::{
    instant_now, lemma_permutation_lists, nanos_since, recorded_latencies, recorder_bounds,
    sorted_accounts, sorted_by_client, standard_bounds, LatencyRecorder, WorkloadResult,
};
use vstd::prelude::*;

verus! {

/// Single-threaded engine handle.
pub struct Baseline {
    engine: Engine,
}

impl View for Baseline {
    type V = EngineView;

    closed spec fn view(&self) -> EngineView {
        self.engine@
    }
}

impl Baseline {
    pub closed spec fn wf(&self) -> bool {
        self.engine.wf()
    }

    /// Construct an empty handle.
    pub fn new() -> (r: Baseline)
        ensures
            r.wf(),
            r@ == initial_state(),
    {
        Baseline { engine: Engine::new() }
    }

    /// True when submitting `tx` keeps every balance representable.
    pub fn can_submit(&self, tx: &Transaction) -> (r: bool)
        requires
            self.wf(),
        ensures
            r == step_fits(self@, *tx),
    {
        self.engine.can_process(tx)
    }

    /// Apply one transaction, exactly as [`Engine::process`].
    pub fn submit(&mut self, tx: Transaction) -> (r: Result<(), EngineError>)
        requires
            old(self).wf(),
            step_fits(old(self)@, tx),
        ensures
            final(self).wf(),
            final(self)@ == step(old(self)@, tx).0,
            r == step(old(self)@, tx).1,
    {
        self.engine.process(tx)
    }

    /// Every account, each once, sorted by client id.
    pub fn finalize(self) -> (r: Vec<Account>)
        requires
            self.wf(),
        ensures
            lists_accounts(account_views(r@), self@.accounts),
            sorted_by_client(r@),
    {
        let accounts = self.engine.accounts();
        let r = sorted_accounts(accounts);
        proof {
            lemma_permutation_lists(accounts@, r@, self@.accounts);
        }
        r
    }
}

impl Default for Baseline {
    fn default() -> (r: Baseline)
        ensures
            r.wf(),
            r@ == initial_state(),
    {
        Baseline::new()
    }
}

/// What a bench run over `streams` promises: the accounts of the
/// production engine after every transaction of every stream, in stream
/// order, sorted by client; one standard recorder holding one sample per
/// transaction (while their number stays below `u64::MAX`).
pub open spec fn baseline_workload_result(w: WorkloadResult, streams: Seq<ProducerStream>) -> bool {
    let txs = all_txs(streams);
    &&& lists_accounts(account_views(w.accounts@), after_txs(initial_state(), txs).accounts)
    &&& sorted_by_client(w.accounts@)
    &&& w.recorders@.len() == 1
    &&& recorder_bounds(w.recorders@[0]) == standard_bounds()
    &&& txs.len() < u64::MAX ==> recorded_latencies(w.recorders@[0]).len() == txs.len()
}

/// Single-threaded bench driver: drains the streams one after the other on
/// the calling thread, whatever `_producers` says. Each transaction is
/// stamped just before it is submitted and its latency recorded just after,
/// so the recorder measures the apply work alone. `None` when some
/// transaction's balance arithmetic is not representable.
pub fn run_workload(_producers: usize, streams: Vec<ProducerStream>) -> (r: Option<WorkloadResult>)
    ensures
        r is Some <==> txs_fit(initial_state(), all_txs(streams@)),
        r matches Some(w) ==> baseline_workload_result(w, streams@),
{
    let mut handle = Baseline::new();
    let mut recorder = LatencyRecorder::new();
    let bench_start = instant_now();
    let ghost all = all_txs(streams@);
    let mut p: usize = 0;
    while p < streams.len()
        invariant
            all == all_txs(streams@),
            handle.wf(),
            0 <= p <= streams@.len(),
            txs_fit(initial_state(), all_txs(streams@.take(p as int))),
            handle@ == after_txs(initial_state(), all_txs(streams@.take(p as int))),
            recorder_bounds(recorder) == standard_bounds(),
            all_txs(streams@.take(p as int)).len() < u64::MAX ==> recorded_latencies(recorder).len()
                == all_txs(streams@.take(p as int)).len(),
        decreases streams@.len() - p,
    {
        let txs = &streams[p].txs;
        let ghost done = all_txs(streams@.take(p as int));
        proof {
            lemma_all_txs_split(streams@, p as int);
        }
        let mut i: usize = 0;
        while i < txs.len()
            invariant
                all == all_txs(streams@),
                0 <= p < streams@.len(),
                txs@ == streams@[p as int].txs@,
                done == all_txs(streams@.take(p as int)),
                all == done + txs@ + all_txs(streams@.skip(p + 1)),
                handle.wf(),
                0 <= i <= txs@.len(),
                txs_fit(initial_state(), done + txs@.take(i as int)),
                handle@ == after_txs(initial_state(), done + txs@.take(i as int)),
                recorder_bounds(recorder) == standard_bounds(),
                done.len() + i < u64::MAX ==> recorded_latencies(recorder).len() == done.len() + i,
            decreases txs@.len() - i,
        {
            let tx = txs[i];
            let ghost prefix = done + txs@.take(i as int);
            proof {
                assert((done + txs@.take(i + 1)).drop_last() =~= prefix);
                assert((done + txs@.take(i + 1)).last() == tx);
            }
            let sent_at_ns = nanos_since(bench_start);
            if !handle.can_submit(&tx) {
                proof {
                    if txs_fit(initial_state(), all) {
                        let k = done.len() + i;
                        assert(all.take(k) =~= prefix);
                        assert(all[k] == tx);
                        lemma_txs_fit_prefix(initial_state(), all, k);
                    }
                }
                return None;
            }
            let _ = handle.submit(tx);
            recorder.record(bench_start, sent_at_ns);
            i = i + 1;
        }
        proof {
            assert(done + txs@.take(txs@.len() as int) =~= all_txs(streams@.take(p + 1)));
        }
        p = p + 1;
    }
    proof {
        assert(streams@.take(streams@.len() as int) =~= streams@);
    }
    let mut recorders: Vec<LatencyRecorder> = Vec::new();
    recorders.push(recorder);
    Some(WorkloadResult { accounts: handle.finalize(), recorders })
}

/// Process the rows through a fresh baseline handle and render the
/// resulting accounts sorted by client. `None` when some row's arithmetic
/// is not representable.
pub fn run(rows: Vec<RawTransaction>) -> (r: Option<Vec<Vec<String>>>)
    ensures
        r is Some <==> rows_fit(initial_state(), rows@),
        r matches Some(records) ==> exists|list: Seq<Account>|
            lists_accounts(account_views(list), after_rows(initial_state(), rows@).accounts)
                && sorted_by_client(list) && records_text(records@) == snapshot_text(
                account_views(list),
            ),
{
    let mut handle = Baseline::new();
    let mut i: usize = 0;
    while i < rows.len()
        invariant
            handle.wf(),
            0 <= i <= rows@.len(),
            rows_fit(initial_state(), rows@.take(i as int)),
            handle@ == after_rows(initial_state(), rows@.take(i as int)),
        decreases rows@.len() - i,
    {
        proof {
            assert(rows@.take(i + 1).drop_last() =~= rows@.take(i as int));
            assert(rows@.take(i + 1).last() == rows@[i as int]);
        }
        if let Ok(tx) = Transaction::try_from(rows[i]) {
            if !handle.can_submit(&tx) {
                proof {
                    if rows_fit(initial_state(), rows@) {
                        crate::engine::io::lemma_rows_fit_prefix(initial_state(), rows@, i as int);
                    }
                }
                return None;
            }
            let _ = handle.submit(tx);
        }
        i = i + 1;
    }
    assert(rows@.take(rows@.len() as int) =~= rows@);
    let accounts = handle.finalize();
    Some(write_snapshots(&accounts))
}

} // verus!
