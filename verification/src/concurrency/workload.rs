//! Shared pieces of the engine variants: a deterministic, client-sorted
//! account snapshot, the latency recorders of the bench runs, and what a
//! bench run returns.
use crate::engine::account::{Account, AccountView};
use crate::engine::transaction::Transaction;
use crate::engine::{account_views, lists_accounts};
use hdrhistogram::Histogram;
use std::time::{Duration, Instant};
use vstd::multiset::Multiset;
use vstd::prelude::*;

verus! {

broadcast use vstd::seq_lib::group_to_multiset_ensures;

/// Accounts in non-decreasing client order.
pub open spec fn sorted_by_client(s: Seq<Account>) -> bool {
    forall|i: int, j: int| 0 <= i <= j < s.len() ==> (#[trigger] s[i])@.client <= (#[trigger] s[j])@.client
}

/// The latency a bench run records for a transaction stamped at
/// `sent_at_ns` and applied at `now_ns`: the elapsed nanoseconds (zero when
/// the stamp is later than `now_ns`), clamped into the histogram's
/// trackable range `1 ..= high` so an outlier is saturated rather than
/// refused.
pub open spec fn latency_of(now_ns: u64, sent_at_ns: u64, high: u64) -> int {
    let elapsed = if now_ns >= sent_at_ns {
        now_ns - sent_at_ns
    } else {
        0
    };
    if elapsed < 1 {
        1
    } else if elapsed > high {
        high as int
    } else {
        elapsed
    }
}

/// Compute [`latency_of`].
pub fn latency_sample(now_ns: u64, sent_at_ns: u64, high: u64) -> (r: u64)
    requires
        1 <= high,
    ensures
        r == latency_of(now_ns, sent_at_ns, high),
{
    let elapsed = now_ns.saturating_sub(sent_at_ns);
    if elapsed < 1 {
        1
    } else if elapsed > high {
        high
    } else {
        elapsed
    }
}

/// Highest latency a recorder tracks: about a minute, in nanoseconds.
pub const HIGHEST_LATENCY_NS: u64 = 60_000_000_000;

/// Significant decimal digits the latency histograms keep.
pub const LATENCY_SIGFIG: u8 = 3;

#[verifier::external_type_specification]
#[verifier::external_body]
pub struct ExInstant(Instant);

/// `Instant::now`. Nothing is claimed of the reading.
#[verifier::external_body]
pub(crate) fn instant_now() -> Instant {
    Instant::now()
}

/// `Instant::elapsed`. Nothing is claimed of the reading.
#[verifier::external_body]
fn elapsed_since(start: Instant) -> Duration {
    start.elapsed()
}

/// The whole number of nanoseconds that a duration holds, as
/// `Duration::as_nanos` gives it: a function of the duration alone.
pub uninterp spec fn duration_as_nanos(d: Duration) -> u128;

/// `Duration::as_nanos`: the result is the duration's whole nanosecond
/// count, named `duration_as_nanos`; the count itself is left unsaid.
#[verifier::external_body]
fn duration_nanos(d: Duration) -> (n: u128)
    ensures
        n == duration_as_nanos(d),
{
    d.as_nanos()
}

/// Nanoseconds since `start`, truncated to 64 bits: the low 64 bits of the
/// nanosecond count of the elapsed duration. Which duration elapsed depends
/// on the clock, so the contract speaks of some duration.
pub(crate) fn nanos_since(start: Instant) -> (r: u64)
    ensures
        exists|d: Duration| r == #[trigger] duration_as_nanos(d) as u64,
{
    let elapsed = elapsed_since(start);
    let n = duration_nanos(elapsed);
    #[verifier::truncate]
    (n as u64)
}

/// Channel envelope of the actor variants: the producer stamps the offset
/// from the bench start just before sending, and the consumer records the
/// latency after applying the transaction.
pub struct BenchEnvelope {
    /// The transaction the engine will apply.
    pub tx: Transaction,
    /// Producer-stamped offset from the bench's start `Instant`.
    pub sent_at_ns: u64,
}

/// Per-producer apply-latency recorder: an hdrhistogram of nanosecond
/// latencies. The histogram is public so a bench report can read quantiles
/// from it.
#[verifier::external_body]
pub struct LatencyRecorder {
    pub histogram: Histogram<u64>,
}

/// The samples a recorder counts, each by the lowest value of the bucket it
/// was counted in (a histogram keeps a count per bucket, not the values).
pub uninterp spec fn recorded_latencies(r: LatencyRecorder) -> Multiset<u64>;

/// The bounds a recorder was made with: lowest and highest trackable value,
/// and significant decimal digits.
pub uninterp spec fn recorder_bounds(r: LatencyRecorder) -> (u64, u64, u8);

/// The bounds of the bench's recorders.
pub open spec fn standard_bounds() -> (u64, u64, u8) {
    (1, HIGHEST_LATENCY_NS, LATENCY_SIGFIG)
}

/// `Histogram::new_with_bounds(low, high, sigfig)`. The crate refuses only a
/// zero `low`, a `low` above `u64::MAX / 2`, `high < 2 * low`, more than five
/// digits, or a layout needing more than 63 bits, which `low == 1` rules out;
/// so the `expect` never fires. Claimed: an empty histogram with these
/// bounds.
#[verifier::external_body]
fn recorder_with_bounds(low: u64, high: u64, sigfig: u8) -> (r: LatencyRecorder)
    requires
        low == 1,
        2 <= high,
        sigfig <= 5,
    ensures
        recorded_latencies(r) =~= Multiset::<u64>::empty(),
        recorder_bounds(r).0 == low,
        recorder_bounds(r).1 == high,
        recorder_bounds(r).2 == sigfig,
{
    LatencyRecorder {
        histogram: Histogram::new_with_bounds(low, high, sigfig).expect(
            "hdrhistogram bounds are valid by construction",
        ),
    }
}

/// `Histogram::low`: the lowest trackable value it was made with.
#[verifier::external_body]
fn recorder_low(r: &LatencyRecorder) -> (v: u64)
    ensures
        v == recorder_bounds(*r).0,
{
    r.histogram.low()
}

/// `Histogram::high`: the highest trackable value it was made with.
#[verifier::external_body]
fn recorder_high(r: &LatencyRecorder) -> (v: u64)
    ensures
        v == recorder_bounds(*r).1,
{
    r.histogram.high()
}

/// `Histogram::sigfig`: the significant digits it was made with.
#[verifier::external_body]
fn recorder_sigfig(r: &LatencyRecorder) -> (v: u8)
    ensures
        v == recorder_bounds(*r).2,
{
    r.histogram.sigfig()
}

/// `Histogram::record(value)`, its result dropped. For a value within the
/// bounds the crate adds one to the count of the value's bucket and to the
/// total, both saturating at `u64::MAX`. Claimed: below that saturation one
/// sample joins the counted ones, standing for the lowest value of the
/// value's bucket, which lies between the low bound and `value`; which value
/// that is depends on the bucket layout and is left unsaid, as is what
/// saturation leaves.
#[verifier::external_body]
fn recorder_record(r: &mut LatencyRecorder, value: u64)
    requires
        recorder_bounds(*old(r)).0 <= value <= recorder_bounds(*old(r)).1,
    ensures
        recorder_bounds(*final(r)) == recorder_bounds(*old(r)),
        recorded_latencies(*old(r)).len() < u64::MAX ==> exists|v: u64|
            recorder_bounds(*old(r)).0 <= v <= value && recorded_latencies(*final(r))
                == #[trigger] recorded_latencies(*old(r)).insert(v),
{
    let _ = r.histogram.record(value);
}

/// `Histogram::add(source)`. Histograms made with the same bounds have the
/// same bucket layout, so the crate adds the source's counts bucket by
/// bucket and does not fail. Claimed: while the total count stays within
/// `u64::MAX`, the source's samples join the recorded ones.
#[verifier::external_body]
fn recorder_add(r: &mut LatencyRecorder, source: &LatencyRecorder)
    requires
        recorder_bounds(*old(r)) == recorder_bounds(*source),
    ensures
        recorder_bounds(*final(r)) == recorder_bounds(*old(r)),
        recorded_latencies(*old(r)).len() + recorded_latencies(*source).len() <= u64::MAX
            ==> recorded_latencies(*final(r)) == recorded_latencies(*old(r)).add(
            recorded_latencies(*source),
        ),
{
    r.histogram.add(&source.histogram).expect("merging compatible histograms cannot fail");
}

impl LatencyRecorder {
    /// An empty recorder with the bench's standard precision and range.
    pub fn new() -> (r: LatencyRecorder)
        ensures
            recorded_latencies(r) =~= Multiset::<u64>::empty(),
            recorder_bounds(r) == standard_bounds(),
    {
        recorder_with_bounds(1, HIGHEST_LATENCY_NS, LATENCY_SIGFIG)
    }

    /// True when the recorder has the bench's standard bounds, which
    /// [`record`](Self::record) and [`merge_recorders`] ask for.
    pub fn is_standard(&self) -> (r: bool)
        ensures
            r == (recorder_bounds(*self) == standard_bounds()),
    {
        recorder_low(self) == 1 && recorder_high(self) == HIGHEST_LATENCY_NS && recorder_sigfig(
            self,
        ) == LATENCY_SIGFIG
    }

    /// Record the latency between `sent_at_ns`, an offset from
    /// `bench_start`, and now: one sample in `1 ..= HIGHEST_LATENCY_NS`
    /// (see [`latency_sample`]).
    pub fn record(&mut self, bench_start: Instant, sent_at_ns: u64)
        requires
            recorder_bounds(*old(self)) == standard_bounds(),
        ensures
            recorder_bounds(*final(self)) == standard_bounds(),
            recorded_latencies(*old(self)).len() < u64::MAX ==> exists|v: u64|
                1 <= v <= HIGHEST_LATENCY_NS && recorded_latencies(*final(self))
                    == recorded_latencies(*old(self)).insert(v),
    {
        let now_ns = nanos_since(bench_start);
        let latency = latency_sample(now_ns, sent_at_ns, recorder_high(self));
        recorder_record(self, latency);
    }
}

impl Default for LatencyRecorder {
    fn default() -> (r: LatencyRecorder)
        ensures
            recorded_latencies(r) =~= Multiset::<u64>::empty(),
            recorder_bounds(r) == standard_bounds(),
    {
        LatencyRecorder::new()
    }
}

/// The samples of all recorders together.
pub open spec fn recorded_sum(rs: Seq<LatencyRecorder>) -> Multiset<u64>
    decreases rs.len(),
{
    if rs.len() == 0 {
        Multiset::empty()
    } else {
        recorded_sum(rs.drop_last()).add(recorded_latencies(rs.last()))
    }
}

/// Merge recorders into one holding all their samples (while their total
/// count stays within `u64::MAX`).
pub fn merge_recorders(recorders: &[LatencyRecorder]) -> (r: LatencyRecorder)
    requires
        forall|i: int| 0 <= i < recorders@.len() ==> recorder_bounds(#[trigger] recorders@[i]) == standard_bounds(),
    ensures
        recorder_bounds(r) == standard_bounds(),
        recorded_sum(recorders@).len() <= u64::MAX ==> recorded_latencies(r) == recorded_sum(
            recorders@,
        ),
{
    broadcast use vstd::multiset::group_multiset_axioms;

    let mut merged = LatencyRecorder::new();
    let mut i: usize = 0;
    while i < recorders.len()
        invariant
            0 <= i <= recorders@.len(),
            forall|j: int| 0 <= j < recorders@.len() ==> recorder_bounds(#[trigger] recorders@[j]) == standard_bounds(),
            recorder_bounds(merged) == standard_bounds(),
            recorded_sum(recorders@.take(i as int)).len() <= u64::MAX ==> recorded_latencies(merged)
                == recorded_sum(recorders@.take(i as int)),
        decreases recorders@.len() - i,
    {
        let ghost before = recorded_latencies(merged);
        proof {
            assert(recorders@.take(i + 1).drop_last() =~= recorders@.take(i as int));
            assert(recorders@.take(i + 1).last() == recorders@[i as int]);
        }
        recorder_add(&mut merged, &recorders[i]);
        i = i + 1;
    }
    proof {
        assert(recorders@.take(recorders@.len() as int) =~= recorders@);
    }
    merged
}

/// Result of a bench run.
pub struct WorkloadResult {
    /// Client-sorted snapshot of every known account.
    pub accounts: Vec<Account>,
    /// Latency recorders: one for the single-threaded and actor variants,
    /// one per producer for the others.
    pub recorders: Vec<LatencyRecorder>,
}

/// Index of the first account with the smallest client id.
fn position_of_min(s: &Vec<Account>) -> (k: usize)
    requires
        s@.len() > 0,
    ensures
        k < s@.len(),
        forall|j: int| 0 <= j < s@.len() ==> s@[k as int]@.client <= (#[trigger] s@[j])@.client,
        forall|j: int| 0 <= j < k ==> s@[k as int]@.client < (#[trigger] s@[j])@.client,
{
    let mut k: usize = 0;
    let mut i: usize = 1;
    while i < s.len()
        invariant
            0 <= k < i <= s@.len(),
            forall|j: int| 0 <= j < i ==> s@[k as int]@.client <= (#[trigger] s@[j])@.client,
            forall|j: int| 0 <= j < k ==> s@[k as int]@.client < (#[trigger] s@[j])@.client,
        decreases s@.len() - i,
    {
        if s[i].client() < s[k].client() {
            k = i;
        }
        i = i + 1;
    }
    k
}

/// The accounts of `s` with client `c`, in their order in `s`.
pub open spec fn of_client(s: Seq<Account>, c: u16) -> Seq<Account> {
    s.filter(|a: Account| a@.client == c)
}

/// A sequence none of whose accounts has client `c` holds none of them.
proof fn lemma_of_client_none(s: Seq<Account>, c: u16)
    requires
        forall|j: int| 0 <= j < s.len() ==> (#[trigger] s[j])@.client != c,
    ensures
        of_client(s, c) == Seq::<Account>::empty(),
    decreases s.len(),
{
    reveal(Seq::filter);
    if s.len() > 0 {
        lemma_of_client_none(s.drop_last(), c);
        assert(s.last() == s[s.len() - 1]);
    }
}

/// Taking element `k` of `rest` out to the end of `out`, where `k` is the
/// first account with its client, keeps the accounts of every client in
/// order across `out` then `rest`.
proof fn lemma_move_first_of_client(out: Seq<Account>, rest: Seq<Account>, k: int, c: u16)
    requires
        0 <= k < rest.len(),
        forall|j: int| 0 <= j < k ==> (#[trigger] rest[j])@.client != rest[k]@.client,
    ensures
        of_client(out, c) + of_client(rest, c) == of_client(out.push(rest[k]), c) + of_client(
            rest.remove(k),
            c,
        ),
{
    broadcast use vstd::seq_lib::group_filter_ensures;

    let pred = |a: Account| a@.client == c;
    let a = rest[k];
    let pre = rest.take(k);
    let post = rest.skip(k + 1);
    assert(rest =~= pre + seq![a] + post);
    assert(rest.remove(k) =~= pre + post);
    Seq::filter_distributes_over_add(pre + seq![a], post, pred);
    Seq::filter_distributes_over_add(pre, seq![a], pred);
    Seq::filter_distributes_over_add(pre, post, pred);
    out.lemma_filter_push(a, pred);
    Seq::<Account>::empty().lemma_filter_push(a, pred);
    assert(seq![a] =~= Seq::<Account>::empty().push(a));
    reveal(Seq::filter);
    assert(Seq::<Account>::empty().filter(pred) =~= Seq::<Account>::empty());
    if a@.client == c {
        assert forall|j: int| 0 <= j < pre.len() implies (#[trigger] pre[j])@.client != c by {
            assert(pre[j] == rest[j]);
        }
        lemma_of_client_none(pre, c);
        assert(of_client(out, c) + of_client(rest, c) =~= of_client(out.push(a), c) + of_client(
            rest.remove(k),
            c,
        ));
    } else {
        assert(of_client(out, c) + of_client(rest, c) =~= of_client(out.push(a), c) + of_client(
            rest.remove(k),
            c,
        ));
    }
}

/// The accounts sorted by client id: a permutation of the input in
/// non-decreasing client order, stable (the accounts of one client keep
/// their input order). All variants funnel their final accounts through
/// this so their snapshots compare equal.
pub fn sorted_accounts(accounts: Vec<Account>) -> (r: Vec<Account>)
    ensures
        r@.to_multiset() == accounts@.to_multiset(),
        sorted_by_client(r@),
        forall|c: u16| #[trigger] of_client(r@, c) == of_client(accounts@, c),
{
    let mut rest = accounts;
    let mut out: Vec<Account> = Vec::new();
    proof {
        reveal(Seq::filter);
        assert forall|c: u16| #[trigger] of_client(accounts@, c) == of_client(out@, c) + of_client(
            rest@,
            c,
        ) by {
            assert(of_client(out@, c) =~= Seq::<Account>::empty());
            assert(of_client(out@, c) + of_client(rest@, c) =~= of_client(rest@, c));
        }
    }
    while rest.len() > 0
        invariant
            out@.to_multiset().add(rest@.to_multiset()) == accounts@.to_multiset(),
            forall|c: u16| #[trigger] of_client(accounts@, c) == of_client(out@, c) + of_client(
                rest@,
                c,
            ),
            sorted_by_client(out@),
            forall|i: int, j: int|
                0 <= i < out@.len() && 0 <= j < rest@.len() ==> (#[trigger] out@[i])@.client
                    <= (#[trigger] rest@[j])@.client,
        decreases rest@.len(),
    {
        let k = position_of_min(&rest);
        let ghost before_rest = rest@;
        let ghost before_out = out@;
        let a = rest.remove(k);
        out.push(a);
        proof {
            assert forall|c: u16| #[trigger] of_client(accounts@, c) == of_client(out@, c)
                + of_client(rest@, c) by {
                assert forall|j: int| 0 <= j < k implies (#[trigger] before_rest[j])@.client
                    != before_rest[k as int]@.client by {}
                lemma_move_first_of_client(before_out, before_rest, k as int, c);
                assert(before_out.push(before_rest[k as int]) == out@);
                assert(before_rest.remove(k as int) == rest@);
            }
            assert(before_rest.remove(k as int).to_multiset() =~= before_rest.to_multiset().remove(
                before_rest[k as int],
            ));
            assert(out@.to_multiset() =~= before_out.to_multiset().insert(a));
            assert(out@.to_multiset().add(rest@.to_multiset()) =~= accounts@.to_multiset());
            assert forall|i: int, j: int| 0 <= i <= j < out@.len() implies (#[trigger] out@[i])@.client
                <= (#[trigger] out@[j])@.client by {
                if j == out@.len() - 1 && i < j {
                    assert(before_rest[k as int] == a);
                }
            }
            assert forall|i: int, j: int|
                0 <= i < out@.len() && 0 <= j < rest@.len() implies (#[trigger] out@[i])@.client
                <= (#[trigger] rest@[j])@.client by {
                if j < k {
                    assert(rest@[j] == before_rest[j]);
                } else {
                    assert(rest@[j] == before_rest[j + 1]);
                }
            }
        }
    }
    proof {
        assert forall|c: u16| #[trigger] of_client(out@, c) == of_client(accounts@, c) by {
            reveal(Seq::filter);
            assert(rest@ =~= Seq::<Account>::empty());
            assert(of_client(rest@, c) =~= Seq::<Account>::empty());
            assert(of_client(out@, c) + of_client(rest@, c) =~= of_client(out@, c));
        }
        assert(rest@.to_multiset() =~= vstd::multiset::Multiset::empty());
        assert(out@.to_multiset() =~= out@.to_multiset().add(vstd::multiset::Multiset::empty()));
    }
    out
}

/// Account views in strictly increasing client order.
pub open spec fn strictly_sorted(v: Seq<AccountView>) -> bool {
    forall|i: int, j: int| 0 <= i < j < v.len() ==> (#[trigger] v[i]).client < (#[trigger] v[j]).client
}

proof fn lemma_sorted_listing_strict(a: Seq<Account>, m: Map<u16, AccountView>)
    requires
        lists_accounts(account_views(a), m),
        sorted_by_client(a),
    ensures
        strictly_sorted(account_views(a)),
{
    let v = account_views(a);
    assert forall|i: int, j: int| 0 <= i < j < v.len() implies (#[trigger] v[i]).client < (
    #[trigger] v[j]).client by {
        assert(a[i]@.client <= a[j]@.client);
        assert(v[i].client != v[j].client);
    }
}

/// Two strictly sorted listings of the same accounts are equal.
proof fn lemma_strict_listing_unique(va: Seq<AccountView>, vb: Seq<AccountView>, m: Map<u16, AccountView>)
    requires
        lists_accounts(va, m),
        lists_accounts(vb, m),
        strictly_sorted(va),
        strictly_sorted(vb),
    ensures
        va == vb,
    decreases va.len(),
{
    if va.len() == 0 {
        if vb.len() > 0 {
            assert(m.contains_key(vb[0].client));
        }
        assert(va =~= vb);
    } else {
        assert(m.contains_key(va[0].client));
        let c = va[0].client;
        let jb = choose|j: int| 0 <= j < vb.len() && #[trigger] vb[j].client == c;
        let d = vb[0].client;
        assert(m.contains_key(vb[0].client));
        let ia = choose|i: int| 0 <= i < va.len() && #[trigger] va[i].client == d;
        if jb > 0 {
            assert(vb[0].client < vb[jb].client);
        }
        if ia > 0 {
            assert(va[0].client < va[ia].client);
        }
        assert(c == d);
        assert(va[0] == vb[0]);
        let m2 = m.remove(c);
        let ra = va.drop_first();
        let rb = vb.drop_first();
        assert(lists_accounts(ra, m2)) by {
            assert forall|i: int| 0 <= i < ra.len() implies m2.contains_key(#[trigger] ra[i].client)
                && m2[ra[i].client] == ra[i] by {
                assert(ra[i] == va[i + 1]);
                assert(va[0].client < va[i + 1].client);
            }
            assert forall|k: u16| #[trigger] m2.contains_key(k) implies exists|i: int|
                0 <= i < ra.len() && #[trigger] ra[i].client == k by {
                assert(m.contains_key(k));
                let i = choose|i: int| 0 <= i < va.len() && #[trigger] va[i].client == k;
                assert(i != 0);
                assert(ra[i - 1].client == k);
            }
            assert forall|i: int, j: int|
                0 <= i < ra.len() && 0 <= j < ra.len() && i != j implies #[trigger] ra[i].client
                != #[trigger] ra[j].client by {
                assert(va[i + 1].client != va[j + 1].client);
            }
        }
        assert(lists_accounts(rb, m2)) by {
            assert forall|i: int| 0 <= i < rb.len() implies m2.contains_key(#[trigger] rb[i].client)
                && m2[rb[i].client] == rb[i] by {
                assert(rb[i] == vb[i + 1]);
                assert(vb[0].client < vb[i + 1].client);
            }
            assert forall|k: u16| #[trigger] m2.contains_key(k) implies exists|i: int|
                0 <= i < rb.len() && #[trigger] rb[i].client == k by {
                assert(m.contains_key(k));
                let i = choose|i: int| 0 <= i < vb.len() && #[trigger] vb[i].client == k;
                assert(i != 0);
                assert(rb[i - 1].client == k);
            }
            assert forall|i: int, j: int|
                0 <= i < rb.len() && 0 <= j < rb.len() && i != j implies #[trigger] rb[i].client
                != #[trigger] rb[j].client by {
                assert(vb[i + 1].client != vb[j + 1].client);
            }
        }
        assert(strictly_sorted(ra)) by {
            assert forall|i: int, j: int| 0 <= i < j < ra.len() implies (#[trigger] ra[i]).client < (
            #[trigger] ra[j]).client by {
                assert(va[i + 1].client < va[j + 1].client);
            }
        }
        assert(strictly_sorted(rb)) by {
            assert forall|i: int, j: int| 0 <= i < j < rb.len() implies (#[trigger] rb[i]).client < (
            #[trigger] rb[j]).client by {
                assert(vb[i + 1].client < vb[j + 1].client);
            }
        }
        lemma_strict_listing_unique(ra, rb, m2);
        assert(va =~= vb) by {
            assert forall|i: int| 0 <= i < va.len() implies va[i] == vb[i] by {
                if i > 0 {
                    assert(va[i] == ra[i - 1]);
                    assert(vb[i] == rb[i - 1]);
                }
            }
        }
    }
}

/// There is one client-sorted listing of a set of accounts: any two
/// variants that list the same accounts sorted by client render the same
/// snapshot, whatever order their maps hand the accounts out in.
pub proof fn law_sorted_listing_is_unique(a: Seq<Account>, b: Seq<Account>, m: Map<u16, AccountView>)
    requires
        lists_accounts(account_views(a), m),
        sorted_by_client(a),
        lists_accounts(account_views(b), m),
        sorted_by_client(b),
    ensures
        account_views(a) == account_views(b),
{
    lemma_sorted_listing_strict(a, m);
    lemma_sorted_listing_strict(b, m);
    lemma_strict_listing_unique(account_views(a), account_views(b), m);
}

/// A permutation of a listing of the accounts is a listing of them.
pub proof fn lemma_permutation_lists(a: Seq<Account>, b: Seq<Account>, m: Map<u16, AccountView>)
    requires
        lists_accounts(account_views(a), m),
        b.to_multiset() == a.to_multiset(),
    ensures
        lists_accounts(account_views(b), m),
{
    broadcast use vstd::seq_lib::group_to_multiset_ensures;

    let va = account_views(a);
    let vb = account_views(b);
    assert forall|i: int| 0 <= i < vb.len() implies m.contains_key(#[trigger] vb[i].client)
        && m[vb[i].client] == vb[i] by {
        assert(b.to_multiset().count(b[i]) > 0);
        assert(a.contains(b[i]));
        let j = choose|j: int| 0 <= j < a.len() && a[j] == b[i];
        assert(va[j] == vb[i]);
    }
    assert forall|c: u16| #[trigger] m.contains_key(c) implies exists|i: int|
        0 <= i < vb.len() && #[trigger] vb[i].client == c by {
        let j = choose|j: int| 0 <= j < va.len() && #[trigger] va[j].client == c;
        assert(a.to_multiset().count(a[j]) > 0);
        assert(b.contains(a[j]));
        let i = choose|i: int| 0 <= i < b.len() && b[i] == a[j];
        assert(vb[i].client == c);
    }
    assert forall|i: int, k: int|
        0 <= i < vb.len() && 0 <= k < vb.len() && i != k implies #[trigger] vb[i].client
        != #[trigger] vb[k].client by {
        if vb[i].client == vb[k].client {
            // Both are the account filed under that client, so equal values
            // occur twice in `b`, hence twice in `a`, whose listing has
            // distinct clients.
            assert(b[i]@ == b[k]@);
            lemma_distinct_listing_no_duplicates(a, m);
            lemma_same_view_same_account(b[i], b[k]);
            assert(b.to_multiset().count(b[i]) >= 2) by {
                lemma_count_two(b, i, k);
            }
            assert(a.to_multiset().count(b[i]) >= 2);
            lemma_count_two_converse(a, b[i]);
        }
    }
}

proof fn lemma_same_view_same_account(x: Account, y: Account)
    requires
        x@ == y@,
    ensures
        x == y,
{
    Account::lemma_view_injective(x, y);
}

proof fn lemma_distinct_listing_no_duplicates(a: Seq<Account>, m: Map<u16, AccountView>)
    requires
        lists_accounts(account_views(a), m),
    ensures
        a.no_duplicates(),
{
    let va = account_views(a);
    assert forall|i: int, j: int| 0 <= i < a.len() && 0 <= j < a.len() && i != j implies a[i]
        != a[j] by {
        assert(va[i].client != va[j].client);
    }
}

proof fn lemma_count_two(s: Seq<Account>, i: int, k: int)
    requires
        0 <= i < s.len(),
        0 <= k < s.len(),
        i != k,
        s[i] == s[k],
    ensures
        s.to_multiset().count(s[i]) >= 2,
{
    broadcast use vstd::seq_lib::group_to_multiset_ensures;

    let x = s[i];
    let (lo, hi) = if i < k {
        (i, k)
    } else {
        (k, i)
    };
    let s1 = s.remove(hi);
    assert(s1[lo] == x);
    assert(s1.to_multiset().count(x) > 0);
    assert(s.to_multiset().remove(x).count(x) > 0);
}

proof fn lemma_count_two_converse(s: Seq<Account>, x: Account)
    requires
        s.no_duplicates(),
    ensures
        s.to_multiset().count(x) <= 1,
{
    broadcast use vstd::seq_lib::group_to_multiset_ensures;

    s.lemma_multiset_has_no_duplicates();
    if s.to_multiset().count(x) >= 2 {
        assert(s.to_multiset().contains(x));
    }
}

} // verus!
