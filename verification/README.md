# payments_engine_challenge

A payments engine: it reads a stream of deposits, withdrawals, disputes,
resolves and chargebacks and produces the per-client account snapshot
(`client,available,held,total,locked`, amounts with four fractional digits).

The library under `src/` is written in Verus. Its behaviour is specified and
proved:

- `engine` — the production engine. `Engine::process` is proved to compute
  the state machine `engine::step` over an abstract state of accounts,
  deposit records and seen tx ids; `engine::laws` and `engine::held` prove
  what holds across transactions (refusals change nothing, locks are
  permanent and match chargebacks, held funds are exactly the disputed
  deposits, transactions on different clients and tx ids commute, so any
  interleaving of independent streams reaches the sequential state, ...).
  `engine::io` turns input rows into the snapshot records.
  `engine::v1` is the deposit-only first version, `engine::v2` the
  split-ledger engine under its benchmark name.
- `amount` — exact decimals (mantissa and scale), with arithmetic done by
  `rust_decimal` behind trusted wrappers; `text` renders numbers and amounts.
- `concurrency` — the engine variants (single-threaded baseline, mutex,
  sharded `DashMap` engine, two actors), each proved to render the same
  client-sorted snapshot.
- `bench_support` — the synthetic workload generators; at zero client
  overlap their streams are proved independent.

`app/` is the binary around it: CSV reading and writing, logging, threads
and channels of the concurrency variants, latency histograms and the
benchmark runs. `tests/` exercise the library.
