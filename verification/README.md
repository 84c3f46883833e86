# backtide_core

The verified core of a trading backtester's data layer: symbols and providers,
currency conversion legs, download planning, live market-data collection and
the SQL sent to storage. Every function in `src/` carries a contract; Verus
checks each one against the function's body, except for the few small wrappers
marked `#[verifier::external_body]`, which call `std`, `chrono`, `itertools` or
`indexmap` and whose contracts are trusted. The laws of the library are public
proof functions named `law_*`.

Layout:

- `src/` — the verified library.
  - `text`, `models`, `currency`, `symbols` — strings, core types, currencies
    and forex pairs, canonical and provider-specific symbols.
  - `kraken`, `coinbase`, `timestamps` — provider-specific decisions (ticker
    names, response envelopes, paging windows, listing dates).
  - `legs` — which pairs price an instrument in the base currency (direct or
    triangulated) and the de-duplicated profile list.
  - `download` — which ranges to download, the circuit breaker, row selection
    and the download summary.
  - `live`, `chrono_queue`, `collect` — stream subscriptions, chronological
    ordering of candle updates, and the state machine of a bounded collection
    with reconnects.
  - `storage` — filtered queries with positional parameters, bulk deletions
    and the steps of a write transaction.
  - `metrics`, `indicators`, `experiment_log` — the metric catalog, indicator
    names, and the text of per-experiment log files.
- `tests/` — tests of the library.
- `app/` — the runtime around it: WebSockets, the collection loop, DuckDB,
  provider drivers and the `tracing` layer. Floating-point prices stay here.
