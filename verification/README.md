# memos_trading_core

The data pipeline, configuration presets, scheduling and book-selection logic of
an autonomous trading robot, written in Verus. Every function of the library is
verified, and those with something to state carry a contract; calls into outside
crates and std go through the trusted wrappers in `calendar`, `clock`, `text` and
the fetcher and executor modules.

- `src/` — the verified library. Bars (`types::Candle`) hold integer fixed-point
  values: prices in millionths, volumes in thousandths, times in epoch
  milliseconds.
  - `robot::data_pipeline` — cleaning, normalizing, validating, caching and
    aggregating bars; pipeline status and timeline.
  - `robot::data_fetcher` — provider symbol and interval mappings, row checks and
    ordering of provider replies, Binance history paging and error classification.
  - `robot::backtester` — scheduler and canary status, walk-forward windows,
    higher-timeframe alignment, cross-sectional book selection, union time grids,
    funding bucketing and single-position arbitration.
  - `robot::advanced_monitoring` — alert manager and live dashboard.
  - `robot::binance_executor`, `robot::config_helpers`, `robot::security`,
    `robot::portfolio_manager` — request signing and configuration presets.
  - `calendar`, `clock` — the calls into `chrono` and `std`'s clock that the
    library makes, each with the contract it relies on.
  - `text` — string comparison, search, replacement, trimming, integer parsing
    and decimal writing, proved over the characters; std's Unicode case mapping
    behind a contract.
- `tests/` — tests of the library on concrete values.
- `app/` — the runtime around it: HTTP and SQLite I/O, JSON replies, and the
  floating-point analytics (indicators, risk metrics, trend analysis, funding-carry
  returns, paper-to-live graduation).

The floating-point backtest engine (strategy entry rules, position simulation,
profile comparison), the edge scan over stored series, the live-path replay and
the autonomous trader's symbol selection are not part of this crate: they build on
strategy, indicator, optimizer and persistence modules that live outside it.
