# trade_signal

Price series and trading backtests, verified with Verus.

- `src/number.rs` holds binary64 numbers by their bits: their order is decided here, while sums,
  products and the like are asked of the caller as `Calc` values. `src/exact.rs` gives them values
  and says when a calculation comes out exact.
- `src/time.rs` holds instants of UTC and the calls into chrono.
- `src/data.rs` turns the rows of price files into samples, and resamples them to one close per
  bucket; `src/buckets.rs` says what that means and `src/resample_laws.rs` what follows from it.
- `src/strategy.rs` holds the settings of a strategy.
- `src/backtest/` runs a strategy over a price series: `position.rs` is the code, `account.rs`
  says what happens to an account at each candle, `laws.rs`, `exact_laws.rs` and
  `uniqueness.rs` state what holds of every run.
- `app/` reads files and configurations, computes in floating point, writes logs and prints.
