//! Price series and trading backtests.
//!
//! * [`number`]: binary64 numbers held by their bits, and the arithmetic asked for on them;
//! * [`exact`]: the values of numbers, and calculations that come out exact;
//! * [`time`]: instants of UTC, read from text and from Unix time;
//! * [`data`]: rows of price files, samples, and resampling to one close per bucket;
//! * [`strategy`]: the settings of a strategy;
//! * [`backtest`]: running a strategy over a price series with long and short positions.
//!
//! The modules whose names end in `laws` state what holds of these.

pub mod number;
pub mod exact;
pub mod number_laws;
pub mod time;
pub mod buckets;
pub mod data;
pub mod resample_laws;
pub mod data_laws;
pub mod strategy;
pub mod strategy_laws;
pub mod backtest;
