//! Backtests.

pub mod account;
pub mod call_laws;
pub mod exact_laws;
pub mod laws;
pub mod position;
pub mod run_laws;
pub mod uniqueness;

use crate::number::Number;
use crate::strategy::StrategyConfig;
use vstd::prelude::*;
use vstd::string::StringExecFns;

verus! {

/// Which way to trade.
#[derive(Clone, Copy, Debug, PartialEq, Eq, Structural)]
pub enum Signal {
    Buy,
    Sell,
}

/// What a strategy makes of a price series: a signal or none, and the reason.
#[derive(Clone, Debug)]
pub struct Analysis {
    pub signal: Option<Signal>,
    pub reason: String,
}

/// A strategy, and the part of the cash that it puts into a position.
#[derive(Clone, Copy, Debug, PartialEq, Eq, Structural)]
pub struct Candidate {
    pub buy_sell_fraction: Number,
    pub strategy: StrategyConfig,
}

/// The name of the log file of a run: a prefix and the time at which the run began.
pub fn log_file_name(prefix: &str, stamp: &str) -> (name: String)
    ensures
        name@ == prefix@ + "_"@ + stamp@ + ".log"@,
{
    let mut name = prefix.to_string();
    name.append("_");
    name.append(stamp);
    name.append(".log");
    name
}

} // verus!
