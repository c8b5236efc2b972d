//! The settings of a strategy.

use crate::number::Number;
use vstd::prelude::*;

verus! {

/// The lengths of the two moving averages.
#[derive(Clone, Copy, Debug, PartialEq, Eq, Structural)]
pub struct SmaConfig {
    pub short_window: usize,
    pub long_window: usize,
}

/// How far back a breakout looks.
#[derive(Clone, Copy, Debug, PartialEq, Eq, Structural)]
pub struct BreakoutConfig {
    pub breakout_lookback: usize,
}

/// How near a price must come to its average to count as a bounce, or as a rejection.
#[derive(Clone, Copy, Debug, PartialEq, Eq, Structural)]
pub struct PullbackConfig {
    pub bounce_tolerance_pct: Number,
    pub reject_tolerance_pct: Number,
}

/// A named set of parameters of a filter.
#[derive(Clone, Copy, Debug, PartialEq, Eq, Structural)]
pub enum FilterPreset {
    Backtest,
}

/// Which filters a signal must pass.
#[derive(Clone, Copy, Debug, PartialEq, Eq, Structural)]
pub struct FilterConfig {
    pub require_price_confirmation: bool,
    pub require_trend_filter: bool,
    pub atr: Option<FilterPreset>,
    pub regime: Option<FilterPreset>,
}

/// A strategy.
#[derive(Clone, Copy, Debug, PartialEq, Eq, Structural)]
pub struct StrategyConfig {
    pub breakouts: Option<BreakoutConfig>,
    pub pullbacks: Option<PullbackConfig>,
    pub enable_crossovers: bool,
    pub enable_bias_only: bool,
    pub sma_config: SmaConfig,
    pub filters: FilterConfig,
}

/// The settings of a run as they are written down, with what was left out.
#[derive(Clone, Copy, Debug, PartialEq, Eq, Structural)]
pub struct StrategySettings {
    pub breakout_lookback: Option<usize>,
    pub pullback_bounce_tolerance_pct: Option<Number>,
    pub pullback_rejection_tolerance_pct: Option<Number>,
    pub enable_crossovers: bool,
    pub enable_bias_only: bool,
    pub sma_short_window: usize,
    pub sma_long_window: usize,
    pub require_price_confirmation: bool,
    pub require_trend_filter: bool,
    pub atr_enabled: bool,
    pub regime_enabled: bool,
}

/// Which tolerance was taken from the other.
#[derive(Clone, Copy, Debug, PartialEq, Eq, Structural)]
pub enum Borrowed {
    /// The rejection tolerance is the given bounce tolerance.
    RejectFromBounce,
    /// The bounce tolerance is the given rejection tolerance.
    BounceFromReject,
}

/// The pullbacks that two tolerances ask for: none where neither is given, and where one is
/// given it stands for both.
pub open spec fn pullbacks_of(bounce: Option<Number>, reject: Option<Number>) -> Option<
    PullbackConfig,
> {
    match (bounce, reject) {
        (Some(b), Some(r)) => Some(
            PullbackConfig { bounce_tolerance_pct: b, reject_tolerance_pct: r },
        ),
        (Some(v), None) => Some(
            PullbackConfig { bounce_tolerance_pct: v, reject_tolerance_pct: v },
        ),
        (None, Some(v)) => Some(
            PullbackConfig { bounce_tolerance_pct: v, reject_tolerance_pct: v },
        ),
        (None, None) => None,
    }
}

/// The pullbacks that two tolerances ask for, and which of the two was taken from the other.
pub fn resolve_pullbacks(bounce: Option<Number>, reject: Option<Number>) -> (r: (
    Option<PullbackConfig>,
    Option<Borrowed>,
))
    ensures
        r.0 == pullbacks_of(bounce, reject),
        r.1 == Some(Borrowed::RejectFromBounce) <==> bounce is Some && reject is None,
        r.1 == Some(Borrowed::BounceFromReject) <==> bounce is None && reject is Some,
{
    match (bounce, reject) {
        (Some(bounce_tolerance_pct), Some(reject_tolerance_pct)) => (
            Some(PullbackConfig { bounce_tolerance_pct, reject_tolerance_pct }),
            None,
        ),
        (None, None) => (None, None),
        (Some(v), None) => (
            Some(PullbackConfig { bounce_tolerance_pct: v, reject_tolerance_pct: v }),
            Some(Borrowed::RejectFromBounce),
        ),
        (None, Some(v)) => (
            Some(PullbackConfig { bounce_tolerance_pct: v, reject_tolerance_pct: v }),
            Some(Borrowed::BounceFromReject),
        ),
    }
}

/// The preset of a filter that is switched on or off.
pub open spec fn preset_of(enabled: bool) -> Option<FilterPreset> {
    if enabled {
        Some(FilterPreset::Backtest)
    } else {
        None
    }
}

impl StrategySettings {
    /// The strategy that the settings describe.
    pub open spec fn describes(self) -> StrategyConfig {
        StrategyConfig {
            breakouts: match self.breakout_lookback {
                Some(v) => Some(BreakoutConfig { breakout_lookback: v }),
                None => None,
            },
            pullbacks: pullbacks_of(
                self.pullback_bounce_tolerance_pct,
                self.pullback_rejection_tolerance_pct,
            ),
            enable_crossovers: self.enable_crossovers,
            enable_bias_only: self.enable_bias_only,
            sma_config: SmaConfig {
                short_window: self.sma_short_window,
                long_window: self.sma_long_window,
            },
            filters: FilterConfig {
                require_price_confirmation: self.require_price_confirmation,
                require_trend_filter: self.require_trend_filter,
                atr: preset_of(self.atr_enabled),
                regime: preset_of(self.regime_enabled),
            },
        }
    }

    /// The strategy that the settings describe.
    pub fn strategy(&self) -> (r: StrategyConfig)
        ensures
            r == self.describes(),
    {
        let (pullbacks, _) = resolve_pullbacks(
            self.pullback_bounce_tolerance_pct,
            self.pullback_rejection_tolerance_pct,
        );
        let breakouts = match self.breakout_lookback {
            Some(v) => Some(BreakoutConfig { breakout_lookback: v }),
            None => None,
        };
        let atr = if self.atr_enabled {
            Some(FilterPreset::Backtest)
        } else {
            None
        };
        let regime = if self.regime_enabled {
            Some(FilterPreset::Backtest)
        } else {
            None
        };
        StrategyConfig {
            breakouts,
            pullbacks,
            enable_crossovers: self.enable_crossovers,
            enable_bias_only: self.enable_bias_only,
            sma_config: SmaConfig {
                short_window: self.sma_short_window,
                long_window: self.sma_long_window,
            },
            filters: FilterConfig {
                require_price_confirmation: self.require_price_confirmation,
                require_trend_filter: self.require_trend_filter,
                atr,
                regime,
            },
        }
    }
}

} // verus!
