//! What settings come to, setting by setting.

use crate::number::Number;
use crate::strategy::{
    resolve_pullbacks, Borrowed, FilterPreset, PullbackConfig, StrategyConfig, StrategySettings,
};
use vstd::prelude::*;

verus! {

/// There are pullbacks where a tolerance is given. A tolerance that is given is kept, and one that
/// is not is the other one, which is reported as borrowed.
pub proof fn tolerances_are_kept(
    bounce: Option<Number>,
    reject: Option<Number>,
    r: (Option<PullbackConfig>, Option<Borrowed>),
)
    requires
        call_ensures(resolve_pullbacks, (bounce, reject), r),
    ensures
        r.0 is None <==> bounce is None && reject is None,
        bounce is Some ==> r.0->0.bounce_tolerance_pct == bounce->0,
        reject is Some ==> r.0->0.reject_tolerance_pct == reject->0,
        bounce is None && reject is Some ==> {
            &&& r.0->0.bounce_tolerance_pct == reject->0
            &&& r.1 == Some(Borrowed::BounceFromReject)
        },
        bounce is Some && reject is None ==> {
            &&& r.0->0.reject_tolerance_pct == bounce->0
            &&& r.1 == Some(Borrowed::RejectFromBounce)
        },
        (bounce is Some <==> reject is Some) ==> r.1 is None,
{
    match r.1 {
        Some(Borrowed::RejectFromBounce) => {},
        Some(Borrowed::BounceFromReject) => {},
        None => {},
    }
}

/// Each part of a strategy comes from its own settings, and from no others.
pub proof fn settings_are_kept(settings: &StrategySettings, r: StrategyConfig)
    requires
        call_ensures(StrategySettings::strategy, (settings,), r),
    ensures
        r.breakouts is Some <==> settings.breakout_lookback is Some,
        r.breakouts is Some ==> r.breakouts->0.breakout_lookback == settings.breakout_lookback->0,
        r.pullbacks is None <==> {
            &&& settings.pullback_bounce_tolerance_pct is None
            &&& settings.pullback_rejection_tolerance_pct is None
        },
        settings.pullback_bounce_tolerance_pct is Some ==> r.pullbacks->0.bounce_tolerance_pct
            == settings.pullback_bounce_tolerance_pct->0,
        settings.pullback_rejection_tolerance_pct is Some ==> r.pullbacks->0.reject_tolerance_pct
            == settings.pullback_rejection_tolerance_pct->0,
        settings.pullback_bounce_tolerance_pct is None || settings.pullback_rejection_tolerance_pct
            is None ==> (r.pullbacks is Some ==> r.pullbacks->0.bounce_tolerance_pct
            == r.pullbacks->0.reject_tolerance_pct),
        r.enable_crossovers == settings.enable_crossovers,
        r.enable_bias_only == settings.enable_bias_only,
        r.sma_config.short_window == settings.sma_short_window,
        r.sma_config.long_window == settings.sma_long_window,
        r.filters.require_price_confirmation == settings.require_price_confirmation,
        r.filters.require_trend_filter == settings.require_trend_filter,
        r.filters.atr == Some(FilterPreset::Backtest) <==> settings.atr_enabled,
        r.filters.regime == Some(FilterPreset::Backtest) <==> settings.regime_enabled,
{
}

} // verus!
