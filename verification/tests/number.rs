use trade_signal::number::Number;
use trade_signal::strategy::{
    resolve_pullbacks, Borrowed, BreakoutConfig, FilterPreset, PullbackConfig, SmaConfig,
    StrategySettings,
};

fn num(x: f64) -> Number {
    Number { bits: x.to_bits() }
}

fn numbers() -> Vec<f64> {
    vec![
        0.0,
        -0.0,
        1.0,
        -1.0,
        100.0,
        0.5,
        -0.5,
        f64::MIN_POSITIVE,
        -f64::MIN_POSITIVE,
        5e-324,
        -5e-324,
        f64::MAX,
        f64::MIN,
        f64::INFINITY,
        f64::NEG_INFINITY,
        f64::NAN,
        -f64::NAN,
    ]
}

#[test]
fn numbers_are_ordered_as_floats_are() {
    for a in numbers() {
        for b in numbers() {
            assert_eq!(num(a).lt(num(b)), a < b, "{a} < {b}");
            assert_eq!(num(a).le(num(b)), a <= b, "{a} <= {b}");
        }
    }
}

#[test]
fn clamping_is_that_of_floats() {
    for a in numbers() {
        assert_eq!(
            num(a).clamp(Number::zero(), Number::one()),
            num(a.clamp(0.0, 1.0))
        );
    }
}

#[test]
fn constants_have_their_bits() {
    assert_eq!(Number::zero(), num(0.0));
    assert_eq!(Number::one(), num(1.0));
    assert_eq!(Number::hundred(), num(100.0));
}

#[test]
fn one_tolerance_stands_for_both() {
    let both = |b: f64, r: f64| {
        Some(PullbackConfig {
            bounce_tolerance_pct: num(b),
            reject_tolerance_pct: num(r),
        })
    };
    assert_eq!(resolve_pullbacks(None, None), (None, None));
    assert_eq!(
        resolve_pullbacks(Some(num(0.1)), Some(num(0.2))),
        (both(0.1, 0.2), None)
    );
    assert_eq!(
        resolve_pullbacks(Some(num(0.1)), None),
        (both(0.1, 0.1), Some(Borrowed::RejectFromBounce))
    );
    assert_eq!(
        resolve_pullbacks(None, Some(num(0.2))),
        (both(0.2, 0.2), Some(Borrowed::BounceFromReject))
    );
}

#[test]
fn settings_describe_a_strategy() {
    let settings = StrategySettings {
        breakout_lookback: Some(20),
        pullback_bounce_tolerance_pct: None,
        pullback_rejection_tolerance_pct: Some(num(0.3)),
        enable_crossovers: true,
        enable_bias_only: false,
        sma_short_window: 5,
        sma_long_window: 10,
        require_price_confirmation: true,
        require_trend_filter: false,
        atr_enabled: true,
        regime_enabled: false,
    };
    let strategy = settings.strategy();
    assert_eq!(
        strategy.breakouts,
        Some(BreakoutConfig {
            breakout_lookback: 20
        })
    );
    assert_eq!(
        strategy.pullbacks,
        Some(PullbackConfig {
            bounce_tolerance_pct: num(0.3),
            reject_tolerance_pct: num(0.3)
        })
    );
    assert!(strategy.enable_crossovers && !strategy.enable_bias_only);
    assert_eq!(
        strategy.sma_config,
        SmaConfig {
            short_window: 5,
            long_window: 10
        }
    );
    assert!(strategy.filters.require_price_confirmation);
    assert!(!strategy.filters.require_trend_filter);
    assert_eq!(strategy.filters.atr, Some(FilterPreset::Backtest));
    assert_eq!(strategy.filters.regime, None);
}
