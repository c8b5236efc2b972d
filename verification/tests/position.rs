use std::cell::RefCell;
use std::sync::Mutex;
use trade_signal::backtest::position::{
    buy_and_hold_equity, close_position, compute_max_drawdown, compute_win_rate, open_position,
    position_liquidation_value, summarize, Book, NdjsonLogger, NoopLogger, Position,
    PositionBacktester, PositionLogger, PositionSide,
};
use trade_signal::backtest::{log_file_name, Analysis, Candidate, Signal};
use trade_signal::data::Sample;
use trade_signal::number::{Calc, Number};
use trade_signal::strategy::{FilterConfig, SmaConfig, StrategyConfig};
use trade_signal::time::Timestamp;

fn num(x: f64) -> Number {
    Number { bits: x.to_bits() }
}

fn val(n: Number) -> f64 {
    f64::from_bits(n.bits)
}

fn calc(c: Calc) -> Number {
    num(match c {
        Calc::Add(a, b) => val(a) + val(b),
        Calc::Sub(a, b) => val(a) - val(b),
        Calc::Mul(a, b) => val(a) * val(b),
        Calc::Div(a, b) => val(a) / val(b),
        Calc::Count(n) => n as f64,
    })
}

fn at(secs: i64) -> Timestamp {
    Timestamp { secs, nanos: 0 }
}

fn sample(ts_secs: i64, price: f64) -> Sample {
    Sample {
        ts: at(ts_secs),
        price: num(price),
    }
}

/// Creates a simple strategy config for testing.
/// Uses SMA 5/10 with bias_only enabled (no breakouts/pullbacks/crossovers)
/// and no filters to make behavior predictable.
fn test_strategy() -> StrategyConfig {
    StrategyConfig {
        breakouts: None,
        pullbacks: None,
        enable_crossovers: false,
        enable_bias_only: true,
        sma_config: SmaConfig {
            short_window: 5,
            long_window: 10,
        },
        filters: FilterConfig {
            require_trend_filter: false,
            require_price_confirmation: false,
            atr: None,
            regime: None,
        },
    }
}

fn average(samples: &[Sample], window: usize) -> f64 {
    let prices: Vec<f64> = samples[samples.len() - window..]
        .iter()
        .map(|s| val(s.price))
        .collect();
    prices.iter().sum::<f64>() / window as f64
}

/// The bias alone: buy while the short average is above the long one, sell while it is below.
fn bias(samples: &[Sample], strategy: StrategyConfig) -> Option<Analysis> {
    assert!(strategy.enable_bias_only);
    let short = average(samples, strategy.sma_config.short_window);
    let long = average(samples, strategy.sma_config.long_window);
    let signal = if short > long {
        Some(Signal::Buy)
    } else if short < long {
        Some(Signal::Sell)
    } else {
        None
    };
    Some(Analysis {
        signal,
        reason: "bias".to_string(),
    })
}

#[test]
fn test_backtest_single_long_position_with_profit() {
    // Samples 0-9:  price = 100 (flat)
    // Samples 10+:  price rises to 110, 120, 130, 140, 150
    let mut samples = Vec::new();
    let base_ts = 1700000000i64;

    for i in 0..10 {
        samples.push(sample(base_ts + i * 3600, 100.0));
    }
    for (i, price) in [110.0, 120.0, 130.0, 140.0, 150.0].iter().enumerate() {
        samples.push(sample(base_ts + (10 + i as i64) * 3600, *price));
    }

    let backtester = PositionBacktester::new(num(10000.0));
    let candidate = Candidate {
        buy_sell_fraction: num(1.0), // Use 100% of cash
        strategy: test_strategy(),
    };

    let result = backtester
        .run_backtest(&samples, &candidate, &bias, &calc)
        .unwrap();

    assert_eq!(val(result.initial_equity), 10000.0);
    assert_eq!(result.positions.len(), 1, "Expected exactly 1 position");

    let pos = &result.positions[0];
    assert_eq!(pos.side, PositionSide::Long);
    assert!(pos.exit_reason.as_ref().unwrap().contains("EOF"));

    assert_eq!(val(pos.exit_price.unwrap()), 150.0);
    assert!(val(pos.profit.unwrap()) > 0.0, "Position should be profitable");

    assert!(
        val(result.final_equity) > val(result.initial_equity),
        "Final equity {} should be > initial {}",
        val(result.final_equity),
        val(result.initial_equity)
    );
    assert!(val(result.total_return_pct) > 0.0);

    // The exact figures: entered at 110, left at 150.
    assert_eq!(pos.entry_time, at(base_ts + 10 * 3600));
    assert_eq!(val(pos.entry_price), 110.0);
    assert_eq!(pos.entry_reason, "bias");
    assert_eq!(pos.exit_time, Some(at(base_ts + 14 * 3600)));
    assert_eq!(val(pos.entry_collateral_gross), 10000.0);
    assert_eq!(val(pos.size), 10000.0 / 110.0);
    let profit = (150.0 - 110.0) * (10000.0 / 110.0);
    assert_eq!(val(pos.profit.unwrap()), profit);
    assert_eq!(val(pos.return_pct.unwrap()), profit / 10000.0);
    assert_eq!(val(result.final_equity), 0.0 + (10000.0 + profit));
    assert_eq!(
        val(result.total_return_pct),
        (0.0 + (10000.0 + profit)) / 10000.0 - 1.0
    );
    assert_eq!(val(result.total_return_pct()), val(result.total_return_pct));
    assert_eq!(val(result.max_drawdown_pct()), 0.0);
    assert_eq!(val(result.win_rate_pct), 1.0);
}

#[test]
fn test_backtest_single_short_position_with_profit() {
    // Samples 0-9:  price = 100 (flat)
    // Samples 10+:  price drops to 90, 80, 70, 60, 50
    let mut samples = Vec::new();
    let base_ts = 1700000000i64;

    for i in 0..10 {
        samples.push(sample(base_ts + i * 3600, 100.0));
    }
    for (i, price) in [90.0, 80.0, 70.0, 60.0, 50.0].iter().enumerate() {
        samples.push(sample(base_ts + (10 + i as i64) * 3600, *price));
    }

    let backtester = PositionBacktester::new(num(10000.0));
    let candidate = Candidate {
        buy_sell_fraction: num(1.0),
        strategy: test_strategy(),
    };

    let result = backtester
        .run_backtest(&samples, &candidate, &bias, &calc)
        .unwrap();

    assert_eq!(val(result.initial_equity), 10000.0);
    assert_eq!(result.positions.len(), 1, "Expected exactly 1 position");

    let pos = &result.positions[0];
    assert_eq!(pos.side, PositionSide::Short);
    assert!(pos.exit_reason.as_ref().unwrap().contains("EOF"));
    assert_eq!(val(pos.exit_price.unwrap()), 50.0);
    assert!(
        val(pos.profit.unwrap()) > 0.0,
        "Short position should be profitable when price drops"
    );

    assert!(
        val(result.final_equity) > val(result.initial_equity),
        "Final equity {} should be > initial {}",
        val(result.final_equity),
        val(result.initial_equity)
    );
}

#[test]
fn test_backtest_position_flip_long_to_short() {
    // Samples 0-9:   price = 100 (flat baseline)
    // Samples 10-14: price rises to 110, 120, 130, 140, 150 (uptrend -> LONG)
    // Samples 15-19: price drops to 100, 80, 60, 40, 20 (downtrend -> flip to SHORT)
    let mut samples = Vec::new();
    let base_ts = 1700000000i64;

    for i in 0..10 {
        samples.push(sample(base_ts + i * 3600, 100.0));
    }
    for (i, price) in [110.0, 120.0, 130.0, 140.0, 150.0].iter().enumerate() {
        samples.push(sample(base_ts + (10 + i as i64) * 3600, *price));
    }
    for (i, price) in [100.0, 80.0, 60.0, 40.0, 20.0].iter().enumerate() {
        samples.push(sample(base_ts + (15 + i as i64) * 3600, *price));
    }

    let backtester = PositionBacktester::new(num(10000.0));
    let candidate = Candidate {
        buy_sell_fraction: num(1.0),
        strategy: test_strategy(),
    };

    let result = backtester
        .run_backtest(&samples, &candidate, &bias, &calc)
        .unwrap();

    assert_eq!(val(result.initial_equity), 10000.0);
    assert!(
        result.positions.len() >= 2,
        "Expected at least 2 positions (long then short), got {}",
        result.positions.len()
    );

    // First position should be Long
    assert_eq!(result.positions[0].side, PositionSide::Long);

    // Last position should be Short (closed at EOF)
    let last_pos = result.positions.last().unwrap();
    assert_eq!(last_pos.side, PositionSide::Short);
    assert!(last_pos.exit_reason.as_ref().unwrap().contains("EOF"));

    // The flip happens at one candle: what is left there is entered on the other side.
    assert_eq!(result.positions[0].exit_time, Some(result.positions[1].entry_time));
    assert_eq!(result.positions[0].exit_price, Some(result.positions[1].entry_price));
    assert_eq!(result.positions[0].exit_reason.as_ref().unwrap(), "bias");
}

#[test]
fn test_backtest_partial_allocation() {
    // Test that buy_sell_fraction correctly allocates partial cash
    let mut samples = Vec::new();
    let base_ts = 1700000000i64;

    for i in 0..10 {
        samples.push(sample(base_ts + i * 3600, 100.0));
    }
    for (i, price) in [110.0, 120.0, 130.0, 140.0, 150.0].iter().enumerate() {
        samples.push(sample(base_ts + (10 + i as i64) * 3600, *price));
    }

    let initial_cash = 10000.0;
    let backtester = PositionBacktester::new(num(initial_cash));
    let candidate = Candidate {
        buy_sell_fraction: num(0.5), // Only use 50% of cash
        strategy: test_strategy(),
    };

    let result = backtester
        .run_backtest(&samples, &candidate, &bias, &calc)
        .unwrap();

    assert_eq!(result.positions.len(), 1);
    let pos = &result.positions[0];

    // Entry collateral should be 50% of initial cash
    let expected_collateral = initial_cash * 0.5;
    assert!(
        (val(pos.entry_collateral_gross) - expected_collateral).abs() < 0.01,
        "Expected collateral {}, got {}",
        expected_collateral,
        val(pos.entry_collateral_gross)
    );
}

#[test]
fn test_backtest_not_enough_data_returns_error() {
    // Only 5 samples, but we need long_window + 1 = 11
    let samples: Vec<Sample> = (0..5)
        .map(|i| sample(1700000000 + i * 3600, 100.0))
        .collect();

    let backtester = PositionBacktester::new(num(10000.0));
    let candidate = Candidate {
        buy_sell_fraction: num(1.0),
        strategy: test_strategy(),
    };

    let result = backtester.run_backtest(&samples, &candidate, &bias, &calc);
    assert!(result.is_err());
    assert!(result.unwrap_err().contains("Not enough data"));
}

#[test]
fn test_backtest_equity_curve_length_matches_samples() {
    let mut samples = Vec::new();
    let base_ts = 1700000000i64;

    for i in 0..15 {
        samples.push(sample(base_ts + i * 3600, 100.0 + i as f64));
    }

    let backtester = PositionBacktester::new(num(10000.0));
    let candidate = Candidate {
        buy_sell_fraction: num(1.0),
        strategy: test_strategy(),
    };

    let result = backtester
        .run_backtest(&samples, &candidate, &bias, &calc)
        .unwrap();

    assert_eq!(
        result.equity_curve.len(),
        samples.len(),
        "Equity curve should have one entry per sample"
    );
}

#[test]
fn test_backtest_max_drawdown_calculation() {
    // Price goes up (profit), then down (drawdown)
    let mut samples = Vec::new();
    let base_ts = 1700000000i64;

    for i in 0..10 {
        samples.push(sample(base_ts + i * 3600, 100.0));
    }
    for (i, price) in [110.0, 120.0, 130.0, 140.0, 150.0].iter().enumerate() {
        samples.push(sample(base_ts + (10 + i as i64) * 3600, *price));
    }
    for (i, price) in [140.0, 130.0, 120.0].iter().enumerate() {
        samples.push(sample(base_ts + (15 + i as i64) * 3600, *price));
    }

    let backtester = PositionBacktester::new(num(10000.0));
    let candidate = Candidate {
        buy_sell_fraction: num(1.0),
        strategy: test_strategy(),
    };

    let result = backtester
        .run_backtest(&samples, &candidate, &bias, &calc)
        .unwrap();

    // Max drawdown should be > 0 due to the price drop
    assert!(
        val(result.max_drawdown_pct) > 0.0,
        "Expected positive drawdown, got {}",
        val(result.max_drawdown_pct)
    );
}

#[test]
fn test_backtest_win_rate_calculation() {
    let mut samples = Vec::new();
    let base_ts = 1700000000i64;

    for i in 0..10 {
        samples.push(sample(base_ts + i * 3600, 100.0));
    }
    // Uptrend -> opens LONG
    for (i, price) in [110.0, 120.0, 130.0, 140.0, 150.0].iter().enumerate() {
        samples.push(sample(base_ts + (10 + i as i64) * 3600, *price));
    }
    // Downtrend -> closes LONG (with profit), opens SHORT
    for (i, price) in [140.0, 130.0, 120.0, 110.0, 100.0].iter().enumerate() {
        samples.push(sample(base_ts + (15 + i as i64) * 3600, *price));
    }
    // Slight uptick at end -> SHORT might lose a bit at EOF close
    samples.push(sample(base_ts + 20 * 3600, 105.0));

    let backtester = PositionBacktester::new(num(10000.0));
    let candidate = Candidate {
        buy_sell_fraction: num(1.0),
        strategy: test_strategy(),
    };

    let result = backtester
        .run_backtest(&samples, &candidate, &bias, &calc)
        .unwrap();

    // Should have at least 2 positions
    assert!(
        result.positions.len() >= 2,
        "Expected at least 2 positions, got {}",
        result.positions.len()
    );

    // Win rate should be between 0 and 1
    assert!(
        val(result.win_rate_pct) >= 0.0 && val(result.win_rate_pct) <= 1.0,
        "Win rate {} should be between 0 and 1",
        val(result.win_rate_pct)
    );
}

fn long(entry: f64, size: f64, collateral: f64) -> Position {
    Position {
        side: PositionSide::Long,
        entry_time: at(0),
        exit_time: None,
        entry_price: num(entry),
        exit_price: None,
        entry_reason: "in".to_string(),
        exit_reason: None,
        size: num(size),
        profit: None,
        return_pct: None,
        entry_collateral_gross: num(collateral),
    }
}

fn short(entry: f64, size: f64, collateral: f64) -> Position {
    Position {
        side: PositionSide::Short,
        ..long(entry, size, collateral)
    }
}

#[test]
fn sides_follow_signals() {
    assert_eq!(PositionSide::from(Signal::Buy), PositionSide::Long);
    assert_eq!(PositionSide::from(Signal::Sell), PositionSide::Short);
}

#[test]
fn liquidation_values() {
    let value = |pos: &Position, price: f64| val(position_liquidation_value(pos, num(price), &calc));
    assert_eq!(value(&long(100.0, 2.0, 200.0), 120.0), 240.0);
    assert_eq!(value(&short(100.0, 2.0, 200.0), 120.0), 160.0);
    assert_eq!(value(&short(100.0, 2.0, 200.0), 70.0), 260.0);
    assert_eq!(value(&long(100.0, 2.0, 200.0), 0.0), 0.0);
    assert_eq!(value(&short(100.0, 2.0, 200.0), -1.0), 0.0);
    assert_eq!(value(&long(100.0, 0.0, 200.0), 120.0), 0.0);
    assert!(value(&long(100.0, 2.0, 200.0), f64::NAN).is_nan());
}

#[test]
fn closing_fills_in_the_exit() {
    let closed = close_position(short(100.0, 2.0, 200.0), num(70.0), at(9), "out".to_string(), &calc);
    assert_eq!(closed.side, PositionSide::Short);
    assert_eq!(closed.exit_time, Some(at(9)));
    assert_eq!(closed.exit_price, Some(num(70.0)));
    assert_eq!(closed.exit_reason.as_ref().unwrap(), "out");
    assert_eq!(closed.entry_reason, "in");
    assert_eq!(val(closed.profit.unwrap()), 60.0);
    assert_eq!(val(closed.return_pct.unwrap()), 0.3);

    let lost = close_position(long(100.0, 2.0, 200.0), num(70.0), at(9), "out".to_string(), &calc);
    assert_eq!(val(lost.profit.unwrap()), -60.0);
    assert_eq!(val(lost.return_pct.unwrap()), -0.3);

    let free = close_position(long(100.0, 2.0, 0.0), num(110.0), at(9), "out".to_string(), &calc);
    assert_eq!(val(free.profit.unwrap()), 20.0);
    assert_eq!(val(free.return_pct.unwrap()), 0.0);
}

#[test]
fn opening_takes_the_collateral() {
    let mut cash = num(1000.0);
    let pos = open_position(
        PositionSide::Long,
        num(50.0),
        at(3),
        &mut cash,
        num(0.25),
        "go".to_string(),
        &calc,
    )
    .unwrap();
    assert_eq!(val(cash), 750.0);
    assert_eq!(val(pos.entry_collateral_gross), 250.0);
    assert_eq!(val(pos.size), 5.0);
    assert_eq!(pos.entry_reason, "go");
    assert_eq!(pos.entry_time, at(3));
    assert!(pos.exit_time.is_none() && pos.exit_price.is_none() && pos.exit_reason.is_none());
    assert!(pos.profit.is_none() && pos.return_pct.is_none());
}

#[test]
fn opening_is_refused_without_means() {
    let refused = |price: f64, cash: f64, fraction: f64| {
        let mut left = num(cash);
        let pos = open_position(
            PositionSide::Short,
            num(price),
            at(3),
            &mut left,
            num(fraction),
            "go".to_string(),
            &calc,
        );
        pos.is_none() && left == num(cash)
    };
    assert!(refused(0.0, 1000.0, 0.5));
    assert!(refused(-5.0, 1000.0, 0.5));
    assert!(refused(50.0, 0.0, 0.5));
    assert!(refused(50.0, 1000.0, 0.0));
    assert!(refused(50.0, 1000.0, -0.5));
    // The collateral, or the size, comes to nothing.
    assert!(refused(50.0, f64::MIN_POSITIVE, f64::MIN_POSITIVE));
    assert!(refused(f64::MAX, f64::MIN_POSITIVE, 1.0));
    assert!(!refused(50.0, 1000.0, 0.5));
}

#[test]
fn drawdowns() {
    let dd = |values: &[f64]| {
        let curve: Vec<(Timestamp, Number)> = values
            .iter()
            .enumerate()
            .map(|(i, v)| (at(i as i64), num(*v)))
            .collect();
        val(compute_max_drawdown(&curve, &calc))
    };
    assert_eq!(dd(&[]), 0.0);
    assert_eq!(dd(&[100.0, 120.0, 90.0, 130.0, 117.0]), 0.25);
    assert_eq!(dd(&[100.0, 110.0, 120.0]), 0.0);
    assert_eq!(dd(&[-5.0, -10.0]), 0.0);
    assert_eq!(dd(&[f64::NAN, 100.0, 50.0]), 0.0);
    assert_eq!(dd(&[100.0, f64::NAN, 50.0]), 0.5);
    assert_eq!(dd(&[100.0, -100.0]), 2.0);
}

#[test]
fn win_rates() {
    let with_profit = |profit: Option<f64>| Position {
        profit: profit.map(num),
        ..long(1.0, 1.0, 1.0)
    };
    assert_eq!(val(compute_win_rate(&[], &calc)), 0.0);
    let positions = vec![
        with_profit(Some(1.0)),
        with_profit(Some(0.0)),
        with_profit(Some(-1.0)),
        with_profit(None),
    ];
    assert_eq!(val(compute_win_rate(&positions, &calc)), 0.25);
    assert_eq!(val(compute_win_rate(&positions[..1], &calc)), 1.0);
}

#[test]
fn buying_and_holding() {
    let hold = |prices: &[f64], cash: f64| {
        let samples: Vec<Sample> = prices.iter().map(|p| sample(0, *p)).collect();
        buy_and_hold_equity(&samples, num(cash), &calc).map(val)
    };
    assert_eq!(hold(&[], 1000.0), None);
    assert_eq!(hold(&[0.0, 5.0], 1000.0), None);
    assert_eq!(hold(&[-1.0, 5.0], 1000.0), None);
    assert_eq!(hold(&[50.0, 10.0, 75.0], 1000.0), Some(1500.0));
    assert_eq!(hold(&[50.0], 1000.0), Some(1000.0));
}

/// A logger that keeps the exit reasons it is handed and fails from one count on.
struct Counting {
    seen: Mutex<Vec<String>>,
    fails_at: usize,
}

impl PositionLogger for Counting {
    fn log(&self, position: &Position) -> Result<(), String> {
        let mut seen = self.seen.lock().unwrap();
        if seen.len() == self.fails_at {
            return Err("disk full".to_string());
        }
        seen.push(position.exit_reason.clone().unwrap());
        Ok(())
    }
}

/// A series that a strategy given by candle trades on from the second candle on.
fn scripted(signals: Vec<Option<Signal>>) -> impl Fn(&[Sample], StrategyConfig) -> Option<Analysis> {
    move |samples: &[Sample], _: StrategyConfig| {
        signals[samples.len() - 1].map(|signal| Analysis {
            signal: Some(signal),
            reason: format!("at {}", samples.len() - 1),
        })
    }
}

fn short_memory(fraction: f64) -> Candidate {
    let mut strategy = test_strategy();
    strategy.sma_config = SmaConfig {
        short_window: 1,
        long_window: 1,
    };
    Candidate {
        buy_sell_fraction: num(fraction),
        strategy,
    }
}

fn hours(prices: &[f64]) -> Vec<Sample> {
    prices
        .iter()
        .enumerate()
        .map(|(i, p)| sample(i as i64 * 3600, *p))
        .collect()
}

#[test]
fn every_closed_position_is_handed_to_the_logger() {
    let samples = hours(&[100.0, 100.0, 110.0, 120.0, 100.0]);
    let signals = vec![
        Some(Signal::Buy),
        Some(Signal::Buy),
        Some(Signal::Buy),
        Some(Signal::Sell),
        None,
    ];
    let backtester = PositionBacktester::with_logger(
        num(1000.0),
        Counting {
            seen: Mutex::new(Vec::new()),
            fails_at: 9,
        },
    );
    let result = backtester
        .run_backtest(&samples, &short_memory(1.0), &scripted(signals), &calc)
        .unwrap();
    assert_eq!(result.positions.len(), 2);
    // Not traded on at the first candle, and held through the signal for the same side.
    assert_eq!(result.positions[0].entry_reason, "at 1");
    assert_eq!(result.positions[0].exit_reason.as_ref().unwrap(), "at 3");
    assert_eq!(result.positions[1].exit_reason.as_ref().unwrap(), "EOF");
    assert_eq!(val(result.positions[0].profit.unwrap()), 200.0);
    assert_eq!(val(result.positions[1].profit.unwrap()), 200.0);
    assert_eq!(val(result.final_equity), 1400.0);
    let curve: Vec<f64> = result.equity_curve.iter().map(|p| val(p.1)).collect();
    assert_eq!(curve, vec![1000.0, 1000.0, 1100.0, 1200.0, 1400.0]);
    assert_eq!(result.equity_curve[4].0, at(4 * 3600));
}

#[test]
fn an_error_of_the_logger_breaks_the_run_off() {
    let samples = hours(&[100.0, 100.0, 110.0, 120.0]);
    let signals = vec![None, Some(Signal::Buy), Some(Signal::Sell), None];
    for fails_at in 0..2 {
        let backtester = PositionBacktester::with_logger(
            num(1000.0),
            Counting {
                seen: Mutex::new(Vec::new()),
                fails_at,
            },
        );
        let result =
            backtester.run_backtest(&samples, &short_memory(1.0), &scripted(signals.clone()), &calc);
        assert_eq!(result.unwrap_err(), "disk full");
    }
}

#[test]
fn the_strategy_is_asked_from_the_long_window_on() {
    let samples = hours(&[100.0; 13]);
    let asked = RefCell::new(Vec::new());
    let analyze = |seen: &[Sample], strategy: StrategyConfig| {
        assert_eq!(strategy, test_strategy());
        asked.borrow_mut().push(seen.len());
        None
    };
    let candidate = Candidate {
        buy_sell_fraction: num(1.0),
        strategy: test_strategy(),
    };
    let result = PositionBacktester::new(num(10000.0))
        .run_backtest(&samples, &candidate, &analyze, &calc)
        .unwrap();
    assert_eq!(asked.into_inner(), vec![11, 12, 13]);
    assert!(result.positions.is_empty());
    assert_eq!(val(result.final_equity), 10000.0);
    assert_eq!(val(result.total_return_pct), 0.0);
    assert_eq!(val(result.win_rate_pct), 0.0);
}

#[test]
fn as_many_samples_as_the_window_are_not_enough() {
    let candidate = Candidate {
        buy_sell_fraction: num(1.0),
        strategy: test_strategy(),
    };
    let backtester = PositionBacktester::new(num(10000.0));
    let few = backtester.run_backtest(&hours(&[100.0; 10]), &candidate, &bias, &calc);
    assert_eq!(few.unwrap_err(), "Not enough data");
    assert!(backtester
        .run_backtest(&hours(&[100.0; 11]), &candidate, &bias, &calc)
        .is_ok());
}

#[test]
fn the_fraction_is_kept_between_nothing_and_all() {
    let samples = hours(&[100.0, 100.0, 110.0]);
    let signals = vec![None, Some(Signal::Buy), None];
    let run = |fraction: f64| {
        PositionBacktester::new(num(1000.0))
            .run_backtest(&samples, &short_memory(fraction), &scripted(signals.clone()), &calc)
            .unwrap()
    };
    assert_eq!(val(run(7.0).positions[0].entry_collateral_gross), 1000.0);
    assert!(run(-7.0).positions.is_empty());
    assert_eq!(val(run(-7.0).final_equity), 1000.0);
    assert!(run(0.0).positions.is_empty());
}

#[test]
fn without_cash_nothing_is_opened() {
    let samples = hours(&[100.0, 100.0, 110.0]);
    let signals = vec![None, Some(Signal::Buy), Some(Signal::Sell)];
    let result = PositionBacktester::new(num(-3.0))
        .run_backtest(&samples, &short_memory(1.0), &scripted(signals), &calc)
        .unwrap();
    assert!(result.positions.is_empty());
    assert_eq!(val(result.final_equity), -3.0);
}

#[test]
fn profits_add_up_to_the_final_equity() {
    let samples = hours(&[100.0, 64.0, 128.0, 64.0, 32.0, 64.0]);
    let signals = vec![
        None,
        Some(Signal::Buy),
        Some(Signal::Sell),
        Some(Signal::Buy),
        Some(Signal::Sell),
        None,
    ];
    let result = PositionBacktester::new(num(1024.0))
        .run_backtest(&samples, &short_memory(0.5), &scripted(signals), &calc)
        .unwrap();
    assert_eq!(result.positions.len(), 4);
    let total: f64 = result.positions.iter().map(|p| val(p.profit.unwrap())).sum();
    assert_eq!(val(result.final_equity), 1024.0 + total);
}

#[test]
fn a_book_records_what_the_logger_accepted() {
    let mut book = Book::new(num(100.0));
    let mut closed = long(10.0, 2.0, 20.0);
    closed.profit = Some(num(5.0));
    assert_eq!(
        book.record(closed.clone(), Err("no".to_string()), &calc),
        Err("no".to_string())
    );
    assert_eq!(val(book.cash), 100.0);
    assert!(book.closed.is_empty());
    assert_eq!(book.record(closed, Ok(()), &calc), Ok(()));
    assert_eq!(val(book.cash), 125.0);
    assert_eq!(book.closed.len(), 1);
}

#[test]
fn a_book_follows_an_analysis() {
    let mut book = Book::new(num(100.0));
    let buy = |reason: &str| {
        Some(Analysis {
            signal: Some(Signal::Buy),
            reason: reason.to_string(),
        })
    };
    let hold = Some(Analysis {
        signal: None,
        reason: "flat".to_string(),
    });
    let candle = sample(0, 10.0);
    book.follow(candle, num(0.5), None, &NoopLogger, &calc).unwrap();
    book.follow(candle, num(0.5), hold, &NoopLogger, &calc).unwrap();
    assert!(book.open.is_none());
    assert_eq!(val(book.equity(num(10.0), &calc)), 100.0);
    book.follow(candle, num(0.5), buy("one"), &NoopLogger, &calc).unwrap();
    book.follow(candle, num(0.5), buy("two"), &NoopLogger, &calc).unwrap();
    assert_eq!(book.open.as_ref().unwrap().entry_reason, "one");
    assert_eq!(val(book.cash), 50.0);
    assert_eq!(val(book.equity(num(12.0), &calc)), 110.0);
    book.settle(sample(1, 12.0), "end".to_string(), &NoopLogger, &calc).unwrap();
    assert!(book.open.is_none());
    assert_eq!(val(book.cash), 110.0);
    assert_eq!(book.closed[0].exit_reason.as_ref().unwrap(), "end");
}

#[test]
fn a_refused_position_leaves_the_book() {
    let refusing = Counting {
        seen: Mutex::new(Vec::new()),
        fails_at: 0,
    };
    let mut book = Book::new(num(100.0));
    book.open = Some(long(10.0, 2.0, 20.0));
    let sell = Some(Analysis {
        signal: Some(Signal::Sell),
        reason: "turn".to_string(),
    });
    let r = book.follow(sample(0, 12.0), num(0.5), sell, &refusing, &calc);
    assert_eq!(r, Err("disk full".to_string()));
    assert!(book.open.is_none());
    assert!(book.closed.is_empty());
    assert_eq!(val(book.cash), 100.0);
    assert_eq!(book.settle(sample(1, 12.0), "end".to_string(), &refusing, &calc), Ok(()));
}

#[test]
fn summaries_are_in_percent() {
    let samples = hours(&[100.0, 100.0, 150.0, 75.0]);
    let signals = vec![None, Some(Signal::Buy), None, None];
    let result = PositionBacktester::new(num(1000.0))
        .run_backtest(&samples, &short_memory(1.0), &scripted(signals), &calc)
        .unwrap();
    let summary = summarize(&result, &calc);
    assert_eq!(val(summary.initial_equity), 1000.0);
    assert_eq!(val(summary.final_equity), 750.0);
    assert_eq!(val(summary.total_return), -25.0);
    assert_eq!(val(summary.max_drawdown), 50.0);
    assert_eq!(summary.positions, 1);
    assert_eq!(val(summary.win_rate), 0.0);
}

#[test]
fn loggers_keep_their_path() {
    let path = std::path::PathBuf::from("logs/run.log");
    assert_eq!(NdjsonLogger::new(path.clone()).path, path);
    assert!(NoopLogger.log(&long(1.0, 1.0, 1.0)).is_ok());
}

#[test]
fn log_files_are_named_after_the_run() {
    assert_eq!(
        log_file_name("position_backtest", "2025-11-28_10:15:00"),
        "position_backtest_2025-11-28_10:15:00.log"
    );
}

#[test]
fn opening_and_closing_at_one_price_gives_the_cash_back() {
    for side in [PositionSide::Long, PositionSide::Short] {
        let mut cash = num(1024.0);
        let pos = open_position(
            side,
            num(64.0),
            at(0),
            &mut cash,
            num(0.5),
            "in".to_string(),
            &calc,
        )
        .unwrap();
        assert_eq!(val(position_liquidation_value(&pos, num(64.0), &calc)), 512.0);
        let closed = close_position(pos, num(64.0), at(3600), "out".to_string(), &calc);
        assert_eq!(closed.profit.map(val), Some(0.0));
        assert_eq!(closed.return_pct.map(val), Some(0.0));
        let mut book = Book::new(cash);
        book.record(closed, Ok(()), &calc).unwrap();
        assert_eq!(val(book.cash), 1024.0);
    }
}

#[test]
fn a_position_is_worth_what_closing_it_pays() {
    for side in [PositionSide::Long, PositionSide::Short] {
        let mut cash = num(1024.0);
        let pos = open_position(
            side,
            num(64.0),
            at(0),
            &mut cash,
            num(0.5),
            "in".to_string(),
            &calc,
        )
        .unwrap();
        let worth = val(position_liquidation_value(&pos, num(96.0), &calc));
        let closed = close_position(pos, num(96.0), at(3600), "out".to_string(), &calc);
        let collateral = val(closed.entry_collateral_gross);
        assert_eq!(worth, collateral + val(closed.profit.unwrap()));
        assert_eq!(
            worth,
            match side {
                PositionSide::Long => 768.0,
                PositionSide::Short => 256.0,
            }
        );
    }
}

#[test]
fn the_curve_ends_at_the_final_equity() {
    let samples = hours(&[100.0, 64.0, 128.0, 64.0, 32.0, 64.0]);
    let signals = vec![
        None,
        Some(Signal::Buy),
        None,
        Some(Signal::Sell),
        None,
        Some(Signal::Buy),
    ];
    let result = PositionBacktester::new(num(1024.0))
        .run_backtest(&samples, &short_memory(0.5), &scripted(signals), &calc)
        .unwrap();
    assert_eq!(
        val(result.equity_curve.last().unwrap().1),
        val(result.final_equity)
    );
}

#[test]
fn a_run_does_not_look_ahead() {
    let samples = hours(&[100.0, 110.0, 120.0, 90.0, 80.0, 95.0, 105.0]);
    let signals = vec![
        None,
        Some(Signal::Buy),
        None,
        Some(Signal::Sell),
        None,
        Some(Signal::Buy),
        Some(Signal::Sell),
    ];
    let run = |n: usize| {
        PositionBacktester::new(num(1000.0))
            .run_backtest(
                &samples[..n],
                &short_memory(0.7),
                &scripted(signals.clone()),
                &calc,
            )
            .unwrap()
    };
    let whole = run(samples.len());
    for n in 2..samples.len() {
        let part = run(n);
        assert_eq!(part.equity_curve[..], whole.equity_curve[..n]);
        assert!(part.max_drawdown_pct.le(whole.max_drawdown_pct));
        for (i, pos) in part.positions.iter().enumerate() {
            if pos.exit_reason.as_deref() != Some("EOF") {
                assert_eq!(format!("{:?}", pos), format!("{:?}", whole.positions[i]));
            }
        }
    }
}

#[test]
fn a_position_is_entered_where_the_one_before_was_left() {
    let samples = hours(&[100.0, 110.0, 120.0, 90.0, 80.0, 95.0, 105.0]);
    let signals = vec![
        None,
        Some(Signal::Buy),
        None,
        Some(Signal::Sell),
        None,
        Some(Signal::Buy),
        None,
    ];
    let positions = PositionBacktester::new(num(1000.0))
        .run_backtest(&samples, &short_memory(0.7), &scripted(signals), &calc)
        .unwrap()
        .positions;
    assert_eq!(positions.len(), 3);
    for pair in positions.windows(2) {
        assert_ne!(pair[0].side, pair[1].side);
        assert_eq!(pair[0].exit_time, Some(pair[1].entry_time));
        assert_eq!(pair[0].exit_price, Some(pair[1].entry_price));
    }
}

#[test]
fn idle_cash_stays() {
    let samples = hours(&[100.0, 110.0, 120.0, 90.0]);
    let buys = vec![Some(Signal::Buy); 4];
    for (fraction, signals) in [(0.0, buys.clone()), (-0.5, buys), (1.0, vec![None; 4])] {
        let result = PositionBacktester::new(num(1000.0))
            .run_backtest(&samples, &short_memory(fraction), &scripted(signals), &calc)
            .unwrap();
        assert!(result.positions.is_empty());
        assert!(result.equity_curve.iter().all(|point| val(point.1) == 1000.0));
        assert_eq!(val(result.final_equity), 1000.0);
        assert_eq!(val(result.total_return_pct), 0.0);
        assert_eq!(val(result.max_drawdown_pct), 0.0);
        assert_eq!(val(result.win_rate_pct), 0.0);
    }
}

#[test]
fn a_longer_curve_has_no_smaller_drawdown() {
    let curve: Vec<(Timestamp, Number)> = [100.0, 80.0, 120.0, 90.0, 60.0, 130.0]
        .iter()
        .enumerate()
        .map(|(i, x)| (at(i as i64), num(*x)))
        .collect();
    let later: Vec<(Timestamp, Number)> = curve.iter().map(|p| (at(p.0.secs + 60), p.1)).collect();
    let mut last = num(0.0);
    for n in 0..=curve.len() {
        let now = compute_max_drawdown(&curve[..n], &calc);
        assert!(last.le(now));
        assert_eq!(now, compute_max_drawdown(&later[..n], &calc));
        last = now;
    }
    assert_eq!(val(last), 0.5);
}
