//! What a backtest does at each candle and what it gives back, in terms of signals, prices, cash
//! and the values that calculations have.

use crate::backtest::account::{
    asks_for, enters, follows, gains, has_equity, is_closed_as, is_worth, moves, open_is_worth,
    opened, opens_with, settles, Account, PositionView, Scenario,
};
use crate::backtest::laws::silent_logger_never_breaks_off;
use crate::backtest::position::{
    compute_max_drawdown, compute_win_rate, equities, is_broken_off, position_views, refuses, Book,
    NoopLogger, Position, PositionBacktestResult, PositionBacktester, PositionLogger, PositionSide,
};
use crate::backtest::uniqueness::{
    agree, is_single_valued, one_drawdown, one_win_rate, options_agree, positions_agree,
    values_agree,
};
use crate::backtest::{Analysis, Candidate, Signal};
use crate::data::Sample;
use crate::number::{arithmetic_of, Arithmetic, Calc, Number};
use crate::strategy::StrategyConfig;
use crate::time::Timestamp;
use vstd::prelude::*;

verus! {

/// Settling an account leaves nothing open. What was open joins the closed positions, at their
/// end, with the candle's price and instant and the reason as its exit. Its profit is how far the
/// price rose since the entry, or fell for a short position, times the size, and its return is the
/// profit divided by the collateral. The collateral and the profit go to the cash. Where nothing
/// was open, nothing changes.
pub proof fn settling_closes_what_is_open(
    arith: Arithmetic,
    before: Account,
    candle: Sample,
    reason: Seq<char>,
    after: Account,
)
    requires
        settles(arith, before, candle, reason, after),
    ensures
        after.open is None,
        before.open is None ==> after.cash == before.cash && after.closed == before.closed,
        before.open matches Some(pos) ==> {
            let closed = after.closed[before.closed.len() as int];
            &&& after.closed.len() == before.closed.len() + 1
            &&& forall|i: int|
                0 <= i < before.closed.len() ==> after.closed[i] == #[trigger] before.closed[i]
            &&& closed.side == pos.side
            &&& closed.entry_time == pos.entry_time
            &&& closed.entry_price == pos.entry_price
            &&& closed.entry_reason == pos.entry_reason
            &&& closed.size == pos.size
            &&& closed.entry_collateral_gross == pos.entry_collateral_gross
            &&& closed.exit_time == Some(candle.ts)
            &&& closed.exit_price == Some(candle.price)
            &&& closed.exit_reason == Some(reason)
            &&& closed.profit is Some
            &&& closed.return_pct is Some
            &&& pos.side == PositionSide::Long ==> exists|rise: Number| #[trigger]
                arith(Calc::Sub(candle.price, pos.entry_price), rise) && arith(
                    Calc::Mul(rise, pos.size),
                    closed.profit->0,
                )
            &&& pos.side == PositionSide::Short ==> exists|fall: Number| #[trigger]
                arith(Calc::Sub(pos.entry_price, candle.price), fall) && arith(
                    Calc::Mul(fall, pos.size),
                    closed.profit->0,
                )
            &&& if Number::zero().lt(pos.entry_collateral_gross) {
                arith(Calc::Div(closed.profit->0, pos.entry_collateral_gross), closed.return_pct->0)
            } else {
                closed.return_pct->0 == Number::zero()
            }
            &&& exists|proceeds: Number| #[trigger]
                arith(Calc::Add(pos.entry_collateral_gross, closed.profit->0), proceeds) && arith(
                    Calc::Add(before.cash, proceeds),
                    after.cash,
                )
        },
{
    if before.open is Some {
        let pos = before.open->0;
        let closed = after.closed.last();
        assert forall|i: int| 0 <= i < before.closed.len() implies after.closed[i]
            == #[trigger] before.closed[i] by {
            assert(after.closed.drop_last()[i] == before.closed[i]);
        }
        assert(gains(arith, pos, candle.price, closed.profit->0));
        let by = choose|by: Number| #[trigger]
            moves(arith, pos, candle.price, by) && arith(Calc::Mul(by, pos.size), closed.profit->0);
        assert(moves(arith, pos, candle.price, by));
    }
}

/// Opening a position at a candle leaves what is closed alone. A position that is opened stands on
/// the side that was asked for, at the candle's price and instant and for the reason. The part of
/// the cash that was asked for is its collateral, which is taken from the cash, and its size is
/// the collateral divided by the price. None is opened, and the cash stays, only where the price,
/// the cash or the part is zero or below, or the collateral or the size comes out so.
pub proof fn entering_opens_on_the_side(
    arith: Arithmetic,
    before: Account,
    side: PositionSide,
    candle: Sample,
    part: Number,
    reason: Seq<char>,
    after: Account,
)
    requires
        enters(arith, before, side, candle, part, reason, after),
    ensures
        after.closed == before.closed,
        after.open matches Some(pos) ==> {
            &&& !candle.price.le(Number::zero())
            &&& !before.cash.le(Number::zero())
            &&& !part.le(Number::zero())
            &&& !pos.entry_collateral_gross.le(Number::zero())
            &&& !pos.size.le(Number::zero())
            &&& pos.side == side
            &&& pos.entry_time == candle.ts
            &&& pos.entry_price == candle.price
            &&& pos.entry_reason == reason
            &&& pos.exit_time is None
            &&& pos.exit_price is None
            &&& pos.exit_reason is None
            &&& pos.profit is None
            &&& pos.return_pct is None
            &&& arith(Calc::Mul(before.cash, part), pos.entry_collateral_gross)
            &&& arith(Calc::Div(pos.entry_collateral_gross, candle.price), pos.size)
            &&& arith(Calc::Sub(before.cash, pos.entry_collateral_gross), after.cash)
        },
        after.open is None ==> after.cash == before.cash,
        after.open is None && !candle.price.le(Number::zero()) && !before.cash.le(Number::zero())
            && !part.le(Number::zero()) ==> exists|collateral: Number| #[trigger]
            arith(Calc::Mul(before.cash, part), collateral) && (collateral.le(Number::zero())
                || exists|size: Number| #[trigger]
                arith(Calc::Div(collateral, candle.price), size) && size.le(Number::zero())),
{
    let zero = Number::zero();
    if !candle.price.le(zero) && !before.cash.le(zero) && !part.le(zero) {
        let collateral = choose|collateral: Number| #[trigger]
            arith(Calc::Mul(before.cash, part), collateral) && opens_with(
                arith,
                side,
                candle.price,
                candle.ts,
                before.cash,
                collateral,
                reason,
                after.cash,
                after.open,
            );
        assert(arith(Calc::Mul(before.cash, part), collateral));
        if !collateral.le(zero) {
            let size = choose|size: Number| #[trigger]
                arith(Calc::Div(collateral, candle.price), size) && if size.le(zero) {
                    after.cash == before.cash && after.open is None
                } else {
                    &&& arith(Calc::Sub(before.cash, collateral), after.cash)
                    &&& after.open == Some(
                        opened(side, candle.price, candle.ts, reason, size, collateral),
                    )
                };
            assert(arith(Calc::Div(collateral, candle.price), size));
        }
    }
}

/// Without a signal nothing changes, nor on one to buy with a long position open, nor on one to
/// sell with a short position open. On any other signal the account is settled at the candle, and
/// a position on the side of the signal is opened there, both for the reason of the analysis. It
/// does not matter how many positions have been closed.
pub proof fn following_obeys_the_signal(
    arith: Arithmetic,
    before: Account,
    candle: Sample,
    part: Number,
    analysis: Option<Analysis>,
    after: Account,
) -> (flat: Account)
    requires
        follows(arith, before, candle, part, analysis, after),
    ensures
        analysis is None ==> after == before,
        analysis is Some && analysis->0.signal is None ==> after == before,
        analysis is Some && analysis->0.signal == Some(Signal::Buy) && before.open is Some
            && before.open->0.side == PositionSide::Long ==> after == before,
        analysis is Some && analysis->0.signal == Some(Signal::Sell) && before.open is Some
            && before.open->0.side == PositionSide::Short ==> after == before,
        analysis is Some && analysis->0.signal == Some(Signal::Buy) && !(before.open is Some
            && before.open->0.side == PositionSide::Long) ==> {
            &&& settles(arith, before, candle, analysis->0.reason@, flat)
            &&& enters(
                arith,
                flat,
                PositionSide::Long,
                candle,
                part,
                analysis->0.reason@,
                after,
            )
        },
        analysis is Some && analysis->0.signal == Some(Signal::Sell) && !(before.open is Some
            && before.open->0.side == PositionSide::Short) ==> {
            &&& settles(arith, before, candle, analysis->0.reason@, flat)
            &&& enters(
                arith,
                flat,
                PositionSide::Short,
                candle,
                part,
                analysis->0.reason@,
                after,
            )
        },
{
    let side = asks_for(before, analysis)->0;
    let reason = analysis->0.reason@;
    let flat = choose|flat: Account| #[trigger]
        settles(arith, before, candle, reason, flat) && enters(
            arith,
            flat,
            side,
            candle,
            part,
            reason,
            after,
        );
    match analysis {
        Some(Analysis { signal: Some(Signal::Buy), reason: _ }) => {},
        Some(Analysis { signal: Some(Signal::Sell), reason: _ }) => {},
        _ => {},
    }
    flat
}

/// The equity of an account is its cash and what it has open is worth: nothing without a position,
/// nor at a price of zero or below, nor with a size of zero or below; else the size times the
/// price for a long position, and for a short one the collateral and how far the price fell since
/// the entry, times the size.
pub proof fn equity_is_cash_and_worth(
    arith: Arithmetic,
    account: Account,
    price: Number,
    equity: Number,
) -> (value: Number)
    requires
        has_equity(arith, account, price, equity),
    ensures
        arith(Calc::Add(account.cash, value), equity),
        account.open is None ==> value == Number::zero(),
        account.open matches Some(pos) ==> {
            if price.le(Number::zero()) || pos.size.le(Number::zero()) {
                value == Number::zero()
            } else {
                &&& pos.side == PositionSide::Long ==> arith(Calc::Mul(pos.size, price), value)
                &&& pos.side == PositionSide::Short ==> exists|fall: Number, gain: Number|
                    {
                        &&& #[trigger] arith(Calc::Sub(pos.entry_price, price), fall)
                        &&& #[trigger] arith(Calc::Mul(fall, pos.size), gain)
                        &&& arith(Calc::Add(pos.entry_collateral_gross, gain), value)
                    }
            }
        },
{
    let value = choose|value: Number| #[trigger]
        open_is_worth(arith, account.open, price, value) && arith(
            Calc::Add(account.cash, value),
            equity,
        );
    if account.open is Some {
        let pos = account.open->0;
        assert(is_worth(arith, pos, price, value));
        if !price.le(Number::zero()) && !pos.size.le(Number::zero()) && pos.side
            == PositionSide::Short {
            let gain = choose|gain: Number| #[trigger]
                gains(arith, pos, price, gain) && arith(
                    Calc::Add(pos.entry_collateral_gross, gain),
                    value,
                );
            let fall = choose|by: Number| #[trigger]
                moves(arith, pos, price, by) && arith(Calc::Mul(by, pos.size), gain);
            assert(moves(arith, pos, price, fall));
            assert(arith(Calc::Mul(fall, pos.size), gain));
        }
    }
    value
}

/// A history begins with the cash, nothing open and nothing closed. Up to the candle at which the
/// strategy is first asked, nothing changes. From there on, each candle is followed, whatever was
/// made of the samples up to and with it.
pub proof fn each_candle_is_followed(scenario: Scenario, accounts: Seq<Account>, k: int) -> (r: (
    Option<Analysis>,
    Account,
))
    requires
        scenario.is_history(accounts),
        0 <= k < accounts.len() - 1,
    ensures
        accounts[0].cash == scenario.initial_cash,
        accounts[0].open is None,
        accounts[0].closed.len() == 0,
        k < scenario.warmup ==> accounts[k + 1] == accounts[k],
        k >= scenario.warmup ==> {
            let (before, after, candle) = (accounts[k], accounts[k + 1], scenario.samples[k]);
            let (analysis, flat) = r;
            let signal = if analysis is Some {
                analysis->0.signal
            } else {
                None
            };
            let reason = analysis->0.reason@;
            &&& (scenario.advice)(scenario.samples.take(k + 1), analysis)
            &&& signal is None ==> after == before
            &&& signal == Some(Signal::Buy) ==> if before.open is Some && before.open->0.side
                == PositionSide::Long {
                after == before
            } else {
                &&& settles(scenario.arith, before, candle, reason, flat)
                &&& enters(
                    scenario.arith,
                    flat,
                    PositionSide::Long,
                    candle,
                    scenario.fraction,
                    reason,
                    after,
                )
            }
            &&& signal == Some(Signal::Sell) ==> if before.open is Some && before.open->0.side
                == PositionSide::Short {
                after == before
            } else {
                &&& settles(scenario.arith, before, candle, reason, flat)
                &&& enters(
                    scenario.arith,
                    flat,
                    PositionSide::Short,
                    candle,
                    scenario.fraction,
                    reason,
                    after,
                )
            }
        },
{
    let (before, after) = (accounts[k], accounts[k + 1]);
    let candle = scenario.samples[k];
    assert(scenario.steps(k, accounts[k], accounts[k + 1]));
    if k >= scenario.warmup {
        let analysis = choose|analysis: Option<Analysis>| #[trigger]
            scenario.advises(k, analysis) && follows(
                scenario.arith,
                before,
                candle,
                scenario.fraction,
                analysis,
                after,
            );
        let flat = following_obeys_the_signal(
            scenario.arith,
            before,
            candle,
            scenario.fraction,
            analysis,
            after,
        );
        (analysis, flat)
    } else {
        (None, before)
    }
}

/// Wherever the strategy is asked and can only give one signal, the account does not hold the
/// other side after the candle. What it held on that side is closed there, at the candle's price
/// and instant, behind all that was closed before. And where the price, the cash after that and
/// the part of it are above zero and nothing underflows, a position on the side of the signal is
/// open.
pub proof fn signals_are_obeyed(
    scenario: Scenario,
    accounts: Seq<Account>,
    k: int,
    signal: Signal,
    side: PositionSide,
)
    requires
        scenario.is_history(accounts),
        0 <= k < accounts.len() - 1,
        scenario.warmup <= k,
        forall|analysis: Option<Analysis>| #[trigger]
            (scenario.advice)(scenario.samples.take(k + 1), analysis) ==> analysis is Some
                && analysis->0.signal == Some(signal),
        signal == Signal::Buy ==> side == PositionSide::Long,
        signal == Signal::Sell ==> side == PositionSide::Short,
    ensures
        accounts[k + 1].open is Some ==> accounts[k + 1].open->0.side == side,
        accounts[k].open is Some && accounts[k].open->0.side == side ==> accounts[k + 1]
            == accounts[k],
        accounts[k].open is Some && accounts[k].open->0.side != side ==> {
            let closed = accounts[k + 1].closed[accounts[k].closed.len() as int];
            &&& accounts[k + 1].closed.len() == accounts[k].closed.len() + 1
            &&& closed.side == accounts[k].open->0.side
            &&& closed.entry_time == accounts[k].open->0.entry_time
            &&& closed.exit_time == Some(scenario.samples[k].ts)
            &&& closed.exit_price == Some(scenario.samples[k].price)
        },
        accounts[k + 1].open is None ==> {
            ||| scenario.samples[k].price.le(Number::zero())
            ||| accounts[k + 1].cash.le(Number::zero())
            ||| scenario.fraction.le(Number::zero())
            ||| exists|collateral: Number| #[trigger]
                (scenario.arith)(Calc::Mul(accounts[k + 1].cash, scenario.fraction), collateral)
                    && (collateral.le(Number::zero()) || exists|size: Number| #[trigger]
                    (scenario.arith)(Calc::Div(collateral, scenario.samples[k].price), size)
                        && size.le(Number::zero()))
        },
{
    let (analysis, flat) = each_candle_is_followed(scenario, accounts, k);
    let (before, after, candle) = (accounts[k], accounts[k + 1], scenario.samples[k]);
    if !(before.open is Some && before.open->0.side == side) {
        let reason = analysis->0.reason@;
        match signal {
            Signal::Buy => {},
            Signal::Sell => {},
        }
        settling_closes_what_is_open(scenario.arith, before, candle, reason, flat);
        entering_opens_on_the_side(
            scenario.arith,
            flat,
            side,
            candle,
            scenario.fraction,
            reason,
            after,
        );
    }
}

/// The curve has an entry for each candle that has passed, at its instant: the equity at its
/// price, of the account that the candles before it led to.
pub proof fn curve_is_of_the_accounts(
    scenario: Scenario,
    accounts: Seq<Account>,
    curve: Seq<(Timestamp, Number)>,
    k: int,
)
    requires
        scenario.is_curve(accounts, curve),
        0 <= k < curve.len(),
    ensures
        curve.len() == accounts.len() - 1,
        curve[k].0 == scenario.samples[k].ts,
        has_equity(scenario.arith, accounts[k], scenario.samples[k].price, curve[k].1),
{
}

/// A backtest is its arguments': the samples, the cash and the calculations that were handed to
/// it; the strategy is asked from the longer window on, with the samples up to and with the
/// candle, and the part of the cash is what was asked for, or the nearer of nothing and all.
pub proof fn backtests_are_of_their_arguments<
    L,
    F: Fn(Calc) -> Number,
    A: Fn(&[Sample], StrategyConfig) -> Option<Analysis>,
>(
    backtester: &PositionBacktester<L>,
    samples: Seq<Sample>,
    candidate: Candidate,
    analyze: A,
    calc: F,
    c: Calc,
    r: Number,
    seen: Seq<Sample>,
    analysis: Option<Analysis>,
)
    ensures
        ({
            let scenario = backtester.scenario(samples, candidate, analyze, calc);
            let asked = candidate.buy_sell_fraction;
            &&& scenario.samples == samples
            &&& scenario.initial_cash == backtester.spec_initial_cash()
            &&& scenario.warmup == candidate.strategy.sma_config.long_window
            &&& Number::zero().le(asked) && asked.le(Number::one()) ==> scenario.fraction == asked
            &&& asked.lt(Number::zero()) ==> scenario.fraction == Number::zero()
            &&& Number::one().lt(asked) ==> scenario.fraction == Number::one()
            &&& !asked.le(asked) ==> scenario.fraction == asked
            &&& (scenario.arith)(c, r) <==> call_ensures(calc, (c,), r)
            &&& (scenario.advice)(seen, analysis) <==> exists|handed: &[Sample]|
                handed@ == seen && #[trigger] call_ensures(
                    analyze,
                    (handed, candidate.strategy),
                    analysis,
                )
        }),
{
}

/// A result that a backtest gives back comes of a history of its accounts, one more than there are
/// samples, and of settling the last of them at the last sample. The positions are those that are
/// closed then, and the equities are of the accounts. The cash then is the final equity, and the
/// return is that equity divided by the cash it began with, less one.
pub proof fn results_come_of_histories<
    L: PositionLogger,
    F: Fn(Calc) -> Number,
    A: Fn(&[Sample], StrategyConfig) -> Option<Analysis>,
>(
    backtester: &PositionBacktester<L>,
    samples: &[Sample],
    candidate: &Candidate,
    analyze: &A,
    calc: &F,
    result: PositionBacktestResult,
) -> (r: (Seq<Account>, Account))
    requires
        call_ensures(
            PositionBacktester::<L>::run_backtest::<F, A>,
            (backtester, samples, candidate, analyze, calc),
            Ok::<PositionBacktestResult, String>(result),
        ),
    ensures
        ({
            let scenario = backtester.scenario(samples@, *candidate, analyze, calc);
            let (accounts, end) = r;
            &&& samples@.len() > candidate.strategy.sma_config.long_window
            &&& scenario.is_history(accounts)
            &&& accounts.len() == samples@.len() + 1
            &&& scenario.is_curve(accounts, result.equity_curve@)
            &&& settles(
                arithmetic_of(calc),
                accounts[samples@.len() as int],
                samples@[samples@.len() - 1],
                seq!['E', 'O', 'F'],
                end,
            )
            &&& result.positions@.len() == end.closed.len()
            &&& forall|i: int|
                0 <= i < end.closed.len() ==> (#[trigger] result.positions@[i])@ == end.closed[i]
            &&& result.initial_equity == backtester.spec_initial_cash()
            &&& result.final_equity == end.cash
            &&& exists|ratio: Number| #[trigger]
                call_ensures(
                    calc,
                    (Calc::Div(result.final_equity, result.initial_equity),),
                    ratio,
                ) && call_ensures(
                    calc,
                    (Calc::Sub(ratio, Number::one()),),
                    result.total_return_pct,
                )
        }),
{
    let scenario = backtester.scenario(samples@, *candidate, analyze, calc);
    let (accounts, end) = choose|accounts: Seq<Account>, end: Account| #[trigger]
        result.is_outcome(scenario, accounts, end);
    reveal_strlit("EOF");
    assert("EOF"@ =~= seq!['E', 'O', 'F']);
    let arith = arithmetic_of(calc);
    let ratio = choose|ratio: Number| #[trigger]
        arith(Calc::Div(result.final_equity, result.initial_equity), ratio) && arith(
            Calc::Sub(ratio, Number::one()),
            result.total_return_pct,
        );
    assert(call_ensures(
        calc,
        (Calc::Div(result.final_equity, result.initial_equity),),
        ratio,
    ));
    assert forall|i: int| 0 <= i < end.closed.len() implies (#[trigger] result.positions@[i])@
        == end.closed[i] by {
        assert(position_views(result.positions@)[i] == result.positions@[i]@);
    }
    (accounts, end)
}

/// The maximum drawdown of a result is that of its curve, and the win rate that of its positions.
pub proof fn figures_are_of_the_result<
    L: PositionLogger,
    F: Fn(Calc) -> Number,
    A: Fn(&[Sample], StrategyConfig) -> Option<Analysis>,
>(
    backtester: &PositionBacktester<L>,
    samples: &[Sample],
    candidate: &Candidate,
    analyze: &A,
    calc: &F,
    result: PositionBacktestResult,
    curve: &[(Timestamp, Number)],
    positions: &[Position],
    drawdown: Number,
    rate: Number,
)
    requires
        is_single_valued(arithmetic_of(calc)),
        call_ensures(
            PositionBacktester::<L>::run_backtest::<F, A>,
            (backtester, samples, candidate, analyze, calc),
            Ok::<PositionBacktestResult, String>(result),
        ),
        curve@ == result.equity_curve@,
        positions@ == result.positions@,
        call_ensures(compute_max_drawdown::<F>, (curve, calc), drawdown),
        call_ensures(compute_win_rate::<F>, (positions, calc), rate),
    ensures
        drawdown == result.max_drawdown_pct,
        agree(rate, result.win_rate_pct),
{
    let arith = arithmetic_of(calc);
    assert(values_agree(equities(curve@), equities(result.equity_curve@)));
    one_drawdown(arith, curve@, result.equity_curve@, drawdown, result.max_drawdown_pct);
    let views = position_views(result.positions@);
    assert forall|i: int| 0 <= i < views.len() implies positions_agree(
        #[trigger] views[i],
        views[i],
    ) by {
        assert(options_agree(views[i].profit, views[i].profit));
        assert(options_agree(views[i].return_pct, views[i].return_pct));
    }
    one_win_rate(arith, views, views, rate, result.win_rate_pct);
}

/// With no more samples than the longer window, the backtest is refused for want of data. With
/// more, and a logger that does nothing, there is always a result. It begins with the cash that
/// the backtester was made with.
pub proof fn enough_samples_make_a_result<
    F: Fn(Calc) -> Number,
    A: Fn(&[Sample], StrategyConfig) -> Option<Analysis>,
>(
    cash: Number,
    backtester: &PositionBacktester<NoopLogger>,
    samples: &[Sample],
    candidate: &Candidate,
    analyze: &A,
    calc: &F,
    r: Result<PositionBacktestResult, String>,
)
    requires
        call_ensures(PositionBacktester::<NoopLogger>::new, (cash,), *backtester),
        call_ensures(
            PositionBacktester::<NoopLogger>::run_backtest::<F, A>,
            (backtester, samples, candidate, analyze, calc),
            r,
        ),
    ensures
        r is Ok <==> samples@.len() > candidate.strategy.sma_config.long_window,
        r is Ok ==> r->Ok_0.initial_equity == cash,
        r is Err ==> r->Err_0@ == "Not enough data"@,
{
    if r is Err && samples@.len() > candidate.strategy.sma_config.long_window {
        let scenario = backtester.scenario(samples@, *candidate, analyze, calc);
        silent_logger_never_breaks_off(scenario, r->Err_0);
    }
}

/// With any logger too, the backtest is refused for want of data just where there are no more
/// samples than the longer window, and a result begins with the cash that was given.
pub proof fn too_few_samples_make_none<
    L: PositionLogger,
    F: Fn(Calc) -> Number,
    A: Fn(&[Sample], StrategyConfig) -> Option<Analysis>,
>(
    cash: Number,
    logger: L,
    backtester: &PositionBacktester<L>,
    samples: &[Sample],
    candidate: &Candidate,
    analyze: &A,
    calc: &F,
    r: Result<PositionBacktestResult, String>,
)
    requires
        call_ensures(PositionBacktester::<L>::with_logger, (cash, logger), *backtester),
        call_ensures(
            PositionBacktester::<L>::run_backtest::<F, A>,
            (backtester, samples, candidate, analyze, calc),
            r,
        ),
    ensures
        backtester.spec_logger() == logger,
        samples@.len() <= candidate.strategy.sma_config.long_window ==> r is Err && r->Err_0@
            == "Not enough data"@,
        r is Ok ==> r->Ok_0.initial_equity == cash,
{
}

/// Each position of a result is one that the logger may have taken note of, and an error other
/// than the want of data is one that the logger may answer with to a closed position.
pub proof fn loggers_are_heeded<
    L: PositionLogger,
    F: Fn(Calc) -> Number,
    A: Fn(&[Sample], StrategyConfig) -> Option<Analysis>,
>(
    backtester: &PositionBacktester<L>,
    samples: &[Sample],
    candidate: &Candidate,
    analyze: &A,
    calc: &F,
    r: Result<PositionBacktestResult, String>,
    i: int,
)
    requires
        call_ensures(
            PositionBacktester::<L>::run_backtest::<F, A>,
            (backtester, samples, candidate, analyze, calc),
            r,
        ),
    ensures
        r matches Ok(result) ==> (0 <= i < result.positions@.len()
            ==> backtester.spec_logger().may_answer(result.positions@[i]@, Ok::<(), String>(()))),
        r is Err && samples@.len() > candidate.strategy.sma_config.long_window ==> exists|
            closed: PositionView,
        | #[trigger]
            backtester.spec_logger().may_answer(closed, Err::<(), String>(r->Err_0))
                && closed.exit_time is Some && closed.profit is Some,
{
    match r {
        Ok(result) => {
            let views = position_views(result.positions@);
            if 0 <= i < views.len() {
                assert(views[i] == result.positions@[i]@);
            }
        },
        Err(error) => {
            if samples@.len() > candidate.strategy.sma_config.long_window {
                let arith = arithmetic_of(calc);
                let logger = backtester.spec_logger();
                let scenario = backtester.scenario(samples@, *candidate, analyze, calc);
                let accounts = choose|accounts: Seq<Account>| #[trigger]
                    is_broken_off(&logger, scenario, accounts, error);
                let k = accounts.len() - 1;
                let pos = accounts.last().open->0;
                let (candle, reason) = if k < samples@.len() {
                    let analysis = choose|analysis: Option<Analysis>| #[trigger]
                        scenario.advises(k, analysis) && asks_for(accounts.last(), analysis) is Some
                            && refuses(
                            &logger,
                            arith,
                            accounts.last(),
                            samples@[k],
                            analysis->0.reason@,
                            error,
                        );
                    (samples@[k], analysis->0.reason@)
                } else {
                    (samples@.last(), "EOF"@)
                };
                assert(refuses(&logger, arith, accounts.last(), candle, reason, error));
                let closed = choose|closed: PositionView| #[trigger]
                    is_closed_as(arith, pos, candle.price, candle.ts, reason, closed)
                        && logger.may_answer(closed, Err::<(), String>(error));
                assert(backtester.spec_logger().may_answer(closed, Err::<(), String>(r->Err_0)));
            }
        },
    }
}

/// A book begins with its cash and nothing else.
pub proof fn books_begin_with_cash(cash: Number, book: Book)
    requires
        call_ensures(Book::new, (cash,), book),
    ensures
        book.cash == cash,
        book.open is None,
        book.closed@.len() == 0,
{
    assert(book@.closed.len() == 0);
}

/// A book is seen as an account with its cash, its open position and its closed positions, and a
/// position as what it is, with its reasons as characters.
pub proof fn books_are_accounts(book: &Book, i: int)
    ensures
        book@.cash == book.cash,
        book@.open is Some <==> book.open is Some,
        book.open is Some ==> book@.open->0 == book.open->0@,
        book@.closed.len() == book.closed@.len(),
        0 <= i < book.closed@.len() ==> ({
            let (pos, seen) = (book.closed@[i], book@.closed[i]);
            &&& seen == pos@
            &&& seen.side == pos.side
            &&& seen.entry_time == pos.entry_time
            &&& seen.exit_time == pos.exit_time
            &&& seen.entry_price == pos.entry_price
            &&& seen.exit_price == pos.exit_price
            &&& seen.entry_reason == pos.entry_reason@
            &&& seen.exit_reason is Some <==> pos.exit_reason is Some
            &&& pos.exit_reason is Some ==> seen.exit_reason->0 == pos.exit_reason->0@
            &&& seen.size == pos.size
            &&& seen.profit == pos.profit
            &&& seen.return_pct == pos.return_pct
            &&& seen.entry_collateral_gross == pos.entry_collateral_gross
        }),
{
}

/// The equity of a book is that of its account.
pub proof fn books_have_the_equity<F: Fn(Calc) -> Number>(
    book: &Book,
    price: Number,
    calc: &F,
    equity: Number,
) -> (value: Number)
    requires
        call_ensures(Book::equity::<F>, (book, price, calc), equity),
    ensures
        call_ensures(calc, (Calc::Add(book.cash, value),), equity),
        book.open is None ==> value == Number::zero(),
        book.open matches Some(pos) ==> {
            if price.le(Number::zero()) || pos.size.le(Number::zero()) {
                value == Number::zero()
            } else {
                &&& pos.side == PositionSide::Long ==> call_ensures(
                    calc,
                    (Calc::Mul(pos.size, price),),
                    value,
                )
                &&& pos.side == PositionSide::Short ==> exists|fall: Number, gain: Number|
                    {
                        &&& #[trigger] call_ensures(
                            calc,
                            (Calc::Sub(pos.entry_price, price),),
                            fall,
                        )
                        &&& #[trigger] call_ensures(calc, (Calc::Mul(fall, pos.size),), gain)
                        &&& call_ensures(
                            calc,
                            (Calc::Add(pos.entry_collateral_gross, gain),),
                            value,
                        )
                    }
            }
        },
{
    let arith = arithmetic_of(calc);
    let value = equity_is_cash_and_worth(arith, book@, price, equity);
    if book.open is Some {
        let pos = book.open->0;
        if !price.le(Number::zero()) && !pos.size.le(Number::zero()) && pos.side
            == PositionSide::Short {
            let (fall, gain) = choose|fall: Number, gain: Number|
                {
                    &&& #[trigger] arith(Calc::Sub(pos.entry_price, price), fall)
                    &&& #[trigger] arith(Calc::Mul(fall, pos.size), gain)
                    &&& arith(Calc::Add(pos.entry_collateral_gross, gain), value)
                };
            assert(call_ensures(calc, (Calc::Sub(pos.entry_price, price),), fall));
            assert(call_ensures(calc, (Calc::Mul(fall, pos.size),), gain));
        }
    }
    value
}

/// A closed position that the logger took note of joins the closed ones of a book, at their end,
/// and its collateral and profit go to the cash; what is open stays. One that the logger refused
/// changes nothing, and the logger's answer comes back either way.
pub proof fn books_record_what_was_noted<F: Fn(Calc) -> Number>(
    book: &mut Book,
    closed: Position,
    answer: Result<(), String>,
    calc: &F,
    r: Result<(), String>,
)
    requires
        call_ensures(Book::record::<F>, (book, closed, answer, calc), r),
    ensures
        r == answer,
        final(book)@.open == old(book)@.open,
        answer is Err ==> final(book)@ == old(book)@,
        answer is Ok ==> {
            &&& final(book)@.closed == old(book)@.closed.push(closed@)
            &&& exists|proceeds: Number| #[trigger]
                call_ensures(
                    calc,
                    (Calc::Add(closed.entry_collateral_gross, closed.profit->0),),
                    proceeds,
                ) && call_ensures(calc, (Calc::Add(old(book).cash, proceeds),), final(book).cash)
        },
{
    if answer is Ok {
        let arith = arithmetic_of(calc);
        let (before, after) = (old(book)@.cash, final(book)@.cash);
        let proceeds = choose|proceeds: Number| #[trigger]
            arith(Calc::Add(closed@.entry_collateral_gross, closed@.profit->0), proceeds) && arith(
                Calc::Add(before, proceeds),
                after,
            );
        assert(call_ensures(
            calc,
            (Calc::Add(closed.entry_collateral_gross, closed.profit->0),),
            proceeds,
        ));
    }
}

/// Settling a book settles its account, unless the logger refuses: then what was open is dropped
/// and all else stays. With nothing open there is nothing to refuse. Either way the logger was
/// asked: it may have taken note of what was closed, and an error is one that it may answer.
pub proof fn books_settle<F: Fn(Calc) -> Number, L: PositionLogger>(
    book: &mut Book,
    candle: Sample,
    reason: String,
    logger: &L,
    calc: &F,
    r: Result<(), String>,
)
    requires
        call_ensures(Book::settle::<F, L>, (book, candle, reason, logger, calc), r),
    ensures
        r is Ok ==> settles(arithmetic_of(calc), old(book)@, candle, reason@, final(book)@),
        r is Ok && old(book).open is Some ==> logger.may_answer(
            final(book)@.closed[old(book).closed@.len() as int],
            Ok::<(), String>(()),
        ),
        r is Err ==> {
            &&& old(book).open is Some
            &&& final(book).open is None
            &&& final(book).cash == old(book).cash
            &&& final(book)@.closed == old(book)@.closed
            &&& exists|closed: PositionView|
                {
                    &&& #[trigger] logger.may_answer(closed, r)
                    &&& closed.side == old(book).open->0.side
                    &&& closed.exit_time == Some(candle.ts)
                    &&& closed.exit_price == Some(candle.price)
                    &&& closed.exit_reason == Some(reason@)
                }
        },
{
    let arith = arithmetic_of(calc);
    if r is Err {
        let pos = old(book)@.open->0;
        let closed = choose|closed: PositionView| #[trigger]
            is_closed_as(arith, pos, candle.price, candle.ts, reason@, closed)
                && logger.may_answer(closed, Err::<(), String>(r->Err_0));
        assert(logger.may_answer(closed, r));
    }
}

/// A book without a signal stays as it is, and so does one with a signal for the side that it
/// holds. On any other signal its account is settled and a position on the side of the signal is
/// opened, unless the logger refuses.
pub proof fn books_obey_signals<F: Fn(Calc) -> Number, L: PositionLogger>(
    book: &mut Book,
    candle: Sample,
    part: Number,
    analysis: Option<Analysis>,
    logger: &L,
    calc: &F,
    r: Result<(), String>,
)
    requires
        call_ensures(Book::follow::<F, L>, (book, candle, part, analysis, logger, calc), r),
    ensures
        ({
            let arith = arithmetic_of(calc);
            let signal = if analysis is Some {
                analysis->0.signal
            } else {
                None
            };
            let reason = analysis->0.reason@;
            let held = if old(book).open is Some {
                Some(old(book).open->0.side)
            } else {
                None
            };
            let stays = signal is None || (signal == Some(Signal::Buy) && held == Some(
                PositionSide::Long,
            )) || (signal == Some(Signal::Sell) && held == Some(PositionSide::Short));
            &&& stays ==> r is Ok && final(book)@ == old(book)@
            &&& r is Ok && signal == Some(Signal::Buy) && !stays ==> exists|flat: Account| #[trigger]
                settles(arith, old(book)@, candle, reason, flat) && enters(
                    arith,
                    flat,
                    PositionSide::Long,
                    candle,
                    part,
                    reason,
                    final(book)@,
                )
            &&& r is Ok && signal == Some(Signal::Sell) && !stays ==> exists|flat: Account| #[trigger]
                settles(arith, old(book)@, candle, reason, flat) && enters(
                    arith,
                    flat,
                    PositionSide::Short,
                    candle,
                    part,
                    reason,
                    final(book)@,
                )
            &&& r is Err ==> {
                &&& held is Some
                &&& final(book).open is None
                &&& final(book).cash == old(book).cash
                &&& final(book)@.closed == old(book)@.closed
            }
        }),
{
    if r is Ok {
        let flat = following_obeys_the_signal(
            arithmetic_of(calc),
            old(book)@,
            candle,
            part,
            analysis,
            final(book)@,
        );
    }
    match analysis {
        Some(Analysis { signal: Some(Signal::Buy), reason: _ }) => {},
        Some(Analysis { signal: Some(Signal::Sell), reason: _ }) => {},
        _ => {},
    }
}

} // verus!
