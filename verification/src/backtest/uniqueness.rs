//! A backtest has one outcome, where each calculation has one value and the strategy makes one
//! thing of the same samples, and what comes of the first samples does not depend on the rest.
//!
//! Which bits stand for a value that is not a number is left open by binary64 arithmetic. Two
//! such values are taken to agree, whatever their bits.

use crate::backtest::account::{
    asks_for, enters, follows, gains, has_equity, is_closed_as, is_credited, is_deepest, is_fall_at,
    is_max_drawdown, is_relative_fall, is_total_return, is_win, is_win_rate, is_worth, moves,
    open_is_worth, opens_with, peak, settles, settling_keeps_closed, wins, Account, PositionView,
    Scenario,
};
use crate::backtest::laws::{closed_positions_stay, has_no_stake};
use crate::backtest::position::{
    equities, position_views, PositionBacktestResult, PositionBacktester, PositionSide,
};
use crate::backtest::{Analysis, Candidate};
use crate::data::Sample;
use crate::number::{arithmetic_of, Arithmetic, Calc, Number};
use crate::strategy::StrategyConfig;
use crate::time::Timestamp;
use vstd::prelude::*;

verus! {

/// Whether two values are the same number, or neither is one.
pub open spec fn agree(a: Number, b: Number) -> bool {
    a == b || (a.is_nan() && b.is_nan())
}

/// Whether two calculations are the same, on values that agree.
pub open spec fn calcs_agree(c: Calc, d: Calc) -> bool {
    match (c, d) {
        (Calc::Add(a, b), Calc::Add(x, y)) => agree(a, x) && agree(b, y),
        (Calc::Sub(a, b), Calc::Sub(x, y)) => agree(a, x) && agree(b, y),
        (Calc::Mul(a, b), Calc::Mul(x, y)) => agree(a, x) && agree(b, y),
        (Calc::Div(a, b), Calc::Div(x, y)) => agree(a, x) && agree(b, y),
        (Calc::Count(m), Calc::Count(n)) => m == n,
        _ => false,
    }
}

/// Whether each calculation has at most one value, up to the bits of one that is not a number,
/// and whatever the bits of those that went into it: as in binary64 arithmetic.
pub open spec fn is_single_valued(arith: Arithmetic) -> bool {
    forall|c: Calc, d: Calc, r: Number, s: Number| #[trigger]
        arith(c, r) && #[trigger] arith(d, s) && calcs_agree(c, d) ==> agree(r, s)
}

/// Whether the strategy makes at most one thing of the samples at each candle.
pub open spec fn is_single_minded(scenario: Scenario) -> bool {
    forall|k: int, a: Option<Analysis>, b: Option<Analysis>| #[trigger]
        scenario.advises(k, a) && #[trigger] scenario.advises(k, b) ==> a == b
}

/// Whether both values are there and agree, or neither is there.
pub open spec fn options_agree(a: Option<Number>, b: Option<Number>) -> bool {
    match (a, b) {
        (Some(a), Some(b)) => agree(a, b),
        (None, None) => true,
        _ => false,
    }
}

/// Whether two positions are the same but for the bits of values that are not numbers.
pub open spec fn positions_agree(a: PositionView, b: PositionView) -> bool {
    &&& agree(a.size, b.size)
    &&& options_agree(a.profit, b.profit)
    &&& options_agree(a.return_pct, b.return_pct)
    &&& agree(a.entry_collateral_gross, b.entry_collateral_gross)
    &&& b == PositionView {
        size: b.size,
        profit: b.profit,
        return_pct: b.return_pct,
        entry_collateral_gross: b.entry_collateral_gross,
        ..a
    }
}

/// Whether two series of positions agree, each position with the one in its place.
pub open spec fn all_positions_agree(a: Seq<PositionView>, b: Seq<PositionView>) -> bool {
    &&& a.len() == b.len()
    &&& forall|i: int|
        #![trigger a[i]]
        #![trigger b[i]]
        0 <= i < a.len() ==> positions_agree(a[i], b[i])
}

/// Whether the same is open in two accounts.
pub open spec fn opens_agree(a: Option<PositionView>, b: Option<PositionView>) -> bool {
    match (a, b) {
        (Some(a), Some(b)) => positions_agree(a, b),
        (None, None) => true,
        _ => false,
    }
}

/// Whether two accounts are the same but for the bits of values that are not numbers.
pub open spec fn accounts_agree(a: Account, b: Account) -> bool {
    &&& agree(a.cash, b.cash)
    &&& opens_agree(a.open, b.open)
    &&& all_positions_agree(a.closed, b.closed)
}

/// Whether two series of values agree, each value with the one in its place.
pub open spec fn values_agree(a: Seq<Number>, b: Seq<Number>) -> bool {
    &&& a.len() == b.len()
    &&& forall|k: int|
        #![trigger a[k]]
        #![trigger b[k]]
        0 <= k < a.len() ==> agree(a[k], b[k])
}

/// Whether two curves stand at the same instants, with values that agree.
pub open spec fn curves_agree(a: Seq<(Timestamp, Number)>, b: Seq<(Timestamp, Number)>) -> bool {
    &&& a.len() == b.len()
    &&& forall|k: int|
        #![trigger a[k]]
        #![trigger b[k]]
        0 <= k < a.len() ==> a[k].0 == b[k].0 && agree(a[k].1, b[k].1)
}

/// Whether two results have the same positions, curve and figures, but for the bits of values
/// that are not numbers.
pub open spec fn results_agree(a: PositionBacktestResult, b: PositionBacktestResult) -> bool {
    &&& a.initial_equity == b.initial_equity
    &&& all_positions_agree(position_views(a.positions@), position_views(b.positions@))
    &&& curves_agree(a.equity_curve@, b.equity_curve@)
    &&& agree(a.final_equity, b.final_equity)
    &&& agree(a.total_return_pct, b.total_return_pct)
    &&& a.max_drawdown_pct == b.max_drawdown_pct
    &&& agree(a.win_rate_pct, b.win_rate_pct)
}

proof fn one_gain(
    arith: Arithmetic,
    p: PositionView,
    q: PositionView,
    price: Number,
    a: Number,
    b: Number,
)
    requires
        is_single_valued(arith),
        positions_agree(p, q),
        gains(arith, p, price, a),
        gains(arith, q, price, b),
    ensures
        agree(a, b),
{
    let x = choose|by: Number| #[trigger]
        moves(arith, p, price, by) && arith(Calc::Mul(by, p.size), a);
    let y = choose|by: Number| #[trigger]
        moves(arith, q, price, by) && arith(Calc::Mul(by, q.size), b);
    assert(agree(x, y));
    assert(calcs_agree(Calc::Mul(x, p.size), Calc::Mul(y, q.size)));
}

proof fn one_worth(
    arith: Arithmetic,
    p: PositionView,
    q: PositionView,
    price: Number,
    a: Number,
    b: Number,
)
    requires
        is_single_valued(arith),
        positions_agree(p, q),
        is_worth(arith, p, price, a),
        is_worth(arith, q, price, b),
    ensures
        agree(a, b),
{
    if !(price.le(Number::zero()) || p.size.le(Number::zero())) {
        match p.side {
            PositionSide::Long => {
                assert(calcs_agree(Calc::Mul(p.size, price), Calc::Mul(q.size, price)));
            },
            PositionSide::Short => {
                let x = choose|gain: Number| #[trigger]
                    gains(arith, p, price, gain) && arith(
                        Calc::Add(p.entry_collateral_gross, gain),
                        a,
                    );
                let y = choose|gain: Number| #[trigger]
                    gains(arith, q, price, gain) && arith(
                        Calc::Add(q.entry_collateral_gross, gain),
                        b,
                    );
                one_gain(arith, p, q, price, x, y);
                assert(calcs_agree(
                    Calc::Add(p.entry_collateral_gross, x),
                    Calc::Add(q.entry_collateral_gross, y),
                ));
            },
        }
    }
}

proof fn one_equity(
    arith: Arithmetic,
    x: Account,
    y: Account,
    price: Number,
    a: Number,
    b: Number,
)
    requires
        is_single_valued(arith),
        accounts_agree(x, y),
        has_equity(arith, x, price, a),
        has_equity(arith, y, price, b),
    ensures
        agree(a, b),
{
    let v = choose|value: Number| #[trigger]
        open_is_worth(arith, x.open, price, value) && arith(Calc::Add(x.cash, value), a);
    let w = choose|value: Number| #[trigger]
        open_is_worth(arith, y.open, price, value) && arith(Calc::Add(y.cash, value), b);
    if x.open is Some {
        one_worth(arith, x.open->0, y.open->0, price, v, w);
    }
    assert(calcs_agree(Calc::Add(x.cash, v), Calc::Add(y.cash, w)));
}

proof fn one_close(
    arith: Arithmetic,
    p: PositionView,
    q: PositionView,
    candle: Sample,
    reason: Seq<char>,
    a: PositionView,
    b: PositionView,
)
    requires
        is_single_valued(arith),
        positions_agree(p, q),
        is_closed_as(arith, p, candle.price, candle.ts, reason, a),
        is_closed_as(arith, q, candle.price, candle.ts, reason, b),
    ensures
        positions_agree(a, b),
{
    one_gain(arith, p, q, candle.price, a.profit->0, b.profit->0);
    assert(calcs_agree(
        Calc::Div(a.profit->0, p.entry_collateral_gross),
        Calc::Div(b.profit->0, q.entry_collateral_gross),
    ));
    assert(agree(a.return_pct->0, b.return_pct->0));
}

proof fn one_credit(
    arith: Arithmetic,
    x: Number,
    y: Number,
    p: PositionView,
    q: PositionView,
    a: Number,
    b: Number,
)
    requires
        is_single_valued(arith),
        agree(x, y),
        positions_agree(p, q),
        is_credited(arith, x, p, a),
        is_credited(arith, y, q, b),
    ensures
        agree(a, b),
{
    let v = choose|proceeds: Number| #[trigger]
        arith(Calc::Add(p.entry_collateral_gross, p.profit->0), proceeds) && arith(
            Calc::Add(x, proceeds),
            a,
        );
    let w = choose|proceeds: Number| #[trigger]
        arith(Calc::Add(q.entry_collateral_gross, q.profit->0), proceeds) && arith(
            Calc::Add(y, proceeds),
            b,
        );
    assert(calcs_agree(
        Calc::Add(p.entry_collateral_gross, p.profit->0),
        Calc::Add(q.entry_collateral_gross, q.profit->0),
    ));
    assert(agree(v, w));
    assert(calcs_agree(Calc::Add(x, v), Calc::Add(y, w)));
}

proof fn one_settlement(
    arith: Arithmetic,
    x: Account,
    y: Account,
    candle: Sample,
    reason: Seq<char>,
    a: Account,
    b: Account,
)
    requires
        is_single_valued(arith),
        accounts_agree(x, y),
        settles(arith, x, candle, reason, a),
        settles(arith, y, candle, reason, b),
    ensures
        accounts_agree(a, b),
{
    if x.open is Some {
        let (p, q) = (a.closed.last(), b.closed.last());
        one_close(arith, x.open->0, y.open->0, candle, reason, p, q);
        one_credit(arith, x.cash, y.cash, p, q, a.cash, b.cash);
        assert forall|i: int| 0 <= i < a.closed.len() implies positions_agree(
            #[trigger] a.closed[i],
            b.closed[i],
        ) by {
            if i < x.closed.len() {
                assert(a.closed.drop_last()[i] == x.closed[i]);
                assert(b.closed.drop_last()[i] == y.closed[i]);
            }
        }
    }
}

proof fn one_entry(
    arith: Arithmetic,
    x: Account,
    y: Account,
    side: PositionSide,
    candle: Sample,
    fraction: Number,
    reason: Seq<char>,
    a: Account,
    b: Account,
)
    requires
        is_single_valued(arith),
        accounts_agree(x, y),
        enters(arith, x, side, candle, fraction, reason, a),
        enters(arith, y, side, candle, fraction, reason, b),
    ensures
        accounts_agree(a, b),
{
    let (price, zero) = (candle.price, Number::zero());
    if !(price.le(zero) || x.cash.le(zero) || fraction.le(zero)) {
        let ts = candle.ts;
        let c = choose|collateral: Number| #[trigger]
            arith(Calc::Mul(x.cash, fraction), collateral) && opens_with(
                arith,
                side,
                price,
                ts,
                x.cash,
                collateral,
                reason,
                a.cash,
                a.open,
            );
        let d = choose|collateral: Number| #[trigger]
            arith(Calc::Mul(y.cash, fraction), collateral) && opens_with(
                arith,
                side,
                price,
                ts,
                y.cash,
                collateral,
                reason,
                b.cash,
                b.open,
            );
        assert(calcs_agree(Calc::Mul(x.cash, fraction), Calc::Mul(y.cash, fraction)));
        assert(agree(c, d));
        assert(calcs_agree(Calc::Div(c, price), Calc::Div(d, price)));
        assert(calcs_agree(Calc::Sub(x.cash, c), Calc::Sub(y.cash, d)));
    }
}

proof fn one_step(scenario: Scenario, k: int, x: Account, y: Account, a: Account, b: Account)
    requires
        is_single_valued(scenario.arith),
        is_single_minded(scenario),
        accounts_agree(x, y),
        scenario.steps(k, x, a),
        scenario.steps(k, y, b),
    ensures
        accounts_agree(a, b),
{
    if k >= scenario.warmup {
        let arith = scenario.arith;
        let candle = scenario.samples[k];
        let fraction = scenario.fraction;
        let v = choose|analysis: Option<Analysis>| #[trigger]
            scenario.advises(k, analysis) && follows(arith, x, candle, fraction, analysis, a);
        let w = choose|analysis: Option<Analysis>| #[trigger]
            scenario.advises(k, analysis) && follows(arith, y, candle, fraction, analysis, b);
        assert(v == w);
        assert(asks_for(x, v) == asks_for(y, v));
        if asks_for(x, v) is Some {
            let side = asks_for(x, v)->0;
            let reason = v->0.reason@;
            let f = choose|flat: Account| #[trigger]
                settles(arith, x, candle, reason, flat) && enters(
                    arith,
                    flat,
                    side,
                    candle,
                    fraction,
                    reason,
                    a,
                );
            let g = choose|flat: Account| #[trigger]
                settles(arith, y, candle, reason, flat) && enters(
                    arith,
                    flat,
                    side,
                    candle,
                    fraction,
                    reason,
                    b,
                );
            one_settlement(arith, x, y, candle, reason, f, g);
            one_entry(arith, f, g, side, candle, fraction, reason, a, b);
        }
    }
}

/// Two histories of the same backtest lead through the same accounts.
pub proof fn histories_agree(scenario: Scenario, a: Seq<Account>, b: Seq<Account>, k: int)
    requires
        is_single_valued(scenario.arith),
        is_single_minded(scenario),
        scenario.is_history(a),
        scenario.is_history(b),
        0 <= k < a.len(),
        k < b.len(),
    ensures
        accounts_agree(a[k], b[k]),
    decreases k,
{
    if k > 0 {
        histories_agree(scenario, a, b, k - 1);
        assert(scenario.steps(k - 1, a[k - 1], a[k - 1 + 1]));
        assert(scenario.steps(k - 1, b[k - 1], b[k - 1 + 1]));
        one_step(scenario, k - 1, a[k - 1], b[k - 1], a[k], b[k]);
    }
}

proof fn peaks_agree(a: Seq<Number>, b: Seq<Number>, k: int)
    requires
        values_agree(a, b),
        0 <= k < a.len(),
    ensures
        agree(peak(a, k), peak(b, k)),
    decreases k,
{
    assert(agree(a[k], b[k]));
    if k > 0 {
        peaks_agree(a, b, k - 1);
    }
}

proof fn one_fall(
    arith: Arithmetic,
    a: Seq<Number>,
    b: Seq<Number>,
    k: int,
    x: Number,
    y: Number,
)
    requires
        is_single_valued(arith),
        values_agree(a, b),
        0 <= k < a.len(),
        is_fall_at(arith, a, k, x),
        is_fall_at(arith, b, k, y),
    ensures
        agree(x, y),
{
    peaks_agree(a, b, k);
    let (p, q) = (peak(a, k), peak(b, k));
    if Number::zero().lt(p) {
        assert(is_relative_fall(arith, p, a[k], x));
        assert(is_relative_fall(arith, q, b[k], y));
        let v = choose|below: Number| #[trigger]
            arith(Calc::Sub(p, a[k]), below) && arith(Calc::Div(below, p), x);
        let w = choose|below: Number| #[trigger]
            arith(Calc::Sub(q, b[k]), below) && arith(Calc::Div(below, q), y);
        assert(calcs_agree(Calc::Sub(p, a[k]), Calc::Sub(q, b[k])));
        assert(agree(v, w));
        assert(calcs_agree(Calc::Div(v, p), Calc::Div(w, q)));
    }
}

proof fn peak_of_first(values: Seq<Number>, n: int, k: int)
    requires
        0 <= k < n <= values.len(),
    ensures
        peak(values.take(n), k) == peak(values, k),
    decreases k,
{
    if k > 0 {
        peak_of_first(values, n, k - 1);
    }
}

/// A curve that goes on has no smaller maximum drawdown than it had before.
pub proof fn drawdown_never_shrinks(
    arith: Arithmetic,
    values: Seq<Number>,
    n: int,
    before: Number,
    after: Number,
)
    requires
        is_single_valued(arith),
        0 <= n <= values.len(),
        is_max_drawdown(arith, values.take(n), before),
        is_max_drawdown(arith, values, after),
    ensures
        before.le(after),
{
    let first = values.take(n);
    let f = choose|falls: Seq<Number>|
        {
            &&& falls.len() == first.len()
            &&& forall|k: int|
                0 <= k < first.len() ==> is_fall_at(arith, first, k, #[trigger] falls[k])
            &&& #[trigger] is_deepest(falls, before)
        };
    let g = choose|falls: Seq<Number>|
        {
            &&& falls.len() == values.len()
            &&& forall|k: int|
                0 <= k < values.len() ==> is_fall_at(arith, values, k, #[trigger] falls[k])
            &&& #[trigger] is_deepest(falls, after)
        };
    if f.contains(before) && Number::zero().lt(before) {
        let k = choose|k: int| 0 <= k < f.len() && f[k] == before;
        peak_of_first(values, n, k);
        assert(first[k] == values[k]);
        assert(is_fall_at(arith, first, k, f[k]));
        assert(is_fall_at(arith, values, k, f[k]));
        assert(is_fall_at(arith, values, k, g[k]));
        one_fall(arith, values, values, k, f[k], g[k]);
        assert(!after.lt(g[k]));
    }
}

proof fn drawdown_of_agreeing(
    arith: Arithmetic,
    a: Seq<Number>,
    b: Seq<Number>,
    x: Number,
    y: Number,
)
    requires
        is_single_valued(arith),
        values_agree(a, b),
        is_max_drawdown(arith, a, x),
        is_max_drawdown(arith, b, y),
    ensures
        x.le(y),
{
    let f = choose|falls: Seq<Number>|
        {
            &&& falls.len() == a.len()
            &&& forall|k: int| 0 <= k < a.len() ==> is_fall_at(arith, a, k, #[trigger] falls[k])
            &&& #[trigger] is_deepest(falls, x)
        };
    let g = choose|falls: Seq<Number>|
        {
            &&& falls.len() == b.len()
            &&& forall|k: int| 0 <= k < b.len() ==> is_fall_at(arith, b, k, #[trigger] falls[k])
            &&& #[trigger] is_deepest(falls, y)
        };
    if f.contains(x) && Number::zero().lt(x) {
        let k = choose|k: int| 0 <= k < f.len() && f[k] == x;
        assert(is_fall_at(arith, a, k, f[k]));
        assert(is_fall_at(arith, b, k, g[k]));
        one_fall(arith, a, b, k, f[k], g[k]);
        assert(!y.lt(g[k]));
    }
}

/// Two curves with the same equities have the same maximum drawdown, whatever the instants at
/// which they stand.
pub proof fn one_drawdown(
    arith: Arithmetic,
    curve: Seq<(Timestamp, Number)>,
    other: Seq<(Timestamp, Number)>,
    a: Number,
    b: Number,
)
    requires
        is_single_valued(arith),
        values_agree(equities(curve), equities(other)),
        is_max_drawdown(arith, equities(curve), a),
        is_max_drawdown(arith, equities(other), b),
    ensures
        a == b,
{
    let (v, w) = (equities(curve), equities(other));
    drawdown_of_agreeing(arith, v, w, a, b);
    drawdown_of_agreeing(arith, w, v, b, a);
}

proof fn wins_agree(a: Seq<PositionView>, b: Seq<PositionView>)
    requires
        all_positions_agree(a, b),
    ensures
        wins(a) == wins(b),
    decreases a.len(),
{
    reveal(Seq::filter);
    if a.len() > 0 {
        let (x, y) = (a.drop_last(), b.drop_last());
        assert forall|i: int| 0 <= i < x.len() implies positions_agree(#[trigger] x[i], y[i]) by {
            assert(positions_agree(a[i], b[i]));
        }
        wins_agree(x, y);
        assert(positions_agree(a.last(), b.last()));
        assert(is_win(a.last()) == is_win(b.last()));
    }
}

/// Positions have one win rate.
pub proof fn one_win_rate(
    arith: Arithmetic,
    a: Seq<PositionView>,
    b: Seq<PositionView>,
    x: Number,
    y: Number,
)
    requires
        is_single_valued(arith),
        all_positions_agree(a, b),
        is_win_rate(arith, a, x),
        is_win_rate(arith, b, y),
    ensures
        agree(x, y),
{
    if a.len() > 0 {
        wins_agree(a, b);
        let (m, n) = (wins(a) as usize, a.len() as usize);
        let (v, all_v) = choose|won: Number, all: Number|
            {
                &&& #[trigger] arith(Calc::Count(m), won)
                &&& #[trigger] arith(Calc::Count(n), all)
                &&& arith(Calc::Div(won, all), x)
            };
        let (w, all_w) = choose|won: Number, all: Number|
            {
                &&& #[trigger] arith(Calc::Count(m), won)
                &&& #[trigger] arith(Calc::Count(n), all)
                &&& arith(Calc::Div(won, all), y)
            };
        assert(agree(v, w) && agree(all_v, all_w));
        assert(calcs_agree(Calc::Div(v, all_v), Calc::Div(w, all_w)));
    }
}

proof fn one_total_return(
    arith: Arithmetic,
    initial: Number,
    a: Number,
    b: Number,
    x: Number,
    y: Number,
)
    requires
        is_single_valued(arith),
        agree(a, b),
        is_total_return(arith, initial, a, x),
        is_total_return(arith, initial, b, y),
    ensures
        agree(x, y),
{
    let one = Number::one();
    let v = choose|ratio: Number| #[trigger]
        arith(Calc::Div(a, initial), ratio) && arith(Calc::Sub(ratio, one), x);
    let w = choose|ratio: Number| #[trigger]
        arith(Calc::Div(b, initial), ratio) && arith(Calc::Sub(ratio, one), y);
    assert(calcs_agree(Calc::Div(a, initial), Calc::Div(b, initial)));
    assert(agree(v, w));
    assert(calcs_agree(Calc::Sub(v, one), Calc::Sub(w, one)));
}

/// Two outcomes of the same backtest have the same positions, curve and figures.
#[verifier::rlimit(30)]
pub proof fn outcomes_agree(
    scenario: Scenario,
    a: PositionBacktestResult,
    b: PositionBacktestResult,
)
    requires
        is_single_valued(scenario.arith),
        is_single_minded(scenario),
        a.is_result(scenario),
        b.is_result(scenario),
    ensures
        results_agree(a, b),
{
    let arith = scenario.arith;
    let (x, e) = choose|accounts: Seq<Account>, end: Account| #[trigger]
        a.is_outcome(scenario, accounts, end);
    let (y, f) = choose|accounts: Seq<Account>, end: Account| #[trigger]
        b.is_outcome(scenario, accounts, end);
    let n = scenario.samples.len() as int;
    histories_agree(scenario, x, y, n);
    one_settlement(arith, x.last(), y.last(), scenario.samples.last(), "EOF"@, e, f);
    assert forall|k: int| 0 <= k < n implies (#[trigger] a.equity_curve@[k]).0
        == b.equity_curve@[k].0 && agree(a.equity_curve@[k].1, b.equity_curve@[k].1) by {
        histories_agree(scenario, x, y, k);
        let price = scenario.samples[k].price;
        assert(b.equity_curve@[k].0 == scenario.samples[k].ts);
        one_equity(arith, x[k], y[k], price, a.equity_curve@[k].1, b.equity_curve@[k].1);
    }
    let (v, w) = (equities(a.equity_curve@), equities(b.equity_curve@));
    assert forall|k: int| 0 <= k < v.len() implies agree(#[trigger] v[k], w[k]) by {
        assert(v[k] == a.equity_curve@[k].1);
    }
    one_drawdown(
        arith,
        a.equity_curve@,
        b.equity_curve@,
        a.max_drawdown_pct,
        b.max_drawdown_pct,
    );
    one_win_rate(arith, e.closed, f.closed, a.win_rate_pct, b.win_rate_pct);
    one_total_return(
        arith,
        scenario.initial_cash,
        a.final_equity,
        b.final_equity,
        a.total_return_pct,
        b.total_return_pct,
    );
}

proof fn first_history_is_history(scenario: Scenario, n: int, accounts: Seq<Account>)
    requires
        0 <= n <= scenario.samples.len(),
        scenario.first(n).is_history(accounts),
    ensures
        scenario.is_history(accounts),
{
    let first = scenario.first(n);
    assert forall|k: int| 0 <= k < accounts.len() - 1 implies scenario.steps(
        k,
        #[trigger] accounts[k],
        accounts[k + 1],
    ) by {
        assert(first.steps(k, accounts[k], accounts[k + 1]));
        assert(first.samples.take(k + 1) =~= scenario.samples.take(k + 1));
        if k >= scenario.warmup {
            let analysis = choose|analysis: Option<Analysis>| #[trigger]
                first.advises(k, analysis) && follows(
                    first.arith,
                    accounts[k],
                    first.samples[k],
                    first.fraction,
                    analysis,
                    accounts[k + 1],
                );
            assert(scenario.advises(k, analysis));
        }
    }
}

/// A backtest does not look ahead. Over the first samples alone it leads through the same
/// accounts as over all of them, and has the same curve so far. The positions that are closed
/// when those samples have passed are closed in the whole backtest too, in the same places.
#[verifier::rlimit(30)]
pub proof fn no_look_ahead(
    scenario: Scenario,
    n: int,
    part: PositionBacktestResult,
    part_accounts: Seq<Account>,
    part_end: Account,
    whole: PositionBacktestResult,
    whole_accounts: Seq<Account>,
    whole_end: Account,
)
    requires
        is_single_valued(scenario.arith),
        is_single_minded(scenario),
        0 <= n <= scenario.samples.len(),
        part.is_outcome(scenario.first(n), part_accounts, part_end),
        whole.is_outcome(scenario, whole_accounts, whole_end),
    ensures
        forall|k: int|
            0 <= k <= n ==> accounts_agree(#[trigger] part_accounts[k], whole_accounts[k]),
        curves_agree(part.equity_curve@, whole.equity_curve@.take(n)),
        ({
            let closed = part_accounts.last().closed;
            let m = closed.len() as int;
            &&& m <= whole.positions@.len()
            &&& all_positions_agree(closed, position_views(whole.positions@).take(m))
        }),
{
    let arith = scenario.arith;
    first_history_is_history(scenario, n, part_accounts);
    assert forall|k: int| 0 <= k <= n implies accounts_agree(
        #[trigger] part_accounts[k],
        whole_accounts[k],
    ) by {
        histories_agree(scenario, part_accounts, whole_accounts, k);
    }
    let (curve, first) = (part.equity_curve@, whole.equity_curve@.take(n));
    assert forall|k: int| 0 <= k < n implies (#[trigger] curve[k]).0 == first[k].0 && agree(
        curve[k].1,
        first[k].1,
    ) by {
        assert(accounts_agree(part_accounts[k], whole_accounts[k]));
        assert(first[k] == whole.equity_curve@[k]);
        let price = scenario.samples[k].price;
        one_equity(arith, part_accounts[k], whole_accounts[k], price, curve[k].1, first[k].1);
    }
    let (before, last) = (whole_accounts[n], whole_accounts.last());
    let m = before.closed.len() as int;
    assert(accounts_agree(part_accounts[n], before));
    closed_positions_stay(scenario, whole_accounts, n, whole_accounts.len() - 1);
    settling_keeps_closed(arith, last, scenario.samples.last(), "EOF"@, whole_end);
    assert(whole_end.closed.take(m) =~= whole_end.closed.take(last.closed.len() as int).take(m));
    assert(position_views(whole.positions@).take(m) == before.closed);
}

proof fn closed_before_the_end(
    arith: Arithmetic,
    last: Account,
    candle: Sample,
    end: Account,
    whole: Seq<PositionView>,
    i: int,
)
    requires
        settles(arith, last, candle, "EOF"@, end),
        last.closed.len() <= whole.len(),
        all_positions_agree(last.closed, whole.take(last.closed.len() as int)),
        0 <= i < end.closed.len(),
        i < end.closed.len() - 1 || end.closed[i].exit_reason != Some("EOF"@),
    ensures
        i < whole.len(),
        positions_agree(end.closed[i], whole[i]),
{
    let first = whole.take(last.closed.len() as int);
    if last.open is Some {
        assert(end.closed.drop_last()[i] == last.closed[i]);
    }
    assert(positions_agree(last.closed[i], first[i]));
}

/// A result over the first samples has the curve of the whole result so far, and every position
/// of it is a position of the whole result, in the same place, unless it is the last one and was
/// closed because the samples had ended.
#[verifier::rlimit(30)]
pub proof fn results_do_not_look_ahead(
    scenario: Scenario,
    n: int,
    part: PositionBacktestResult,
    whole: PositionBacktestResult,
)
    requires
        is_single_valued(scenario.arith),
        is_single_minded(scenario),
        0 <= n <= scenario.samples.len(),
        part.is_result(scenario.first(n)),
        whole.is_result(scenario),
    ensures
        curves_agree(part.equity_curve@, whole.equity_curve@.take(n)),
        forall|i: int|
            0 <= i < part.positions@.len() && (i < part.positions@.len() - 1 || (
            #[trigger] part.positions@[i])@.exit_reason != Some("EOF"@)) ==> {
                &&& i < whole.positions@.len()
                &&& positions_agree(part.positions@[i]@, whole.positions@[i]@)
            },
{
    let first = scenario.first(n);
    let (x, e) = choose|accounts: Seq<Account>, end: Account| #[trigger]
        part.is_outcome(first, accounts, end);
    let (y, f) = choose|accounts: Seq<Account>, end: Account| #[trigger]
        whole.is_outcome(scenario, accounts, end);
    no_look_ahead(scenario, n, part, x, e, whole, y, f);
    let (found, others) = (position_views(part.positions@), position_views(whole.positions@));
    assert forall|i: int|
        0 <= i < part.positions@.len() && (i < part.positions@.len() - 1 || (
        #[trigger] part.positions@[i])@.exit_reason != Some("EOF"@)) implies i
        < whole.positions@.len() && positions_agree(
        part.positions@[i]@,
        whole.positions@[i]@,
    ) by {
        assert(found[i] == part.positions@[i]@);
        closed_before_the_end(scenario.arith, x.last(), first.samples.last(), e, others, i);
        assert(others[i] == whole.positions@[i]@);
    }
}

/// It makes no difference whether the part of the cash that is asked for is brought between
/// nothing and all before a backtest is run. Where nothing or less is asked for, there is nothing
/// to open a position with.
pub proof fn clamping_first_changes_nothing<
    L,
    F: Fn(Calc) -> Number,
    A: Fn(&[Sample], StrategyConfig) -> Option<Analysis>,
>(
    backtester: &PositionBacktester<L>,
    samples: Seq<Sample>,
    candidate: Candidate,
    clamped: Candidate,
    analyze: A,
    calc: F,
    a: PositionBacktestResult,
    b: PositionBacktestResult,
)
    requires
        clamped == (Candidate {
            buy_sell_fraction: candidate.buy_sell_fraction.clamp(Number::zero(), Number::one()),
            ..candidate
        }),
        is_single_valued(arithmetic_of(calc)),
        is_single_minded(backtester.scenario(samples, candidate, analyze, calc)),
        a.is_result(backtester.scenario(samples, candidate, analyze, calc)),
        b.is_result(backtester.scenario(samples, clamped, analyze, calc)),
    ensures
        results_agree(a, b),
        candidate.buy_sell_fraction.le(Number::zero()) ==> has_no_stake(
            backtester.scenario(samples, candidate, analyze, calc),
        ),
{
    let scenario = backtester.scenario(samples, candidate, analyze, calc);
    assert(backtester.scenario(samples, clamped, analyze, calc) == scenario);
    outcomes_agree(scenario, a, b);
}

} // verus!
