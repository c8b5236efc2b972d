//! What holds of backtests in which the calculations that are made come out exact.

use crate::backtest::account::{
    asks_for, enters, follows, gains, has_equity, is_closed_as, is_credited, is_worth, moves,
    open_is_worth, opens, opens_with, settles, turns, Account, PositionView, Scenario,
};
use crate::backtest::laws::turn_of_step;
use crate::backtest::position::PositionSide;
use crate::backtest::Analysis;
use crate::data::Sample;
use crate::exact::{
    exactly, one_has_its_units, units_in_one, values_are_in_order, values_tell_numbers_apart,
    with_exact_sums, zero_has_no_units,
};
use crate::number::{Arithmetic, Calc, Number};
use crate::time::Timestamp;
use vstd::prelude::*;

verus! {

/// The profits of closed positions, added up.
pub open spec fn total_profit(closed: Seq<PositionView>) -> int
    decreases closed.len(),
{
    if closed.len() == 0 {
        0
    } else {
        total_profit(closed.drop_last()) + closed.last().profit->0.units()
    }
}

/// The cash of an account and the collateral of what it has open.
pub open spec fn funds(account: Account) -> int {
    account.cash.units() + match account.open {
        Some(pos) => pos.entry_collateral_gross.units(),
        None => 0,
    }
}

proof fn settling_adds_profit(
    arith: Arithmetic,
    before: Account,
    candle: Sample,
    reason: Seq<char>,
    after: Account,
)
    requires
        settles(with_exact_sums(arith), before, candle, reason, after),
    ensures
        funds(after) - total_profit(after.closed) == funds(before) - total_profit(before.closed),
{
}

proof fn entering_keeps_funds(
    arith: Arithmetic,
    before: Account,
    side: PositionSide,
    candle: Sample,
    fraction: Number,
    reason: Seq<char>,
    after: Account,
)
    requires
        before.open is None,
        enters(with_exact_sums(arith), before, side, candle, fraction, reason, after),
    ensures
        funds(after) == funds(before),
{
}

proof fn history_adds_profits(scenario: Scenario, accounts: Seq<Account>, k: int)
    requires
        scenario.with(with_exact_sums(scenario.arith)).is_history(accounts),
        0 <= k < accounts.len(),
    ensures
        funds(accounts[k]) == scenario.initial_cash.units() + total_profit(accounts[k].closed),
    decreases k,
{
    if k > 0 {
        history_adds_profits(scenario, accounts, k - 1);
        let exact = scenario.with(with_exact_sums(scenario.arith));
        let arith = scenario.arith;
        let before = accounts[k - 1];
        let candle = scenario.samples[k - 1];
        assert(exact.steps(k - 1, accounts[k - 1], accounts[k - 1 + 1]));
        if let Some((side, reason, flat)) = turn_of_step(exact, k - 1, before, accounts[k]) {
            settling_adds_profit(arith, before, candle, reason, flat);
            entering_keeps_funds(
                arith,
                flat,
                side,
                candle,
                scenario.fraction,
                reason,
                accounts[k],
            );
        }
    }
}

/// Where the sums and differences that are made come out exact, a backtest ends with the cash it
/// began with and the profits of its positions: nothing else comes in or goes out.
pub proof fn profits_add_up(scenario: Scenario, accounts: Seq<Account>, end: Account)
    requires
        scenario.with(with_exact_sums(scenario.arith)).ends(accounts, end),
    ensures
        end.cash.units() == scenario.initial_cash.units() + total_profit(end.closed),
{
    history_adds_profits(scenario, accounts, accounts.len() - 1);
    settling_adds_profit(scenario.arith, accounts.last(), scenario.samples.last(), "EOF"@, end);
}

/// Whether the size of a position, at the price of its entry, is just its collateral.
pub open spec fn is_covered(pos: PositionView) -> bool {
    &&& pos.size.is_finite()
    &&& Number::zero().lt(pos.size)
    &&& Number::zero().lt(pos.entry_collateral_gross)
    &&& pos.size.units() * pos.entry_price.units() == pos.entry_collateral_gross.units()
        * units_in_one()
}

proof fn opening_covers(
    arith: Arithmetic,
    side: PositionSide,
    price: Number,
    ts: Timestamp,
    cash: Number,
    fraction: Number,
    reason: Seq<char>,
    left: Number,
    pos: PositionView,
)
    requires
        opens(exactly(arith), side, price, ts, cash, fraction, reason, left, Some(pos)),
    ensures
        is_covered(pos),
        pos.side == side,
        pos.entry_price == price,
        cash.is_finite(),
        Number::zero().lt(cash),
        left.units() == cash.units() - pos.entry_collateral_gross.units(),
{
}

proof fn gain_in_units(arith: Arithmetic, pos: PositionView, price: Number, gain: Number)
    requires
        gains(exactly(arith), pos, price, gain),
    ensures
        gain.is_finite(),
        gain.units() * units_in_one() == match pos.side {
            PositionSide::Long => (price.units() - pos.entry_price.units()) * pos.size.units(),
            PositionSide::Short => (pos.entry_price.units() - price.units()) * pos.size.units(),
        },
{
    let by = choose|by: Number| #[trigger]
        moves(exactly(arith), pos, price, by) && exactly(arith)(Calc::Mul(by, pos.size), gain);
}

proof fn no_move_no_gain(arith: Arithmetic, pos: PositionView, gain: Number)
    requires
        gains(exactly(arith), pos, pos.entry_price, gain),
    ensures
        gain.units() == 0,
{
    gain_in_units(arith, pos, pos.entry_price, gain);
    one_has_its_units();
    let (u, one, size) = (gain.units(), units_in_one(), pos.size.units());
    assert(u == 0) by (nonlinear_arith)
        requires
            u * one == 0 * size,
            0 < one,
    ;
}

proof fn worth_is_collateral_and_gain(
    arith: Arithmetic,
    pos: PositionView,
    price: Number,
    value: Number,
    gain: Number,
)
    requires
        is_covered(pos),
        Number::zero().lt(price),
        is_worth(exactly(arith), pos, price, value),
        gains(exactly(arith), pos, price, gain),
    ensures
        value.is_finite(),
        value.units() == pos.entry_collateral_gross.units() + gain.units(),
{
    one_has_its_units();
    gain_in_units(arith, pos, price, gain);
    let one = units_in_one();
    let (v, c, g) = (value.units(), pos.entry_collateral_gross.units(), gain.units());
    match pos.side {
        PositionSide::Long => {
            let (size, entry, now) = (pos.size.units(), pos.entry_price.units(), price.units());
            assert(v == c + g) by (nonlinear_arith)
                requires
                    0 < one,
                    v * one == size * now,
                    c * one == size * entry,
                    g * one == (now - entry) * size,
            ;
        },
        PositionSide::Short => {
            let other = choose|gain: Number| #[trigger]
                gains(exactly(arith), pos, price, gain) && exactly(arith)(
                    Calc::Add(pos.entry_collateral_gross, gain),
                    value,
                );
            gain_in_units(arith, pos, price, other);
            let o = other.units();
            assert(o == g) by (nonlinear_arith)
                requires
                    0 < one,
                    o * one == g * one,
            ;
        },
    }
}

/// Where the calculations come out exact, what a position is worth at a price above zero is its
/// collateral and the profit of closing it there. At the price of its entry that is just the
/// collateral.
pub proof fn worth_is_what_closing_pays(
    arith: Arithmetic,
    side: PositionSide,
    entry_price: Number,
    entry_time: Timestamp,
    cash: Number,
    fraction: Number,
    entry_reason: Seq<char>,
    left: Number,
    pos: PositionView,
    price: Number,
    value: Number,
    exit_time: Timestamp,
    exit_reason: Seq<char>,
    closed: PositionView,
)
    requires
        opens(
            exactly(arith),
            side,
            entry_price,
            entry_time,
            cash,
            fraction,
            entry_reason,
            left,
            Some(pos),
        ),
        Number::zero().lt(price),
        is_worth(exactly(arith), pos, price, value),
        is_closed_as(exactly(arith), pos, price, exit_time, exit_reason, closed),
    ensures
        value.units() == pos.entry_collateral_gross.units() + closed.profit->0.units(),
        price == entry_price ==> value == pos.entry_collateral_gross,
{
    opening_covers(
        arith,
        side,
        entry_price,
        entry_time,
        cash,
        fraction,
        entry_reason,
        left,
        pos,
    );
    let profit = closed.profit->0;
    worth_is_collateral_and_gain(arith, pos, price, value, profit);
    if price == entry_price {
        no_move_no_gain(arith, pos, profit);
        zero_has_no_units();
        values_are_in_order(Number::zero(), pos.entry_collateral_gross);
        values_tell_numbers_apart(value, pos.entry_collateral_gross);
    }
}

/// Where the calculations come out exact, opening a position and closing it at the same price,
/// on either side, makes no profit and no return, and all the cash comes back.
pub proof fn round_trip_gives_the_cash_back(
    arith: Arithmetic,
    side: PositionSide,
    price: Number,
    entry_time: Timestamp,
    cash: Number,
    fraction: Number,
    entry_reason: Seq<char>,
    left: Number,
    pos: PositionView,
    exit_time: Timestamp,
    exit_reason: Seq<char>,
    closed: PositionView,
    back: Number,
)
    requires
        opens(
            exactly(arith),
            side,
            price,
            entry_time,
            cash,
            fraction,
            entry_reason,
            left,
            Some(pos),
        ),
        is_closed_as(exactly(arith), pos, price, exit_time, exit_reason, closed),
        is_credited(exactly(arith), left, closed, back),
    ensures
        closed.profit->0.units() == 0,
        closed.return_pct->0.units() == 0,
        left.units() + closed.entry_collateral_gross.units() + closed.profit->0.units()
            == cash.units(),
        back == cash,
{
    opening_covers(arith, side, price, entry_time, cash, fraction, entry_reason, left, pos);
    no_move_no_gain(arith, pos, closed.profit->0);
    let (ret, collateral) = (closed.return_pct->0.units(), pos.entry_collateral_gross.units());
    assert(ret * collateral == 0);
    assert(ret == 0) by (nonlinear_arith)
        requires
            ret * collateral == 0,
            collateral != 0,
    ;
    zero_has_no_units();
    values_are_in_order(Number::zero(), cash);
    values_tell_numbers_apart(back, cash);
}

/// Whether what an account has open, if anything, is covered.
spec fn stands_covered(account: Account) -> bool {
    account.open matches Some(pos) ==> is_covered(pos)
}

proof fn history_stands_covered(scenario: Scenario, accounts: Seq<Account>, k: int)
    requires
        scenario.with(exactly(scenario.arith)).is_history(accounts),
        0 <= k < accounts.len(),
    ensures
        stands_covered(accounts[k]),
    decreases k,
{
    if k > 0 {
        history_stands_covered(scenario, accounts, k - 1);
        let exact = scenario.with(exactly(scenario.arith));
        let candle = scenario.samples[k - 1];
        let after = accounts[k];
        assert(exact.steps(k - 1, accounts[k - 1], accounts[k - 1 + 1]));
        if let Some((side, reason, flat)) = turn_of_step(exact, k - 1, accounts[k - 1], after) {
            if after.open is Some {
                opening_covers(
                    scenario.arith,
                    side,
                    candle.price,
                    candle.ts,
                    flat.cash,
                    scenario.fraction,
                    reason,
                    after.cash,
                    after.open->0,
                );
            }
        }
    }
}

proof fn settling_pays_the_equity(
    arith: Arithmetic,
    before: Account,
    candle: Sample,
    reason: Seq<char>,
    after: Account,
    equity: Number,
)
    requires
        stands_covered(before),
        Number::zero().lt(candle.price),
        settles(exactly(arith), before, candle, reason, after),
        has_equity(exactly(arith), before, candle.price, equity),
    ensures
        after.cash.is_finite(),
        after.cash.units() == equity.units(),
        equity.is_finite(),
{
    zero_has_no_units();
    let value = choose|value: Number| #[trigger]
        open_is_worth(exactly(arith), before.open, candle.price, value) && exactly(arith)(
            Calc::Add(before.cash, value),
            equity,
        );
    if before.open is Some {
        worth_is_collateral_and_gain(
            arith,
            before.open->0,
            candle.price,
            value,
            after.closed.last().profit->0,
        );
    }
}

proof fn entering_and_settling_pays_back(
    arith: Arithmetic,
    flat: Account,
    side: PositionSide,
    candle: Sample,
    fraction: Number,
    reason: Seq<char>,
    after: Account,
    last_reason: Seq<char>,
    end: Account,
)
    requires
        flat.cash.is_finite(),
        enters(exactly(arith), flat, side, candle, fraction, reason, after),
        settles(exactly(arith), after, candle, last_reason, end),
    ensures
        end.cash.is_finite(),
        end.cash.units() == flat.cash.units(),
{
    if after.open is Some {
        let pos = after.open->0;
        opening_covers(
            arith,
            side,
            candle.price,
            candle.ts,
            flat.cash,
            fraction,
            reason,
            after.cash,
            pos,
        );
        no_move_no_gain(arith, pos, end.closed.last().profit->0);
    }
}

/// Where the calculations come out exact and the last price is above zero, the last equity of
/// the curve is what the backtest ends with: neither a turn at the last candle nor closing what
/// is open there changes it.
pub proof fn curve_ends_at_the_final_equity(
    scenario: Scenario,
    accounts: Seq<Account>,
    end: Account,
    curve: Seq<(Timestamp, Number)>,
)
    requires
        scenario.with(exactly(scenario.arith)).ends(accounts, end),
        scenario.with(exactly(scenario.arith)).is_curve(accounts, curve),
        Number::zero().lt(scenario.samples.last().price),
    ensures
        curve.last().1.is_finite(),
        end.cash.is_finite(),
        curve.last().1.units() == end.cash.units(),
        end.cash.units() != 0 ==> curve.last().1 == end.cash,
{
    let arith = scenario.arith;
    let exact = scenario.with(exactly(arith));
    let k = scenario.samples.len() - 1;
    let (before, after, candle) = (accounts[k], accounts[k + 1], scenario.samples[k]);
    let equity = curve[k].1;
    history_stands_covered(scenario, accounts, k);
    assert(exact.steps(k, accounts[k], accounts[k + 1]));
    assert(has_equity(exactly(arith), before, candle.price, equity));
    match turn_of_step(exact, k, before, after) {
        Some((side, reason, flat)) => {
            settling_pays_the_equity(arith, before, candle, reason, flat, equity);
            entering_and_settling_pays_back(
                arith,
                flat,
                side,
                candle,
                scenario.fraction,
                reason,
                after,
                "EOF"@,
                end,
            );
        },
        None => {
            settling_pays_the_equity(arith, before, candle, "EOF"@, end, equity);
        },
    }
    if end.cash.units() != 0 {
        values_tell_numbers_apart(equity, end.cash);
    }
}

/// Whether every result of one arithmetic is one of the other.
pub open spec fn is_narrower(narrow: Arithmetic, wide: Arithmetic) -> bool {
    forall|c: Calc, r: Number| #[trigger] narrow(c, r) ==> wide(c, r)
}

proof fn gains_more_widely(
    narrow: Arithmetic,
    wide: Arithmetic,
    pos: PositionView,
    price: Number,
    gain: Number,
)
    requires
        is_narrower(narrow, wide),
        gains(narrow, pos, price, gain),
    ensures
        gains(wide, pos, price, gain),
{
    let by = choose|by: Number| #[trigger]
        moves(narrow, pos, price, by) && narrow(Calc::Mul(by, pos.size), gain);
    assert(moves(wide, pos, price, by));
}

proof fn has_equity_more_widely(
    narrow: Arithmetic,
    wide: Arithmetic,
    account: Account,
    price: Number,
    equity: Number,
)
    requires
        is_narrower(narrow, wide),
        has_equity(narrow, account, price, equity),
    ensures
        has_equity(wide, account, price, equity),
{
    let value = choose|value: Number| #[trigger]
        open_is_worth(narrow, account.open, price, value) && narrow(
            Calc::Add(account.cash, value),
            equity,
        );
    if account.open is Some {
        let pos = account.open->0;
        if !(price.le(Number::zero()) || pos.size.le(Number::zero())) && pos.side
            == PositionSide::Short {
            let gain = choose|gain: Number| #[trigger]
                gains(narrow, pos, price, gain) && narrow(
                    Calc::Add(pos.entry_collateral_gross, gain),
                    value,
                );
            gains_more_widely(narrow, wide, pos, price, gain);
        }
        assert(is_worth(wide, pos, price, value));
    }
    assert(open_is_worth(wide, account.open, price, value));
}

proof fn settles_more_widely(
    narrow: Arithmetic,
    wide: Arithmetic,
    before: Account,
    candle: Sample,
    reason: Seq<char>,
    after: Account,
)
    requires
        is_narrower(narrow, wide),
        settles(narrow, before, candle, reason, after),
    ensures
        settles(wide, before, candle, reason, after),
{
    if before.open is Some {
        let closed = after.closed.last();
        gains_more_widely(narrow, wide, before.open->0, candle.price, closed.profit->0);
        let proceeds = choose|proceeds: Number| #[trigger]
            narrow(Calc::Add(closed.entry_collateral_gross, closed.profit->0), proceeds) && narrow(
                Calc::Add(before.cash, proceeds),
                after.cash,
            );
        assert(wide(Calc::Add(closed.entry_collateral_gross, closed.profit->0), proceeds));
    }
}

proof fn enters_more_widely(
    narrow: Arithmetic,
    wide: Arithmetic,
    before: Account,
    side: PositionSide,
    candle: Sample,
    fraction: Number,
    reason: Seq<char>,
    after: Account,
)
    requires
        is_narrower(narrow, wide),
        enters(narrow, before, side, candle, fraction, reason, after),
    ensures
        enters(wide, before, side, candle, fraction, reason, after),
{
    let (price, ts, cash) = (candle.price, candle.ts, before.cash);
    let zero = Number::zero();
    if !(price.le(zero) || cash.le(zero) || fraction.le(zero)) {
        let collateral = choose|collateral: Number| #[trigger]
            narrow(Calc::Mul(cash, fraction), collateral) && opens_with(
                narrow,
                side,
                price,
                ts,
                cash,
                collateral,
                reason,
                after.cash,
                after.open,
            );
        assert(wide(Calc::Mul(cash, fraction), collateral));
        assert(opens_with(
            wide,
            side,
            price,
            ts,
            cash,
            collateral,
            reason,
            after.cash,
            after.open,
        ));
    }
}

/// A backtest whose calculations keep to part of an arithmetic is a backtest with that
/// arithmetic: one whose calculations come out exact, or do not underflow, is one like any other.
pub proof fn narrower_backtest_is_a_backtest(
    scenario: Scenario,
    narrow: Arithmetic,
    accounts: Seq<Account>,
    end: Account,
    curve: Seq<(Timestamp, Number)>,
)
    requires
        is_narrower(narrow, scenario.arith),
        scenario.with(narrow).ends(accounts, end),
        scenario.with(narrow).is_curve(accounts, curve),
    ensures
        scenario.ends(accounts, end),
        scenario.is_curve(accounts, curve),
{
    let wide = scenario.arith;
    let narrowed = scenario.with(narrow);
    assert forall|k: int| 0 <= k < accounts.len() - 1 implies scenario.steps(
        k,
        #[trigger] accounts[k],
        accounts[k + 1],
    ) by {
        let (before, after, candle) = (accounts[k], accounts[k + 1], scenario.samples[k]);
        assert(narrowed.steps(k, before, after));
        if k >= scenario.warmup {
            let analysis = choose|analysis: Option<Analysis>| #[trigger]
                narrowed.advises(k, analysis) && follows(
                    narrow,
                    before,
                    candle,
                    scenario.fraction,
                    analysis,
                    after,
                );
            assert(scenario.advises(k, analysis));
            if asks_for(before, analysis) is Some {
                let side = asks_for(before, analysis)->0;
                let reason = analysis->0.reason@;
                let flat = choose|flat: Account| #[trigger]
                    settles(narrow, before, candle, reason, flat) && enters(
                        narrow,
                        flat,
                        side,
                        candle,
                        scenario.fraction,
                        reason,
                        after,
                    );
                settles_more_widely(narrow, wide, before, candle, reason, flat);
                enters_more_widely(
                    narrow,
                    wide,
                    flat,
                    side,
                    candle,
                    scenario.fraction,
                    reason,
                    after,
                );
                assert(turns(wide, before, side, candle, scenario.fraction, reason, after));
            }
            assert(follows(wide, before, candle, scenario.fraction, analysis, after));
        }
    }
    settles_more_widely(
        narrow,
        wide,
        accounts.last(),
        scenario.samples.last(),
        "EOF"@,
        end,
    );
    assert forall|k: int| 0 <= k < curve.len() implies (#[trigger] curve[k]).0
        == scenario.samples[k].ts && has_equity(
        wide,
        accounts[k],
        scenario.samples[k].price,
        curve[k].1,
    ) by {
        has_equity_more_widely(narrow, wide, accounts[k], scenario.samples[k].price, curve[k].1);
    }
}

} // verus!
