//! What opening, closing and valuing positions give back, and what the figures of a backtest are,
//! in terms of prices, cash and the values that calculations have.

use crate::backtest::account::{
    gains, is_deepest, is_fall_at, is_relative_fall, moves, opened, opens_with, peak, wins,
    PositionView,
};
use crate::backtest::position::{
    buy_and_hold_equity, close_position, compute_max_drawdown, compute_win_rate, equities,
    open_position, open_view, position_liquidation_value, position_views, summarize, NdjsonLogger,
    NoopLogger, Position, PositionBacktestResult, PositionLogger, PositionSide, Summary,
};
use crate::backtest::uniqueness::{agree, calcs_agree, is_single_valued};
use crate::backtest::{log_file_name, Signal};
use crate::data::Sample;
use crate::exact::{
    is_exact, one_has_its_units, units_in_one, values_are_in_order, zero_has_no_units,
};
use crate::number::{arithmetic_of, Calc, Number};
use crate::time::Timestamp;
use vstd::prelude::*;

verus! {

/// A signal to buy asks for a long position, and one to sell for a short one.
pub proof fn buying_is_going_long(bought: PositionSide, sold: PositionSide)
    requires
        call_ensures(<PositionSide as From<Signal>>::from, (Signal::Buy,), bought),
        call_ensures(<PositionSide as From<Signal>>::from, (Signal::Sell,), sold),
    ensures
        bought == PositionSide::Long,
        sold == PositionSide::Short,
{
}

/// A closed position is the one that was open, with the exit that was given. Its profit is how far
/// the price rose since the entry, or for a short position how far it fell, times the size. Its
/// return is the profit divided by the collateral, and zero where that is not above zero.
pub proof fn closing_keeps_the_position<F: Fn(Calc) -> Number>(
    pos: Position,
    exit_price: Number,
    exit_time: Timestamp,
    exit_reason: String,
    calc: &F,
    closed: Position,
)
    requires
        call_ensures(
            close_position::<F>,
            (pos, exit_price, exit_time, exit_reason, calc),
            closed,
        ),
    ensures
        closed.side == pos.side,
        closed.entry_time == pos.entry_time,
        closed.entry_price == pos.entry_price,
        closed.entry_reason@ == pos.entry_reason@,
        closed.size == pos.size,
        closed.entry_collateral_gross == pos.entry_collateral_gross,
        closed.exit_time == Some(exit_time),
        closed.exit_price == Some(exit_price),
        closed.exit_reason is Some && closed.exit_reason->0@ == exit_reason@,
        closed.profit is Some,
        closed.return_pct is Some,
        pos.side == PositionSide::Long ==> exists|rise: Number| #[trigger]
            call_ensures(calc, (Calc::Sub(exit_price, pos.entry_price),), rise) && call_ensures(
                calc,
                (Calc::Mul(rise, pos.size),),
                closed.profit->0,
            ),
        pos.side == PositionSide::Short ==> exists|fall: Number| #[trigger]
            call_ensures(calc, (Calc::Sub(pos.entry_price, exit_price),), fall) && call_ensures(
                calc,
                (Calc::Mul(fall, pos.size),),
                closed.profit->0,
            ),
        Number::zero().lt(pos.entry_collateral_gross) ==> call_ensures(
            calc,
            (Calc::Div(closed.profit->0, pos.entry_collateral_gross),),
            closed.return_pct->0,
        ),
        !Number::zero().lt(pos.entry_collateral_gross) ==> closed.return_pct == Some(
            Number::zero(),
        ),
{
    let arith = arithmetic_of(calc);
    assert(gains(arith, pos@, exit_price, closed.profit->0));
    let by = choose|by: Number| #[trigger]
        moves(arith, pos@, exit_price, by) && arith(Calc::Mul(by, pos@.size), closed.profit->0);
    assert(moves(arith, pos@, exit_price, by));
    assert(closed@.entry_reason == pos@.entry_reason);
    assert(closed@.exit_reason == Some(exit_reason@));
}

/// Going from one price to another, a long position makes the profit that a short one of the same
/// size makes on the way back.
pub proof fn sides_mirror_each_other<F: Fn(Calc) -> Number>(
    long: Position,
    short: Position,
    exit_time: Timestamp,
    exit_reason: String,
    calc: &F,
    long_closed: Position,
    short_closed: Position,
)
    requires
        long.side == PositionSide::Long,
        short.side == PositionSide::Short,
        long.size == short.size,
        is_single_valued(arithmetic_of(calc)),
        call_ensures(
            close_position::<F>,
            (long, short.entry_price, exit_time, exit_reason, calc),
            long_closed,
        ),
        call_ensures(
            close_position::<F>,
            (short, long.entry_price, exit_time, exit_reason, calc),
            short_closed,
        ),
    ensures
        agree(long_closed.profit->0, short_closed.profit->0),
{
    closing_keeps_the_position(
        long,
        short.entry_price,
        exit_time,
        exit_reason,
        calc,
        long_closed,
    );
    closing_keeps_the_position(
        short,
        long.entry_price,
        exit_time,
        exit_reason,
        calc,
        short_closed,
    );
    let (from, to) = (long.entry_price, short.entry_price);
    let x = choose|rise: Number| #[trigger]
        call_ensures(calc, (Calc::Sub(to, from),), rise) && call_ensures(
            calc,
            (Calc::Mul(rise, long.size),),
            long_closed.profit->0,
        );
    let y = choose|fall: Number| #[trigger]
        call_ensures(calc, (Calc::Sub(to, from),), fall) && call_ensures(
            calc,
            (Calc::Mul(fall, short.size),),
            short_closed.profit->0,
        );
    let arith = arithmetic_of(calc);
    assert(arith(Calc::Sub(to, from), x) && arith(Calc::Sub(to, from), y));
    assert(agree(x, y));
    assert(arith(Calc::Mul(x, long.size), long_closed.profit->0));
    assert(arith(Calc::Mul(y, short.size), short_closed.profit->0));
    assert(calcs_agree(Calc::Mul(x, long.size), Calc::Mul(y, short.size)));
}

/// A position is worth nothing at a price of zero or below, nor where its size is zero or below.
/// Else a long one is worth its size times the price, and a short one its collateral and what the
/// price has fallen since the entry, times the size.
pub proof fn worth_is_by_side<F: Fn(Calc) -> Number>(
    pos: &Position,
    price: Number,
    calc: &F,
    value: Number,
)
    requires
        call_ensures(position_liquidation_value::<F>, (pos, price, calc), value),
    ensures
        price.le(Number::zero()) || pos.size.le(Number::zero()) ==> value == Number::zero(),
        !price.le(Number::zero()) && !pos.size.le(Number::zero()) && pos.side
            == PositionSide::Long ==> call_ensures(calc, (Calc::Mul(pos.size, price),), value),
        !price.le(Number::zero()) && !pos.size.le(Number::zero()) && pos.side
            == PositionSide::Short ==> exists|fall: Number, gain: Number|
            {
                &&& #[trigger] call_ensures(calc, (Calc::Sub(pos.entry_price, price),), fall)
                &&& #[trigger] call_ensures(calc, (Calc::Mul(fall, pos.size),), gain)
                &&& call_ensures(calc, (Calc::Add(pos.entry_collateral_gross, gain),), value)
            },
{
    let arith = arithmetic_of(calc);
    if !price.le(Number::zero()) && !pos.size.le(Number::zero()) && pos.side
        == PositionSide::Short {
        let gain = choose|gain: Number| #[trigger]
            gains(arith, pos@, price, gain) && arith(
                Calc::Add(pos@.entry_collateral_gross, gain),
                value,
            );
        let fall = choose|by: Number| #[trigger]
            moves(arith, pos@, price, by) && arith(Calc::Mul(by, pos@.size), gain);
        assert(moves(arith, pos@, price, fall));
        assert(arith(Calc::Sub(pos.entry_price, price), fall));
        assert(call_ensures(calc, (Calc::Sub(pos.entry_price, price),), fall));
        assert(call_ensures(calc, (Calc::Mul(fall, pos.size),), gain));
    }
}

/// Opening a position takes the part that is asked for from the cash as its collateral. Its size
/// is the collateral divided by the price. It stands on the side, at the price and instant and for
/// the reason that were given, and nothing of it is closed. Nothing is opened, and the cash is
/// left alone, only where the price, the cash or the part is zero or below, or the collateral or
/// the size comes out so.
pub proof fn opening_takes_its_collateral<F: Fn(Calc) -> Number>(
    side: PositionSide,
    price: Number,
    ts: Timestamp,
    cash: &mut Number,
    part: Number,
    reason: String,
    calc: &F,
    r: Option<Position>,
)
    requires
        call_ensures(open_position::<F>, (side, price, ts, cash, part, reason, calc), r),
    ensures
        r matches Some(pos) ==> {
            &&& !price.le(Number::zero())
            &&& !old(cash).le(Number::zero())
            &&& !part.le(Number::zero())
            &&& call_ensures(calc, (Calc::Mul(*old(cash), part),), pos.entry_collateral_gross)
            &&& !pos.entry_collateral_gross.le(Number::zero())
            &&& call_ensures(calc, (Calc::Div(pos.entry_collateral_gross, price),), pos.size)
            &&& !pos.size.le(Number::zero())
            &&& call_ensures(
                calc,
                (Calc::Sub(*old(cash), pos.entry_collateral_gross),),
                *final(cash),
            )
            &&& pos.side == side
            &&& pos.entry_time == ts
            &&& pos.entry_price == price
            &&& pos.entry_reason@ == reason@
            &&& pos.exit_time is None
            &&& pos.exit_price is None
            &&& pos.exit_reason is None
            &&& pos.profit is None
            &&& pos.return_pct is None
        },
        r is None ==> *final(cash) == *old(cash),
        r is None && !price.le(Number::zero()) && !old(cash).le(Number::zero()) && !part.le(
            Number::zero(),
        ) ==> exists|collateral: Number| #[trigger]
            call_ensures(calc, (Calc::Mul(*old(cash), part),), collateral) && (collateral.le(
                Number::zero(),
            ) || exists|size: Number| #[trigger]
                call_ensures(calc, (Calc::Div(collateral, price),), size) && size.le(
                    Number::zero(),
                )),
{
    let arith = arithmetic_of(calc);
    let (before, after) = (*old(cash), *final(cash));
    let view = open_view(r);
    if !price.le(Number::zero()) && !before.le(Number::zero()) && !part.le(Number::zero()) {
        let collateral = choose|collateral: Number| #[trigger]
            arith(Calc::Mul(before, part), collateral) && opens_with(
                arith,
                side,
                price,
                ts,
                before,
                collateral,
                reason@,
                after,
                view,
            );
        assert(arith(Calc::Mul(before, part), collateral));
        assert(call_ensures(calc, (Calc::Mul(before, part),), collateral));
        if !collateral.le(Number::zero()) {
            let size = choose|size: Number| #[trigger]
                arith(Calc::Div(collateral, price), size) && if size.le(Number::zero()) {
                    after == before && view is None
                } else {
                    &&& arith(Calc::Sub(before, collateral), after)
                    &&& view == Some(opened(side, price, ts, reason@, size, collateral))
                };
            assert(call_ensures(calc, (Calc::Div(collateral, price),), size));
        }
    }
}

/// Buying with all the cash at the first price and holding comes to the cash divided by the first
/// price, times the last price. There is an answer wherever there are samples and the first price
/// is not zero or below.
pub proof fn holding_follows_the_price<F: Fn(Calc) -> Number>(
    samples: &[Sample],
    cash: Number,
    calc: &F,
    r: Option<Number>,
)
    requires
        call_ensures(buy_and_hold_equity::<F>, (samples, cash, calc), r),
    ensures
        r is None <==> samples@.len() == 0 || samples@[0].price.le(Number::zero()),
        r matches Some(equity) ==> exists|coins: Number| #[trigger]
            call_ensures(calc, (Calc::Div(cash, samples@[0].price),), coins) && call_ensures(
                calc,
                (Calc::Mul(coins, samples@[samples@.len() - 1].price),),
                equity,
            ),
{
    if r is Some {
        let arith = arithmetic_of(calc);
        let (first, last) = (samples@.first().price, samples@.last().price);
        let coins = choose|quantity: Number| #[trigger]
            arith(Calc::Div(cash, first), quantity) && arith(Calc::Mul(quantity, last), r->0);
        assert(call_ensures(calc, (Calc::Div(cash, samples@[0].price),), coins));
    }
}

/// Where the two calculations come out exact, the equity is to the cash as the last price is to
/// the first: with cash above zero it is smaller just where the price has fallen, and greater just
/// where it has risen.
pub proof fn holding_is_in_proportion<F: Fn(Calc) -> Number>(
    samples: &[Sample],
    cash: Number,
    calc: &F,
    r: Option<Number>,
)
    requires
        call_ensures(buy_and_hold_equity::<F>, (samples, cash, calc), r),
        r is Some,
        forall|coins: Number| #[trigger]
            call_ensures(calc, (Calc::Div(cash, samples@[0].price),), coins) ==> is_exact(
                Calc::Div(cash, samples@[0].price),
                coins,
            ) && forall|equity: Number| #[trigger]
                call_ensures(calc, (Calc::Mul(coins, samples@.last().price),), equity) ==> is_exact(
                    Calc::Mul(coins, samples@.last().price),
                    equity,
                ),
    ensures
        r->0.units() * samples@[0].price.units() == cash.units() * samples@.last().price.units(),
        Number::zero().lt(cash) ==> {
            &&& r->0.lt(cash) <==> samples@.last().price.lt(samples@[0].price)
            &&& cash.lt(r->0) <==> samples@[0].price.lt(samples@.last().price)
        },
{
    holding_follows_the_price(samples, cash, calc, r);
    one_has_its_units();
    let (first, last, equity) = (samples@[0].price, samples@.last().price, r->0);
    let coins = choose|coins: Number| #[trigger]
        call_ensures(calc, (Calc::Div(cash, samples@[0].price),), coins) && call_ensures(
            calc,
            (Calc::Mul(coins, samples@[samples@.len() - 1].price),),
            equity,
        );
    assert(is_exact(Calc::Div(cash, first), coins));
    assert(is_exact(Calc::Mul(coins, last), equity));
    let one = units_in_one();
    let (f, l, c, q, e) = (
        first.units(),
        last.units(),
        cash.units(),
        coins.units(),
        equity.units(),
    );
    assert(e * f == c * l) by (nonlinear_arith)
        requires
            q * f == c * one,
            e * one == q * l,
            0 < one,
    ;
    if Number::zero().lt(cash) {
        let zero = Number::zero();
        zero_has_no_units();
        values_are_in_order(zero, cash);
        values_are_in_order(first, zero);
        values_are_in_order(equity, cash);
        values_are_in_order(cash, equity);
        values_are_in_order(first, last);
        values_are_in_order(last, first);
        assert((e < c <==> l < f) && (c < e <==> f < l)) by (nonlinear_arith)
            requires
                e * f == c * l,
                0 < c,
                0 < f,
        ;
    }
}

proof fn peak_is_the_highest(values: Seq<Number>, k: int)
    requires
        0 <= k < values.len(),
    ensures
        exists|i: int| 0 <= i <= k && peak(values, k) == #[trigger] values[i],
        forall|i: int|
            0 <= i <= k && !values[0].is_nan() ==> !peak(values, k).lt(#[trigger] values[i]),
        !values[0].is_nan() ==> !peak(values, k).is_nan(),
        values[0].is_nan() ==> peak(values, k).is_nan(),
    decreases k,
{
    if k > 0 {
        peak_is_the_highest(values, k - 1);
        let i = choose|i: int| 0 <= i <= k - 1 && peak(values, k - 1) == #[trigger] values[i];
        assert(peak(values, k) == values[i] || peak(values, k) == values[k]);
    } else {
        assert(peak(values, k) == values[0]);
    }
}

/// A maximum drawdown that is not zero is above zero, and it is the fall from an equity to itself
/// or a later one, as a part of the first: that equity is above zero, and none up to the later one
/// is above it.
pub proof fn drawdown_is_a_fall<F: Fn(Calc) -> Number>(
    curve: &[(Timestamp, Number)],
    calc: &F,
    most: Number,
) -> (r: (int, int))
    requires
        call_ensures(compute_max_drawdown::<F>, (curve, calc), most),
        most != Number::zero(),
    ensures
        Number::zero().lt(most),
        0 <= r.0 <= r.1 < curve@.len(),
        Number::zero().lt(curve@[r.0].1),
        forall|m: int| 0 <= m <= r.1 ==> !curve@[r.0].1.lt((#[trigger] curve@[m]).1),
        exists|below: Number| #[trigger]
            call_ensures(calc, (Calc::Sub(curve@[r.0].1, curve@[r.1].1),), below) && call_ensures(
                calc,
                (Calc::Div(below, curve@[r.0].1),),
                most,
            ),
{
    let arith = arithmetic_of(calc);
    let values = equities(curve@);
    let falls = choose|falls: Seq<Number>|
        {
            &&& falls.len() == values.len()
            &&& forall|k: int|
                0 <= k < values.len() ==> is_fall_at(arith, values, k, #[trigger] falls[k])
            &&& #[trigger] is_deepest(falls, most)
        };
    let j = choose|j: int| 0 <= j < falls.len() && falls[j] == most;
    assert(is_fall_at(arith, values, j, falls[j]));
    peak_is_the_highest(values, j);
    let high = peak(values, j);
    let i = choose|i: int| 0 <= i <= j && peak(values, j) == #[trigger] values[i];
    assert(is_relative_fall(arith, high, values[j], most));
    let below = choose|below: Number| #[trigger]
        arith(Calc::Sub(high, values[j]), below) && arith(Calc::Div(below, high), most);
    assert(curve@[i].1 == high && curve@[j].1 == values[j]);
    assert(call_ensures(calc, (Calc::Sub(curve@[i].1, curve@[j].1),), below));
    assert forall|m: int| 0 <= m <= j implies !curve@[i].1.lt((#[trigger] curve@[m]).1) by {
        assert(values[m] == curve@[m].1);
    }
    (i, j)
}

/// No fall from an equity above zero that none before a later one exceeds is deeper than the
/// maximum drawdown. The first equity must be a number.
pub proof fn no_fall_is_deeper<F: Fn(Calc) -> Number>(
    curve: &[(Timestamp, Number)],
    calc: &F,
    most: Number,
    i: int,
    j: int,
    below: Number,
    fall: Number,
)
    requires
        call_ensures(compute_max_drawdown::<F>, (curve, calc), most),
        is_single_valued(arithmetic_of(calc)),
        0 <= i <= j < curve@.len(),
        !curve@[0].1.is_nan(),
        Number::zero().lt(curve@[i].1),
        forall|m: int| 0 <= m <= j ==> !curve@[i].1.lt((#[trigger] curve@[m]).1),
        call_ensures(calc, (Calc::Sub(curve@[i].1, curve@[j].1),), below),
        call_ensures(calc, (Calc::Div(below, curve@[i].1),), fall),
    ensures
        !most.lt(fall),
{
    let arith = arithmetic_of(calc);
    let values = equities(curve@);
    let falls = choose|falls: Seq<Number>|
        {
            &&& falls.len() == values.len()
            &&& forall|k: int|
                0 <= k < values.len() ==> is_fall_at(arith, values, k, #[trigger] falls[k])
            &&& #[trigger] is_deepest(falls, most)
        };
    assert(is_fall_at(arith, values, j, falls[j]));
    peak_is_the_highest(values, j);
    let h = choose|h: int| 0 <= h <= j && peak(values, j) == #[trigger] values[h];
    assert(values[h] == curve@[h].1 && values[i] == curve@[i].1 && values[j] == curve@[j].1);
    assert(!curve@[i].1.lt(curve@[h].1));
    assert(!peak(values, j).lt(values[i]));
    let high = peak(values, j);
    assert(high == curve@[i].1);
    let other = choose|below: Number| #[trigger]
        arith(Calc::Sub(high, values[j]), below) && arith(Calc::Div(below, high), falls[j]);
    assert(arith(Calc::Sub(high, values[j]), below));
    assert(calcs_agree(Calc::Sub(high, values[j]), Calc::Sub(high, values[j])));
    assert(agree(below, other));
    assert(calcs_agree(Calc::Div(below, high), Calc::Div(other, high)));
    assert(arith(Calc::Div(below, high), fall));
    assert(agree(fall, falls[j]));
    assert(!most.lt(falls[j]));
}

/// A curve whose first equity is not a number, and one without any equity above zero, has no
/// drawdown; nor has an empty one.
pub proof fn no_peak_no_drawdown<F: Fn(Calc) -> Number>(
    curve: &[(Timestamp, Number)],
    calc: &F,
    most: Number,
)
    requires
        call_ensures(compute_max_drawdown::<F>, (curve, calc), most),
        curve@.len() > 0 ==> curve@[0].1.is_nan() || forall|k: int|
            0 <= k < curve@.len() ==> !Number::zero().lt((#[trigger] curve@[k]).1),
    ensures
        most == Number::zero(),
{
    if most != Number::zero() {
        let (i, j) = drawdown_is_a_fall(curve, calc, most);
        if curve@[0].1.is_nan() {
            let arith = arithmetic_of(calc);
            let values = equities(curve@);
            let falls = choose|falls: Seq<Number>|
                {
                    &&& falls.len() == values.len()
                    &&& forall|k: int|
                        0 <= k < values.len() ==> is_fall_at(arith, values, k, #[trigger] falls[k])
                    &&& #[trigger] is_deepest(falls, most)
                };
            let k = choose|k: int| 0 <= k < falls.len() && falls[k] == most;
            assert(is_fall_at(arith, values, k, falls[k]));
            peak_is_the_highest(values, k);
            assert(values[0] == curve@[0].1);
        }
    }
}

proof fn wins_are_counted(positions: Seq<PositionView>)
    ensures
        ({
            let won = Set::new(
                |i: int|
                    0 <= i < positions.len() && (positions[i].profit matches Some(profit)
                        && Number::zero().lt(profit)),
            );
            won.finite() && won.len() == wins(positions)
        }),
    decreases positions.len(),
{
    let won = Set::new(
        |i: int|
            0 <= i < positions.len() && (positions[i].profit matches Some(profit)
                && Number::zero().lt(profit)),
    );
    reveal(Seq::filter);
    if positions.len() == 0 {
        assert(won =~= Set::empty());
    } else {
        let rest = positions.drop_last();
        let n = rest.len() as int;
        wins_are_counted(rest);
        let before = Set::new(
            |i: int|
                0 <= i < rest.len() && (rest[i].profit matches Some(profit) && Number::zero().lt(
                    profit,
                )),
        );
        if positions.last().profit matches Some(profit) && Number::zero().lt(profit) {
            assert(won =~= before.insert(n));
            assert(!before.contains(n));
        } else {
            assert(won =~= before);
        }
    }
}

/// The win rate is the number of positions with a profit above zero, on either side, divided by
/// the number of positions. Of no positions it is zero.
pub proof fn win_rate_counts_profits<F: Fn(Calc) -> Number>(
    positions: &[Position],
    calc: &F,
    rate: Number,
)
    requires
        call_ensures(compute_win_rate::<F>, (positions, calc), rate),
    ensures
        positions@.len() == 0 ==> rate == Number::zero(),
        positions@.len() > 0 ==> ({
            let won = Set::new(
                |i: int|
                    0 <= i < positions@.len() && (positions@[i].profit matches Some(profit)
                        && Number::zero().lt(profit)),
            );
            exists|some: Number, all: Number|
                {
                    &&& #[trigger] call_ensures(calc, (Calc::Count(won.len() as usize),), some)
                    &&& #[trigger] call_ensures(
                        calc,
                        (Calc::Count(positions@.len() as usize),),
                        all,
                    )
                    &&& call_ensures(calc, (Calc::Div(some, all),), rate)
                }
        }),
{
    let arith = arithmetic_of(calc);
    let views = position_views(positions@);
    if positions@.len() > 0 {
        wins_are_counted(views);
        let won = Set::new(
            |i: int|
                0 <= i < positions@.len() && (positions@[i].profit matches Some(profit)
                    && Number::zero().lt(profit)),
        );
        let won_views = Set::new(
            |i: int|
                0 <= i < views.len() && (views[i].profit matches Some(profit) && Number::zero().lt(
                    profit,
                )),
        );
        assert(won =~= won_views);
        let (some, all) = choose|some: Number, all: Number|
            {
                &&& #[trigger] arith(Calc::Count(wins(views) as usize), some)
                &&& #[trigger] arith(Calc::Count(views.len() as usize), all)
                &&& arith(Calc::Div(some, all), rate)
            };
        assert(call_ensures(calc, (Calc::Count(won.len() as usize),), some));
        assert(call_ensures(calc, (Calc::Count(positions@.len() as usize),), all));
    }
}

/// Nothing of the positions but their profits matters to the win rate, and of a profit only
/// whether it is above zero.
pub proof fn only_profits_matter<F: Fn(Calc) -> Number>(
    a: &[Position],
    b: &[Position],
    calc: &F,
    x: Number,
    y: Number,
)
    requires
        is_single_valued(arithmetic_of(calc)),
        call_ensures(compute_win_rate::<F>, (a, calc), x),
        call_ensures(compute_win_rate::<F>, (b, calc), y),
        a@.len() == b@.len(),
        forall|i: int|
            #![trigger a@[i]]
            #![trigger b@[i]]
            0 <= i < a@.len() ==> ((a@[i].profit matches Some(p) && Number::zero().lt(p)) <==> (
            b@[i].profit matches Some(q) && Number::zero().lt(q))),
    ensures
        agree(x, y),
{
    win_rate_counts_profits(a, calc, x);
    win_rate_counts_profits(b, calc, y);
    if a@.len() > 0 {
        let arith = arithmetic_of(calc);
        let won_a = Set::new(
            |i: int|
                0 <= i < a@.len() && (a@[i].profit matches Some(profit) && Number::zero().lt(
                    profit,
                )),
        );
        let won_b = Set::new(
            |i: int|
                0 <= i < b@.len() && (b@[i].profit matches Some(profit) && Number::zero().lt(
                    profit,
                )),
        );
        assert forall|i: int| won_a.contains(i) <==> won_b.contains(i) by {
            if 0 <= i < a@.len() {
                assert((a@[i].profit matches Some(p) && Number::zero().lt(p)) <==> (
                b@[i].profit matches Some(q) && Number::zero().lt(q)));
            }
        }
        assert(won_a =~= won_b);
        let (m, n) = (won_a.len() as usize, a@.len() as usize);
        let (v, all_v) = choose|some: Number, all: Number|
            {
                &&& #[trigger] call_ensures(calc, (Calc::Count(m),), some)
                &&& #[trigger] call_ensures(calc, (Calc::Count(n),), all)
                &&& call_ensures(calc, (Calc::Div(some, all),), x)
            };
        let (w, all_w) = choose|some: Number, all: Number|
            {
                &&& #[trigger] call_ensures(calc, (Calc::Count(m),), some)
                &&& #[trigger] call_ensures(calc, (Calc::Count(n),), all)
                &&& call_ensures(calc, (Calc::Div(some, all),), y)
            };
        assert(arith(Calc::Count(m), v) && arith(Calc::Count(m), w));
        assert(arith(Calc::Count(n), all_v) && arith(Calc::Count(n), all_w));
        assert(agree(v, w) && agree(all_v, all_w));
        assert(arith(Calc::Div(v, all_v), x) && arith(Calc::Div(w, all_w), y));
        assert(calcs_agree(Calc::Div(v, all_v), Calc::Div(w, all_w)));
    }
}

/// The figures that are shown are those of the result, with the parts times one hundred.
pub proof fn summaries_show_the_result<F: Fn(Calc) -> Number>(
    result: &PositionBacktestResult,
    calc: &F,
    r: Summary,
    total_return: Number,
    max_drawdown: Number,
)
    requires
        call_ensures(summarize::<F>, (result, calc), r),
        call_ensures(PositionBacktestResult::total_return_pct, (result,), total_return),
        call_ensures(PositionBacktestResult::max_drawdown_pct, (result,), max_drawdown),
    ensures
        total_return == result.total_return_pct,
        max_drawdown == result.max_drawdown_pct,
        r.initial_equity == result.initial_equity,
        r.final_equity == result.final_equity,
        r.positions == result.positions@.len(),
        call_ensures(
            calc,
            (Calc::Mul(result.total_return_pct, Number::hundred()),),
            r.total_return,
        ),
        call_ensures(
            calc,
            (Calc::Mul(result.max_drawdown_pct, Number::hundred()),),
            r.max_drawdown,
        ),
        call_ensures(calc, (Calc::Mul(result.win_rate_pct, Number::hundred()),), r.win_rate),
{
}

/// A log file is named by the prefix, an underscore, the time, and an ending.
pub proof fn log_files_are_named_in_order(prefix: &str, stamp: &str, name: String)
    requires
        call_ensures(log_file_name, (prefix, stamp), name),
    ensures
        name@.len() == prefix@.len() + stamp@.len() + 5,
        name@.take(prefix@.len() as int) == prefix@,
        name@[prefix@.len() as int] == '_',
        name@.subrange(1 + prefix@.len() as int, (prefix@.len() + 1 + stamp@.len()) as int) == stamp@,
        name@.skip((prefix@.len() + 1 + stamp@.len()) as int) == seq!['.', 'l', 'o', 'g'],
{
    reveal_strlit("_");
    reveal_strlit(".log");
    assert(name@.take(prefix@.len() as int) =~= prefix@);
    assert(name@.subrange(1 + prefix@.len() as int, (prefix@.len() + 1 + stamp@.len()) as int) =~= stamp@);
    assert(name@.skip((prefix@.len() + 1 + stamp@.len()) as int) =~= seq!['.', 'l', 'o', 'g']);
}

/// A logger for a file has the path it was made for, and a logger that does nothing never fails.
pub proof fn loggers_are_as_made(
    path: std::path::PathBuf,
    logger: NdjsonLogger,
    position: &Position,
    answer: Result<(), String>,
)
    requires
        call_ensures(NdjsonLogger::new, (path,), logger),
        call_ensures(<NoopLogger as PositionLogger>::log, (&NoopLogger, position), answer),
    ensures
        logger.path == path,
        answer is Ok,
{
}

} // verus!
