//! The account of a backtest, and what happens to it at each candle.
//!
//! Everything here is relative to an arithmetic, which says what values a calculation may have.

use crate::backtest::position::PositionSide;
use crate::backtest::{Analysis, Signal};
use crate::data::Sample;
use crate::number::{Arithmetic, Calc, Number};
use crate::time::Timestamp;
use vstd::prelude::*;

verus! {

/// A position, with its reasons as sequences of characters.
#[verifier::ext_equal]
pub struct PositionView {
    pub side: PositionSide,
    pub entry_time: Timestamp,
    pub exit_time: Option<Timestamp>,
    pub entry_price: Number,
    pub exit_price: Option<Number>,
    pub entry_reason: Seq<char>,
    pub exit_reason: Option<Seq<char>>,
    pub size: Number,
    pub profit: Option<Number>,
    pub return_pct: Option<Number>,
    pub entry_collateral_gross: Number,
}

/// The cash at hand, the position that is open, and those that have been closed.
#[verifier::ext_equal]
pub struct Account {
    pub cash: Number,
    pub open: Option<PositionView>,
    pub closed: Seq<PositionView>,
}

/// The side that a signal asks for.
pub open spec fn side_of(signal: Signal) -> PositionSide {
    match signal {
        Signal::Buy => PositionSide::Long,
        Signal::Sell => PositionSide::Short,
    }
}

/// Whether the price has moved by `by` in favour of a position since its entry.
pub open spec fn moves(arith: Arithmetic, pos: PositionView, price: Number, by: Number) -> bool {
    match pos.side {
        PositionSide::Long => arith(Calc::Sub(price, pos.entry_price), by),
        PositionSide::Short => arith(Calc::Sub(pos.entry_price, price), by),
    }
}

/// Whether a position has gained `gain` at a price: the move in its favour, times its size.
pub open spec fn gains(arith: Arithmetic, pos: PositionView, price: Number, gain: Number) -> bool {
    exists|by: Number| #[trigger]
        moves(arith, pos, price, by) && arith(Calc::Mul(by, pos.size), gain)
}

/// Whether a position is worth `value` at a price. A long one is worth its size at that price; a
/// short one its collateral and what it has gained. Where the price or the size is not above
/// zero, it is worth nothing.
pub open spec fn is_worth(arith: Arithmetic, pos: PositionView, price: Number, value: Number) -> bool {
    if price.le(Number::zero()) || pos.size.le(Number::zero()) {
        value == Number::zero()
    } else {
        match pos.side {
            PositionSide::Long => arith(Calc::Mul(pos.size, price), value),
            PositionSide::Short => exists|gain: Number| #[trigger]
                gains(arith, pos, price, gain) && arith(
                    Calc::Add(pos.entry_collateral_gross, gain),
                    value,
                ),
        }
    }
}

/// Whether what is open, if anything, is worth `value` at a price.
pub open spec fn open_is_worth(
    arith: Arithmetic,
    open: Option<PositionView>,
    price: Number,
    value: Number,
) -> bool {
    match open {
        Some(pos) => is_worth(arith, pos, price, value),
        None => value == Number::zero(),
    }
}

/// Whether an account's equity at a price is `equity`: its cash and what its open position is
/// worth.
pub open spec fn has_equity(
    arith: Arithmetic,
    account: Account,
    price: Number,
    equity: Number,
) -> bool {
    exists|value: Number| #[trigger]
        open_is_worth(arith, account.open, price, value) && arith(
            Calc::Add(account.cash, value),
            equity,
        )
}

/// Whether `profit` is a part `ret` of a collateral; of a collateral that is not above zero,
/// every profit is no part.
pub open spec fn is_return(arith: Arithmetic, profit: Number, collateral: Number, ret: Number) -> bool {
    if Number::zero().lt(collateral) {
        arith(Calc::Div(profit, collateral), ret)
    } else {
        ret == Number::zero()
    }
}

/// Whether closing a position gives `closed`: the exit and the profit are filled in, and the
/// rest stays.
pub open spec fn is_closed_as(
    arith: Arithmetic,
    pos: PositionView,
    exit_price: Number,
    exit_time: Timestamp,
    exit_reason: Seq<char>,
    closed: PositionView,
) -> bool {
    &&& closed.profit is Some
    &&& gains(arith, pos, exit_price, closed.profit->0)
    &&& closed.return_pct is Some
    &&& is_return(arith, closed.profit->0, pos.entry_collateral_gross, closed.return_pct->0)
    &&& closed == PositionView {
        exit_price: Some(exit_price),
        exit_time: Some(exit_time),
        exit_reason: Some(exit_reason),
        profit: closed.profit,
        return_pct: closed.return_pct,
        ..pos
    }
}

/// A position as it is opened.
pub open spec fn opened(
    side: PositionSide,
    price: Number,
    ts: Timestamp,
    reason: Seq<char>,
    size: Number,
    collateral: Number,
) -> PositionView {
    PositionView {
        side,
        entry_time: ts,
        exit_time: None,
        entry_price: price,
        exit_price: None,
        entry_reason: reason,
        exit_reason: None,
        size,
        profit: None,
        return_pct: None,
        entry_collateral_gross: collateral,
    }
}

/// Whether opening a position with part of the cash leaves `left` and gives `pos`. Nothing is
/// opened, and the cash stays, where the price, the cash or the part is not above zero, nor
/// where the collateral or the size that come of them are not.
pub open spec fn opens(
    arith: Arithmetic,
    side: PositionSide,
    price: Number,
    ts: Timestamp,
    cash: Number,
    fraction: Number,
    reason: Seq<char>,
    left: Number,
    pos: Option<PositionView>,
) -> bool {
    if price.le(Number::zero()) || cash.le(Number::zero()) || fraction.le(Number::zero()) {
        left == cash && pos is None
    } else {
        exists|collateral: Number| #[trigger]
            arith(Calc::Mul(cash, fraction), collateral) && opens_with(
                arith,
                side,
                price,
                ts,
                cash,
                collateral,
                reason,
                left,
                pos,
            )
    }
}

/// Whether opening a position with this collateral, which is taken from the cash, leaves `left`
/// and gives `pos`.
pub open spec fn opens_with(
    arith: Arithmetic,
    side: PositionSide,
    price: Number,
    ts: Timestamp,
    cash: Number,
    collateral: Number,
    reason: Seq<char>,
    left: Number,
    pos: Option<PositionView>,
) -> bool {
    if collateral.le(Number::zero()) {
        left == cash && pos is None
    } else {
        exists|size: Number| #[trigger]
            arith(Calc::Div(collateral, price), size) && if size.le(Number::zero()) {
                left == cash && pos is None
            } else {
                &&& arith(Calc::Sub(cash, collateral), left)
                &&& pos == Some(opened(side, price, ts, reason, size, collateral))
            }
    }
}

/// Whether closing what is open at a candle leaves the account `after`: the collateral and the
/// profit go back to the cash, and the position joins those that are closed. Where nothing is
/// open, nothing changes.
pub open spec fn settles(
    arith: Arithmetic,
    before: Account,
    candle: Sample,
    reason: Seq<char>,
    after: Account,
) -> bool {
    match before.open {
        Some(pos) => {
            &&& after.open is None
            &&& after.closed.len() == before.closed.len() + 1
            &&& after.closed.drop_last() == before.closed
            &&& is_closed_as(arith, pos, candle.price, candle.ts, reason, after.closed.last())
            &&& is_credited(arith, before.cash, after.closed.last(), after.cash)
        },
        None => after == before,
    }
}

/// Whether taking a closed position's collateral and profit back makes `cash` into `after`.
pub open spec fn is_credited(
    arith: Arithmetic,
    cash: Number,
    closed: PositionView,
    after: Number,
) -> bool {
    closed.profit is Some && exists|proceeds: Number| #[trigger]
        arith(Calc::Add(closed.entry_collateral_gross, closed.profit->0), proceeds) && arith(
            Calc::Add(cash, proceeds),
            after,
        )
}

/// Whether opening a position at a candle, with nothing open, leaves the account `after`.
pub open spec fn enters(
    arith: Arithmetic,
    before: Account,
    side: PositionSide,
    candle: Sample,
    fraction: Number,
    reason: Seq<char>,
    after: Account,
) -> bool {
    &&& after.closed == before.closed
    &&& opens(
        arith,
        side,
        candle.price,
        candle.ts,
        before.cash,
        fraction,
        reason,
        after.cash,
        after.open,
    )
}

/// Whether an account has a position open on a side.
pub open spec fn holds(account: Account, side: PositionSide) -> bool {
    account.open matches Some(pos) && pos.side == side
}

/// Whether turning an account to a side at a candle leaves it `after`: what is open is closed,
/// and a position on that side is opened.
pub open spec fn turns(
    arith: Arithmetic,
    before: Account,
    side: PositionSide,
    candle: Sample,
    fraction: Number,
    reason: Seq<char>,
    after: Account,
) -> bool {
    exists|flat: Account| #[trigger]
        settles(arith, before, candle, reason, flat) && enters(
            arith,
            flat,
            side,
            candle,
            fraction,
            reason,
            after,
        )
}

/// Whether following an analysis at a candle leaves the account `after`. Without a signal, and
/// with one for the side that is held already, nothing changes.
pub open spec fn follows(
    arith: Arithmetic,
    before: Account,
    candle: Sample,
    fraction: Number,
    analysis: Option<Analysis>,
    after: Account,
) -> bool {
    match asks_for(before, analysis) {
        Some(side) => turns(
            arith,
            before,
            side,
            candle,
            fraction,
            analysis->0.reason@,
            after,
        ),
        None => after == before,
    }
}

/// The side that an analysis asks an account to turn to.
pub open spec fn asks_for(account: Account, analysis: Option<Analysis>) -> Option<PositionSide> {
    match analysis {
        Some(Analysis { signal: Some(signal), reason: _ }) => if holds(account, side_of(signal)) {
            None
        } else {
            Some(side_of(signal))
        },
        _ => None,
    }
}

/// The highest of the first values of a curve, up to and with the one at `k`: it gives way only
/// to a value above it.
pub open spec fn peak(values: Seq<Number>, k: int) -> Number
    decreases k,
{
    if k <= 0 {
        values[0]
    } else if peak(values, k - 1).lt(values[k]) {
        values[k]
    } else {
        peak(values, k - 1)
    }
}

/// Whether `fall` is how far a value lies below a peak, as a part of the peak.
pub open spec fn is_relative_fall(arith: Arithmetic, peak: Number, value: Number, fall: Number) -> bool {
    exists|below: Number| #[trigger]
        arith(Calc::Sub(peak, value), below) && arith(Calc::Div(below, peak), fall)
}

/// Whether `fall` is the fall of a curve at `k` from its peak so far. There is none from a peak
/// that is not above zero.
pub open spec fn is_fall_at(arith: Arithmetic, values: Seq<Number>, k: int, fall: Number) -> bool {
    if Number::zero().lt(peak(values, k)) {
        is_relative_fall(arith, peak(values, k), values[k], fall)
    } else {
        fall == Number::zero()
    }
}

/// Whether `most` is the greatest of some falls, or zero where none is above zero.
pub open spec fn is_deepest(falls: Seq<Number>, most: Number) -> bool {
    &&& forall|k: int| 0 <= k < falls.len() ==> !most.lt(#[trigger] falls[k])
    &&& most == Number::zero() || (Number::zero().lt(most) && falls.contains(most))
}

/// Whether `most` is the maximum drawdown of a curve: the deepest of its falls from a peak.
pub open spec fn is_max_drawdown(arith: Arithmetic, values: Seq<Number>, most: Number) -> bool {
    exists|falls: Seq<Number>|
        {
            &&& falls.len() == values.len()
            &&& forall|k: int|
                0 <= k < values.len() ==> is_fall_at(arith, values, k, #[trigger] falls[k])
            &&& #[trigger] is_deepest(falls, most)
        }
}

/// Whether a position made a profit.
pub open spec fn is_win(pos: PositionView) -> bool {
    pos.profit matches Some(profit) && Number::zero().lt(profit)
}

/// How many positions made a profit.
pub open spec fn wins(positions: Seq<PositionView>) -> nat {
    positions.filter(|pos: PositionView| is_win(pos)).len()
}

/// Whether `rate` is the part of the positions that made a profit; of no positions it is zero.
pub open spec fn is_win_rate(arith: Arithmetic, positions: Seq<PositionView>, rate: Number) -> bool {
    if positions.len() == 0 {
        rate == Number::zero()
    } else {
        exists|won: Number, all: Number|
            {
                &&& #[trigger] arith(Calc::Count(wins(positions) as usize), won)
                &&& #[trigger] arith(Calc::Count(positions.len() as usize), all)
                &&& arith(Calc::Div(won, all), rate)
            }
    }
}

/// Whether an equity has grown by a part `ret` of what it was.
pub open spec fn is_total_return(
    arith: Arithmetic,
    initial: Number,
    last: Number,
    ret: Number,
) -> bool {
    exists|ratio: Number| #[trigger]
        arith(Calc::Div(last, initial), ratio) && arith(Calc::Sub(ratio, Number::one()), ret)
}

/// A backtest to be run: the arithmetic, what may be made of the samples so far, the samples,
/// the cash to begin with, the part of the cash that goes into a position, and the number of
/// candles that must have passed before the strategy is asked.
pub struct Scenario {
    pub arith: Arithmetic,
    pub advice: spec_fn(Seq<Sample>, Option<Analysis>) -> bool,
    pub samples: Seq<Sample>,
    pub initial_cash: Number,
    pub fraction: Number,
    pub warmup: int,
}

impl Scenario {
    /// The same backtest, over the first `n` samples only.
    pub open spec fn first(self, n: int) -> Scenario {
        Scenario { samples: self.samples.take(n), ..self }
    }

    /// The same backtest, with another arithmetic.
    pub open spec fn with(self, arith: Arithmetic) -> Scenario {
        Scenario { arith, ..self }
    }

    /// The account to begin with.
    pub open spec fn start(self) -> Account {
        Account { cash: self.initial_cash, open: None, closed: Seq::empty() }
    }

    /// Whether this may be made of the samples up to and with the candle at `k`.
    pub open spec fn advises(self, k: int, analysis: Option<Analysis>) -> bool {
        (self.advice)(self.samples.take(k + 1), analysis)
    }

    /// Whether the candle at `k` turns one account into the other.
    pub open spec fn steps(self, k: int, before: Account, after: Account) -> bool {
        if k < self.warmup {
            after == before
        } else {
            exists|analysis: Option<Analysis>| #[trigger]
                self.advises(k, analysis) && follows(
                    self.arith,
                    before,
                    self.samples[k],
                    self.fraction,
                    analysis,
                    after,
                )
        }
    }

    /// Whether these are the accounts that the first candles lead through, the one to begin
    /// with first.
    pub open spec fn is_history(self, accounts: Seq<Account>) -> bool {
        &&& 1 <= accounts.len() <= self.samples.len() + 1
        &&& accounts[0] == self.start()
        &&& forall|k: int|
            0 <= k < accounts.len() - 1 ==> self.steps(k, #[trigger] accounts[k], accounts[k + 1])
    }

    /// Whether a curve is the equity at each candle, before the candle is traded on.
    pub open spec fn is_curve(
        self,
        accounts: Seq<Account>,
        curve: Seq<(Timestamp, Number)>,
    ) -> bool {
        &&& curve.len() == accounts.len() - 1
        &&& forall|k: int|
            0 <= k < curve.len() ==> {
                &&& (#[trigger] curve[k]).0 == self.samples[k].ts
                &&& has_equity(self.arith, accounts[k], self.samples[k].price, curve[k].1)
            }
    }

    /// Whether all candles lead through these accounts to the last of them, and this is the curve.
    pub open spec fn is_full_history(
        self,
        accounts: Seq<Account>,
        last: Account,
        curve: Seq<(Timestamp, Number)>,
    ) -> bool {
        &&& self.is_history(accounts)
        &&& accounts.len() == self.samples.len() + 1
        &&& accounts.last() == last
        &&& self.is_curve(accounts, curve)
    }

    /// Whether all candles may lead to an account, with this curve.
    pub open spec fn leads_to(self, last: Account, curve: Seq<(Timestamp, Number)>) -> bool {
        exists|accounts: Seq<Account>| #[trigger] self.is_full_history(accounts, last, curve)
    }

    /// Whether the run ends with the account `end`: all candles have passed, and what was still
    /// open is closed at the last of them.
    pub open spec fn ends(self, accounts: Seq<Account>, end: Account) -> bool {
        &&& self.samples.len() > 0
        &&& self.is_history(accounts)
        &&& accounts.len() == self.samples.len() + 1
        &&& settles(self.arith, accounts.last(), self.samples.last(), "EOF"@, end)
    }
}

/// A history goes on with the account that the next candle leads to.
pub proof fn history_goes_on(scenario: Scenario, accounts: Seq<Account>, next: Account)
    requires
        scenario.is_history(accounts),
        accounts.len() <= scenario.samples.len(),
        scenario.steps(accounts.len() - 1, accounts.last(), next),
    ensures
        scenario.is_history(accounts.push(next)),
{
    let grown = accounts.push(next);
    assert forall|k: int| 0 <= k < grown.len() - 1 implies scenario.steps(
        k,
        #[trigger] grown[k],
        grown[k + 1],
    ) by {
        assert(grown[k] == accounts[k]);
        if k + 1 < accounts.len() {
            assert(grown[k + 1] == accounts[k + 1]);
        }
    }
}

/// A curve goes on with the equity at the next candle.
pub proof fn curve_goes_on(
    scenario: Scenario,
    accounts: Seq<Account>,
    next: Account,
    curve: Seq<(Timestamp, Number)>,
    equity: Number,
)
    requires
        1 <= accounts.len() <= scenario.samples.len(),
        scenario.is_curve(accounts, curve),
        has_equity(
            scenario.arith,
            accounts.last(),
            scenario.samples[accounts.len() - 1].price,
            equity,
        ),
    ensures
        scenario.is_curve(
            accounts.push(next),
            curve.push((scenario.samples[accounts.len() - 1].ts, equity)),
        ),
{
    let grown = accounts.push(next);
    let longer = curve.push((scenario.samples[accounts.len() - 1].ts, equity));
    assert forall|k: int| 0 <= k < longer.len() implies (#[trigger] longer[k]).0
        == scenario.samples[k].ts && has_equity(
        scenario.arith,
        grown[k],
        scenario.samples[k].price,
        longer[k].1,
    ) by {
        assert(grown[k] == accounts[k]);
        if k < curve.len() {
            assert(longer[k] == curve[k]);
        }
    }
}

/// Positions that are closed stay closed, as they are and in their order.
pub open spec fn keeps_closed(before: Account, after: Account) -> bool {
    &&& before.closed.len() <= after.closed.len()
    &&& after.closed.take(before.closed.len() as int) == before.closed
}

/// Settling an account keeps what is closed.
pub proof fn settling_keeps_closed(
    arith: Arithmetic,
    before: Account,
    candle: Sample,
    reason: Seq<char>,
    after: Account,
)
    requires
        settles(arith, before, candle, reason, after),
    ensures
        keeps_closed(before, after),
{
    assert(after.closed.take(before.closed.len() as int) =~= before.closed);
}

/// Following an analysis keeps what is closed.
pub proof fn following_keeps_closed(
    arith: Arithmetic,
    before: Account,
    candle: Sample,
    fraction: Number,
    analysis: Option<Analysis>,
    after: Account,
)
    requires
        follows(arith, before, candle, fraction, analysis, after),
    ensures
        keeps_closed(before, after),
{
    match asks_for(before, analysis) {
        Some(side) => {
            let reason = analysis->0.reason@;
            let flat = choose|flat: Account| #[trigger]
                settles(arith, before, candle, reason, flat) && enters(
                    arith,
                    flat,
                    side,
                    candle,
                    fraction,
                    reason,
                    after,
                );
            settling_keeps_closed(arith, before, candle, reason, flat);
        },
        None => {
            assert(after.closed.take(before.closed.len() as int) =~= before.closed);
        },
    }
}

} // verus!
