//! What holds of every backtest.

use crate::backtest::account::{
    asks_for, enters, follows, has_equity, holds, is_closed_as, is_deepest, is_fall_at,
    is_max_drawdown, is_win, is_win_rate, keeps_closed, peak, settles, settling_keeps_closed, wins,
    Account, PositionView, Scenario,
};
use crate::backtest::position::{
    breaks_off, equities, position_views, NoopLogger, PositionBacktestResult, PositionSide,
};
use crate::backtest::Analysis;
use crate::data::Sample;
use crate::number::{Arithmetic, Calc, Number};
use crate::time::Timestamp;
use vstd::prelude::*;

verus! {

/// Whether a position has all that a closed one has.
pub open spec fn is_complete(pos: PositionView) -> bool {
    &&& pos.exit_time is Some
    &&& pos.exit_price is Some
    &&& pos.exit_reason is Some
    &&& pos.profit is Some
    &&& pos.return_pct is Some
}

/// Whether all closed positions of an account are complete.
pub open spec fn all_complete(account: Account) -> bool {
    forall|i: int| 0 <= i < account.closed.len() ==> is_complete(#[trigger] account.closed[i])
}

proof fn settling_completes(
    arith: Arithmetic,
    before: Account,
    candle: Sample,
    reason: Seq<char>,
    after: Account,
)
    requires
        all_complete(before),
        settles(arith, before, candle, reason, after),
    ensures
        all_complete(after),
{
    assert forall|i: int| 0 <= i < after.closed.len() implies is_complete(
        #[trigger] after.closed[i],
    ) by {
        if before.open is Some && i < before.closed.len() {
            assert(after.closed.drop_last()[i] == after.closed[i]);
        }
    }
}

/// What a candle does to an account: nothing, or it turns to a side that it does not hold.
pub proof fn turn_of_step(scenario: Scenario, k: int, before: Account, after: Account) -> (turn: Option<
    (PositionSide, Seq<char>, Account),
>)
    requires
        scenario.steps(k, before, after),
    ensures
        match turn {
            Some((side, reason, flat)) => {
                &&& scenario.warmup <= k
                &&& !holds(before, side)
                &&& exists|analysis: Option<Analysis>| #[trigger]
                    scenario.advises(k, analysis) && asks_for(before, analysis) == Some(side)
                &&& settles(scenario.arith, before, scenario.samples[k], reason, flat)
                &&& enters(
                    scenario.arith,
                    flat,
                    side,
                    scenario.samples[k],
                    scenario.fraction,
                    reason,
                    after,
                )
            },
            None => after == before,
        },
{
    let analysis = choose|analysis: Option<Analysis>| #[trigger]
        scenario.advises(k, analysis) && follows(
            scenario.arith,
            before,
            scenario.samples[k],
            scenario.fraction,
            analysis,
            after,
        );
    let asked = if k < scenario.warmup {
        None
    } else {
        asks_for(before, analysis)
    };
    match asked {
        Some(side) => {
            let reason = analysis->0.reason@;
            let flat = choose|flat: Account| #[trigger]
                settles(scenario.arith, before, scenario.samples[k], reason, flat) && enters(
                    scenario.arith,
                    flat,
                    side,
                    scenario.samples[k],
                    scenario.fraction,
                    reason,
                    after,
                );
            Some((side, reason, flat))
        },
        None => None,
    }
}

proof fn history_completes(scenario: Scenario, accounts: Seq<Account>, k: int)
    requires
        scenario.is_history(accounts),
        0 <= k < accounts.len(),
    ensures
        all_complete(accounts[k]),
    decreases k,
{
    if k > 0 {
        history_completes(scenario, accounts, k - 1);
        assert(scenario.steps(k - 1, accounts[k - 1], accounts[k - 1 + 1]));
        if let Some((side, reason, flat)) = turn_of_step(
            scenario,
            k - 1,
            accounts[k - 1],
            accounts[k],
        ) {
            settling_completes(
                scenario.arith,
                accounts[k - 1],
                scenario.samples[k - 1],
                reason,
                flat,
            );
        }
    }
}

/// Every position that a backtest ends with is closed, with its exit, profit and return.
pub proof fn positions_end_complete(scenario: Scenario, accounts: Seq<Account>, end: Account)
    requires
        scenario.ends(accounts, end),
    ensures
        end.open is None,
        all_complete(end),
{
    history_completes(scenario, accounts, accounts.len() - 1);
    settling_completes(scenario.arith, accounts.last(), scenario.samples.last(), "EOF"@, end);
}

/// The equity curve of a result has one entry for each sample, at its instant.
pub proof fn one_equity_per_sample(scenario: Scenario, result: PositionBacktestResult)
    requires
        result.is_result(scenario),
    ensures
        result.equity_curve@.len() == scenario.samples.len(),
        forall|k: int|
            0 <= k < scenario.samples.len() ==> (#[trigger] result.equity_curve@[k]).0
                == scenario.samples[k].ts,
{
}

/// The maximum drawdown is a number, and never below zero.
pub proof fn drawdown_is_never_negative(arith: Arithmetic, values: Seq<Number>, most: Number)
    requires
        is_max_drawdown(arith, values, most),
    ensures
        Number::zero().le(most),
{
}

/// No more positions make a profit than there are.
pub proof fn wins_are_positions(positions: Seq<PositionView>)
    ensures
        wins(positions) <= positions.len(),
{
    positions.lemma_filter_len(|pos: PositionView| is_win(pos));
}

/// With a logger that does nothing, no run is broken off.
pub proof fn silent_logger_never_breaks_off(scenario: Scenario, error: String)
    ensures
        !breaks_off(&NoopLogger, scenario, error),
{
}

/// The part of the cash that goes into a position lies between nothing and all of it, whatever
/// number was asked for.
pub proof fn clamped_fraction_is_a_part(asked: Number)
    requires
        !asked.is_nan(),
    ensures
        Number::zero().le(asked.clamp(Number::zero(), Number::one())),
        asked.clamp(Number::zero(), Number::one()).le(Number::one()),
{
}

/// The candles at which a position was entered and left.
pub struct Span {
    pub enter: int,
    pub exit: int,
}

/// Whether a position was entered at a candle.
pub open spec fn entered_at(scenario: Scenario, pos: PositionView, k: int) -> bool {
    &&& scenario.warmup <= k
    &&& 0 <= k < scenario.samples.len()
    &&& pos.entry_time == scenario.samples[k].ts
    &&& pos.entry_price == scenario.samples[k].price
}

/// Whether a position was left at a candle.
pub open spec fn left_at(scenario: Scenario, pos: PositionView, k: int) -> bool {
    &&& 0 <= k < scenario.samples.len()
    &&& pos.exit_time == Some(scenario.samples[k].ts)
    &&& pos.exit_price == Some(scenario.samples[k].price)
}

/// Whether a position entered at a candle may come after one that was left before: not earlier,
/// and at the very same candle only on the other side.
pub open spec fn may_come_after(
    first: PositionView,
    left: int,
    second: PositionView,
    entered: int,
) -> bool {
    left < entered || (left == entered && first.side != second.side)
}

/// Whether closed positions have these spans, one after the other.
pub open spec fn have_spans(scenario: Scenario, closed: Seq<PositionView>, spans: Seq<Span>) -> bool {
    &&& spans.len() == closed.len()
    &&& forall|i: int|
        0 <= i < closed.len() ==> {
            &&& entered_at(scenario, #[trigger] closed[i], spans[i].enter)
            &&& left_at(scenario, closed[i], spans[i].exit)
            &&& spans[i].enter <= spans[i].exit
        }
    &&& forall|i: int, j: int|
        #![trigger closed[i], closed[j]]
        0 <= i < closed.len() && j == i + 1 && j < closed.len() ==> {
            &&& spans[i].enter < spans[i].exit
            &&& may_come_after(closed[i], spans[i].exit, closed[j], spans[j].enter)
        }
}

/// Whether, after `k` candles, an account's closed positions have these spans, all left before,
/// and what is open was entered at `entered`, after all of them.
spec fn stands_with(
    scenario: Scenario,
    account: Account,
    k: int,
    spans: Seq<Span>,
    entered: int,
) -> bool {
    &&& have_spans(scenario, account.closed, spans)
    &&& forall|i: int| 0 <= i < spans.len() ==> (#[trigger] spans[i]).enter < spans[i].exit < k
    &&& account.open matches Some(pos) ==> {
        &&& entered < k
        &&& entered_at(scenario, pos, entered)
        &&& spans.len() > 0 ==> may_come_after(
            account.closed.last(),
            spans.last().exit,
            pos,
            entered,
        )
    }
}

proof fn spans_grow(
    scenario: Scenario,
    before: Account,
    k: int,
    spans: Seq<Span>,
    entered: int,
    candle: int,
    reason: Seq<char>,
    after: Account,
)
    requires
        stands_with(scenario, before, k, spans, entered),
        before.open is Some,
        0 <= candle < scenario.samples.len(),
        k - 1 <= candle <= k,
        settles(scenario.arith, before, scenario.samples[candle], reason, after),
    ensures
        have_spans(scenario, after.closed, spans.push(Span { enter: entered, exit: candle })),
{
    let grown = spans.push(Span { enter: entered, exit: candle });
    let n = before.closed.len() as int;
    assert forall|i: int| 0 <= i < after.closed.len() implies entered_at(
        scenario,
        #[trigger] after.closed[i],
        grown[i].enter,
    ) && left_at(scenario, after.closed[i], grown[i].exit) && grown[i].enter <= grown[i].exit by {
        if i < n {
            assert(after.closed.drop_last()[i] == before.closed[i]);
            assert(grown[i] == spans[i]);
        }
    }
    assert forall|i: int, j: int|
        #![trigger after.closed[i], after.closed[j]]
        0 <= i < after.closed.len() && j == i + 1 && j < after.closed.len() implies grown[i].enter
        < grown[i].exit && may_come_after(
        after.closed[i],
        grown[i].exit,
        after.closed[j],
        grown[j].enter,
    ) by {
        assert(after.closed.drop_last()[i] == before.closed[i]);
        assert(grown[i] == spans[i]);
        if j < n {
            assert(after.closed.drop_last()[j] == before.closed[j]);
            assert(grown[j] == spans[j]);
        }
    }
}

/// Whether a product or quotient of values that are not zero or below is zero or below after
/// all.
pub open spec fn vanishes(c: Calc, r: Number) -> bool {
    r.le(Number::zero()) && match c {
        Calc::Mul(a, b) => !a.le(Number::zero()) && !b.le(Number::zero()),
        Calc::Div(a, b) => !a.le(Number::zero()) && !b.le(Number::zero()),
        _ => false,
    }
}

/// An arithmetic without the results that vanish. What can be done with it is what is done where
/// no product or quotient that is made underflows.
pub open spec fn without_underflow(arith: Arithmetic) -> Arithmetic {
    |c: Calc, r: Number| arith(c, r) && !vanishes(c, r)
}

/// Whether no sample has a price of zero or below.
pub open spec fn prices_count(samples: Seq<Sample>) -> bool {
    forall|k: int| 0 <= k < samples.len() ==> !(#[trigger] samples[k]).price.le(Number::zero())
}

/// Whether nothing but a lack of cash can keep a position from being opened.
spec fn opens_freely(scenario: Scenario) -> bool {
    &&& prices_count(scenario.samples)
    &&& forall|c: Calc, r: Number| #[trigger] (scenario.arith)(c, r) ==> !vanishes(c, r)
}

/// Whether each span begins where the one before it ended.
pub open spec fn spans_join(spans: Seq<Span>) -> bool {
    forall|i: int, j: int|
        #![trigger spans[i], spans[j]]
        0 <= i && j == i + 1 && j < spans.len() ==> spans[i].exit == spans[j].enter
}

/// Whether what is open was entered where the last span ended. Where a position was closed and
/// none opened, there is no cash.
spec fn stands_joined(scenario: Scenario, account: Account, spans: Seq<Span>, entered: int) -> bool {
    &&& spans_join(spans)
    &&& account.open is Some || spans.len() > 0 ==> !scenario.fraction.le(Number::zero())
    &&& spans.len() > 0 ==> match account.open {
        Some(_) => entered == spans.last().exit,
        None => account.cash.le(Number::zero()),
    }
}

proof fn history_has_spans(scenario: Scenario, accounts: Seq<Account>, k: int) -> (r: (
    Seq<Span>,
    int,
))
    requires
        scenario.is_history(accounts),
        0 <= k < accounts.len(),
    ensures
        stands_with(scenario, accounts[k], k, r.0, r.1),
        opens_freely(scenario) ==> stands_joined(scenario, accounts[k], r.0, r.1),
    decreases k,
{
    if k == 0 {
        (Seq::empty(), 0)
    } else {
        let (spans, entered) = history_has_spans(scenario, accounts, k - 1);
        let before = accounts[k - 1];
        assert(scenario.steps(k - 1, accounts[k - 1], accounts[k - 1 + 1]));
        match turn_of_step(scenario, k - 1, before, accounts[k]) {
            Some((side, reason, flat)) => {
                if before.open is Some {
                    spans_grow(
                        scenario,
                        before,
                        k - 1,
                        spans,
                        entered,
                        k - 1,
                        reason,
                        flat,
                    );
                    let grown = spans.push(Span { enter: entered, exit: k - 1 });
                    assert forall|i: int| 0 <= i < grown.len() implies (#[trigger] grown[i]).enter
                        < grown[i].exit < k by {
                        if i < spans.len() {
                            assert(grown[i] == spans[i]);
                        }
                    }
                    if opens_freely(scenario) {
                        entering_freely(scenario, k - 1, flat, side, reason, accounts[k]);
                    }
                    (grown, k - 1)
                } else {
                    (spans, k - 1)
                }
            },
            None => (spans, entered),
        }
    }
}

proof fn entering_freely(
    scenario: Scenario,
    k: int,
    flat: Account,
    side: PositionSide,
    reason: Seq<char>,
    after: Account,
)
    requires
        opens_freely(scenario),
        0 <= k < scenario.samples.len(),
        !scenario.fraction.le(Number::zero()),
        enters(
            scenario.arith,
            flat,
            side,
            scenario.samples[k],
            scenario.fraction,
            reason,
            after,
        ),
    ensures
        after.open is None ==> after.cash.le(Number::zero()),
{
    assert(!scenario.samples[k].price.le(Number::zero()));
}

/// At most one position is held at a time. Each position of a backtest is entered at a candle at
/// which the strategy is asked, and left at that candle or a later one, at the prices and
/// instants of these candles; the next is entered after that, or at the candle at which the one
/// before it was left, and then on the other side.
pub proof fn positions_follow_one_another(scenario: Scenario, accounts: Seq<Account>, end: Account)
    requires
        scenario.ends(accounts, end),
    ensures
        exists|spans: Seq<Span>| have_spans(scenario, end.closed, spans),
{
    let k = accounts.len() - 1;
    let (spans, entered) = history_has_spans(scenario, accounts, k);
    if accounts.last().open is Some {
        spans_grow(scenario, accounts.last(), k, spans, entered, k - 1, "EOF"@, end);
    }
}

/// Whether each position was entered on the other side than the one before it, at the price and
/// the instant at which that one was left.
pub open spec fn positions_join(closed: Seq<PositionView>) -> bool {
    forall|i: int, j: int|
        #![trigger closed[i], closed[j]]
        0 <= i && j == i + 1 && j < closed.len() ==> {
            &&& closed[j].side != closed[i].side
            &&& closed[i].exit_time == Some(closed[j].entry_time)
            &&& closed[i].exit_price == Some(closed[j].entry_price)
        }
}

/// Where no price is zero or below and nothing underflows, each position but the first is entered
/// at the very candle at which the one before it was left, on the other side.
pub proof fn positions_follow_at_once(scenario: Scenario, accounts: Seq<Account>, end: Account)
    requires
        prices_count(scenario.samples),
        scenario.with(without_underflow(scenario.arith)).ends(accounts, end),
    ensures
        exists|spans: Seq<Span>| #[trigger]
            have_spans(scenario, end.closed, spans) && spans_join(spans),
        positions_join(end.closed),
{
    let freely = scenario.with(without_underflow(scenario.arith));
    let k = accounts.len() - 1;
    let (spans, entered) = history_has_spans(freely, accounts, k);
    let all = if accounts.last().open is Some {
        spans_grow(freely, accounts.last(), k, spans, entered, k - 1, "EOF"@, end);
        spans.push(Span { enter: entered, exit: k - 1 })
    } else {
        spans
    };
    assert(have_spans(freely, end.closed, all));
    assert forall|i: int| 0 <= i < end.closed.len() implies entered_at(
        scenario,
        #[trigger] end.closed[i],
        all[i].enter,
    ) && left_at(scenario, end.closed[i], all[i].exit) by {
        assert(entered_at(freely, end.closed[i], all[i].enter));
    }
    assert(have_spans(scenario, end.closed, all));
    assert forall|i: int, j: int|
        #![trigger all[i], all[j]]
        0 <= i && j == i + 1 && j < all.len() implies all[i].exit == all[j].enter by {
        assert(all[i] == spans[i]);
        if j < spans.len() {
            assert(all[j] == spans[j]);
        }
    }
    assert forall|i: int, j: int|
        #![trigger end.closed[i], end.closed[j]]
        0 <= i && j == i + 1 && j < end.closed.len() implies {
        &&& end.closed[j].side != end.closed[i].side
        &&& end.closed[i].exit_time == Some(end.closed[j].entry_time)
        &&& end.closed[i].exit_price == Some(end.closed[j].entry_price)
    } by {
        assert(all[i].exit == all[j].enter);
    }
}

/// Whether a scenario never has anything to open a position with.
pub open spec fn has_no_stake(scenario: Scenario) -> bool {
    scenario.fraction.le(Number::zero()) || scenario.initial_cash.le(Number::zero())
}

/// Whether the strategy never gives a signal when it is asked.
pub open spec fn has_no_signal(scenario: Scenario) -> bool {
    forall|k: int, analysis: Option<Analysis>|
        scenario.warmup <= k && #[trigger] scenario.advises(k, analysis) ==> (analysis matches Some(
            analysis,
        ) ==> analysis.signal is None)
}

proof fn nothing_happens(scenario: Scenario, accounts: Seq<Account>, k: int)
    requires
        has_no_stake(scenario) || has_no_signal(scenario),
        scenario.is_history(accounts),
        0 <= k < accounts.len(),
    ensures
        accounts[k] == scenario.start(),
    decreases k,
{
    if k > 0 {
        nothing_happens(scenario, accounts, k - 1);
        assert(scenario.steps(k - 1, accounts[k - 1], accounts[k - 1 + 1]));
        let turn = turn_of_step(scenario, k - 1, accounts[k - 1], accounts[k]);
    }
}

/// With no cash, or with no part of it to go into a position, no position is ever opened and the
/// cash stays as it is.
pub proof fn no_stake_no_positions(scenario: Scenario, accounts: Seq<Account>, end: Account)
    requires
        scenario.ends(accounts, end),
        has_no_stake(scenario),
    ensures
        end.closed.len() == 0,
        end.cash == scenario.initial_cash,
{
    nothing_happens(scenario, accounts, accounts.len() - 1);
}

/// Without a signal no position is ever opened and the cash stays as it is.
pub proof fn no_signal_no_positions(scenario: Scenario, accounts: Seq<Account>, end: Account)
    requires
        scenario.ends(accounts, end),
        has_no_signal(scenario),
    ensures
        end.closed.len() == 0,
        end.cash == scenario.initial_cash,
{
    nothing_happens(scenario, accounts, accounts.len() - 1);
}

proof fn history_rests(scenario: Scenario, accounts: Seq<Account>, k: int)
    requires
        scenario.is_history(accounts),
        0 <= k < accounts.len(),
        k <= scenario.warmup,
    ensures
        accounts[k] == scenario.start(),
    decreases k,
{
    if k > 0 {
        history_rests(scenario, accounts, k - 1);
        assert(scenario.steps(k - 1, accounts[k - 1], accounts[k - 1 + 1]));
    }
}

/// Up to the candle at which the strategy is first asked, the equity is the cash to begin with.
pub proof fn curve_starts_at_the_cash(
    scenario: Scenario,
    accounts: Seq<Account>,
    curve: Seq<(Timestamp, Number)>,
)
    requires
        scenario.is_history(accounts),
        scenario.is_curve(accounts, curve),
    ensures
        forall|k: int|
            0 <= k < curve.len() && k <= scenario.warmup ==> (scenario.arith)(
                Calc::Add(scenario.initial_cash, Number::zero()),
                (#[trigger] curve[k]).1,
            ),
{
    assert forall|k: int| 0 <= k < curve.len() && k <= scenario.warmup implies (scenario.arith)(
        Calc::Add(scenario.initial_cash, Number::zero()),
        (#[trigger] curve[k]).1,
    ) by {
        history_rests(scenario, accounts, k);
    }
}

/// What is closed at one candle is closed at every later one, as it was and in its place.
pub proof fn closed_positions_stay(scenario: Scenario, accounts: Seq<Account>, j: int, k: int)
    requires
        scenario.is_history(accounts),
        0 <= j <= k < accounts.len(),
    ensures
        keeps_closed(accounts[j], accounts[k]),
    decreases k - j,
{
    if j == k {
        assert(accounts[k].closed.take(accounts[k].closed.len() as int) =~= accounts[k].closed);
    } else {
        closed_positions_stay(scenario, accounts, j, k - 1);
        let before = accounts[k - 1];
        let after = accounts[k];
        assert(scenario.steps(k - 1, accounts[k - 1], accounts[k - 1 + 1]));
        match turn_of_step(scenario, k - 1, before, after) {
            Some((side, reason, flat)) => {
                settling_keeps_closed(
                    scenario.arith,
                    before,
                    scenario.samples[k - 1],
                    reason,
                    flat,
                );
            },
            None => {
                assert(after.closed.take(before.closed.len() as int) =~= before.closed);
            },
        }
        let first = accounts[j].closed.len() as int;
        assert(after.closed.take(first) =~= after.closed.take(before.closed.len() as int).take(
            first,
        ));
    }
}

/// Whether differences and products have the sign that they ought to have, as they do in binary64
/// arithmetic.
pub open spec fn signs_are_kept(arith: Arithmetic) -> bool {
    &&& forall|a: Number, b: Number, r: Number| #[trigger]
        arith(Calc::Sub(a, b), r) && a.is_finite() && b.is_finite() && b.le(a)
            ==> Number::zero().le(r)
    &&& forall|a: Number, b: Number, r: Number| #[trigger]
        arith(Calc::Mul(a, b), r) && Number::zero().le(a) && Number::zero().lt(b) && b.is_finite()
            ==> Number::zero().le(r)
}

/// Where signs are kept, a long position makes no loss when the price has not fallen since its
/// entry, and a short one makes none when the price has not risen.
pub proof fn no_loss_where_the_price_went_along(
    arith: Arithmetic,
    pos: PositionView,
    exit_price: Number,
    exit_time: Timestamp,
    exit_reason: Seq<char>,
    closed: PositionView,
)
    requires
        signs_are_kept(arith),
        Number::zero().lt(pos.size),
        pos.size.is_finite(),
        pos.entry_price.is_finite(),
        exit_price.is_finite(),
        is_closed_as(arith, pos, exit_price, exit_time, exit_reason, closed),
        match pos.side {
            PositionSide::Long => pos.entry_price.le(exit_price),
            PositionSide::Short => exit_price.le(pos.entry_price),
        },
    ensures
        Number::zero().le(closed.profit->0),
{
}

/// Whether counts keep their order, and a number divided by one that is not smaller gives a part
/// of one, as they do in binary64 arithmetic.
pub open spec fn parts_are_kept(arith: Arithmetic) -> bool {
    &&& forall|m: usize, a: Number| #[trigger]
        arith(Calc::Count(m), a) ==> Number::zero().le(a) && a.is_finite()
    &&& forall|m: usize, n: usize, a: Number, b: Number| #[trigger]
        arith(Calc::Count(m), a) && #[trigger] arith(Calc::Count(n), b) && m <= n ==> a.le(b)
    &&& forall|n: usize, b: Number| #[trigger]
        arith(Calc::Count(n), b) && n > 0 ==> Number::zero().lt(b)
    &&& forall|a: Number, b: Number, r: Number| #[trigger]
        arith(Calc::Div(a, b), r) && Number::zero().le(a) && a.le(b) && Number::zero().lt(b)
            && b.is_finite() ==> Number::zero().le(r) && r.le(Number::one())
}

/// Where parts are kept, the win rate lies between zero and one.
pub proof fn win_rate_is_a_part(arith: Arithmetic, positions: Seq<PositionView>, rate: Number)
    requires
        parts_are_kept(arith),
        positions.len() <= usize::MAX,
        is_win_rate(arith, positions, rate),
    ensures
        Number::zero().le(rate),
        rate.le(Number::one()),
{
    wins_are_positions(positions);
}

/// Whether a positive number less itself is zero, and zero divided by a positive number is zero,
/// as in binary64 arithmetic.
pub open spec fn nothing_is_zero(arith: Arithmetic) -> bool {
    &&& forall|a: Number, r: Number| #[trigger]
        arith(Calc::Sub(a, a), r) && Number::zero().lt(a) && a.is_finite() ==> r == Number::zero()
    &&& forall|b: Number, r: Number| #[trigger]
        arith(Calc::Div(Number::zero(), b), r) && Number::zero().lt(b) ==> r == Number::zero()
}

/// Whether a curve never falls.
pub open spec fn never_falls(values: Seq<Number>) -> bool {
    forall|i: int, j: int|
        0 <= i <= j < values.len() ==> (#[trigger] values[i]).le(#[trigger] values[j])
}

proof fn peak_of_rising_curve(values: Seq<Number>, k: int)
    requires
        never_falls(values),
        0 <= k < values.len(),
    ensures
        peak(values, k).le(values[k]),
        values[k].le(peak(values, k)),
    decreases k,
{
    assert(values[k].le(values[k]));
    if k > 0 {
        peak_of_rising_curve(values, k - 1);
        assert(values[k - 1].le(values[k]));
    }
}

/// A curve that never falls has no drawdown.
pub proof fn rising_curve_has_no_drawdown(arith: Arithmetic, values: Seq<Number>, most: Number)
    requires
        nothing_is_zero(arith),
        never_falls(values),
        forall|k: int| 0 <= k < values.len() ==> (#[trigger] values[k]).is_finite(),
        is_max_drawdown(arith, values, most),
    ensures
        most == Number::zero(),
{
    let falls = choose|falls: Seq<Number>|
        {
            &&& falls.len() == values.len()
            &&& forall|k: int|
                0 <= k < values.len() ==> is_fall_at(arith, values, k, #[trigger] falls[k])
            &&& #[trigger] is_deepest(falls, most)
        };
    assert forall|k: int| 0 <= k < falls.len() implies #[trigger] falls[k] == Number::zero() by {
        peak_of_rising_curve(values, k);
        assert(is_fall_at(arith, values, k, falls[k]));
    }
}

/// Whether adding zero moves no number, and a number other than zero divided by itself is one, as
/// in binary64 arithmetic.
pub open spec fn rest_is_rest(arith: Arithmetic) -> bool {
    &&& nothing_is_zero(arith)
    &&& forall|a: Number, r: Number| #[trigger]
        arith(Calc::Add(a, Number::zero()), r) && a.is_finite() ==> r.is_finite() && r.rank()
            == a.rank()
    &&& forall|a: Number, r: Number| #[trigger]
        arith(Calc::Div(a, a), r) && a.is_finite() && a.rank() != 0 ==> r == Number::one()
}

/// Whether a result is that of doing nothing with some cash: there are no positions, the equity
/// stays at the cash all along, and there is no drawdown and no win. From cash other than zero,
/// the return is zero.
pub open spec fn is_idle(result: PositionBacktestResult, cash: Number) -> bool {
    &&& result.positions@.len() == 0
    &&& result.final_equity == cash
    &&& forall|k: int|
        0 <= k < result.equity_curve@.len() ==> {
            let equity = (#[trigger] result.equity_curve@[k]).1;
            equity == cash || (equity.rank() == 0 && cash.rank() == 0)
        }
    &&& result.max_drawdown_pct == Number::zero()
    &&& result.win_rate_pct == Number::zero()
    &&& cash.rank() != 0 ==> result.total_return_pct == Number::zero()
}

/// Without a stake, and without a signal, the result is that of doing nothing with the cash.
pub proof fn idle_cash_stays(scenario: Scenario, result: PositionBacktestResult)
    requires
        result.is_result(scenario),
        has_no_stake(scenario) || has_no_signal(scenario),
        rest_is_rest(scenario.arith),
        scenario.initial_cash.is_finite(),
    ensures
        is_idle(result, scenario.initial_cash),
{
    let cash = scenario.initial_cash;
    let (accounts, end) = choose|accounts: Seq<Account>, end: Account| #[trigger]
        result.is_outcome(scenario, accounts, end);
    nothing_happens(scenario, accounts, accounts.len() - 1);
    let curve = result.equity_curve@;
    let values = equities(curve);
    assert forall|k: int| 0 <= k < curve.len() implies (#[trigger] curve[k]).1.is_finite()
        && curve[k].1.rank() == cash.rank() && values[k] == curve[k].1 by {
        nothing_happens(scenario, accounts, k);
        assert(has_equity(scenario.arith, accounts[k], scenario.samples[k].price, curve[k].1));
    }
    assert forall|i: int, j: int| 0 <= i <= j < values.len() implies (#[trigger] values[i]).le(
        #[trigger] values[j],
    ) by {
        assert(values[i] == curve[i].1 && values[j] == curve[j].1);
    }
    assert forall|k: int| 0 <= k < values.len() implies (#[trigger] values[k]).is_finite() by {
        assert(values[k] == curve[k].1);
    }
    rising_curve_has_no_drawdown(scenario.arith, values, result.max_drawdown_pct);
    assert(position_views(result.positions@).len() == 0);
}

} // verus!
