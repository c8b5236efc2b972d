//! Backtests that hold one long or short position at a time.

use crate::backtest::account::{
    asks_for, curve_goes_on, enters, following_keeps_closed, follows, gains, has_equity,
    history_goes_on, is_closed_as, is_credited, is_deepest, is_fall_at, is_max_drawdown,
    is_relative_fall, is_total_return, is_win, is_win_rate, is_worth, keeps_closed, moves,
    open_is_worth, opens, peak, settles, settling_keeps_closed, side_of, wins, Account,
    PositionView, Scenario,
};
use crate::backtest::{Analysis, Candidate, Signal};
use crate::data::Sample;
use crate::number::{arithmetic_of, computes_all, Arithmetic, Calc, Number};
use crate::strategy::StrategyConfig;
use crate::time::Timestamp;
use vstd::prelude::*;

verus! {

/// A position. Its exit, profit and return are there once it is closed.
#[derive(Clone, Debug)]
pub struct Position {
    pub side: PositionSide,
    pub entry_time: Timestamp,
    pub exit_time: Option<Timestamp>,
    pub entry_price: Number,
    pub exit_price: Option<Number>,
    pub entry_reason: String,
    pub exit_reason: Option<String>,
    pub size: Number,
    pub profit: Option<Number>,
    pub return_pct: Option<Number>,
    /// Gross collateral removed from cash at entry (before entry fee).
    pub entry_collateral_gross: Number,
}

/// Which way a position goes.
#[derive(Clone, Copy, Debug, PartialEq, Eq, Structural)]
pub enum PositionSide {
    Long,
    Short,
}

impl From<Signal> for PositionSide {
    fn from(s: Signal) -> (r: PositionSide) {
        match s {
            Signal::Buy => PositionSide::Long,
            Signal::Sell => PositionSide::Short,
        }
    }
}

impl vstd::std_specs::convert::FromSpecImpl<Signal> for PositionSide {
    open spec fn obeys_from_spec() -> bool {
        true
    }

    open spec fn from_spec(s: Signal) -> PositionSide {
        side_of(s)
    }
}

impl View for Position {
    type V = PositionView;

    open spec fn view(&self) -> PositionView {
        PositionView {
            side: self.side,
            entry_time: self.entry_time,
            exit_time: self.exit_time,
            entry_price: self.entry_price,
            exit_price: self.exit_price,
            entry_reason: self.entry_reason@,
            exit_reason: match self.exit_reason {
                Some(reason) => Some(reason@),
                None => None,
            },
            size: self.size,
            profit: self.profit,
            return_pct: self.return_pct,
            entry_collateral_gross: self.entry_collateral_gross,
        }
    }
}

/// Positions by their views.
pub open spec fn position_views(positions: Seq<Position>) -> Seq<PositionView> {
    positions.map_values(|pos: Position| pos@)
}

/// What an open position, if there is one, looks like.
pub open spec fn open_view(open: Option<Position>) -> Option<PositionView> {
    match open {
        Some(pos) => Some(pos@),
        None => None,
    }
}

/// What a position is worth at a price.
pub fn position_liquidation_value<F: Fn(Calc) -> Number>(
    pos: &Position,
    price: Number,
    calc: &F,
) -> (value: Number)
    requires
        computes_all(calc),
    ensures
        is_worth(arithmetic_of(calc), pos@, price, value),
{
    if price.le(Number::zero()) || pos.size.le(Number::zero()) {
        return Number::zero();
    }
    let ghost arith = arithmetic_of(calc);
    match pos.side {
        PositionSide::Long => calc(Calc::Mul(pos.size, price)),
        PositionSide::Short => {
            let by = calc(Calc::Sub(pos.entry_price, price));
            assert(moves(arith, pos@, price, by));
            let gain = calc(Calc::Mul(by, pos.size));
            assert(gains(arith, pos@, price, gain));
            calc(Calc::Add(pos.entry_collateral_gross, gain))
        },
    }
}

/// The position, closed.
pub fn close_position<F: Fn(Calc) -> Number>(
    pos: Position,
    exit_price: Number,
    exit_time: Timestamp,
    exit_reason: String,
    calc: &F,
) -> (closed: Position)
    requires
        computes_all(calc),
    ensures
        is_closed_as(
            arithmetic_of(calc),
            pos@,
            exit_price,
            exit_time,
            exit_reason@,
            closed@,
        ),
{
    let ghost arith = arithmetic_of(calc);
    let by = match pos.side {
        PositionSide::Long => calc(Calc::Sub(exit_price, pos.entry_price)),
        PositionSide::Short => calc(Calc::Sub(pos.entry_price, exit_price)),
    };
    assert(moves(arith, pos@, exit_price, by));
    let profit = calc(Calc::Mul(by, pos.size));
    assert(gains(arith, pos@, exit_price, profit));
    let ret = if Number::zero().lt(pos.entry_collateral_gross) {
        calc(Calc::Div(profit, pos.entry_collateral_gross))
    } else {
        Number::zero()
    };
    let mut closed = pos;
    closed.exit_price = Some(exit_price);
    closed.exit_time = Some(exit_time);
    closed.exit_reason = Some(exit_reason);
    closed.profit = Some(profit);
    closed.return_pct = Some(ret);
    closed
}

/// Opens a position with part of the cash, which is taken from it.
pub fn open_position<F: Fn(Calc) -> Number>(
    side: PositionSide,
    price: Number,
    ts: Timestamp,
    cash: &mut Number,
    entry_frac: Number,
    reason: String,
    calc: &F,
) -> (pos: Option<Position>)
    requires
        computes_all(calc),
    ensures
        opens(
            arithmetic_of(calc),
            side,
            price,
            ts,
            *old(cash),
            entry_frac,
            reason@,
            *final(cash),
            open_view(pos),
        ),
{
    let ghost arith = arithmetic_of(calc);
    if price.le(Number::zero()) || cash.le(Number::zero()) || entry_frac.le(Number::zero()) {
        return None;
    }
    let entry_collateral_gross = calc(Calc::Mul(*cash, entry_frac));
    assert(arith(Calc::Mul(*cash, entry_frac), entry_collateral_gross));
    if entry_collateral_gross.le(Number::zero()) {
        return None;
    }
    let size = calc(Calc::Div(entry_collateral_gross, price));
    assert(arith(Calc::Div(entry_collateral_gross, price), size));
    if size.le(Number::zero()) {
        return None;
    }
    *cash = calc(Calc::Sub(*cash, entry_collateral_gross));
    Some(
        Position {
            side,
            entry_time: ts,
            exit_time: None,
            entry_price: price,
            exit_price: None,
            entry_reason: reason,
            exit_reason: None,
            size,
            profit: None,
            return_pct: None,
            entry_collateral_gross,
        },
    )
}

/// The equities of a curve.
pub open spec fn equities(curve: Seq<(Timestamp, Number)>) -> Seq<Number> {
    curve.map_values(|point: (Timestamp, Number)| point.1)
}

/// The maximum drawdown of an equity curve; of an empty one it is zero.
pub fn compute_max_drawdown<F: Fn(Calc) -> Number>(
    curve: &[(Timestamp, Number)],
    calc: &F,
) -> (max_dd: Number)
    requires
        computes_all(calc),
    ensures
        is_max_drawdown(arithmetic_of(calc), equities(curve@), max_dd),
{
    let ghost arith = arithmetic_of(calc);
    let ghost values = equities(curve@);
    let ghost mut falls: Seq<Number> = Seq::empty();
    let mut max_dd = Number::zero();
    if curve.len() == 0 {
        assert(is_deepest(falls, max_dd));
        return max_dd;
    }
    let mut high = curve[0].1;
    for i in 0..curve.len()
        invariant
            computes_all(calc),
            arith == arithmetic_of(calc),
            values == equities(curve@),
            high == peak(values, i - 1),
            falls.len() == i,
            forall|k: int| 0 <= k < i ==> is_fall_at(arith, values, k, #[trigger] falls[k]),
            is_deepest(falls, max_dd),
    {
        let equity = curve[i].1;
        assert(values[i as int] == equity);
        if high.lt(equity) {
            high = equity;
        }
        let ghost falls_before = falls;
        let ghost max_before = max_dd;
        if Number::zero().lt(high) {
            let below = calc(Calc::Sub(high, equity));
            let dd = calc(Calc::Div(below, high));
            proof {
                assert(arith(Calc::Sub(high, equity), below));
                assert(is_relative_fall(arith, high, equity, dd));
                falls = falls.push(dd);
            }
            if max_dd.lt(dd) {
                max_dd = dd;
            }
        } else {
            proof {
                falls = falls.push(Number::zero());
            }
        }
        proof {
            assert forall|k: int| 0 <= k < i + 1 implies is_fall_at(
                arith,
                values,
                k,
                #[trigger] falls[k],
            ) by {
                if k < i {
                    assert(falls[k] == falls_before[k]);
                }
            }
            assert forall|k: int| 0 <= k < falls.len() implies !max_dd.lt(#[trigger] falls[k]) by {
                if k < i {
                    assert(falls[k] == falls_before[k]);
                }
            }
            if max_dd != max_before {
                assert(falls[i as int] == max_dd);
            } else if falls_before.contains(max_dd) {
                let k = choose|k: int| 0 <= k < falls_before.len() && falls_before[k] == max_dd;
                assert(falls[k] == max_dd);
            }
        }
    }
    max_dd
}

/// The part of the positions that made a profit.
pub fn compute_win_rate<F: Fn(Calc) -> Number>(positions: &[Position], calc: &F) -> (rate: Number)
    requires
        computes_all(calc),
    ensures
        is_win_rate(arithmetic_of(calc), position_views(positions@), rate),
{
    if positions.len() == 0 {
        return Number::zero();
    }
    let ghost arith = arithmetic_of(calc);
    let ghost views = position_views(positions@);
    let mut count: usize = 0;
    for i in 0..positions.len()
        invariant
            views == position_views(positions@),
            count == wins(views.take(i as int)),
            count <= i,
    {
        let won = match positions[i].profit {
            Some(profit) => Number::zero().lt(profit),
            None => false,
        };
        proof {
            let is_won = |pos: PositionView| is_win(pos);
            assert(views[i as int] == positions@[i as int]@);
            assert(views.take(i + 1) =~= views.take(i as int).push(views[i as int]));
            lemma_filter_push(views.take(i as int), views[i as int], is_won);
        }
        if won {
            count = count + 1;
        }
    }
    assert(views.take(positions@.len() as int) =~= views);
    let won = calc(Calc::Count(count));
    let all = calc(Calc::Count(positions.len()));
    assert(arith(Calc::Count(wins(views) as usize), won));
    assert(arith(Calc::Count(views.len() as usize), all));
    calc(Calc::Div(won, all))
}

/// Filtering a sequence that has grown by one.
proof fn lemma_filter_push<A>(s: Seq<A>, a: A, pred: spec_fn(A) -> bool)
    ensures
        s.push(a).filter(pred) == (if pred(a) {
            s.filter(pred).push(a)
        } else {
            s.filter(pred)
        }),
{
    reveal(Seq::filter);
    assert(s.push(a).drop_last() =~= s);
}

/// Whether buying at the first sample with all the cash, and holding, comes to `equity` at the
/// last.
pub open spec fn is_held_equity(
    arith: Arithmetic,
    first: Number,
    last: Number,
    cash: Number,
    equity: Number,
) -> bool {
    exists|quantity: Number| #[trigger]
        arith(Calc::Div(cash, first), quantity) && arith(Calc::Mul(quantity, last), equity)
}

/// What buying at the first sample with all the cash, and holding, comes to at the last. There
/// is no answer without samples, nor where the first price is not above zero.
pub fn buy_and_hold_equity<F: Fn(Calc) -> Number>(
    hourly: &[Sample],
    initial_cash: Number,
    calc: &F,
) -> (equity: Option<Number>)
    requires
        computes_all(calc),
    ensures
        equity is None <==> hourly@.len() == 0 || hourly@.first().price.le(Number::zero()),
        equity is Some ==> is_held_equity(
            arithmetic_of(calc),
            hourly@.first().price,
            hourly@.last().price,
            initial_cash,
            equity->0,
        ),
{
    if hourly.len() == 0 {
        return None;
    }
    let first = hourly[0].price;
    let last = hourly[hourly.len() - 1].price;
    if first.le(Number::zero()) {
        return None;
    }
    let ghost arith = arithmetic_of(calc);
    let quantity = calc(Calc::Div(initial_cash, first));
    assert(arith(Calc::Div(initial_cash, first), quantity));
    Some(calc(Calc::Mul(quantity, last)))
}

/// Something that takes note of positions as they are closed.
pub trait PositionLogger: Sync {
    /// What may be answered when a position is handed over: anything, unless a logger promises
    /// more.
    open spec fn may_answer(&self, position: PositionView, answer: Result<(), String>) -> bool {
        true
    }

    /// Takes note of a position that has been closed, or says why it could not.
    fn log(&self, position: &Position) -> (answer: Result<(), String>)
        ensures
            self.may_answer(position@, answer),
    ;
}

/// A logger that appends each position to a file, as a line of JSON.
pub struct NdjsonLogger {
    pub path: std::path::PathBuf,
}

impl NdjsonLogger {
    /// A logger that appends to the file at a path.
    pub fn new(path: std::path::PathBuf) -> (r: NdjsonLogger)
        ensures
            r.path == path,
    {
        NdjsonLogger { path }
    }
}

/// `std::path::PathBuf`, which is carried and never looked into.
#[verifier::external_type_specification]
#[verifier::external_body]
pub struct ExPathBuf(std::path::PathBuf);

/// A logger that does nothing.
pub struct NoopLogger;

impl PositionLogger for NoopLogger {
    open spec fn may_answer(&self, position: PositionView, answer: Result<(), String>) -> bool {
        answer is Ok
    }

    fn log(&self, position: &Position) -> (answer: Result<(), String>) {
        Ok(())
    }
}

/// The account of a backtest as it is kept.
pub struct Book {
    pub cash: Number,
    pub open: Option<Position>,
    pub closed: Vec<Position>,
}

impl View for Book {
    type V = Account;

    open spec fn view(&self) -> Account {
        Account {
            cash: self.cash,
            open: open_view(self.open),
            closed: position_views(self.closed@),
        }
    }
}

/// Whether a logger may have taken note of the closed positions from the one at `from` on: to each
/// of them that is an answer it may give. Of a logger that promises nothing of its answers this
/// is always so.
pub open spec fn noted<L: PositionLogger>(logger: &L, closed: Seq<PositionView>, from: int) -> bool {
    forall|i: int|
        from <= i < closed.len() ==> logger.may_answer(#[trigger] closed[i], Ok::<(), String>(()))
}

/// What may have been noted stays so while positions are closed that may have been noted.
proof fn noted_goes_on<L: PositionLogger>(logger: &L, before: Account, after: Account)
    requires
        keeps_closed(before, after),
        noted(logger, before.closed, 0),
        noted(logger, after.closed, before.closed.len() as int),
    ensures
        noted(logger, after.closed, 0),
{
    assert forall|i: int| 0 <= i < after.closed.len() implies logger.may_answer(
        #[trigger] after.closed[i],
        Ok::<(), String>(()),
    ) by {
        if i < before.closed.len() {
            assert(after.closed[i] == after.closed.take(before.closed.len() as int)[i]);
        }
    }
}

/// Whether a logger may answer with this error when it is handed what an account has open, closed
/// at a candle. Of a logger that promises nothing of its answers this is so of every error.
pub open spec fn refuses<L: PositionLogger>(
    logger: &L,
    arith: Arithmetic,
    account: Account,
    candle: Sample,
    reason: Seq<char>,
    error: String,
) -> bool {
    account.open is Some && exists|closed: PositionView| #[trigger]
        is_closed_as(arith, account.open->0, candle.price, candle.ts, reason, closed)
            && logger.may_answer(closed, Err::<(), String>(error))
}

impl Book {
    /// A book with nothing but cash.
    pub fn new(cash: Number) -> (r: Book)
        ensures
            r@ == (Account { cash, open: None, closed: Seq::empty() }),
    {
        let book = Book { cash, open: None, closed: Vec::new() };
        assert(book@.closed =~= Seq::<PositionView>::empty());
        book
    }

    /// The equity at a price.
    pub fn equity<F: Fn(Calc) -> Number>(&self, price: Number, calc: &F) -> (equity: Number)
        requires
            computes_all(calc),
        ensures
            has_equity(arithmetic_of(calc), self@, price, equity),
    {
        let value = match &self.open {
            Some(pos) => position_liquidation_value(pos, price, calc),
            None => Number::zero(),
        };
        assert(open_is_worth(arithmetic_of(calc), self@.open, price, value));
        calc(Calc::Add(self.cash, value))
    }

    /// Takes a closed position into the book, given what the logger answered to it: the
    /// collateral and the profit go back to the cash. Where the logger answered with an error,
    /// that error comes back and the book stays as it is.
    pub fn record<F: Fn(Calc) -> Number>(
        &mut self,
        closed: Position,
        answer: Result<(), String>,
        calc: &F,
    ) -> (r: Result<(), String>)
        requires
            computes_all(calc),
            closed.profit is Some,
        ensures
            r == answer,
            r is Err ==> final(self)@ == old(self)@,
            r is Ok ==> {
                &&& final(self)@.open == old(self)@.open
                &&& final(self)@.closed == old(self)@.closed.push(closed@)
                &&& is_credited(arithmetic_of(calc), old(self)@.cash, closed@, final(self)@.cash)
            },
    {
        match &answer {
            Ok(_) => {
                let profit = closed.profit.unwrap();
                let proceeds = calc(Calc::Add(closed.entry_collateral_gross, profit));
                assert(arithmetic_of(calc)(
                    Calc::Add(closed.entry_collateral_gross, profit),
                    proceeds,
                ));
                self.cash = calc(Calc::Add(self.cash, proceeds));
                self.closed.push(closed);
                assert(self@.closed =~= old(self)@.closed.push(closed@));
                answer
            },
            Err(_) => answer,
        }
    }

    /// Closes what is open at a candle, after the logger has taken note of it. Where the logger
    /// answers with an error, that error comes back and the position is dropped from the book.
    pub fn settle<F: Fn(Calc) -> Number, L: PositionLogger>(
        &mut self,
        candle: Sample,
        reason: String,
        logger: &L,
        calc: &F,
    ) -> (r: Result<(), String>)
        requires
            computes_all(calc),
        ensures
            match r {
                Ok(_) => {
                    &&& settles(arithmetic_of(calc), old(self)@, candle, reason@, final(self)@)
                    &&& noted(logger, final(self)@.closed, old(self)@.closed.len() as int)
                },
                Err(error) => {
                    &&& refuses(logger, arithmetic_of(calc), old(self)@, candle, reason@, error)
                    &&& final(self)@ == (Account { open: None, ..old(self)@ })
                },
            },
    {
        match self.open.take() {
            Some(pos) => {
                let closed = close_position(pos, candle.price, candle.ts, reason, calc);
                let answer = logger.log(&closed);
                assert(answer is Ok ==> answer->Ok_0 == ());
                assert(is_closed_as(
                    arithmetic_of(calc),
                    old(self)@.open->0,
                    candle.price,
                    candle.ts,
                    reason@,
                    closed@,
                ));
                let r = self.record(closed, answer, calc);
                assert(r is Ok ==> self@.closed.drop_last() =~= old(self)@.closed);
                r
            },
            None => Ok(()),
        }
    }

    /// Follows what a strategy has made of the samples up to a candle: a signal for the side
    /// that is not held closes what is open and opens a position on that side. Where the logger
    /// answers with an error, that error comes back, the position that was open is dropped from
    /// the book and none is opened.
    pub fn follow<F: Fn(Calc) -> Number, L: PositionLogger>(
        &mut self,
        candle: Sample,
        fraction: Number,
        analysis: Option<Analysis>,
        logger: &L,
        calc: &F,
    ) -> (r: Result<(), String>)
        requires
            computes_all(calc),
        ensures
            match r {
                Ok(_) => {
                    &&& follows(
                        arithmetic_of(calc),
                        old(self)@,
                        candle,
                        fraction,
                        analysis,
                        final(self)@,
                    )
                    &&& noted(logger, final(self)@.closed, old(self)@.closed.len() as int)
                },
                Err(error) => {
                    &&& asks_for(old(self)@, analysis) is Some
                    &&& refuses(
                        logger,
                        arithmetic_of(calc),
                        old(self)@,
                        candle,
                        analysis->0.reason@,
                        error,
                    )
                    &&& final(self)@ == (Account { open: None, ..old(self)@ })
                },
            },
    {
        let ghost arith = arithmetic_of(calc);
        let (signal, reason) = match analysis {
            Some(Analysis { signal: Some(signal), reason }) => (signal, reason),
            _ => return Ok(()),
        };
        let want_side = PositionSide::from(signal);
        let same_side = match &self.open {
            Some(pos) => pos.side == want_side,
            None => false,
        };
        if same_side {
            return Ok(());
        }
        self.settle(candle, reason.clone(), logger, calc)?;
        let ghost flat = self@;
        self.open = open_position(
            want_side,
            candle.price,
            candle.ts,
            &mut self.cash,
            fraction,
            reason,
            calc,
        );
        proof {
            assert(settles(arith, old(self)@, candle, reason@, flat));
            assert(enters(arith, flat, want_side, candle, fraction, reason@, self@));
        }
        Ok(())
    }
}

/// The outcome of a backtest.
#[derive(Clone, Debug)]
pub struct PositionBacktestResult {
    pub initial_equity: Number,
    pub positions: Vec<Position>,
    pub equity_curve: Vec<(Timestamp, Number)>,
    pub final_equity: Number,
    pub total_return_pct: Number,
    pub max_drawdown_pct: Number,
    pub win_rate_pct: Number,
}

impl PositionBacktestResult {
    /// By what part the equity has grown.
    pub fn total_return_pct(&self) -> (r: Number)
        ensures
            r == self.total_return_pct,
    {
        self.total_return_pct
    }

    /// The deepest fall of the equity from a peak, as a part of the peak.
    pub fn max_drawdown_pct(&self) -> (r: Number)
        ensures
            r == self.max_drawdown_pct,
    {
        self.max_drawdown_pct
    }

    /// Whether this is the outcome of a scenario that leads through some accounts and ends with
    /// one.
    pub open spec fn is_outcome(
        self,
        scenario: Scenario,
        accounts: Seq<Account>,
        end: Account,
    ) -> bool {
        &&& scenario.ends(accounts, end)
        &&& scenario.is_curve(accounts, self.equity_curve@)
        &&& self.initial_equity == scenario.initial_cash
        &&& position_views(self.positions@) == end.closed
        &&& self.final_equity == end.cash
        &&& is_total_return(
            scenario.arith,
            self.initial_equity,
            self.final_equity,
            self.total_return_pct,
        )
        &&& is_max_drawdown(
            scenario.arith,
            equities(self.equity_curve@),
            self.max_drawdown_pct,
        )
        &&& is_win_rate(scenario.arith, end.closed, self.win_rate_pct)
    }

    /// Whether this is an outcome of a scenario.
    pub open spec fn is_result(self, scenario: Scenario) -> bool {
        exists|accounts: Seq<Account>, end: Account| #[trigger]
            self.is_outcome(scenario, accounts, end)
    }
}

/// What an analyst may make of the samples so far, with a strategy.
pub open spec fn advice_of<A: Fn(&[Sample], StrategyConfig) -> Option<Analysis>>(
    analyze: A,
    strategy: StrategyConfig,
) -> spec_fn(Seq<Sample>, Option<Analysis>) -> bool {
    |seen: Seq<Sample>, analysis: Option<Analysis>|
        exists|samples: &[Sample]|
            samples@ == seen && #[trigger] call_ensures(analyze, (samples, strategy), analysis)
}

/// Whether an analyst makes something of all samples.
pub open spec fn analyzes_all<A: Fn(&[Sample], StrategyConfig) -> Option<Analysis>>(
    analyze: A,
) -> bool {
    forall|samples: &[Sample], strategy: StrategyConfig| #[trigger]
        call_requires(analyze, (samples, strategy))
}

/// Whether a run may have been broken off because the logger answered with an error: it may give
/// that answer when what is open in the last of these accounts is handed to it, closed at the
/// candle that comes next, or at the last candle of all where none comes next. Of all that was
/// closed before, it may have taken note.
pub open spec fn is_broken_off<L: PositionLogger>(
    logger: &L,
    scenario: Scenario,
    accounts: Seq<Account>,
    error: String,
) -> bool {
    let k = accounts.len() - 1;
    &&& scenario.is_history(accounts)
    &&& noted(logger, accounts.last().closed, 0)
    &&& if k < scenario.samples.len() {
        &&& scenario.warmup <= k
        &&& exists|analysis: Option<Analysis>| #[trigger]
            scenario.advises(k, analysis) && asks_for(accounts.last(), analysis) is Some
                && refuses(
                logger,
                scenario.arith,
                accounts.last(),
                scenario.samples[k],
                analysis->0.reason@,
                error,
            )
    } else {
        refuses(
            logger,
            scenario.arith,
            accounts.last(),
            scenario.samples.last(),
            "EOF"@,
            error,
        )
    }
}

/// Whether a run of a scenario may be broken off with this error of the logger.
pub open spec fn breaks_off<L: PositionLogger>(
    logger: &L,
    scenario: Scenario,
    error: String,
) -> bool {
    exists|accounts: Seq<Account>| #[trigger] is_broken_off(logger, scenario, accounts, error)
}

/// Runs backtests, from some cash, and hands each closed position to a logger.
pub struct PositionBacktester<L> {
    initial_cash: Number,
    logger: L,
}

impl PositionBacktester<NoopLogger> {
    /// A backtester that takes note of nothing.
    pub fn new(initial_cash: Number) -> (r: PositionBacktester<NoopLogger>)
        ensures
            r.spec_initial_cash() == initial_cash,
            r.spec_logger() == NoopLogger,
    {
        PositionBacktester { initial_cash, logger: NoopLogger }
    }
}

impl<L> PositionBacktester<L> {
    /// The cash that a run begins with.
    pub closed spec fn spec_initial_cash(&self) -> Number {
        self.initial_cash
    }

    /// The logger.
    pub closed spec fn spec_logger(&self) -> L {
        self.logger
    }

    /// The backtest of a candidate over some samples.
    pub open spec fn scenario<F: Fn(Calc) -> Number, A: Fn(&[Sample], StrategyConfig) -> Option<
        Analysis,
    >>(&self, samples: Seq<Sample>, candidate: Candidate, analyze: A, calc: F) -> Scenario {
        Scenario {
            arith: arithmetic_of(calc),
            advice: advice_of(analyze, candidate.strategy),
            samples,
            initial_cash: self.spec_initial_cash(),
            fraction: candidate.buy_sell_fraction.clamp(Number::zero(), Number::one()),
            warmup: candidate.strategy.sma_config.long_window as int,
        }
    }
}

impl<L: PositionLogger> PositionBacktester<L> {
    /// A backtester with a logger.
    pub fn with_logger(initial_cash: Number, logger: L) -> (r: PositionBacktester<L>)
        ensures
            r.spec_initial_cash() == initial_cash,
            r.spec_logger() == logger,
    {
        PositionBacktester { initial_cash, logger }
    }

    /// Leads a book through all candles: the curve of its equity comes back with it.
    fn run_candles<F: Fn(Calc) -> Number, A: Fn(&[Sample], StrategyConfig) -> Option<Analysis>>(
        &self,
        samples: &[Sample],
        candidate: &Candidate,
        analyze: &A,
        calc: &F,
    ) -> (r: Result<(Book, Vec<(Timestamp, Number)>), String>)
        requires
            computes_all(calc),
            analyzes_all(analyze),
            candidate.strategy.sma_config.long_window < usize::MAX,
        ensures
            match r {
                Ok((book, curve)) => {
                    &&& self.scenario(samples@, *candidate, analyze, calc).leads_to(book@, curve@)
                    &&& noted(&self.logger, book@.closed, 0)
                },
                Err(error) => breaks_off(
                    &self.logger,
                    self.scenario(samples@, *candidate, analyze, calc),
                    error,
                ),
            },
    {
        let long_window: usize = candidate.strategy.sma_config.long_window;
        let ghost scenario = self.scenario(samples@, *candidate, analyze, calc);
        let fraction = candidate.buy_sell_fraction.clamp(Number::zero(), Number::one());
        let mut book = Book::new(self.initial_cash);
        let mut equity_curve: Vec<(Timestamp, Number)> = Vec::with_capacity(samples.len());
        let ghost mut accounts: Seq<Account> = seq![book@];

        for i in 0..samples.len()
            invariant
                computes_all(calc),
                analyzes_all(analyze),
                long_window == candidate.strategy.sma_config.long_window,
                long_window < usize::MAX,
                scenario == self.scenario(samples@, *candidate, analyze, calc),
                fraction == scenario.fraction,
                accounts.len() == i + 1,
                accounts.last() == book@,
                scenario.is_history(accounts),
                scenario.is_curve(accounts, equity_curve@),
                noted(&self.logger, book@.closed, 0),
        {
            let candle = samples[i];
            let equity = book.equity(candle.price, calc);
            let ghost before = book@;
            let ghost curve = equity_curve@;
            equity_curve.push((candle.ts, equity));
            // The averages need data up to the longer window, and one sample more.
            if i + 1 >= long_window + 1 {
                let seen = vstd::slice::slice_subrange(samples, 0, i + 1);
                let analysis = analyze(seen, candidate.strategy);
                proof {
                    assert(seen@ =~= samples@.take(i + 1));
                    assert(call_ensures(analyze, (seen, candidate.strategy), analysis));
                    assert(scenario.advises(i as int, analysis));
                }
                match book.follow(candle, fraction, analysis, &self.logger, calc) {
                    Ok(_) => {
                        proof {
                            following_keeps_closed(
                                scenario.arith,
                                before,
                                candle,
                                fraction,
                                analysis,
                                book@,
                            );
                            noted_goes_on(&self.logger, before, book@);
                        }
                    },
                    Err(error) => {
                        assert(is_broken_off(&self.logger, scenario, accounts, error));
                        return Err(error);
                    },
                }
            }
            proof {
                assert(scenario.steps(i as int, before, book@));
                history_goes_on(scenario, accounts, book@);
                curve_goes_on(scenario, accounts, book@, curve, equity);
                accounts = accounts.push(book@);
            }
        }
        assert(scenario.is_full_history(accounts, book@, equity_curve@));
        assert(scenario.leads_to(book@, equity_curve@));
        Ok((book, equity_curve))
    }

    /// Runs a backtest of a candidate over some samples. At each candle from the one on at which
    /// the longer average is full, the analyst is handed the samples so far, and the book follows
    /// what comes back.
    pub fn run_backtest<F: Fn(Calc) -> Number, A: Fn(&[Sample], StrategyConfig) -> Option<Analysis>>(
        &self,
        samples: &[Sample],
        candidate: &Candidate,
        analyze: &A,
        calc: &F,
    ) -> (r: Result<PositionBacktestResult, String>)
        requires
            computes_all(calc),
            analyzes_all(analyze),
            candidate.strategy.sma_config.long_window < usize::MAX,
        ensures
            match r {
                Ok(result) => {
                    &&& samples@.len() > candidate.strategy.sma_config.long_window
                    &&& result.is_result(self.scenario(samples@, *candidate, analyze, calc))
                    &&& noted(&self.spec_logger(), position_views(result.positions@), 0)
                },
                Err(error) => if samples@.len() <= candidate.strategy.sma_config.long_window {
                    error@ == "Not enough data"@
                } else {
                    breaks_off(
                        &self.spec_logger(),
                        self.scenario(samples@, *candidate, analyze, calc),
                        error,
                    )
                },
            },
    {
        if samples.len() < candidate.strategy.sma_config.long_window + 1 {
            return Err("Not enough data".to_string());
        }
        let ghost scenario = self.scenario(samples@, *candidate, analyze, calc);
        let (mut book, equity_curve) = self.run_candles(samples, candidate, analyze, calc)?;
        let ghost before = book@;
        let ghost accounts = choose|accounts: Seq<Account>| #[trigger]
            scenario.is_full_history(accounts, before, equity_curve@);

        // If a position is open close it.
        let last = samples[samples.len() - 1];
        match book.settle(last, "EOF".to_string(), &self.logger, calc) {
            Ok(_) => {},
            Err(error) => {
                assert(is_broken_off(&self.logger, scenario, accounts, error));
                return Err(error);
            },
        }
        let ghost end = book@;
        proof {
            settling_keeps_closed(scenario.arith, before, last, "EOF"@, end);
            noted_goes_on(&self.logger, before, end);
        }
        let final_equity = book.cash;
        let ratio = calc(Calc::Div(final_equity, self.initial_cash));
        assert((scenario.arith)(Calc::Div(final_equity, self.initial_cash), ratio));
        let total_return_pct = calc(Calc::Sub(ratio, Number::one()));
        let max_drawdown_pct = compute_max_drawdown(equity_curve.as_slice(), calc);
        let win_rate_pct = compute_win_rate(book.closed.as_slice(), calc);
        let result = PositionBacktestResult {
            initial_equity: self.initial_cash,
            positions: book.closed,
            equity_curve,
            final_equity,
            total_return_pct,
            max_drawdown_pct,
            win_rate_pct,
        };
        assert(result.is_outcome(scenario, accounts, end));
        Ok(result)
    }
}

/// The figures of a result as they are shown, with parts given in percent.
#[derive(Clone, Copy, Debug, PartialEq, Eq, Structural)]
pub struct Summary {
    pub initial_equity: Number,
    pub final_equity: Number,
    pub total_return: Number,
    pub max_drawdown: Number,
    pub positions: usize,
    pub win_rate: Number,
}

/// The figures of a result as they are shown.
pub fn summarize<F: Fn(Calc) -> Number>(result: &PositionBacktestResult, calc: &F) -> (r: Summary)
    requires
        computes_all(calc),
    ensures
        r.initial_equity == result.initial_equity,
        r.final_equity == result.final_equity,
        arithmetic_of(calc)(
            Calc::Mul(result.total_return_pct, Number::hundred()),
            r.total_return,
        ),
        arithmetic_of(calc)(
            Calc::Mul(result.max_drawdown_pct, Number::hundred()),
            r.max_drawdown,
        ),
        r.positions == result.positions@.len(),
        arithmetic_of(calc)(Calc::Mul(result.win_rate_pct, Number::hundred()), r.win_rate),
{
    Summary {
        initial_equity: result.initial_equity,
        final_equity: result.final_equity,
        total_return: calc(Calc::Mul(result.total_return_pct, Number::hundred())),
        max_drawdown: calc(Calc::Mul(result.max_drawdown_pct, Number::hundred())),
        positions: result.positions.len(),
        win_rate: calc(Calc::Mul(result.win_rate_pct, Number::hundred())),
    }
}

} // verus!
