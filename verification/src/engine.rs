//! The signal scorer and trade simulator.
//!
//! The scorer turns one frame row plus a sentiment scalar into weighted buy
//! and sell scores and averaging opportunities. The simulator walks the
//! last year of rows, driving a single long position through entries,
//! scaled averaging buys, partial profit-taking, full exits and a loss
//! stop, and reports return-on-investment figures.
//!
//! Cash and position amounts are scaled integers held in 128-bit words and
//! saturate at `AMOUNT_CAP`, a ceiling far beyond any realistic portfolio,
//! so every arithmetic step stays in range.

use vstd::prelude::*;
use crate::indicators::{IndicatorRow, IndicatorFrame, frame_bounded};
use crate::num::tdiv;
use crate::{SCALE, PRICE_MAX, DATETIME_MAX};

verus! {

/// Ceiling for cash and position amounts; arithmetic saturates here.
pub const AMOUNT_CAP: i128 = 100_000_000_000_000_000_000;

/// The kind of a recorded trade.
#[derive(Debug, Clone, Copy, PartialEq, Eq, Structural)]
pub enum TradeType {
    Buy,
    DcaBuy,
    PartialSell,
    FullSell,
    FinalSell,
}

/// An append-only audit record of one executed trade.
#[derive(Debug, Clone, Copy)]
pub struct Trade {
    pub trade_type: TradeType,
    pub datetime: i64,
    pub price: i64,
    pub amount: i128,
}

/// The open position: cost-weighted average entry price, amount held,
/// total cash invested, and the entry timestamp.
#[derive(Debug, Clone, Copy)]
pub struct Position {
    pub avg_price: i64,
    pub amount: i128,
    pub investment: i128,
    pub entry_time: i64,
}

/// Immutable configuration of the simulator. Fractions and the fee are
/// scaled by `SCALE`; the two count thresholds are legacy fields kept for
/// compatibility.
#[derive(Debug, Clone, Copy)]
pub struct Params {
    pub initial_capital: i64,
    pub initial_investment_fraction: i64,
    pub dca_buy_threshold: i64,
    pub dca_buy_fraction: i64,
    pub profit_sell_threshold: i64,
    pub profit_sell_fraction: i64,
    pub generic_fee: i64,
    pub buy_threshold: usize,
    pub sell_threshold: usize,
}

/// Configuration values inside the ranges the simulator's arithmetic needs.
pub open spec fn params_wf(p: Params) -> bool {
    &&& 1 <= p.initial_capital <= 1_000_000_000_000_000_000i64
    &&& 0 <= p.initial_investment_fraction <= SCALE
    &&& 0 <= p.dca_buy_threshold <= SCALE
    &&& 0 <= p.dca_buy_fraction <= SCALE
    &&& 0 <= p.profit_sell_threshold <= 10 * SCALE
    &&& 0 <= p.profit_sell_fraction <= SCALE
    &&& 0 <= p.generic_fee <= SCALE
}

/// The default configuration values, as a single spec value.
pub open spec fn default_params() -> Params {
    Params {
        initial_capital: 10_000_000_000,
        initial_investment_fraction: 350_000,
        dca_buy_threshold: 100_000,
        dca_buy_fraction: 750_000,
        profit_sell_threshold: 200_000,
        profit_sell_fraction: 400_000,
        generic_fee: 5_000,
        buy_threshold: 3,
        sell_threshold: 2,
    }
}

impl Default for Params {
    /// The default configuration: 10 000 units of capital, a 35% first
    /// entry, averaging on 10% drops with 75% of cash, partial profit at
    /// 20% gains selling 40%, and a 0.5% fee.
    fn default() -> (r: Self)
        ensures
            r == default_params(),
            r.initial_capital == 10_000 * SCALE,
            r.initial_investment_fraction == 350_000,
            r.dca_buy_threshold == 100_000,
            r.dca_buy_fraction == 750_000,
            r.profit_sell_threshold == 200_000,
            r.profit_sell_fraction == 400_000,
            r.generic_fee == 5_000,
            r.buy_threshold == 3,
            r.sell_threshold == 2,
            params_wf(r),
    {
        Params {
            initial_capital: 10_000_000_000,
            initial_investment_fraction: 350_000,
            dca_buy_threshold: 100_000,
            dca_buy_fraction: 750_000,
            profit_sell_threshold: 200_000,
            profit_sell_fraction: 400_000,
            generic_fee: 5_000,
            buy_threshold: 3,
            sell_threshold: 2,
        }
    }
}

/// A discrete trading signal.
#[derive(Debug, Clone, Copy, PartialEq, Eq, Structural)]
pub enum Signal {
    Hold,
    Buy,
    Sell,
    DcaBuy,
    DcaSell,
}

/// The most recent classification, as emitted in polling mode.
#[derive(Debug, Clone, Copy)]
pub struct Event {
    pub datetime: i64,
    pub price: i64,
    pub signal: Signal,
}

/// Outcome figures of one simulator run. The return on investment is a
/// percentage scaled by `SCALE`, like every other scaled quantity.
#[derive(Debug, Clone)]
pub struct Summary {
    pub initial_capital: i64,
    pub final_portfolio_value: i128,
    pub roi: i128,
    pub num_trades: usize,
    pub estimated_fees_paid: i128,
}

/// One asset's outcome in a comparative batch run.
#[derive(Debug, Clone)]
pub struct PortfolioSimulation {
    pub symbol: String,
    pub roi: i128,
    pub final_value: i128,
    pub num_trades: usize,
}

/// The trade simulator over a fully calculated indicator frame.
pub struct TradingEngine {
    pub final_df: IndicatorFrame,
    pub fgi: u8,
    pub params: Params,
    pub current_cash: i128,
    pub held: i128,
    pub trade_history: Vec<Trade>,
    pub position: Option<Position>,
}

// ---------------------------------------------------------------------
// Mathematical model of the simulator state.
// ---------------------------------------------------------------------

/// A recorded trade, widened to mathematical integers.
pub struct TradeSt {
    pub kind: TradeType,
    pub datetime: int,
    pub price: int,
    pub amount: int,
}

/// An open position, widened to mathematical integers.
pub struct PosSt {
    pub avg_price: int,
    pub amount: int,
    pub investment: int,
    pub entry_time: int,
}

/// The full simulator state: portfolio, audit trail, and the cross-row
/// latches (waiting for a better entry, last sell price, loss streak).
pub struct SimSt {
    pub cash: int,
    pub held: int,
    pub pos: Option<PosSt>,
    pub trades: Seq<TradeSt>,
    pub waiting: bool,
    pub last_sell_price: int,
    pub losses: int,
}

/// The model view of one executed trade.
pub open spec fn trade_view(t: Trade) -> TradeSt {
    TradeSt { kind: t.trade_type, datetime: t.datetime as int, price: t.price as int, amount: t.amount as int }
}

/// The model view of the trade history.
pub open spec fn trades_view(ts: Seq<Trade>) -> Seq<TradeSt> {
    ts.map_values(|t: Trade| trade_view(t))
}

/// The model view of the optional position.
pub open spec fn pos_view(p: Option<Position>) -> Option<PosSt> {
    match p {
        Some(q) => Some(PosSt {
            avg_price: q.avg_price as int,
            amount: q.amount as int,
            investment: q.investment as int,
            entry_time: q.entry_time as int,
        }),
        None => None,
    }
}

/// The model view of an engine's portfolio fields, with cleared latches.
pub open spec fn st0(e: TradingEngine) -> SimSt {
    SimSt {
        cash: e.current_cash as int,
        held: e.held as int,
        pos: pos_view(e.position),
        trades: trades_view(e.trade_history@),
        waiting: false,
        last_sell_price: 0,
        losses: 0,
    }
}

/// The same state with the cross-row latches cleared.
pub open spec fn clear_latches(st: SimSt) -> SimSt {
    SimSt { waiting: false, last_sell_price: 0, losses: 0, ..st }
}

// ---------------------------------------------------------------------
// Read-time fallbacks of the scorer. Once the history covers a window its
// average is present; while it is still filling, the close itself stands
// in for the short averages and the momentum lines start defined from the
// first row, so every condition below is total over the frame.
// ---------------------------------------------------------------------

/// The 5-row moving average, or the close while the window is not full.
pub open spec fn eff_ma5(r: IndicatorRow) -> int {
    match r.ma5 { Some(v) => v as int, None => r.price as int }
}

/// The 25-row moving average, or the close while the window is not full.
pub open spec fn eff_ma25(r: IndicatorRow) -> int {
    match r.ma25 { Some(v) => v as int, None => r.price as int }
}

/// The 50-row moving average, or the close while the window is not full.
pub open spec fn eff_ma50(r: IndicatorRow) -> int {
    match r.ma50 { Some(v) => v as int, None => r.price as int }
}

/// The 111-row moving average, or 90% of the close while undefined.
pub open spec fn eff_ma111(r: IndicatorRow) -> int {
    match r.ma111 { Some(v) => v as int, None => tdiv(9 * r.price, 10) }
}

/// The RSI, or the neutral 50 while undefined.
pub open spec fn eff_rsi(r: IndicatorRow) -> int {
    match r.rsi { Some(v) => v as int, None => 50 * SCALE }
}

/// The lower Bollinger band, or 90% of the close while undefined.
pub open spec fn eff_lower(r: IndicatorRow) -> int {
    match r.lower_band { Some(v) => v as int, None => tdiv(9 * r.price, 10) }
}

/// The upper Bollinger band, or 110% of the close while undefined.
pub open spec fn eff_upper(r: IndicatorRow) -> int {
    match r.upper_band { Some(v) => v as int, None => tdiv(11 * r.price, 10) }
}

/// The volume-weighted average, or the close while undefined.
pub open spec fn eff_vma(r: IndicatorRow) -> int {
    match r.vma20 { Some(v) => v as int, None => r.price as int }
}

/// The average true range, or 5% of the close while undefined.
pub open spec fn eff_atr(r: IndicatorRow) -> int {
    match r.atr14 { Some(v) => v as int, None => tdiv(r.price as int, 20) }
}

// ---------------------------------------------------------------------
// Regime classifiers and weighted scores.
// ---------------------------------------------------------------------

/// Daily volatility above 3% of the close.
pub open spec fn volatility_high(r: IndicatorRow) -> bool {
    100 * eff_atr(r) > 3 * r.price
}

/// All four moving averages stacked upward.
pub open spec fn strong_uptrend(r: IndicatorRow) -> bool {
    eff_ma5(r) > eff_ma25(r) && eff_ma25(r) > eff_ma50(r) && eff_ma50(r) > eff_ma111(r)
}

/// The weighted buy score of one row under sentiment `fgi`.
pub open spec fn buy_score(r: IndicatorRow, fgi: u8) -> int {
    let p = r.price as int;
    (if p > eff_ma5(r) { 5int } else { 0int })
    + (if p > eff_ma25(r) { 10int } else { 0int })
    + (if eff_ma5(r) > eff_ma25(r) { 15int } else { 0int })
    + (if r.macd > r.signal { 15int } else { 0int })
    + (if r.macd > 0 { 10int } else { 0int })
    + (if eff_rsi(r) < 30 * SCALE { 20int } else if eff_rsi(r) < 40 * SCALE { 10int } else { 0int })
    + (if 100 * p <= 102 * eff_lower(r) { 15int } else if 100 * p <= 105 * eff_lower(r) { 10int } else { 0int })
    + (if 10 * eff_vma(r) > 9 * p { 10int } else { 0int })
    + (if fgi < 25 { 15int } else if fgi < 40 { 10int } else if fgi > 80 { -15int } else if fgi > 65 { -10int } else { 0int })
}

/// The weighted sell score of one row under sentiment `fgi`.
pub open spec fn sell_score(r: IndicatorRow, fgi: u8) -> int {
    let p = r.price as int;
    (if p < eff_ma5(r) { 5int } else { 0int })
    + (if p < eff_ma25(r) { 10int } else { 0int })
    + (if eff_ma5(r) < eff_ma25(r) { 15int } else { 0int })
    + (if r.macd < r.signal { 15int } else { 0int })
    + (if r.macd < 0 { 10int } else { 0int })
    + (if eff_rsi(r) > 70 * SCALE { 20int } else if eff_rsi(r) > 65 * SCALE { 10int } else { 0int })
    + (if 100 * p >= 98 * eff_upper(r) { 15int } else if 100 * p >= 95 * eff_upper(r) { 10int } else { 0int })
    + (if eff_vma(r) < p { 10int } else { 0int })
    + (if fgi > 80 { 15int } else if fgi > 65 { 10int } else if fgi < 20 { -10int } else { 0int })
}

/// The volatility-adjusted buy threshold.
pub open spec fn buy_threshold_of(r: IndicatorRow) -> int {
    if volatility_high(r) { 70int } else { 60int }
}

/// The volatility- and trend-adjusted sell threshold.
pub open spec fn sell_threshold_of(r: IndicatorRow) -> int {
    (if volatility_high(r) { 65int } else { 70int }) + (if strong_uptrend(r) { 10int } else { 0int })
}

/// The row scores a buy.
pub open spec fn buy_now(r: IndicatorRow, fgi: u8) -> bool {
    buy_score(r, fgi) >= buy_threshold_of(r)
}

/// The row scores a sell.
pub open spec fn sell_now(r: IndicatorRow, fgi: u8) -> bool {
    sell_score(r, fgi) >= sell_threshold_of(r)
}

/// How many recorded trades have the given kind.
pub open spec fn count_kind(ts: Seq<TradeSt>, k: TradeType) -> int
    decreases ts.len(),
{
    if ts.len() == 0 {
        0
    } else {
        count_kind(ts.drop_last(), k) + if ts.last().kind == k { 1int } else { 0int }
    }
}

/// Counting one more trade extends the count by its kind.
proof fn lemma_count_kind_take(ts: Seq<TradeSt>, k: TradeType, j: int)
    requires
        0 <= j < ts.len(),
    ensures
        count_kind(ts.take(j + 1), k) == count_kind(ts.take(j), k) + if ts[j].kind == k { 1int } else { 0int },
{
    assert(ts.take(j + 1).drop_last() =~= ts.take(j));
    assert(ts.take(j + 1).last() == ts[j]);
}

/// The count is never negative.
proof fn lemma_count_kind_nonneg(ts: Seq<TradeSt>, k: TradeType)
    ensures
        0 <= count_kind(ts, k),
    decreases ts.len(),
{
    if ts.len() > 0 {
        lemma_count_kind_nonneg(ts.drop_last(), k);
    }
}

/// The averaging-buy score of one row, given the position's average entry
/// price and the number of averaging buys already recorded. The bullish
/// momentum term reduces to the MACD line standing above its signal line,
/// since its negative-MACD variant implies that comparison.
pub open spec fn dca_buy_score(r: IndicatorRow, fgi: u8, avg: int, dca_count: int, prm: Params) -> int {
    let p = r.price as int;
    (if 100 * p < 85 * avg { 40int }
     else if 100 * p < 90 * avg { 30int }
     else if 100 * p < 92 * avg { 20int }
     else if SCALE * p < (SCALE - prm.dca_buy_threshold) * avg { 10int }
     else { 0int })
    + (if eff_rsi(r) < 25 * SCALE { 20int } else if eff_rsi(r) < 30 * SCALE { 15int } else if eff_rsi(r) < 35 * SCALE { 10int } else { 0int })
    + (if 100 * p <= 103 * eff_lower(r) { 15int } else { 0int })
    + (if r.macd > r.signal { 10int } else { 0int })
    + (if (100 * p <= 102 * eff_ma25(r) && 100 * p >= 98 * eff_ma25(r))
         || (100 * p <= 102 * eff_ma50(r) && 100 * p >= 98 * eff_ma50(r)) { 5int } else { 0int })
    + (if fgi < 20 { 10int } else { 0int })
    + (if volatility_high(r) { 5int } else { 0int })
    - (if dca_count >= 3 { 30int } else { 0int })
}

/// Whether the row opens an averaging-buy opportunity: a held position,
/// a score of at least 60, and at least 200 units of cash.
pub open spec fn has_dca_buy(r: IndicatorRow, fgi: u8, pos: Option<PosSt>, cash: int, dca_count: int, prm: Params) -> bool {
    match pos {
        None => false,
        Some(ps) => dca_buy_score(r, fgi, ps.avg_price, dca_count, prm) >= 60 && cash >= 200 * SCALE,
    }
}

/// The partial-profit score of one row, given the position's average entry
/// price. The turning-top term reduces to the short average standing above
/// the medium one, the only part of that test with any force.
pub open spec fn dca_sell_score(r: IndicatorRow, fgi: u8, avg: int, prm: Params) -> int {
    let p = r.price as int;
    (if 100 * (p - avg) > 25 * avg { 40int }
     else if 100 * (p - avg) > 20 * avg { 30int }
     else if 100 * (p - avg) > 15 * avg { 20int }
     else if SCALE * (p - avg) > prm.profit_sell_threshold * avg { 15int }
     else { 0int })
    + (if eff_rsi(r) > 80 * SCALE { 25int } else if eff_rsi(r) > 75 * SCALE { 20int } else if eff_rsi(r) > 70 * SCALE { 15int } else if eff_rsi(r) > 65 * SCALE { 10int } else { 0int })
    + (if 100 * p >= 95 * eff_upper(r) { 15int } else { 0int })
    + (if r.macd < r.signal && r.macd > 0 { 10int } else { 0int })
    + (if eff_ma5(r) > eff_ma25(r) { 5int } else { 0int })
    + (if fgi > 75 { 5int } else { 0int })
    + (if !(eff_vma(r) > p) { 5int } else { 0int })
}

/// The partial-profit threshold: eased above 25% gains, raised after two
/// partial sells.
pub open spec fn dca_sell_threshold(r: IndicatorRow, avg: int, psell_count: int) -> int {
    if 100 * (r.price - avg) > 25 * avg {
        55int
    } else if psell_count >= 2 {
        80int
    } else {
        65int
    }
}

/// Whether the row opens a partial-profit opportunity: a held position in
/// profit whose score reaches the adjusted threshold.
pub open spec fn has_dca_sell(r: IndicatorRow, fgi: u8, pos: Option<PosSt>, psell_count: int, prm: Params) -> bool {
    match pos {
        None => false,
        Some(ps) => {
            &&& r.price > ps.avg_price
            &&& dca_sell_score(r, fgi, ps.avg_price, prm) >= dca_sell_threshold(r, ps.avg_price, psell_count)
        },
    }
}

// ---------------------------------------------------------------------
// The simulator as a mathematical step function.
// ---------------------------------------------------------------------

/// Saturation at the amount ceiling.
pub open spec fn cap_amt(x: int) -> int {
    if x > AMOUNT_CAP { AMOUNT_CAP as int } else { x }
}

/// Entering a position: invest the given fraction of cash, pay the fee,
/// buy at the row's close, and record the trade. Latches are untouched.
pub open spec fn op_enter(st: SimSt, row: IndicatorRow, frac: int, p: Params) -> SimSt {
    let investment = tdiv(st.cash * frac, SCALE as int);
    let fee = tdiv(investment * p.generic_fee, SCALE as int);
    let amount = cap_amt(tdiv((investment - fee) * (SCALE as int), row.price as int));
    SimSt {
        cash: st.cash - investment,
        held: st.held + amount,
        pos: Some(PosSt {
            avg_price: row.price as int,
            amount: st.held + amount,
            investment,
            entry_time: row.datetime as int,
        }),
        trades: st.trades.push(TradeSt {
            kind: TradeType::Buy,
            datetime: row.datetime as int,
            price: row.price as int,
            amount,
        }),
        ..st
    }
}

/// The fraction of cash deployed on an averaging buy, scaled with how far
/// the close has dropped below the average entry price.
pub open spec fn dca_scale_of(avg: int, price: int, p: Params) -> int {
    if 100 * (avg - price) > 20 * avg {
        SCALE as int
    } else if 100 * (avg - price) > 15 * avg {
        900_000
    } else if 100 * (avg - price) > 10 * avg {
        p.dca_buy_fraction as int
    } else {
        tdiv(8 * p.dca_buy_fraction, 10)
    }
}

/// An averaging buy on a held position: deploy the drop-scaled fraction of
/// cash, skip a buy worth under 100 units or one that acquires nothing,
/// and re-average the entry price over old and new amounts.
pub open spec fn op_dca_buy(st: SimSt, row: IndicatorRow, p: Params) -> SimSt
    recommends
        st.pos is Some,
{
    let ps = st.pos->0;
    let scale_f = dca_scale_of(ps.avg_price, row.price as int, p);
    let investment = tdiv(st.cash * scale_f, SCALE as int);
    if investment < 100 * SCALE {
        st
    } else {
        let fee = tdiv(investment * p.generic_fee, SCALE as int);
        let amount = cap_amt(tdiv((investment - fee) * (SCALE as int), row.price as int));
        if amount <= 0 {
            st
        } else {
            let total_raw = ps.amount + amount;
            let avg2 = tdiv(ps.avg_price * ps.amount + (row.price as int) * amount, total_raw);
            let total = cap_amt(total_raw);
            SimSt {
                cash: st.cash - investment,
                held: total,
                pos: Some(PosSt {
                    avg_price: avg2,
                    amount: total,
                    investment: cap_amt(ps.investment + investment),
                    entry_time: ps.entry_time,
                }),
                trades: st.trades.push(TradeSt {
                    kind: TradeType::DcaBuy,
                    datetime: row.datetime as int,
                    price: row.price as int,
                    amount,
                }),
                ..st
            }
        }
    }
}

/// A partial profit-taking sell of the configured fraction, only when the
/// close is above the average entry by the profit threshold.
pub open spec fn op_partial_sell(st: SimSt, row: IndicatorRow, p: Params) -> SimSt
    recommends
        st.pos is Some,
{
    let ps = st.pos->0;
    if !((SCALE as int) * row.price > (SCALE + p.profit_sell_threshold) * ps.avg_price) {
        st
    } else {
        let sell_amount = tdiv(ps.amount * p.profit_sell_fraction, SCALE as int);
        let gross = tdiv(sell_amount * row.price, SCALE as int);
        let fee = tdiv(gross * p.generic_fee, SCALE as int);
        SimSt {
            cash: cap_amt(st.cash + gross - fee),
            held: st.held - sell_amount,
            pos: Some(PosSt { amount: ps.amount - sell_amount, ..ps }),
            trades: st.trades.push(TradeSt {
                kind: TradeType::PartialSell,
                datetime: row.datetime as int,
                price: row.price as int,
                amount: sell_amount,
            }),
            ..st
        }
    }
}

/// Liquidating the whole position at the given price, recording a trade of
/// the given kind.
pub open spec fn op_sell_all(st: SimSt, dt: int, price: int, kind: TradeType, p: Params) -> SimSt
    recommends
        st.pos is Some,
{
    let ps = st.pos->0;
    let gross = tdiv(ps.amount * price, SCALE as int);
    let fee = tdiv(gross * p.generic_fee, SCALE as int);
    SimSt {
        cash: cap_amt(st.cash + gross - fee),
        held: st.held - ps.amount,
        pos: None,
        trades: st.trades.push(TradeSt { kind, datetime: dt, price, amount: ps.amount }),
        ..st
    }
}

/// A buy signal strengthened by an oversold RSI under the 25-row average.
pub open spec fn strong_buying_signal(row: IndicatorRow, fgi: u8) -> bool {
    buy_now(row, fgi) && eff_rsi(row) < 35 * SCALE && (row.price as int) < eff_ma25(row)
}

/// One row of the simulator walk: entry logic while flat (respecting the
/// waiting latch and the loss streak), averaging and exits while held, and
/// the loss stop after the per-row decision.
pub open spec fn sim_step(st: SimSt, row: IndicatorRow, fgi: u8, p: Params) -> SimSt {
    let buy = buy_now(row, fgi);
    let sell = sell_now(row, fgi);
    let strong = strong_buying_signal(row, fgi);
    match st.pos {
        None => {
            if st.waiting && row.price >= st.last_sell_price {
                st
            } else if st.losses >= 2 {
                if strong && st.cash > 100 * SCALE {
                    SimSt { waiting: false, ..op_enter(st, row, tdiv(7 * p.initial_investment_fraction, 10), p) }
                } else {
                    st
                }
            } else if buy && st.cash > 100 * SCALE {
                let f0 = if strong {
                    tdiv(12 * p.initial_investment_fraction, 10)
                } else {
                    p.initial_investment_fraction as int
                };
                let f = if f0 > 700_000 { 700_000int } else { f0 };
                SimSt { waiting: false, ..op_enter(st, row, f, p) }
            } else {
                st
            }
        },
        Some(ps) => {
            let dca_b = has_dca_buy(row, fgi, st.pos, st.cash, count_kind(st.trades, TradeType::DcaBuy), p);
            let dca_s = has_dca_sell(row, fgi, st.pos, count_kind(st.trades, TradeType::PartialSell), p);
            let st1 = if dca_b {
                op_dca_buy(st, row, p)
            } else if dca_s {
                op_partial_sell(st, row, p)
            } else if sell && row.price > ps.avg_price {
                SimSt {
                    waiting: true,
                    last_sell_price: row.price as int,
                    losses: 0,
                    ..op_sell_all(st, row.datetime as int, row.price as int, TradeType::FullSell, p)
                }
            } else {
                st
            };
            match st1.pos {
                Some(ps1) => {
                    if 100 * (row.price as int) < 80 * ps1.avg_price
                        && row.datetime - ps1.entry_time >= 15 * 86_400_000
                        && eff_rsi(row) > 40 * SCALE {
                        SimSt {
                            losses: st1.losses + 1,
                            ..op_sell_all(st1, row.datetime as int, row.price as int, TradeType::FullSell, p)
                        }
                    } else {
                        st1
                    }
                },
                None => st1,
            }
        },
    }
}

/// The state a fresh engine starts a run from.
pub open spec fn sim_init(p: Params) -> SimSt {
    SimSt {
        cash: p.initial_capital as int,
        held: 0,
        pos: None,
        trades: Seq::empty(),
        waiting: false,
        last_sell_price: 0,
        losses: 0,
    }
}

/// The state after walking rows `i` to `j` (exclusive), peeled at the end
/// so a forward loop steps it definitionally.
pub open spec fn run_upto(rows: Seq<IndicatorRow>, fgi: u8, p: Params, st: SimSt, i: int, j: int) -> SimSt
    decreases j - i,
{
    if j <= i {
        st
    } else {
        sim_step(run_upto(rows, fgi, p, st, i, j - 1), rows[j - 1], fgi, p)
    }
}

/// The forced terminal sell: a still-open position is closed at the larger
/// of the last close and the average entry price.
pub open spec fn finalize(st: SimSt, last: IndicatorRow, p: Params) -> SimSt {
    match st.pos {
        None => st,
        Some(ps) => {
            let sp = if (last.price as int) < ps.avg_price { ps.avg_price } else { last.price as int };
            op_sell_all(st, last.datetime as int, sp, TradeType::FinalSell, p)
        },
    }
}

/// The first row of the simulated window: the last 365 rows.
pub open spec fn sim_start(n: int) -> int {
    if n > 365 { n - 365 } else { 0 }
}

/// The complete simulator run over a frame.
pub open spec fn spec_run(rows: Seq<IndicatorRow>, fgi: u8, p: Params) -> SimSt {
    let n = rows.len() as int;
    finalize(run_upto(rows, fgi, p, sim_init(p), sim_start(n), n), rows[n - 1], p)
}

/// Numeric ranges of one recorded trade.
pub open spec fn trade_bounded(t: TradeSt) -> bool {
    &&& 1 <= t.price <= PRICE_MAX
    &&& 0 <= t.amount <= AMOUNT_CAP
    &&& -DATETIME_MAX <= t.datetime <= DATETIME_MAX
}

/// Every recorded trade happened no later than `d`.
pub open spec fn trades_le(ts: Seq<TradeSt>, d: int) -> bool {
    forall|k: int| 0 <= k < ts.len() ==> #[trigger] ts[k].datetime <= d
}

/// The simulator state invariant: cash and holdings are nonnegative and
/// capped, the position mirrors the holdings, every trade is bounded, and
/// the audit trail is ordered by time.
pub open spec fn st_wf(st: SimSt) -> bool {
    &&& 0 <= st.cash <= AMOUNT_CAP
    &&& 0 <= st.held <= AMOUNT_CAP
    &&& match st.pos {
        Some(ps) => pos_bounded(ps) && ps.amount == st.held,
        None => st.held == 0,
    }
    &&& forall|k: int| 0 <= k < st.trades.len() ==> trade_bounded(#[trigger] st.trades[k])
    &&& forall|k: int| 0 < k < st.trades.len() ==> #[trigger] st.trades[k].datetime >= st.trades[k - 1].datetime
    &&& 0 <= st.losses
    &&& 0 <= st.last_sell_price <= PRICE_MAX
}

/// Frame rows strictly ascending in time.
pub open spec fn rows_ascending(rows: Seq<IndicatorRow>) -> bool {
    forall|k: int| 0 < k < rows.len() ==> #[trigger] rows[k].datetime > rows[k - 1].datetime
}

/// Entering while flat preserves the state invariant and appends one
/// bounded trade at the row's time.
proof fn lemma_op_enter_wf(st: SimSt, row: IndicatorRow, frac: int, p: Params)
    requires
        st_wf(st),
        crate::indicators::row_bounded(row),
        params_wf(p),
        0 <= frac <= SCALE,
        st.pos is None,
        trades_le(st.trades, row.datetime as int),
    ensures
        st_wf(op_enter(st, row, frac, p)),
        trades_le(op_enter(st, row, frac, p).trades, row.datetime as int),
        op_enter(st, row, frac, p).trades.len() == st.trades.len() + 1,
{
    lemma_frac_le(st.cash, frac);
    let investment = tdiv(st.cash * frac, SCALE as int);
    lemma_frac_le(investment, p.generic_fee as int);
    let fee = tdiv(investment * p.generic_fee, SCALE as int);
    lemma_amount_range(investment - fee, row.price as int);
    let r = op_enter(st, row, frac, p);
    assert forall|k: int| 0 <= k < r.trades.len() implies trade_bounded(#[trigger] r.trades[k]) by {
        if k < st.trades.len() {
            assert(trade_bounded(st.trades[k]));
        }
    }
    assert forall|k: int| 0 < k < r.trades.len() implies
        #[trigger] r.trades[k].datetime >= r.trades[k - 1].datetime by {
        if k < st.trades.len() {
            assert(st.trades[k].datetime >= st.trades[k - 1].datetime);
        } else {
            assert(st.trades[k - 1].datetime <= row.datetime as int);
        }
    }
}

/// An averaging buy preserves the state invariant and appends at most one
/// bounded trade at the row's time.
proof fn lemma_op_dca_buy_wf(st: SimSt, row: IndicatorRow, p: Params)
    requires
        st_wf(st),
        crate::indicators::row_bounded(row),
        params_wf(p),
        st.pos is Some,
        trades_le(st.trades, row.datetime as int),
    ensures
        st_wf(op_dca_buy(st, row, p)),
        trades_le(op_dca_buy(st, row, p).trades, row.datetime as int),
{
    let ps = st.pos->0;
    let scale_f = dca_scale_of(ps.avg_price, row.price as int, p);
    crate::num::lemma_tdiv_le_self(8 * p.dca_buy_fraction, 10);
    assert(0 <= scale_f <= SCALE);
    lemma_frac_le(st.cash, scale_f);
    let investment = tdiv(st.cash * scale_f, SCALE as int);
    if investment >= 100 * SCALE {
        lemma_frac_le(investment, p.generic_fee as int);
        let fee = tdiv(investment * p.generic_fee, SCALE as int);
        lemma_amount_range(investment - fee, row.price as int);
        let amount = cap_amt(tdiv((investment - fee) * (SCALE as int), row.price as int));
        if amount > 0 {
            let total_raw = ps.amount + amount;
            assert(1 * total_raw <= ps.avg_price * ps.amount + (row.price as int) * amount
                && ps.avg_price * ps.amount + (row.price as int) * amount
                    <= PRICE_MAX * total_raw) by (nonlinear_arith)
                requires
                    1 <= ps.avg_price <= PRICE_MAX,
                    1 <= row.price <= PRICE_MAX,
                    0 <= ps.amount,
                    1 <= amount,
                    total_raw == ps.amount + amount;
            crate::num::lemma_div_range(
                ps.avg_price * ps.amount + (row.price as int) * amount,
                total_raw, 1, PRICE_MAX as int);
            let r = op_dca_buy(st, row, p);
            assert forall|k: int| 0 <= k < r.trades.len() implies trade_bounded(#[trigger] r.trades[k]) by {
                if k < st.trades.len() {
                    assert(trade_bounded(st.trades[k]));
                }
            }
            assert forall|k: int| 0 < k < r.trades.len() implies
                #[trigger] r.trades[k].datetime >= r.trades[k - 1].datetime by {
                if k < st.trades.len() {
                    assert(st.trades[k].datetime >= st.trades[k - 1].datetime);
                } else {
                    assert(st.trades[k - 1].datetime <= row.datetime as int);
                }
            }
        }
    }
}

/// A partial profit-taking sell preserves the state invariant and appends
/// at most one bounded trade at the row's time.
proof fn lemma_op_partial_sell_wf(st: SimSt, row: IndicatorRow, p: Params)
    requires
        st_wf(st),
        crate::indicators::row_bounded(row),
        params_wf(p),
        st.pos is Some,
        trades_le(st.trades, row.datetime as int),
    ensures
        st_wf(op_partial_sell(st, row, p)),
        trades_le(op_partial_sell(st, row, p).trades, row.datetime as int),
{
    let ps = st.pos->0;
    if (SCALE as int) * row.price > (SCALE + p.profit_sell_threshold) * ps.avg_price {
        lemma_frac_le(ps.amount, p.profit_sell_fraction as int);
        let sell_amount = tdiv(ps.amount * p.profit_sell_fraction, SCALE as int);
        lemma_gross_range(sell_amount, row.price as int);
        let gross = tdiv(sell_amount * row.price, SCALE as int);
        lemma_frac_le(gross, p.generic_fee as int);
        let r = op_partial_sell(st, row, p);
        assert forall|k: int| 0 <= k < r.trades.len() implies trade_bounded(#[trigger] r.trades[k]) by {
            if k < st.trades.len() {
                assert(trade_bounded(st.trades[k]));
            }
        }
        assert forall|k: int| 0 < k < r.trades.len() implies
            #[trigger] r.trades[k].datetime >= r.trades[k - 1].datetime by {
            if k < st.trades.len() {
                assert(st.trades[k].datetime >= st.trades[k - 1].datetime);
            } else {
                assert(st.trades[k - 1].datetime <= row.datetime as int);
            }
        }
    }
}

/// A full liquidation preserves the state invariant and appends one
/// bounded trade at the given time.
proof fn lemma_op_sell_all_wf(st: SimSt, dt: int, price: int, kind: TradeType, p: Params)
    requires
        st_wf(st),
        params_wf(p),
        st.pos is Some,
        1 <= price <= PRICE_MAX,
        -DATETIME_MAX <= dt <= DATETIME_MAX,
        trades_le(st.trades, dt),
    ensures
        st_wf(op_sell_all(st, dt, price, kind, p)),
        trades_le(op_sell_all(st, dt, price, kind, p).trades, dt),
{
    let ps = st.pos->0;
    lemma_gross_range(ps.amount, price);
    let gross = tdiv(ps.amount * price, SCALE as int);
    lemma_frac_le(gross, p.generic_fee as int);
    let r = op_sell_all(st, dt, price, kind, p);
    assert forall|k: int| 0 <= k < r.trades.len() implies trade_bounded(#[trigger] r.trades[k]) by {
        if k < st.trades.len() {
            assert(trade_bounded(st.trades[k]));
        }
    }
    assert forall|k: int| 0 < k < r.trades.len() implies
        #[trigger] r.trades[k].datetime >= r.trades[k - 1].datetime by {
        if k < st.trades.len() {
            assert(st.trades[k].datetime >= st.trades[k - 1].datetime);
        } else {
            assert(st.trades[k - 1].datetime <= dt);
        }
    }
}

/// One simulator step preserves the state invariant, and every recorded
/// trade still lies at or before the row's time.
proof fn lemma_sim_step_wf(st: SimSt, row: IndicatorRow, fgi: u8, p: Params)
    requires
        st_wf(st),
        crate::indicators::row_bounded(row),
        params_wf(p),
        trades_le(st.trades, row.datetime as int),
    ensures
        st_wf(sim_step(st, row, fgi, p)),
        trades_le(sim_step(st, row, fgi, p).trades, row.datetime as int),
        st.trades.len() <= sim_step(st, row, fgi, p).trades.len() <= st.trades.len() + 2,
{
    match st.pos {
        None => {
            if st.waiting && row.price >= st.last_sell_price {
            } else if st.losses >= 2 {
                if strong_buying_signal(row, fgi) && st.cash > 100 * SCALE {
                    crate::num::lemma_tdiv_le_self(7 * p.initial_investment_fraction, 10);
                    lemma_op_enter_wf(st, row, tdiv(7 * p.initial_investment_fraction, 10), p);
                }
            } else if buy_now(row, fgi) && st.cash > 100 * SCALE {
                let f0 = if strong_buying_signal(row, fgi) {
                    tdiv(12 * p.initial_investment_fraction, 10)
                } else {
                    p.initial_investment_fraction as int
                };
                let f = if f0 > 700_000 { 700_000int } else { f0 };
                crate::num::lemma_tdiv_le_self(12 * p.initial_investment_fraction, 10);
                lemma_op_enter_wf(st, row, f, p);
            }
        },
        Some(ps) => {
            let dca_b = has_dca_buy(row, fgi, st.pos, st.cash, count_kind(st.trades, TradeType::DcaBuy), p);
            let dca_s = has_dca_sell(row, fgi, st.pos, count_kind(st.trades, TradeType::PartialSell), p);
            let st1 = if dca_b {
                lemma_op_dca_buy_wf(st, row, p);
                op_dca_buy(st, row, p)
            } else if dca_s {
                lemma_op_partial_sell_wf(st, row, p);
                op_partial_sell(st, row, p)
            } else if sell_now(row, fgi) && row.price > ps.avg_price {
                lemma_op_sell_all_wf(st, row.datetime as int, row.price as int, TradeType::FullSell, p);
                SimSt {
                    waiting: true,
                    last_sell_price: row.price as int,
                    losses: 0,
                    ..op_sell_all(st, row.datetime as int, row.price as int, TradeType::FullSell, p)
                }
            } else {
                st
            };
            assert(st_wf(st1));
            assert(trades_le(st1.trades, row.datetime as int));
            match st1.pos {
                Some(ps1) => {
                    if 100 * (row.price as int) < 80 * ps1.avg_price
                        && row.datetime - ps1.entry_time >= 15 * 86_400_000
                        && eff_rsi(row) > 40 * SCALE {
                        lemma_op_sell_all_wf(st1, row.datetime as int, row.price as int, TradeType::FullSell, p);
                    }
                },
                None => {},
            }
        },
    }
}

/// Walking any span of rows from a well-formed state keeps the state
/// invariant, and all trades recorded by then lie at or before the last
/// walked row's time.
proof fn lemma_run_upto_wf(rows: Seq<IndicatorRow>, fgi: u8, p: Params, st: SimSt, i: int, j: int)
    requires
        st_wf(st),
        params_wf(p),
        frame_bounded(rows),
        rows_ascending(rows),
        0 <= i <= j <= rows.len(),
        st.trades.len() == 0,
    ensures
        st_wf(run_upto(rows, fgi, p, st, i, j)),
        j > i ==> trades_le(run_upto(rows, fgi, p, st, i, j).trades, rows[j - 1].datetime as int),
        run_upto(rows, fgi, p, st, i, j).trades.len() <= 2 * (j - i),
    decreases j - i,
{
    if j > i {
        lemma_run_upto_wf(rows, fgi, p, st, i, j - 1);
        let mid = run_upto(rows, fgi, p, st, i, j - 1);
        assert(crate::indicators::row_bounded(rows[j - 1]));
        assert(trades_le(mid.trades, rows[j - 1].datetime as int)) by {
            if j - 1 > i {
                assert(trades_le(mid.trades, rows[j - 2].datetime as int));
                assert(rows[j - 1].datetime > rows[j - 2].datetime);
            }
        }
        lemma_sim_step_wf(mid, rows[j - 1], fgi, p);
    }
}

/// Taking a fraction (at most `SCALE`) of a nonnegative amount never grows it.
proof fn lemma_frac_le(a: int, f: int)
    requires
        0 <= a,
        0 <= f <= SCALE,
    ensures
        0 <= tdiv(a * f, SCALE as int) <= a,
        0 <= a * f <= a * (SCALE as int),
{
    assert(0 <= a * f) by (nonlinear_arith)
        requires 0 <= a && 0 <= f;
    assert(a * f <= a * (SCALE as int)) by (nonlinear_arith)
        requires 0 <= a && f <= SCALE;
    crate::num::lemma_div_range(a * f, SCALE as int, 0, a);
}

/// Converting cash to an amount at a positive price stays nonnegative and
/// under the cash times the scale.
proof fn lemma_amount_range(x: int, price: int)
    requires
        0 <= x,
        1 <= price,
    ensures
        0 <= tdiv(x * (SCALE as int), price) <= x * (SCALE as int),
{
    assert(0 <= x * (SCALE as int)) by (nonlinear_arith)
        requires 0 <= x;
    assert(x * (SCALE as int) <= (x * (SCALE as int)) * price) by (nonlinear_arith)
        requires 0 <= x * (SCALE as int) && 1 <= price;
    crate::num::lemma_div_range(x * (SCALE as int), price, 0, x * (SCALE as int));
}

/// The gross value of an amount at a price is nonnegative and bounded.
proof fn lemma_gross_range(amt: int, price: int)
    requires
        0 <= amt <= AMOUNT_CAP,
        1 <= price <= PRICE_MAX,
    ensures
        0 <= tdiv(amt * price, SCALE as int) <= 10_000_000_000_000_000_000_000_000_000int,
        0 <= amt * price <= 10_000_000_000_000_000_000_000_000_000_000_000int,
{
    assert(0 <= amt * price <= 10_000_000_000_000_000_000_000_000_000_000_000int) by (nonlinear_arith)
        requires 0 <= amt <= AMOUNT_CAP && 1 <= price <= PRICE_MAX;
    crate::num::lemma_div_range(amt * price, SCALE as int, 0,
        10_000_000_000_000_000_000_000_000_000int);
}

// ---------------------------------------------------------------------
// Executable scorer.
// ---------------------------------------------------------------------

/// Numeric ranges of a position the simulator maintains.
pub open spec fn pos_bounded(ps: PosSt) -> bool {
    &&& 1 <= ps.avg_price <= PRICE_MAX
    &&& 0 <= ps.amount <= AMOUNT_CAP
    &&& 0 <= ps.investment <= AMOUNT_CAP
    &&& -DATETIME_MAX <= ps.entry_time <= DATETIME_MAX
}

/// The effective 5-row average of a row, after the read-time fallback.
fn eff_ma5_x(r: &IndicatorRow) -> (v: i64)
    ensures
        v as int == eff_ma5(*r),
{
    match r.ma5 { Some(v) => v, None => r.price }
}

/// The effective 25-row average of a row, after the read-time fallback.
fn eff_ma25_x(r: &IndicatorRow) -> (v: i64)
    ensures
        v as int == eff_ma25(*r),
{
    match r.ma25 { Some(v) => v, None => r.price }
}

/// The effective 50-row average of a row, after the read-time fallback.
fn eff_ma50_x(r: &IndicatorRow) -> (v: i64)
    ensures
        v as int == eff_ma50(*r),
{
    match r.ma50 { Some(v) => v, None => r.price }
}

/// The effective 111-row average of a row, after the read-time fallback.
fn eff_ma111_x(r: &IndicatorRow) -> (v: i64)
    requires
        1 <= r.price <= PRICE_MAX,
    ensures
        v as int == eff_ma111(*r),
{
    match r.ma111 {
        Some(v) => v,
        None => crate::num::div_i128(9 * (r.price as i128), 10) as i64,
    }
}

/// The effective RSI of a row, after the neutral fallback.
fn eff_rsi_x(r: &IndicatorRow) -> (v: i64)
    ensures
        v as int == eff_rsi(*r),
{
    match r.rsi { Some(v) => v, None => 50 * SCALE }
}

/// The effective lower band of a row, after the read-time fallback.
fn eff_lower_x(r: &IndicatorRow) -> (v: i64)
    requires
        1 <= r.price <= PRICE_MAX,
    ensures
        v as int == eff_lower(*r),
{
    match r.lower_band {
        Some(v) => v,
        None => crate::num::div_i128(9 * (r.price as i128), 10) as i64,
    }
}

/// The effective upper band of a row, after the read-time fallback.
fn eff_upper_x(r: &IndicatorRow) -> (v: i64)
    requires
        1 <= r.price <= PRICE_MAX,
    ensures
        v as int == eff_upper(*r),
{
    match r.upper_band {
        Some(v) => v,
        None => crate::num::div_i128(11 * (r.price as i128), 10) as i64,
    }
}

/// The effective volume-weighted average, after the read-time fallback.
fn eff_vma_x(r: &IndicatorRow) -> (v: i64)
    ensures
        v as int == eff_vma(*r),
{
    match r.vma20 { Some(v) => v, None => r.price }
}

/// The effective average true range, after the read-time fallback.
fn eff_atr_x(r: &IndicatorRow) -> (v: i64)
    requires
        1 <= r.price <= PRICE_MAX,
    ensures
        v as int == eff_atr(*r),
{
    match r.atr14 {
        Some(v) => v,
        None => crate::num::div_i128(r.price as i128, 20) as i64,
    }
}

/// Computes the weighted buy score of one bounded row.
#[verifier::rlimit(80)]
fn buy_score_x(row: &IndicatorRow, fgi: u8) -> (s: i64)
    requires
        crate::indicators::row_bounded(*row),
    ensures
        s == buy_score(*row, fgi),
{
    let p = row.price;
    let ma5 = eff_ma5_x(row);
    let ma25 = eff_ma25_x(row);
    let rsi = eff_rsi_x(row);
    let lower = eff_lower_x(row);
    let vma = eff_vma_x(row);
    let mut score: i64 = 0;
    if p > ma5 { score += 5; }
    if p > ma25 { score += 10; }
    if ma5 > ma25 { score += 15; }
    if row.macd > row.signal { score += 15; }
    if row.macd > 0 { score += 10; }
    if rsi < 30 * SCALE { score += 20; } else if rsi < 40 * SCALE { score += 10; }
    if 100 * (p as i128) <= 102 * (lower as i128) { score += 15; }
    else if 100 * (p as i128) <= 105 * (lower as i128) { score += 10; }
    if 10 * (vma as i128) > 9 * (p as i128) { score += 10; }
    if fgi < 25 { score += 15; } else if fgi < 40 { score += 10; }
    else if fgi > 80 { score -= 15; } else if fgi > 65 { score -= 10; }
    score
}

/// Computes the weighted sell score of one bounded row.
#[verifier::rlimit(80)]
fn sell_score_x(row: &IndicatorRow, fgi: u8) -> (s: i64)
    requires
        crate::indicators::row_bounded(*row),
    ensures
        s == sell_score(*row, fgi),
{
    let p = row.price;
    let ma5 = eff_ma5_x(row);
    let ma25 = eff_ma25_x(row);
    let rsi = eff_rsi_x(row);
    let upper = eff_upper_x(row);
    let vma = eff_vma_x(row);
    let mut score: i64 = 0;
    if p < ma5 { score += 5; }
    if p < ma25 { score += 10; }
    if ma5 < ma25 { score += 15; }
    if row.macd < row.signal { score += 15; }
    if row.macd < 0 { score += 10; }
    if rsi > 70 * SCALE { score += 20; } else if rsi > 65 * SCALE { score += 10; }
    if 100 * (p as i128) >= 98 * (upper as i128) { score += 15; }
    else if 100 * (p as i128) >= 95 * (upper as i128) { score += 10; }
    if vma < p { score += 10; }
    if fgi > 80 { score += 15; } else if fgi > 65 { score += 10; }
    else if fgi < 20 { score -= 10; }
    score
}

/// Computes the averaging-buy score of one bounded row for a position with
/// the given average entry price.
#[verifier::rlimit(80)]
fn dca_buy_score_x(row: &IndicatorRow, fgi: u8, avg: i64, dca_count: usize, prm: &Params) -> (s: i64)
    requires
        crate::indicators::row_bounded(*row),
        1 <= avg <= PRICE_MAX,
        params_wf(*prm),
    ensures
        s == dca_buy_score(*row, fgi, avg as int, dca_count as int, *prm),
{
    let p = row.price;
    let rsi = eff_rsi_x(row);
    let lower = eff_lower_x(row);
    let ma25 = eff_ma25_x(row);
    let ma50 = eff_ma50_x(row);
    let atr = eff_atr_x(row);
    let p128 = p as i128;
    let avg128 = avg as i128;
    let mut score: i64 = 0;
    if 100 * p128 < 85 * avg128 { score += 40; }
    else if 100 * p128 < 90 * avg128 { score += 30; }
    else if 100 * p128 < 92 * avg128 { score += 20; }
    else {
        proof {
            assert(0 <= ((SCALE - prm.dca_buy_threshold) as int) * (avg128 as int)
                <= 1_000_000_000_000_000_000_000int) by (nonlinear_arith)
                requires 0 <= SCALE - prm.dca_buy_threshold <= 1_000_000int
                    && 1 <= avg128 <= 100_000_000_000_000i128;
            assert(0 <= (SCALE as int) * (p128 as int) <= 1_000_000_000_000_000_000_000int)
                by (nonlinear_arith)
                requires SCALE == 1_000_000i64 && 1 <= p128 <= 100_000_000_000_000i128;
        }
        if (SCALE as i128) * p128 < ((SCALE - prm.dca_buy_threshold) as i128) * avg128 { score += 10; }
    }
    if rsi < 25 * SCALE { score += 20; } else if rsi < 30 * SCALE { score += 15; }
    else if rsi < 35 * SCALE { score += 10; }
    if 100 * p128 <= 103 * (lower as i128) { score += 15; }
    if row.macd > row.signal { score += 10; }
    if (100 * p128 <= 102 * (ma25 as i128) && 100 * p128 >= 98 * (ma25 as i128))
        || (100 * p128 <= 102 * (ma50 as i128) && 100 * p128 >= 98 * (ma50 as i128)) { score += 5; }
    if fgi < 20 { score += 10; }
    if 100 * (atr as i128) > 3 * p128 { score += 5; }
    if dca_count >= 3 { score -= 30; }
    score
}

/// Computes the partial-profit score of one bounded row for a position
/// with the given average entry price.
#[verifier::rlimit(80)]
fn dca_sell_score_x(row: &IndicatorRow, fgi: u8, avg: i64, prm: &Params) -> (s: i64)
    requires
        crate::indicators::row_bounded(*row),
        1 <= avg <= PRICE_MAX,
        params_wf(*prm),
    ensures
        s == dca_sell_score(*row, fgi, avg as int, *prm),
{
    let p = row.price;
    let rsi = eff_rsi_x(row);
    let upper = eff_upper_x(row);
    let ma5 = eff_ma5_x(row);
    let ma25 = eff_ma25_x(row);
    let vma = eff_vma_x(row);
    let p128 = p as i128;
    let avg128 = avg as i128;
    let mut score: i64 = 0;
    if 100 * (p128 - avg128) > 25 * avg128 { score += 40; }
    else if 100 * (p128 - avg128) > 20 * avg128 { score += 30; }
    else if 100 * (p128 - avg128) > 15 * avg128 { score += 20; }
    else {
        proof {
            assert(0 <= (prm.profit_sell_threshold as int) * (avg128 as int)
                <= 1_000_000_000_000_000_000_000_000int) by (nonlinear_arith)
                requires 0 <= prm.profit_sell_threshold <= 10_000_000i64
                    && 1 <= avg128 <= 100_000_000_000_000i128;
            assert(-1_000_000_000_000_000_000_000int <= (SCALE as int) * ((p128 - avg128) as int)
                <= 1_000_000_000_000_000_000_000int) by (nonlinear_arith)
                requires SCALE == 1_000_000i64
                    && -100_000_000_000_000i128 <= p128 - avg128 <= 100_000_000_000_000i128;
        }
        if (SCALE as i128) * (p128 - avg128) > (prm.profit_sell_threshold as i128) * avg128 { score += 15; }
    }
    if rsi > 80 * SCALE { score += 25; } else if rsi > 75 * SCALE { score += 20; }
    else if rsi > 70 * SCALE { score += 15; } else if rsi > 65 * SCALE { score += 10; }
    if 100 * p128 >= 95 * (upper as i128) { score += 15; }
    if row.macd < row.signal && row.macd > 0 { score += 10; }
    if ma5 > ma25 { score += 5; }
    if fgi > 75 { score += 5; }
    if !(vma > p) { score += 5; }
    score
}

impl TradingEngine {
    /// The number of recorded trades of the given kind.
    fn count_trades(&self, k: TradeType) -> (c: usize)
        ensures
            c == count_kind(trades_view(self.trade_history@), k),
            c <= self.trade_history@.len(),
    {
        let ghost ts = trades_view(self.trade_history@);
        let n = self.trade_history.len();
        let mut c: usize = 0;
        let mut j: usize = 0;
        while j < n
            invariant
                j <= n,
                n == self.trade_history@.len(),
                ts == trades_view(self.trade_history@),
                c <= j,
                c == count_kind(ts.take(j as int), k),
            decreases n - j,
        {
            proof {
                lemma_count_kind_take(ts, k, j as int);
            }
            if self.trade_history[j].trade_type == k {
                c += 1;
            }
            j += 1;
        }
        proof {
            assert(ts.take(n as int) =~= ts);
        }
        c
    }

    /// Generates the weighted buy and sell decision for row `idx`.
    pub fn generate_signal(&self, idx: usize) -> (r: (bool, bool))
        requires
            idx < self.final_df.rows@.len(),
            frame_bounded(self.final_df.rows@),
        ensures
            r.0 == buy_now(self.final_df.rows@[idx as int], self.fgi),
            r.1 == sell_now(self.final_df.rows@[idx as int], self.fgi),
    {
        assert(crate::indicators::row_bounded(self.final_df.rows@[idx as int]));
        let row = self.final_df.rows[idx];
        let p = row.price;
        let ma5 = eff_ma5_x(&row);
        let ma25 = eff_ma25_x(&row);
        let ma50 = eff_ma50_x(&row);
        let ma111 = eff_ma111_x(&row);
        let atr = eff_atr_x(&row);
        let vol_high = 100 * (atr as i128) > 3 * (p as i128);
        let uptrend = ma5 > ma25 && ma25 > ma50 && ma50 > ma111;
        assert(vol_high == volatility_high(row));
        assert(uptrend == strong_uptrend(row));

        let bscore = buy_score_x(&row, self.fgi);
        let sscore = sell_score_x(&row, self.fgi);

        let b_thr: i64 = if vol_high { 70 } else { 60 };
        let s_thr: i64 = (if vol_high { 65 } else { 70 }) + (if uptrend { 10 } else { 0 });
        (bscore >= b_thr, sscore >= s_thr)
    }

    /// Decides whether row `idx` opens an averaging-buy opportunity for the
    /// currently held position.
    pub fn check_dca_buy_opportunity(&self, idx: usize) -> (r: bool)
        requires
            idx < self.final_df.rows@.len(),
            frame_bounded(self.final_df.rows@),
            (pos_view(self.position) matches Some(ps) ==> pos_bounded(ps)),
            params_wf(self.params),
        ensures
            r == has_dca_buy(
                self.final_df.rows@[idx as int],
                self.fgi,
                pos_view(self.position),
                self.current_cash as int,
                count_kind(trades_view(self.trade_history@), TradeType::DcaBuy),
                self.params,
            ),
    {
        let avg: i64 = match &self.position {
            None => { return false; },
            Some(pos) => pos.avg_price,
        };
        assert(crate::indicators::row_bounded(self.final_df.rows@[idx as int]));
        let row = self.final_df.rows[idx];
        let dca_count = self.count_trades(TradeType::DcaBuy);
        proof {
            lemma_count_kind_nonneg(trades_view(self.trade_history@), TradeType::DcaBuy);
        }
        let score = dca_buy_score_x(&row, self.fgi, avg, dca_count, &self.params);
        score >= 60 && self.current_cash >= 200 * (SCALE as i128)
    }

    /// Decides whether row `idx` opens a partial-profit opportunity for the
    /// currently held position.
    pub fn check_dca_sell_opportunity(&self, idx: usize) -> (r: bool)
        requires
            idx < self.final_df.rows@.len(),
            frame_bounded(self.final_df.rows@),
            (pos_view(self.position) matches Some(ps) ==> pos_bounded(ps)),
            params_wf(self.params),
        ensures
            r == has_dca_sell(
                self.final_df.rows@[idx as int],
                self.fgi,
                pos_view(self.position),
                count_kind(trades_view(self.trade_history@), TradeType::PartialSell),
                self.params,
            ),
    {
        let avg: i64 = match &self.position {
            None => { return false; },
            Some(pos) => pos.avg_price,
        };
        assert(crate::indicators::row_bounded(self.final_df.rows@[idx as int]));
        let row = self.final_df.rows[idx];
        let p = row.price;
        if !(p > avg) {
            return false;
        }
        let psell_count = self.count_trades(TradeType::PartialSell);
        proof {
            lemma_count_kind_nonneg(trades_view(self.trade_history@), TradeType::PartialSell);
        }
        let score = dca_sell_score_x(&row, self.fgi, avg, &self.params);
        let p128 = p as i128;
        let avg128 = avg as i128;
        let threshold: i64 = if 100 * (p128 - avg128) > 25 * avg128 {
            55
        } else if psell_count >= 2 {
            80
        } else {
            65
        };
        score >= threshold
    }
}


impl TradingEngine {
    /// Constructs an engine over a calculated frame; a missing sentiment
    /// reading defaults to the neutral 50.
    pub fn new(final_df: IndicatorFrame, fgi: Option<u8>, params: Params) -> (e: Self)
        ensures
            e.final_df == final_df,
            e.fgi == (match fgi { Some(v) => v, None => 50u8 }),
            e.params == params,
            e.current_cash == params.initial_capital,
            e.held == 0,
            e.trade_history@.len() == 0,
            (e.position is None),
    {
        let fgi_val = match fgi {
            Some(v) => v,
            None => 50,
        };
        TradingEngine {
            final_df,
            fgi: fgi_val,
            current_cash: params.initial_capital as i128,
            params,
            held: 0,
            trade_history: Vec::new(),
            position: None,
        }
    }

    /// Constructs an engine with an associated symbol; the symbol only
    /// identifies the asset for the caller.
    pub fn new_with_symbol(final_df: IndicatorFrame, _symbol: String, fgi: Option<u8>, params: Params) -> (e: Self)
        ensures
            e.final_df == final_df,
            e.fgi == (match fgi { Some(v) => v, None => 50u8 }),
            e.params == params,
            e.current_cash == params.initial_capital,
            e.held == 0,
            e.trade_history@.len() == 0,
            (e.position is None),
    {
        Self::new(final_df, fgi, params)
    }

    /// Enters a position with the given fraction of cash at row `idx`.
    fn enter_trade(&mut self, idx: usize, investment_fraction: i64)
        requires
            idx < old(self).final_df.rows@.len(),
            frame_bounded(old(self).final_df.rows@),
            params_wf(old(self).params),
            0 <= investment_fraction <= SCALE,
            0 <= old(self).current_cash <= AMOUNT_CAP,
            0 <= old(self).held <= AMOUNT_CAP,
        ensures
            st0(*final(self)) == op_enter(
                st0(*old(self)),
                old(self).final_df.rows@[idx as int],
                investment_fraction as int,
                old(self).params,
            ),
            final(self).final_df == old(self).final_df,
            final(self).fgi == old(self).fgi,
            final(self).params == old(self).params,
    {
        proof {
            assert(crate::indicators::row_bounded(old(self).final_df.rows@[idx as int]));
        }
        let row = self.final_df.rows[idx];
        let price = row.price;
        let datetime = row.datetime;
        proof {
            lemma_frac_le(old(self).current_cash as int, investment_fraction as int);
        }
        let investment = crate::num::div_i128(
            self.current_cash * (investment_fraction as i128), SCALE as i128);
        proof {
            lemma_frac_le(investment as int, old(self).params.generic_fee as int);
            lemma_amount_range((investment - tdiv(investment as int * old(self).params.generic_fee, SCALE as int)) as int, price as int);
        }
        let fee = crate::num::div_i128(investment * (self.params.generic_fee as i128), SCALE as i128);
        let amount_raw = crate::num::div_i128((investment - fee) * (SCALE as i128), price as i128);
        let amount = if amount_raw > AMOUNT_CAP { AMOUNT_CAP } else { amount_raw };
        self.current_cash = self.current_cash - investment;
        self.held = self.held + amount;
        self.position = Some(Position {
            avg_price: price,
            amount: self.held,
            investment,
            entry_time: datetime,
        });
        let t = Trade { trade_type: TradeType::Buy, datetime, price, amount };
        self.trade_history.push(t);
        proof {
            assert(trades_view(self.trade_history@)
                =~= trades_view(old(self).trade_history@).push(trade_view(t)));
            assert(st0(*self) =~= op_enter(
                st0(*old(self)),
                old(self).final_df.rows@[idx as int],
                investment_fraction as int,
                old(self).params,
            ));
        }
    }

    /// Performs an averaging buy on the held position at row `idx`.
    fn dca_buy(&mut self, idx: usize)
        requires
            idx < old(self).final_df.rows@.len(),
            frame_bounded(old(self).final_df.rows@),
            params_wf(old(self).params),
            0 <= old(self).current_cash <= AMOUNT_CAP,
            0 <= old(self).held <= AMOUNT_CAP,
            (pos_view(old(self).position) matches Some(ps) && pos_bounded(ps)),
        ensures
            st0(*final(self)) == op_dca_buy(
                st0(*old(self)),
                old(self).final_df.rows@[idx as int],
                old(self).params,
            ),
            final(self).final_df == old(self).final_df,
            final(self).fgi == old(self).fgi,
            final(self).params == old(self).params,
    {
        proof {
            assert(crate::indicators::row_bounded(old(self).final_df.rows@[idx as int]));
        }
        let row = self.final_df.rows[idx];
        let price = row.price;
        let datetime = row.datetime;
        let (avg, pos_amount, pos_investment, pos_entry) = match &self.position {
            Some(pos) => (pos.avg_price, pos.amount, pos.investment, pos.entry_time),
            None => { proof { assert(false); } (0i64, 0i128, 0i128, 0i64) },
        };
        let avg128 = avg as i128;
        let p128 = price as i128;
        let scale_f: i64 = if 100 * (avg128 - p128) > 20 * avg128 {
            SCALE
        } else if 100 * (avg128 - p128) > 15 * avg128 {
            900_000
        } else if 100 * (avg128 - p128) > 10 * avg128 {
            self.params.dca_buy_fraction
        } else {
            crate::num::div_i128(8 * (self.params.dca_buy_fraction as i128), 10) as i64
        };
        proof {
            crate::num::lemma_tdiv_le_self(8 * old(self).params.dca_buy_fraction as int, 10);
            assert(0 <= scale_f <= SCALE);
            lemma_frac_le(old(self).current_cash as int, scale_f as int);
        }
        let investment = crate::num::div_i128(self.current_cash * (scale_f as i128), SCALE as i128);
        if investment < 100 * (SCALE as i128) {
            return;
        }
        proof {
            lemma_frac_le(investment as int, old(self).params.generic_fee as int);
            lemma_amount_range((investment - tdiv(investment as int * old(self).params.generic_fee, SCALE as int)) as int, price as int);
        }
        let fee = crate::num::div_i128(investment * (self.params.generic_fee as i128), SCALE as i128);
        let amount_raw = crate::num::div_i128((investment - fee) * (SCALE as i128), price as i128);
        let amount = if amount_raw > AMOUNT_CAP { AMOUNT_CAP } else { amount_raw };
        if amount <= 0 {
            return;
        }
        let total_raw = pos_amount + amount;
        proof {
            assert(pos_amount * avg128 >= 0) by (nonlinear_arith)
                requires 0 <= pos_amount && 0 <= avg128;
            assert(1 * total_raw <= avg128 * pos_amount + p128 * amount
                && avg128 * pos_amount + p128 * amount <= PRICE_MAX * total_raw
                && avg128 * pos_amount + p128 * amount
                    <= 100_000_000_000_000_000_000_000_000_000_000_000_000int) by (nonlinear_arith)
                requires
                    1 <= avg128 <= PRICE_MAX,
                    1 <= p128 <= PRICE_MAX,
                    0 <= pos_amount <= AMOUNT_CAP,
                    1 <= amount <= AMOUNT_CAP,
                    total_raw == pos_amount + amount;
            crate::num::lemma_div_range(
                avg128 * pos_amount + p128 * amount, total_raw as int, 1, PRICE_MAX as int);
        }
        let avg2_num: i128 = avg128 * pos_amount + p128 * amount;
        let avg2 = crate::num::div_i128(avg2_num, total_raw) as i64;
        let total = if total_raw > AMOUNT_CAP { AMOUNT_CAP } else { total_raw };
        let new_investment_raw = pos_investment + investment;
        let new_investment = if new_investment_raw > AMOUNT_CAP { AMOUNT_CAP } else { new_investment_raw };
        self.current_cash = self.current_cash - investment;
        self.held = total;
        self.position = Some(Position {
            avg_price: avg2,
            amount: total,
            investment: new_investment,
            entry_time: pos_entry,
        });
        let t = Trade { trade_type: TradeType::DcaBuy, datetime, price, amount };
        self.trade_history.push(t);
        proof {
            assert(trades_view(self.trade_history@)
                =~= trades_view(old(self).trade_history@).push(trade_view(t)));
            assert(st0(*self) =~= op_dca_buy(
                st0(*old(self)),
                old(self).final_df.rows@[idx as int],
                old(self).params,
            ));
        }
    }

    /// Partially sells the held position to take profit at row `idx`.
    fn partial_sell(&mut self, idx: usize)
        requires
            idx < old(self).final_df.rows@.len(),
            frame_bounded(old(self).final_df.rows@),
            params_wf(old(self).params),
            0 <= old(self).current_cash <= AMOUNT_CAP,
            0 <= old(self).held <= AMOUNT_CAP,
            (pos_view(old(self).position) matches Some(ps) && pos_bounded(ps)
                && ps.amount == old(self).held),
        ensures
            st0(*final(self)) == op_partial_sell(
                st0(*old(self)),
                old(self).final_df.rows@[idx as int],
                old(self).params,
            ),
            final(self).final_df == old(self).final_df,
            final(self).fgi == old(self).fgi,
            final(self).params == old(self).params,
    {
        proof {
            assert(crate::indicators::row_bounded(old(self).final_df.rows@[idx as int]));
        }
        let row = self.final_df.rows[idx];
        let price = row.price;
        let datetime = row.datetime;
        let (avg, pos_amount) = match &self.position {
            Some(pos) => (pos.avg_price, pos.amount),
            None => { proof { assert(false); } (0i64, 0i128) },
        };
        let pst = self.params.profit_sell_threshold;
        proof {
            assert(((SCALE + pst) as int) * (avg as int)
                <= 2_000_000_000_000_000_000_000_000int) by (nonlinear_arith)
                requires
                    0 <= SCALE + pst <= 11_000_000i64,
                    1 <= avg <= PRICE_MAX;
        }
        if !((SCALE as i128) * (price as i128)
            > ((SCALE + self.params.profit_sell_threshold) as i128) * (avg as i128)) {
            return;
        }
        proof {
            lemma_frac_le(pos_amount as int, old(self).params.profit_sell_fraction as int);
        }
        let sell_amount = crate::num::div_i128(
            pos_amount * (self.params.profit_sell_fraction as i128), SCALE as i128);
        proof {
            lemma_gross_range(sell_amount as int, price as int);
        }
        let gross = crate::num::div_i128(sell_amount * (price as i128), SCALE as i128);
        proof {
            lemma_frac_le(gross as int, old(self).params.generic_fee as int);
        }
        let fee = crate::num::div_i128(gross * (self.params.generic_fee as i128), SCALE as i128);
        let new_cash_raw = self.current_cash + gross - fee;
        self.current_cash = if new_cash_raw > AMOUNT_CAP { AMOUNT_CAP } else { new_cash_raw };
        self.held = self.held - sell_amount;
        self.position = Some(Position {
            avg_price: avg,
            amount: pos_amount - sell_amount,
            investment: match &self.position { Some(pos) => pos.investment, None => 0 },
            entry_time: match &self.position { Some(pos) => pos.entry_time, None => 0 },
        });
        let t = Trade { trade_type: TradeType::PartialSell, datetime, price, amount: sell_amount };
        self.trade_history.push(t);
        proof {
            assert(trades_view(self.trade_history@)
                =~= trades_view(old(self).trade_history@).push(trade_view(t)));
            assert(st0(*self) =~= op_partial_sell(
                st0(*old(self)),
                old(self).final_df.rows@[idx as int],
                old(self).params,
            ));
        }
    }

    /// Liquidates the whole position at the given price, recording a trade
    /// of the given kind.
    fn liquidate(&mut self, datetime: i64, sell_price: i64, kind: TradeType)
        requires
            params_wf(old(self).params),
            0 <= old(self).current_cash <= AMOUNT_CAP,
            0 <= old(self).held <= AMOUNT_CAP,
            (pos_view(old(self).position) matches Some(ps) && pos_bounded(ps)
                && ps.amount == old(self).held),
            1 <= sell_price <= PRICE_MAX,
            -DATETIME_MAX <= datetime <= DATETIME_MAX,
        ensures
            st0(*final(self)) == op_sell_all(
                st0(*old(self)), datetime as int, sell_price as int, kind, old(self).params),
            final(self).final_df == old(self).final_df,
            final(self).fgi == old(self).fgi,
            final(self).params == old(self).params,
    {
        let pos_amount = match &self.position {
            Some(pos) => pos.amount,
            None => { proof { assert(false); } 0i128 },
        };
        proof {
            lemma_gross_range(pos_amount as int, sell_price as int);
        }
        let gross = crate::num::div_i128(pos_amount * (sell_price as i128), SCALE as i128);
        proof {
            lemma_frac_le(gross as int, old(self).params.generic_fee as int);
        }
        let fee = crate::num::div_i128(gross * (self.params.generic_fee as i128), SCALE as i128);
        let new_cash_raw = self.current_cash + gross - fee;
        self.current_cash = if new_cash_raw > AMOUNT_CAP { AMOUNT_CAP } else { new_cash_raw };
        self.held = self.held - pos_amount;
        self.position = None;
        let t = Trade { trade_type: kind, datetime, price: sell_price, amount: pos_amount };
        self.trade_history.push(t);
        proof {
            assert(trades_view(self.trade_history@)
                =~= trades_view(old(self).trade_history@).push(trade_view(t)));
            assert(st0(*self) =~= op_sell_all(
                st0(*old(self)), datetime as int, sell_price as int, kind, old(self).params));
        }
    }

    /// Fully exits the position at row `idx` when the close is above the
    /// average entry; otherwise changes nothing.
    fn full_sell(&mut self, idx: usize)
        requires
            idx < old(self).final_df.rows@.len(),
            frame_bounded(old(self).final_df.rows@),
            params_wf(old(self).params),
            0 <= old(self).current_cash <= AMOUNT_CAP,
            0 <= old(self).held <= AMOUNT_CAP,
            (pos_view(old(self).position) matches Some(ps) && pos_bounded(ps)
                && ps.amount == old(self).held),
        ensures
            ({
                let row = old(self).final_df.rows@[idx as int];
                let ps = pos_view(old(self).position)->0;
                if row.price > ps.avg_price {
                    st0(*final(self)) == op_sell_all(
                        st0(*old(self)), row.datetime as int, row.price as int,
                        TradeType::FullSell, old(self).params)
                } else {
                    *final(self) == *old(self)
                }
            }),
            final(self).final_df == old(self).final_df,
            final(self).fgi == old(self).fgi,
            final(self).params == old(self).params,
    {
        proof {
            assert(crate::indicators::row_bounded(old(self).final_df.rows@[idx as int]));
        }
        let row = self.final_df.rows[idx];
        let avg = match &self.position {
            Some(pos) => pos.avg_price,
            None => { proof { assert(false); } 0i64 },
        };
        if row.price > avg {
            self.liquidate(row.datetime, row.price, TradeType::FullSell);
        }
    }

    /// The forced terminal sell after the walk: closes a still-open
    /// position at the larger of the last close and the average entry.
    fn final_sell(&mut self)
        requires
            old(self).final_df.rows@.len() >= 1,
            frame_bounded(old(self).final_df.rows@),
            params_wf(old(self).params),
            0 <= old(self).current_cash <= AMOUNT_CAP,
            0 <= old(self).held <= AMOUNT_CAP,
            match pos_view(old(self).position) {
                Some(ps) => pos_bounded(ps) && ps.amount == old(self).held,
                None => old(self).held == 0,
            },
        ensures
            st0(*final(self)) == finalize(
                st0(*old(self)),
                old(self).final_df.rows@[old(self).final_df.rows@.len() - 1],
                old(self).params,
            ),
            final(self).final_df == old(self).final_df,
            final(self).fgi == old(self).fgi,
            final(self).params == old(self).params,
    {
        let n = self.final_df.rows.len();
        proof {
            assert(crate::indicators::row_bounded(old(self).final_df.rows@[n - 1]));
        }
        let avg = match &self.position {
            Some(pos) => pos.avg_price,
            None => { return; },
        };
        let row = self.final_df.rows[n - 1];
        let sell_price = if row.price < avg { avg } else { row.price };
        self.liquidate(row.datetime, sell_price, TradeType::FinalSell);
    }
}


impl TradingEngine {
    /// Walks the last year of rows from the fresh initial state, driving
    /// the position lifecycle, and forces a terminal sell if a position is
    /// still open. The resulting portfolio, position and trade history are
    /// exactly those of the mathematical run `spec_run`.
    #[verifier::rlimit(100)]
    pub fn run_simulation(&mut self)
        requires
            frame_bounded(old(self).final_df.rows@),
            rows_ascending(old(self).final_df.rows@),
            old(self).final_df.rows@.len() >= 1,
            params_wf(old(self).params),
            (old(self).position is None),
            old(self).trade_history@.len() == 0,
            old(self).current_cash == old(self).params.initial_capital,
            old(self).held == 0,
        ensures
            st0(*final(self)) == clear_latches(spec_run(
                old(self).final_df.rows@, old(self).fgi, old(self).params)),
            final(self).final_df == old(self).final_df,
            final(self).fgi == old(self).fgi,
            final(self).params == old(self).params,
    {
        let ghost rows = self.final_df.rows@;
        let ghost fgi_g = self.fgi;
        let ghost p = self.params;
        let n = self.final_df.rows.len();
        let start = if n > 365 { n - 365 } else { 0 };
        proof {
            assert(trades_view(old(self).trade_history@) =~= Seq::<TradeSt>::empty());
            assert(st0(*self) == sim_init(p));
        }
        let mut waiting: bool = false;
        let mut last_sell_price: i64 = 0;
        let mut consecutive_losses: usize = 0;
        let mut idx: usize = start;
        while idx < n
            invariant
                start <= idx <= n,
                n == self.final_df.rows@.len(),
                self.final_df == old(self).final_df,
                self.fgi == fgi_g,
                self.params == p,
                rows == self.final_df.rows@,
                frame_bounded(rows),
                rows_ascending(rows),
                params_wf(p),
                start == sim_start(n as int),
                consecutive_losses <= idx,
                0 <= last_sell_price <= PRICE_MAX,
                ({
                    let m = run_upto(rows, fgi_g, p, sim_init(p), start as int, idx as int);
                    st0(*self) == clear_latches(m)
                        && waiting == m.waiting
                        && last_sell_price as int == m.last_sell_price
                        && consecutive_losses as int == m.losses
                }),
            decreases n - idx,
        {
            let ghost m = run_upto(rows, fgi_g, p, sim_init(p), start as int, idx as int);
            let ghost m2 = sim_step(m, rows[idx as int], fgi_g, p);
            proof {
                lemma_run_upto_wf(rows, fgi_g, p, sim_init(p), start as int, idx as int);
                assert(st_wf(m));
                assert(crate::indicators::row_bounded(rows[idx as int]));
                assert(trades_le(m.trades, rows[idx as int].datetime as int)) by {
                    if idx > start {
                        assert(trades_le(m.trades, rows[idx - 1].datetime as int));
                        assert(rows[idx as int].datetime > rows[idx - 1].datetime);
                    }
                }
                assert(run_upto(rows, fgi_g, p, sim_init(p), start as int, idx + 1) == m2);
            }
            let row = self.final_df.rows[idx];
            let (buy_signal, sell_signal) = self.generate_signal(idx);
            let rsi = eff_rsi_x(&row);
            let ma25 = eff_ma25_x(&row);
            let strong = buy_signal && rsi < 35 * SCALE && row.price < ma25;
            proof {
                assert(strong == strong_buying_signal(rows[idx as int], fgi_g));
            }
            if self.position.is_none() {
                if waiting && row.price >= last_sell_price {
                    proof {
                        assert(m2 == m);
                    }
                } else if consecutive_losses >= 2 {
                    if strong && self.current_cash > 100 * (SCALE as i128) {
                        proof {
                            crate::num::lemma_div_range(
                                7 * p.initial_investment_fraction, 10, 0,
                                p.initial_investment_fraction as int);
                        }
                        let f = crate::num::div_i128(
                            7 * (self.params.initial_investment_fraction as i128), 10) as i64;
                        self.enter_trade(idx, f);
                        waiting = false;
                        proof {
                            assert(st0(*self) == clear_latches(m2));
                        }
                    } else {
                        proof {
                            assert(m2 == m);
                        }
                    }
                } else if buy_signal && self.current_cash > 100 * (SCALE as i128) {
                    let f0: i64 = if strong {
                        proof {
                            crate::num::lemma_tdiv_le_self(
                                12 * p.initial_investment_fraction, 10);
                        }
                        crate::num::div_i128(
                            12 * (self.params.initial_investment_fraction as i128), 10) as i64
                    } else {
                        self.params.initial_investment_fraction
                    };
                    let f = if f0 > 700_000 { 700_000 } else { f0 };
                    self.enter_trade(idx, f);
                    waiting = false;
                    proof {
                        assert(st0(*self) == clear_latches(m2));
                    }
                } else {
                    proof {
                        assert(m2 == m);
                    }
                }
            } else {
                let is_dca_buy = self.check_dca_buy_opportunity(idx);
                let is_dca_sell = self.check_dca_sell_opportunity(idx);
                let ghost st1 = if has_dca_buy(rows[idx as int], fgi_g, m.pos, m.cash,
                        count_kind(m.trades, TradeType::DcaBuy), p) {
                    op_dca_buy(m, rows[idx as int], p)
                } else if has_dca_sell(rows[idx as int], fgi_g, m.pos,
                        count_kind(m.trades, TradeType::PartialSell), p) {
                    op_partial_sell(m, rows[idx as int], p)
                } else if sell_now(rows[idx as int], fgi_g) && rows[idx as int].price > m.pos->0.avg_price {
                    SimSt {
                        waiting: true,
                        last_sell_price: rows[idx as int].price as int,
                        losses: 0,
                        ..op_sell_all(m, rows[idx as int].datetime as int,
                            rows[idx as int].price as int, TradeType::FullSell, p)
                    }
                } else {
                    m
                };
                if is_dca_buy {
                    self.dca_buy(idx);
                    proof {
                        lemma_op_dca_buy_wf(m, rows[idx as int], p);
                        assert(st0(*self) == clear_latches(st1));
                    }
                } else if is_dca_sell {
                    self.partial_sell(idx);
                    proof {
                        lemma_op_partial_sell_wf(m, rows[idx as int], p);
                        assert(st0(*self) == clear_latches(st1));
                    }
                } else if sell_signal {
                    let do_sell = match &self.position {
                        Some(pos) => row.price > pos.avg_price,
                        None => false,
                    };
                    if do_sell {
                        self.full_sell(idx);
                        waiting = true;
                        last_sell_price = row.price;
                        consecutive_losses = 0;
                        proof {
                            lemma_op_sell_all_wf(m, rows[idx as int].datetime as int,
                                rows[idx as int].price as int, TradeType::FullSell, p);
                            assert(st0(*self) == clear_latches(st1));
                        }
                    } else {
                        proof {
                            assert(st1 == m);
                        }
                    }
                } else {
                    proof {
                        assert(st1 == m);
                    }
                }
                proof {
                    assert(st_wf(st1));
                    assert(trades_le(st1.trades, rows[idx as int].datetime as int));
                    assert(st0(*self) == clear_latches(st1));
                    assert(waiting == st1.waiting);
                    assert(last_sell_price as int == st1.last_sell_price);
                    assert(consecutive_losses as int == st1.losses);
                }
                let stop = match &self.position {
                    Some(pos) => 100 * (row.price as i128) < 80 * (pos.avg_price as i128)
                        && row.datetime - pos.entry_time >= 15 * 86_400_000
                        && rsi > 40 * SCALE,
                    None => false,
                };
                if stop {
                    self.liquidate(row.datetime, row.price, TradeType::FullSell);
                    consecutive_losses = consecutive_losses + 1;
                    proof {
                        assert(st0(*self) == clear_latches(m2));
                    }
                } else {
                    proof {
                        assert(st0(*self) == clear_latches(m2));
                    }
                }
            }
            proof {
                assert(st0(*self) == clear_latches(m2));
                assert(waiting == m2.waiting);
                assert(last_sell_price as int == m2.last_sell_price);
                assert(consecutive_losses as int == m2.losses);
            }
            idx += 1;
        }
        proof {
            lemma_run_upto_wf(rows, fgi_g, p, sim_init(p), start as int, n as int);
        }
        self.final_sell();
        proof {
            assert(st0(*self) == clear_latches(spec_run(rows, fgi_g, p)));
        }
    }
}


/// The portfolio's mark-to-market value: cash plus holdings at a price.
pub open spec fn spec_final_value(cash: int, held: int, price: int) -> int {
    cash + tdiv(held * price, SCALE as int)
}

/// Return on investment as a scaled percentage of the initial capital.
pub open spec fn spec_roi(fv: int, capital: int) -> int {
    tdiv((fv - capital) * 100 * (SCALE as int), capital)
}

/// The estimated fee paid for one recorded trade.
pub open spec fn trade_fee(t: TradeSt, fee_rate: int) -> int {
    tdiv(tdiv(t.price * t.amount, SCALE as int) * fee_rate, SCALE as int)
}

/// The estimated fees paid over a trade history.
pub open spec fn fees_of(ts: Seq<TradeSt>, fee_rate: int) -> int
    decreases ts.len(),
{
    if ts.len() == 0 {
        0
    } else {
        fees_of(ts.drop_last(), fee_rate) + trade_fee(ts.last(), fee_rate)
    }
}

/// Summing one more trade extends the fee total by its fee.
proof fn lemma_fees_take(ts: Seq<TradeSt>, fee_rate: int, j: int)
    requires
        0 <= j < ts.len(),
    ensures
        fees_of(ts.take(j + 1), fee_rate) == fees_of(ts.take(j), fee_rate) + trade_fee(ts[j], fee_rate),
{
    assert(ts.take(j + 1).drop_last() =~= ts.take(j));
    assert(ts.take(j + 1).last() == ts[j]);
}

/// The fee of a bounded trade is nonnegative and small.
proof fn lemma_trade_fee_range(t: TradeSt, fee_rate: int)
    requires
        trade_bounded(t),
        0 <= fee_rate <= SCALE,
    ensures
        0 <= trade_fee(t, fee_rate) <= 10_000_000_000_000_000_000_000_000_000int,
{
    lemma_gross_range(t.amount, t.price);
    lemma_frac_le(tdiv(t.price * t.amount, SCALE as int), fee_rate);
    assert(t.price * t.amount == t.amount * t.price) by (nonlinear_arith);
}

impl TradingEngine {
    /// Reports the outcome of the run: the final portfolio value at the
    /// last close, the return on investment as a scaled percentage, the
    /// number of trades, and the estimated fees paid.
    pub fn get_summary(&self) -> (s: Summary)
        requires
            self.final_df.rows@.len() >= 1,
            frame_bounded(self.final_df.rows@),
            params_wf(self.params),
            0 <= self.current_cash <= AMOUNT_CAP,
            0 <= self.held <= AMOUNT_CAP,
            forall|k: int| 0 <= k < self.trade_history@.len()
                ==> trade_bounded(#[trigger] trades_view(self.trade_history@)[k]),
            self.trade_history@.len() <= 100_000,
        ensures
            s.initial_capital == self.params.initial_capital,
            s.final_portfolio_value == spec_final_value(
                self.current_cash as int,
                self.held as int,
                self.final_df.rows@[self.final_df.rows@.len() - 1].price as int,
            ),
            s.roi == spec_roi(s.final_portfolio_value as int, self.params.initial_capital as int),
            s.num_trades == self.trade_history@.len(),
            s.estimated_fees_paid == fees_of(
                trades_view(self.trade_history@), self.params.generic_fee as int),
    {
        let n = self.final_df.rows.len();
        proof {
            assert(crate::indicators::row_bounded(self.final_df.rows@[n - 1]));
        }
        let final_price = self.final_df.rows[n - 1].price;
        proof {
            lemma_gross_range(self.held as int, final_price as int);
        }
        let held_value = crate::num::div_i128(self.held * (final_price as i128), SCALE as i128);
        let final_portfolio_value = self.current_cash + held_value;
        let profit = final_portfolio_value - (self.params.initial_capital as i128);
        let roi = crate::num::div_i128(profit * 100 * (SCALE as i128),
            self.params.initial_capital as i128);

        let ghost ts = trades_view(self.trade_history@);
        let nt = self.trade_history.len();
        let mut total_fees: i128 = 0;
        let mut j: usize = 0;
        while j < nt
            invariant
                j <= nt,
                nt == self.trade_history@.len(),
                nt <= 100_000,
                ts == trades_view(self.trade_history@),
                params_wf(self.params),
                forall|k: int| 0 <= k < nt ==> trade_bounded(#[trigger] ts[k]),
                total_fees == fees_of(ts.take(j as int), self.params.generic_fee as int),
                0 <= total_fees <= (j as int) * 10_000_000_000_000_000_000_000_000_000int,
            decreases nt - j,
        {
            let t = self.trade_history[j];
            proof {
                assert(trade_bounded(ts[j as int]));
                lemma_trade_fee_range(ts[j as int], self.params.generic_fee as int);
                lemma_fees_take(ts, self.params.generic_fee as int, j as int);
                lemma_gross_range(ts[j as int].amount, ts[j as int].price);
                assert(t.price as int * (t.amount as int) == ts[j as int].price * ts[j as int].amount);
            }
            let gross = crate::num::div_i128((t.price as i128) * t.amount, SCALE as i128);
            proof {
                lemma_frac_le(gross as int, self.params.generic_fee as int);
            }
            let fee = crate::num::div_i128(gross * (self.params.generic_fee as i128), SCALE as i128);
            total_fees = total_fees + fee;
            j += 1;
        }
        proof {
            assert(ts.take(nt as int) =~= ts);
        }
        Summary {
            initial_capital: self.params.initial_capital,
            final_portfolio_value,
            roi,
            num_trades: nt,
            estimated_fees_paid: total_fees,
        }
    }
}

/// The composite signal emitted in polling mode: averaging opportunities
/// first, then an unambiguous buy or sell, else hold.
pub open spec fn poll_signal(row: IndicatorRow, fgi: u8, pos: Option<PosSt>, cash: int,
    dca_cnt: int, psell_cnt: int, p: Params) -> Signal {
    if has_dca_buy(row, fgi, pos, cash, dca_cnt, p) {
        Signal::DcaBuy
    } else if has_dca_sell(row, fgi, pos, psell_cnt, p) {
        Signal::DcaSell
    } else if buy_now(row, fgi) && !sell_now(row, fgi) {
        Signal::Buy
    } else if sell_now(row, fgi) && !buy_now(row, fgi) {
        Signal::Sell
    } else {
        Signal::Hold
    }
}

impl TradingEngine {
    /// Classifies the most recent row into a single event.
    pub fn poll_event(&self) -> (e: Event)
        requires
            self.final_df.rows@.len() >= 1,
            frame_bounded(self.final_df.rows@),
            params_wf(self.params),
            (pos_view(self.position) matches Some(ps) ==> pos_bounded(ps)),
        ensures
            ({
                let row = self.final_df.rows@[self.final_df.rows@.len() - 1];
                &&& e.datetime == row.datetime
                &&& e.price == row.price
                &&& e.signal == poll_signal(row, self.fgi, pos_view(self.position),
                    self.current_cash as int,
                    count_kind(trades_view(self.trade_history@), TradeType::DcaBuy),
                    count_kind(trades_view(self.trade_history@), TradeType::PartialSell),
                    self.params)
            }),
    {
        let idx = self.final_df.rows.len() - 1;
        let row = self.final_df.rows[idx];
        let (buy_signal, sell_signal) = self.generate_signal(idx);
        let is_dca_buy = self.check_dca_buy_opportunity(idx);
        let is_dca_sell = self.check_dca_sell_opportunity(idx);
        let signal = if is_dca_buy {
            Signal::DcaBuy
        } else if is_dca_sell {
            Signal::DcaSell
        } else if buy_signal && !sell_signal {
            Signal::Buy
        } else if sell_signal && !buy_signal {
            Signal::Sell
        } else {
            Signal::Hold
        };
        Event { datetime: row.datetime, price: row.price, signal }
    }
}


/// Every state of a simulator run is well formed: cash and holdings never
/// go negative, the position always mirrors the holdings, and the trade
/// history stays bounded and ordered by time. This also holds of the
/// finished run, whose history gains at most one terminal sell beyond the
/// two trades a row can record.
pub proof fn lemma_spec_run_wf(rows: Seq<IndicatorRow>, fgi: u8, p: Params)
    requires
        frame_bounded(rows),
        rows_ascending(rows),
        params_wf(p),
        rows.len() >= 1,
    ensures
        st_wf(spec_run(rows, fgi, p)),
        spec_run(rows, fgi, p).trades.len() <= 731,
{
    let n = rows.len() as int;
    let start = sim_start(n);
    lemma_run_upto_wf(rows, fgi, p, sim_init(p), start, n);
    let m = run_upto(rows, fgi, p, sim_init(p), start, n);
    assert(st_wf(m));
    assert(m.trades.len() <= 730);
    assert(crate::indicators::row_bounded(rows[n - 1]));
    match m.pos {
        None => {},
        Some(ps) => {
            let last = rows[n - 1];
            let sp = if (last.price as int) < ps.avg_price { ps.avg_price } else { last.price as int };
            assert(trades_le(m.trades, last.datetime as int));
            lemma_op_sell_all_wf(m, last.datetime as int, sp, TradeType::FinalSell, p);
        },
    }
}

/// The portfolio invariants hold at every step of a run, not only at its
/// end: after walking any prefix of the simulated window the cash and the
/// holdings are nonnegative and the trade history is ordered by time.
pub proof fn lemma_run_prefix_wf(rows: Seq<IndicatorRow>, fgi: u8, p: Params, j: int)
    requires
        frame_bounded(rows),
        rows_ascending(rows),
        params_wf(p),
        sim_start(rows.len() as int) <= j <= rows.len(),
    ensures
        ({
            let st = run_upto(rows, fgi, p, sim_init(p), sim_start(rows.len() as int), j);
            &&& 0 <= st.cash
            &&& 0 <= st.held
            &&& forall|k: int| 0 < k < st.trades.len()
                ==> #[trigger] st.trades[k].datetime >= st.trades[k - 1].datetime
        }),
{
    lemma_run_upto_wf(rows, fgi, p, sim_init(p), sim_start(rows.len() as int), j);
}

} // verus!