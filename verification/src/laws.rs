//! Laws of the simulator on degenerate markets: under a constant-price
//! series the scorer never reaches its buy threshold, so a run records no
//! trades and the return on investment is exactly zero — in particular it
//! is bounded below by the fees-only loss bound for its trade count.

use vstd::prelude::*;
use crate::data_point::{DataPoint, series_wf};
use crate::indicators::{
    IndicatorRow, frame_rows_ok, row_ok, price_f, vol_f, pv_f, gain_f, loss_f,
    sma_at, vma20_at, rsi_at, ema_at, macd_at, signal_at,
};
use crate::engine::{
    Params, params_wf, SimSt, sim_init, sim_step, run_upto, spec_run, sim_start,
    buy_now, buy_score, buy_threshold_of, eff_ma5, eff_ma25, eff_ma50, eff_rsi, eff_lower,
    eff_vma, strong_buying_signal, spec_final_value, spec_roi, fees_of,
};
use crate::num::{tdiv, sum_int, lemma_sum_int_bound, lemma_sum_int_scale, is_isqrt};
use crate::{SCALE, PRICE_MAX};

verus! {

/// Every close of the series is the constant `c`.
pub open spec fn const_price_series(s: Seq<DataPoint>, c: int) -> bool {
    forall|k: int| 0 <= k < s.len() ==> #[trigger] s[k].price == c
}

/// Any window sum of a constant close is the window length times it.
proof fn lemma_const_sum_price(s: Seq<DataPoint>, c: int, lo: int, hi: int)
    requires
        const_price_series(s, c),
        0 <= lo <= hi <= s.len(),
    ensures
        sum_int(lo, hi, price_f(s)) == (hi - lo) * c,
{
    assert(forall|k: int| lo <= k < hi ==> #[trigger] price_f(s)(k) == c);
    lemma_sum_int_bound(lo, hi, price_f(s), c, c);
}

/// A full moving-average window of a constant close is that constant.
proof fn lemma_const_sma(s: Seq<DataPoint>, c: int, w: int, i: int)
    requires
        const_price_series(s, c),
        1 <= w,
        0 <= i < s.len(),
        i + 1 >= w,
        1 <= c,
    ensures
        sma_at(s, w, i) == Some(c),
{
    lemma_const_sum_price(s, c, i + 1 - w, i + 1);
    vstd::arithmetic::div_mod::lemma_div_multiples_vanish(c, w);
}

/// The exponentially weighted mean of a constant close is that constant.
proof fn lemma_const_ema(s: Seq<DataPoint>, c: int, span: int, i: int)
    requires
        const_price_series(s, c),
        1 <= span,
        0 <= i < s.len(),
        1 <= c,
    ensures
        ema_at(s, span, i) == c,
    decreases i,
{
    if i > 0 {
        lemma_const_ema(s, c, span, i - 1);
        assert(2 * s[i].price + (span - 1) * ema_at(s, span, i - 1) == (span + 1) * c)
            by (nonlinear_arith)
            requires s[i].price == c && ema_at(s, span, i - 1) == c;
        vstd::arithmetic::div_mod::lemma_div_multiples_vanish(c, span + 1);
        assert(tdiv((span + 1) * c, span + 1) == c);
    }
}

/// The signal line over a constant close is zero.
proof fn lemma_const_signal(s: Seq<DataPoint>, c: int, i: int)
    requires
        const_price_series(s, c),
        0 <= i < s.len(),
        1 <= c,
    ensures
        macd_at(s, i) == 0,
        signal_at(s, i) == 0,
    decreases i,
{
    lemma_const_ema(s, c, 12, i);
    lemma_const_ema(s, c, 26, i);
    if i > 0 {
        lemma_const_signal(s, c, i - 1);
        assert(tdiv(0, 10) == 0);
    }
}

/// Gains, losses and the RSI over a constant close: no moves, undefined.
proof fn lemma_const_rsi(s: Seq<DataPoint>, c: int, i: int)
    requires
        const_price_series(s, c),
        0 <= i < s.len(),
    ensures
        rsi_at(s, i) is None,
{
    if i >= 14 {
        assert(forall|k: int| i - 13 <= k < i + 1 ==> #[trigger] gain_f(s)(k) == 0);
        assert(forall|k: int| i - 13 <= k < i + 1 ==> #[trigger] loss_f(s)(k) == 0);
        lemma_sum_int_bound(i - 13, i + 1, gain_f(s), 0, 0);
        lemma_sum_int_bound(i - 13, i + 1, loss_f(s), 0, 0);
    }
}

/// The volume-weighted average over a constant close, where defined, is
/// that constant.
proof fn lemma_const_vma(s: Seq<DataPoint>, c: int, i: int)
    requires
        const_price_series(s, c),
        0 <= i < s.len(),
        1 <= c,
    ensures
        vma20_at(s, i) is Some ==> vma20_at(s, i) == Some(c),
{
    if i >= 19 {
        let v = sum_int(i - 19, i + 1, vol_f(s));
        if v > 0 {
            assert(forall|k: int| i - 19 <= k < i + 1
                ==> #[trigger] pv_f(s)(k) == c * vol_f(s)(k));
            lemma_sum_int_scale(i - 19, i + 1, pv_f(s), vol_f(s), c);
            assert(c * v == v * c) by (nonlinear_arith);
            vstd::arithmetic::div_mod::lemma_div_multiples_vanish(c, v);
        }
    }
}

/// Under a constant close no row ever reaches the buy threshold.
proof fn lemma_const_no_buy(r: IndicatorRow, s: Seq<DataPoint>, i: int, c: int, fgi: u8)
    requires
        row_ok(r, s, i),
        const_price_series(s, c),
        series_wf(s),
        0 <= i < s.len(),
        1 <= c <= PRICE_MAX,
    ensures
        !buy_now(r, fgi),
{
    assert(s[i].wf());
    assert(r.price == c);
    if i + 1 >= 5 {
        lemma_const_sma(s, c, 5, i);
    }
    if i + 1 >= 25 {
        lemma_const_sma(s, c, 25, i);
    }
    if i + 1 >= 50 {
        lemma_const_sma(s, c, 50, i);
    }
    assert(eff_ma5(r) == c && eff_ma25(r) == c && eff_ma50(r) == c);
    lemma_const_signal(s, c, i);
    assert(r.macd == 0 && r.signal == 0);
    lemma_const_rsi(s, c, i);
    assert(eff_rsi(r) == 50 * SCALE);
    lemma_const_vma(s, c, i);
    assert(eff_vma(r) == c);
    // The support-level term: with a full window the lower band is the
    // constant itself (deviation zero); before that the fallback is 90% of
    // the close, which stays out of reach of the 102% and 105% tests.
    if i >= 24 {
        lemma_const_sum_price(s, c, i - 19, i + 1);
        vstd::arithmetic::div_mod::lemma_div_multiples_vanish(c, 20);
        assert(crate::indicators::mean20_at(s, i) == c);
        assert(forall|k: int| i - 19 <= k < i + 1
            ==> #[trigger] crate::indicators::sqdev_f(s, c)(k) == 0);
        lemma_sum_int_bound(i - 19, i + 1, crate::indicators::sqdev_f(s, c), 0, 0);
        assert(crate::indicators::var20_at(s, i) == 0);
        assert(is_isqrt(0, 0)) by (nonlinear_arith);
        crate::indicators::lemma_sqrt_floor_is(0, 0);
        assert(crate::indicators::std20_at(s, i) == Some(0int));
        assert(eff_lower(r) == c);
        assert(buy_score(r, fgi) <= 40);
    } else {
        assert(r.lower_band is None);
        let t = tdiv(9 * c, 10);
        vstd::arithmetic::div_mod::lemma_fundamental_div_mod(9 * c, 10);
        assert(10 * t <= 9 * c);
        assert(eff_lower(r) == t);
        assert(!(100 * c <= 102 * t));
        assert(!(100 * c <= 105 * t));
        assert(buy_score(r, fgi) <= 25);
    }
    assert(buy_threshold_of(r) >= 60);
}

/// Under a constant close a flat simulator stays flat: one step changes
/// nothing.
proof fn lemma_const_step(st: SimSt, r: IndicatorRow, s: Seq<DataPoint>, i: int, c: int, fgi: u8, p: Params)
    requires
        row_ok(r, s, i),
        const_price_series(s, c),
        series_wf(s),
        0 <= i < s.len(),
        1 <= c <= PRICE_MAX,
        st.pos is None,
    ensures
        sim_step(st, r, fgi, p) == st,
{
    lemma_const_no_buy(r, s, i, c, fgi);
    assert(!strong_buying_signal(r, fgi));
}

/// Under a constant close the whole walk changes nothing.
proof fn lemma_const_run(rows: Seq<IndicatorRow>, s: Seq<DataPoint>, c: int, fgi: u8, p: Params, st: SimSt, i: int, j: int)
    requires
        frame_rows_ok(rows, s),
        const_price_series(s, c),
        series_wf(s),
        1 <= c <= PRICE_MAX,
        0 <= i <= j <= rows.len(),
        st.pos is None,
    ensures
        run_upto(rows, fgi, p, st, i, j) == st,
    decreases j - i,
{
    if j > i {
        lemma_const_run(rows, s, c, fgi, p, st, i, j - 1);
        assert(row_ok(rows[j - 1], s, j - 1));
        lemma_const_step(st, rows[j - 1], s, j - 1, c, fgi, p);
    }
}

/// Under a constant-price input the simulator records no trades and ends
/// with its starting capital: the return on investment is exactly zero,
/// and in particular not below the fees-only loss bound for its (empty)
/// trade count.
pub proof fn lemma_const_price_run(rows: Seq<IndicatorRow>, s: Seq<DataPoint>, c: int, fgi: u8, p: Params)
    requires
        frame_rows_ok(rows, s),
        const_price_series(s, c),
        series_wf(s),
        1 <= c <= PRICE_MAX,
        rows.len() >= 1,
        params_wf(p),
    ensures
        spec_run(rows, fgi, p) == sim_init(p),
        spec_run(rows, fgi, p).trades.len() == 0,
        ({
            let st = spec_run(rows, fgi, p);
            let fv = spec_final_value(st.cash, st.held, rows[rows.len() - 1].price as int);
            let roi = spec_roi(fv, p.initial_capital as int);
            &&& fv == p.initial_capital
            &&& roi == 0
            &&& roi >= -100 * p.generic_fee * st.trades.len()
            &&& fees_of(st.trades, p.generic_fee as int) == 0
        }),
{
    let n = rows.len() as int;
    lemma_const_run(rows, s, c, fgi, p, sim_init(p), sim_start(n), n);
    let st = spec_run(rows, fgi, p);
    assert(st == sim_init(p));
    assert(tdiv(0 * (rows[n - 1].price as int), SCALE as int) == 0) by {
        assert(0 * (rows[n - 1].price as int) == 0) by (nonlinear_arith);
        assert(tdiv(0, SCALE as int) == 0);
    }
    let fv = spec_final_value(st.cash, st.held, rows[n - 1].price as int);
    assert(fv == p.initial_capital);
    assert((fv - p.initial_capital) * 100 * (SCALE as int) == 0) by (nonlinear_arith)
        requires fv == p.initial_capital;
    assert(tdiv(0, p.initial_capital as int) == 0);
    assert(-100 * p.generic_fee * st.trades.len() <= 0) by (nonlinear_arith)
        requires p.generic_fee >= 0 && st.trades.len() == 0;
}

} // verus!
