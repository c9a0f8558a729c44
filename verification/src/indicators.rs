//! The indicator pipeline: turns an OHLCV series into a wide frame of
//! derived technical series, with exact definitions for every column.
//!
//! Every column is defined by a spec function over the input series; the
//! executable pipeline is proved to compute exactly those values. Rolling
//! values with insufficient history are `None`; an exponentially weighted
//! mean starts from the first observation. Divisions round toward zero,
//! which for the nonnegative quantities below is plain floor division.

use vstd::prelude::*;
use crate::data_point::{DataPoint, series_wf, validate_series};
use crate::num::{
    tdiv, sum_int, div_i128, isqrt_u128, is_isqrt,
    lemma_sum_int_le, lemma_sum_int_scale, lemma_div_range,
};
use crate::{SCALE, PRICE_MAX, VOLUME_MAX, DATETIME_MAX, EngineError};

verus! {

/// An `Option<i64>` widened to a mathematical option.
pub open spec fn opt64(o: Option<i64>) -> Option<int> {
    match o {
        Some(v) => Some(v as int),
        None => None,
    }
}

/// An `Option<i128>` widened to a mathematical option.
pub open spec fn opt128(o: Option<i128>) -> Option<int> {
    match o {
        Some(v) => Some(v as int),
        None => None,
    }
}

/// The close price of bar `k`, as the summand of a rolling sum.
pub open spec fn price_f(s: Seq<DataPoint>) -> spec_fn(int) -> int {
    |k: int| s[k].price as int
}

/// The volume of bar `k`, as the summand of a rolling sum.
pub open spec fn vol_f(s: Seq<DataPoint>) -> spec_fn(int) -> int {
    |k: int| s[k].volume as int
}

/// Price times volume of bar `k`, as the summand of a rolling sum.
pub open spec fn pv_f(s: Seq<DataPoint>) -> spec_fn(int) -> int {
    |k: int| s[k].price * s[k].volume
}

/// The upward close-to-close move at bar `k` (0 on a down day).
pub open spec fn gain_f(s: Seq<DataPoint>) -> spec_fn(int) -> int {
    |k: int| if s[k].price >= s[k - 1].price { s[k].price - s[k - 1].price } else { 0 }
}

/// The downward close-to-close move at bar `k` (0 on an up day).
pub open spec fn loss_f(s: Seq<DataPoint>) -> spec_fn(int) -> int {
    |k: int| if s[k].price < s[k - 1].price { s[k - 1].price - s[k].price } else { 0 }
}

/// The true range at bar `k`: the absolute close-to-close move.
pub open spec fn tr_f(s: Seq<DataPoint>) -> spec_fn(int) -> int {
    |k: int| if s[k].price >= s[k - 1].price { s[k].price - s[k - 1].price } else { s[k - 1].price - s[k].price }
}

/// The squared deviation of the close at bar `k` from the mean `m`.
pub open spec fn sqdev_f(s: Seq<DataPoint>, m: int) -> spec_fn(int) -> int {
    |k: int| (s[k].price - m) * (s[k].price - m)
}

/// Simple moving average of the close over window `w`, at row `i`.
pub open spec fn sma_at(s: Seq<DataPoint>, w: int, i: int) -> Option<int> {
    if i + 1 < w {
        None
    } else {
        Some(sum_int(i + 1 - w, i + 1, price_f(s)) / w)
    }
}

/// Mean of the close over the 20-row window ending at row `i`.
pub open spec fn mean20_at(s: Seq<DataPoint>, i: int) -> int {
    sum_int(i - 19, i + 1, price_f(s)) / 20
}

/// Population variance of the close over the 20-row window ending at `i`.
pub open spec fn var20_at(s: Seq<DataPoint>, i: int) -> int {
    sum_int(i - 19, i + 1, sqdev_f(s, mean20_at(s, i))) / 20
}

/// The floor of the square root of `n`.
pub open spec fn sqrt_floor(n: int) -> int {
    choose|r: int| is_isqrt(n, r)
}

/// Rolling population standard deviation of the close, window 20, at `i`.
pub open spec fn std20_at(s: Seq<DataPoint>, i: int) -> Option<int> {
    if i < 19 {
        None
    } else {
        Some(sqrt_floor(var20_at(s, i)))
    }
}

/// Exponentially weighted mean of the close with the given span, started
/// from the first observation; the update divides by `span + 1`, rounding
/// toward zero.
pub open spec fn ema_at(s: Seq<DataPoint>, span: int, i: int) -> int
    decreases i,
{
    if i <= 0 {
        s[0].price as int
    } else {
        tdiv(2 * s[i].price + (span - 1) * ema_at(s, span, i - 1), span + 1)
    }
}

/// MACD: the span-12 EWM minus the span-26 EWM of the close.
pub open spec fn macd_at(s: Seq<DataPoint>, i: int) -> int {
    ema_at(s, 12, i) - ema_at(s, 26, i)
}

/// The signal line: span-9 EWM of the MACD.
pub open spec fn signal_at(s: Seq<DataPoint>, i: int) -> int
    decreases i,
{
    if i <= 0 {
        macd_at(s, 0)
    } else {
        tdiv(2 * macd_at(s, i) + 8 * signal_at(s, i - 1), 10)
    }
}

/// Rate of change over 12 rows, as a scaled percentage.
pub open spec fn roc_at(s: Seq<DataPoint>, i: int) -> Option<int> {
    if i < 12 {
        None
    } else {
        Some(tdiv(s[i].price * 100 * SCALE, s[i - 12].price as int) - 100 * SCALE)
    }
}

/// Volume-weighted moving average over 20 rows; undefined when the volume
/// sum of the window is zero.
pub open spec fn vma20_at(s: Seq<DataPoint>, i: int) -> Option<int> {
    if i < 19 {
        None
    } else {
        let v = sum_int(i - 19, i + 1, vol_f(s));
        if v <= 0 {
            None
        } else {
            Some(sum_int(i - 19, i + 1, pv_f(s)) / v)
        }
    }
}

/// True range at row `i`: the absolute close-to-close move.
pub open spec fn tr_at(s: Seq<DataPoint>, i: int) -> Option<int> {
    if i < 1 {
        None
    } else {
        Some(tr_f(s)(i))
    }
}

/// Average true range: 14-window mean of the true range.
pub open spec fn atr_at(s: Seq<DataPoint>, i: int) -> Option<int> {
    if i < 14 {
        None
    } else {
        Some(sum_int(i - 13, i + 1, tr_f(s)) / 14)
    }
}

/// Pi-Cycle top proxy: twice the 350-row moving average.
pub open spec fn pi_cycle_at(s: Seq<DataPoint>, i: int) -> Option<int> {
    match sma_at(s, 350, i) {
        Some(m) => Some(2 * m),
        None => None,
    }
}

/// Cumulative maximum of the close up to row `i`.
pub open spec fn ath_at(s: Seq<DataPoint>, i: int) -> int
    decreases i,
{
    if i <= 0 {
        s[0].price as int
    } else if s[i].price > ath_at(s, i - 1) {
        s[i].price as int
    } else {
        ath_at(s, i - 1)
    }
}

/// Upper Bollinger band: 25-row moving average plus two standard deviations.
pub open spec fn upper_at(s: Seq<DataPoint>, i: int) -> Option<int> {
    match (sma_at(s, 25, i), std20_at(s, i)) {
        (Some(m), Some(sd)) => Some(m + 2 * sd),
        _ => None,
    }
}

/// Lower Bollinger band: 25-row moving average minus two standard deviations.
pub open spec fn lower_at(s: Seq<DataPoint>, i: int) -> Option<int> {
    match (sma_at(s, 25, i), std20_at(s, i)) {
        (Some(m), Some(sd)) => Some(m - 2 * sd),
        _ => None,
    }
}

/// 14-window RSI on close-to-close gains and losses. When both sums are
/// zero the value is undefined; when only the loss sum is zero it is 100.
/// The window means of gain and loss share the divisor 14, so the ratio is
/// taken on the window sums directly.
pub open spec fn rsi_at(s: Seq<DataPoint>, i: int) -> Option<int> {
    if i < 14 {
        None
    } else {
        let g = sum_int(i - 13, i + 1, gain_f(s));
        let l = sum_int(i - 13, i + 1, loss_f(s));
        if g == 0 && l == 0 {
            None
        } else if l == 0 {
            Some(100 * SCALE)
        } else {
            Some(tdiv(100 * SCALE * g, g + l))
        }
    }
}

/// One row of the wide indicator frame.
#[derive(Debug, Clone, Copy)]
pub struct IndicatorRow {
    pub datetime: i64,
    pub price: i64,
    pub high: i64,
    pub low: i64,
    pub open: i64,
    pub volume: i64,
    pub ma5: Option<i64>,
    pub ma25: Option<i64>,
    pub ma50: Option<i64>,
    pub ma111: Option<i64>,
    pub ma350: Option<i64>,
    pub ma365: Option<i64>,
    pub std20: Option<i64>,
    pub upper_band: Option<i64>,
    pub lower_band: Option<i64>,
    pub ema12: i64,
    pub ema26: i64,
    pub macd: i64,
    pub signal: i64,
    pub roc: Option<i128>,
    pub vma20: Option<i64>,
    pub tr14: Option<i64>,
    pub atr14: Option<i64>,
    pub pi_cycle_top: Option<i64>,
    pub ath: i64,
    pub rsi: Option<i64>,
}

/// Row `i` of the frame holds exactly the column values of the series.
pub open spec fn row_ok(r: IndicatorRow, s: Seq<DataPoint>, i: int) -> bool {
    &&& r.datetime == s[i].datetime
    &&& r.price == s[i].price
    &&& r.high == s[i].high
    &&& r.low == s[i].low
    &&& r.open == s[i].open
    &&& r.volume == s[i].volume
    &&& opt64(r.ma5) == sma_at(s, 5, i)
    &&& opt64(r.ma25) == sma_at(s, 25, i)
    &&& opt64(r.ma50) == sma_at(s, 50, i)
    &&& opt64(r.ma111) == sma_at(s, 111, i)
    &&& opt64(r.ma350) == sma_at(s, 350, i)
    &&& opt64(r.ma365) == sma_at(s, 365, i)
    &&& opt64(r.std20) == std20_at(s, i)
    &&& opt64(r.upper_band) == upper_at(s, i)
    &&& opt64(r.lower_band) == lower_at(s, i)
    &&& r.ema12 == ema_at(s, 12, i)
    &&& r.ema26 == ema_at(s, 26, i)
    &&& r.macd == macd_at(s, i)
    &&& r.signal == signal_at(s, i)
    &&& opt128(r.roc) == roc_at(s, i)
    &&& opt64(r.vma20) == vma20_at(s, i)
    &&& opt64(r.tr14) == tr_at(s, i)
    &&& opt64(r.atr14) == atr_at(s, i)
    &&& opt64(r.pi_cycle_top) == pi_cycle_at(s, i)
    &&& r.ath == ath_at(s, i)
    &&& opt64(r.rsi) == rsi_at(s, i)
}

/// Numeric ranges of a frame row; everything the scorer and the simulator
/// need to stay within machine bounds.
pub open spec fn row_bounded(r: IndicatorRow) -> bool {
    &&& 1 <= r.price <= PRICE_MAX
    &&& -DATETIME_MAX <= r.datetime <= DATETIME_MAX
    &&& (r.ma5 matches Some(v) ==> 1 <= v <= PRICE_MAX)
    &&& (r.ma25 matches Some(v) ==> 1 <= v <= PRICE_MAX)
    &&& (r.ma50 matches Some(v) ==> 1 <= v <= PRICE_MAX)
    &&& (r.ma111 matches Some(v) ==> 1 <= v <= PRICE_MAX)
    &&& (r.ma350 matches Some(v) ==> 1 <= v <= PRICE_MAX)
    &&& (r.ma365 matches Some(v) ==> 1 <= v <= PRICE_MAX)
    &&& (r.std20 matches Some(v) ==> 0 <= v <= PRICE_MAX)
    &&& (r.upper_band matches Some(v) ==> 0 <= v <= 3 * PRICE_MAX)
    &&& (r.lower_band matches Some(v) ==> -2 * PRICE_MAX <= v <= PRICE_MAX)
    &&& -PRICE_MAX <= r.ema12 <= PRICE_MAX
    &&& -PRICE_MAX <= r.ema26 <= PRICE_MAX
    &&& -2 * PRICE_MAX <= r.macd <= 2 * PRICE_MAX
    &&& -2 * PRICE_MAX <= r.signal <= 2 * PRICE_MAX
    &&& (r.vma20 matches Some(v) ==> 0 <= v <= PRICE_MAX)
    &&& (r.atr14 matches Some(v) ==> 0 <= v <= PRICE_MAX)
    &&& (r.rsi matches Some(v) ==> 0 <= v <= 100 * SCALE)
}

/// The whole frame mirrors the series row for row.
pub open spec fn frame_rows_ok(rows: Seq<IndicatorRow>, s: Seq<DataPoint>) -> bool {
    &&& rows.len() == s.len()
    &&& forall|i: int| 0 <= i < rows.len() ==> #[trigger] row_ok(rows[i], s, i)
}

/// Every row of the frame is within numeric bounds.
pub open spec fn frame_bounded(rows: Seq<IndicatorRow>) -> bool {
    forall|i: int| 0 <= i < rows.len() ==> #[trigger] row_bounded(rows[i])
}

/// The wide indicator frame: one row per input bar, in input order.
#[derive(Debug)]
pub struct IndicatorFrame {
    pub rows: Vec<IndicatorRow>,
}

/// Any value satisfying `is_isqrt` is the floor square root.
pub proof fn lemma_sqrt_floor_is(n: int, r: int)
    requires
        is_isqrt(n, r),
    ensures
        r == sqrt_floor(n),
{
    assert(exists|x: int| is_isqrt(n, x));
    assert(is_isqrt(n, sqrt_floor(n)));
    let c = sqrt_floor(n);
    assert(r == c) by (nonlinear_arith)
        requires
            0 <= r, r * r <= n, n < (r + 1) * (r + 1),
            0 <= c, c * c <= n, n < (c + 1) * (c + 1);
}

/// Simple moving average of the close over window `w` at row `i`.
fn sma_ix(data: &Vec<DataPoint>, w: usize, i: usize) -> (r: Option<i64>)
    requires
        series_wf(data@),
        1 <= w <= 365,
        i < data@.len(),
    ensures
        opt64(r) == sma_at(data@, w as int, i as int),
        r matches Some(v) ==> 1 <= v <= PRICE_MAX,
{
    let n = data.len();
    if i + 1 < w {
        return None;
    }
    let lo: usize = i + 1 - w;
    let mut acc: i64 = 0;
    let mut j: usize = lo;
    while j <= i
        invariant
            lo <= j <= i + 1,
            i < n,
            n == data@.len(),
            series_wf(data@),
            1 <= w <= 365,
            lo == i + 1 - w,
            acc == sum_int(lo as int, j as int, price_f(data@)),
            j - lo <= acc <= (j - lo) * PRICE_MAX,
        decreases i + 1 - j,
    {
        assert(data@[j as int].wf());
        let p = data[j].price;
        assert(price_f(data@)(j as int) == p as int);
        acc = acc + p;
        j += 1;
    }
    proof {
        lemma_div_range(acc as int, w as int, 1, PRICE_MAX as int);
    }
    let q = div_i128(acc as i128, w as i128);
    Some(q as i64)
}

/// Squared price deviations stated with the price cap as factor, to bound
/// a price-volume sum by the cap times the volume sum.
pub open spec fn pvmax_f(s: Seq<DataPoint>) -> spec_fn(int) -> int {
    |k: int| PRICE_MAX * (s[k].volume as int)
}

/// Rolling population standard deviation of the close, window 20, at `i`.
fn std20_ix(data: &Vec<DataPoint>, i: usize) -> (r: Option<i64>)
    requires
        series_wf(data@),
        i < data@.len(),
    ensures
        opt64(r) == std20_at(data@, i as int),
        r matches Some(v) ==> 0 <= v <= PRICE_MAX,
{
    let n = data.len();
    if i < 19 {
        return None;
    }
    let lo: usize = i - 19;
    let mut acc: i64 = 0;
    let mut j: usize = lo;
    while j <= i
        invariant
            lo <= j <= i + 1,
            19 <= i < n,
            n == data@.len(),
            series_wf(data@),
            lo == i - 19,
            acc == sum_int(lo as int, j as int, price_f(data@)),
            j - lo <= acc <= (j - lo) * PRICE_MAX,
        decreases i + 1 - j,
    {
        assert(data@[j as int].wf());
        let p = data[j].price;
        assert(price_f(data@)(j as int) == p as int);
        acc = acc + p;
        j += 1;
    }
    proof {
        lemma_div_range(acc as int, 20, 1, PRICE_MAX as int);
    }
    let m = div_i128(acc as i128, 20) as i64;
    assert(m as int == mean20_at(data@, i as int));
    let mut acc2: i128 = 0;
    let mut j2: usize = lo;
    while j2 <= i
        invariant
            lo <= j2 <= i + 1,
            19 <= i < n,
            n == data@.len(),
            series_wf(data@),
            lo == i - 19,
            1 <= m <= PRICE_MAX,
            m as int == mean20_at(data@, i as int),
            acc2 == sum_int(lo as int, j2 as int, sqdev_f(data@, m as int)),
            0 <= acc2 <= (j2 - lo) * 10_000_000_000_000_000_000_000_000_000i128,
        decreases i + 1 - j2,
    {
        assert(data@[j2 as int].wf());
        let p = data[j2].price;
        let dev: i64 = p - m;
        proof {
            assert(sqdev_f(data@, m as int)(j2 as int) == (p - m) * (p - m));
            assert(0 <= (dev as int) * (dev as int) <= 10_000_000_000_000_000_000_000_000_000i128)
                by (nonlinear_arith)
                requires -PRICE_MAX <= dev < PRICE_MAX;
        }
        let sq: i128 = (dev as i128) * (dev as i128);
        acc2 = acc2 + sq;
        j2 += 1;
    }
    proof {
        lemma_div_range(acc2 as int, 20, 0, 10_000_000_000_000_000_000_000_000_000int);
    }
    let var = div_i128(acc2, 20);
    assert(var as int == var20_at(data@, i as int));
    let sd128 = isqrt_u128(var as u128);
    proof {
        lemma_sqrt_floor_is(var as int, sd128 as int);
        assert(sd128 * sd128 <= var);
        assert(sd128 <= PRICE_MAX) by (nonlinear_arith)
            requires
                0 <= sd128,
                sd128 * sd128 <= 10_000_000_000_000_000_000_000_000_000int,
                PRICE_MAX == 100_000_000_000_000i64;
    }
    Some(sd128 as i64)
}

/// Rate of change over 12 rows at row `i`, as a scaled percentage.
fn roc_ix(data: &Vec<DataPoint>, i: usize) -> (r: Option<i128>)
    requires
        series_wf(data@),
        i < data@.len(),
    ensures
        opt128(r) == roc_at(data@, i as int),
{
    if i < 12 {
        return None;
    }
    assert(data@[i as int].wf());
    assert(data@[i - 12].wf());
    let p = data[i].price;
    let base = data[i - 12].price;
    let num: i128 = (p as i128) * 100 * (SCALE as i128);
    let q = div_i128(num, base as i128);
    proof {
        lemma_div_range(num as int, base as int, 0, 10_000_000_000_000_000_000_000int);
    }
    Some(q - 100 * (SCALE as i128))
}

/// Volume-weighted moving average over 20 rows at row `i`.
fn vma_ix(data: &Vec<DataPoint>, i: usize) -> (r: Option<i64>)
    requires
        series_wf(data@),
        i < data@.len(),
    ensures
        opt64(r) == vma20_at(data@, i as int),
        r matches Some(v) ==> 0 <= v <= PRICE_MAX,
{
    let n = data.len();
    if i < 19 {
        return None;
    }
    let lo: usize = i - 19;
    let mut vsum: i64 = 0;
    let mut pvsum: i128 = 0;
    let mut j: usize = lo;
    while j <= i
        invariant
            lo <= j <= i + 1,
            19 <= i < n,
            n == data@.len(),
            series_wf(data@),
            lo == i - 19,
            vsum == sum_int(lo as int, j as int, vol_f(data@)),
            0 <= vsum <= (j - lo) * VOLUME_MAX,
            pvsum == sum_int(lo as int, j as int, pv_f(data@)),
            0 <= pvsum <= (j - lo) * (100_000_000_000_000i128 * 1_000_000_000_000_000i128),
        decreases i + 1 - j,
    {
        assert(data@[j as int].wf());
        let p = data[j].price;
        let v = data[j].volume;
        proof {
            assert(vol_f(data@)(j as int) == v as int);
            assert(pv_f(data@)(j as int) == (p as int) * (v as int));
            assert(0 <= (p as int) * (v as int) <= 100_000_000_000_000i128 * 1_000_000_000_000_000i128)
                by (nonlinear_arith)
                requires 1 <= p <= 100_000_000_000_000i64 && 0 <= v <= 1_000_000_000_000_000i64;
        }
        let pv: i128 = (p as i128) * (v as i128);
        vsum = vsum + v;
        pvsum = pvsum + pv;
        j += 1;
    }
    if vsum <= 0 {
        return None;
    }
    proof {
        let s = data@;
        let l = lo as int;
        let h = i + 1;
        assert forall|k: int| l <= k < h implies #[trigger] pv_f(s)(k) <= pvmax_f(s)(k) by {
            assert(s[k].wf());
            vstd::arithmetic::mul::lemma_mul_inequality(s[k].price as int, PRICE_MAX as int, s[k].volume as int);
            assert((s[k].price as int) * (s[k].volume as int) <= (PRICE_MAX as int) * (s[k].volume as int));
        }
        lemma_sum_int_le(l, h, pv_f(s), pvmax_f(s));
        assert forall|k: int| l <= k < h implies #[trigger] pvmax_f(s)(k) == (PRICE_MAX as int) * vol_f(s)(k) by {
        }
        lemma_sum_int_scale(l, h, pvmax_f(s), vol_f(s), PRICE_MAX as int);
        assert(pvsum <= (PRICE_MAX as int) * (vsum as int));
        lemma_div_range(pvsum as int, vsum as int, 0, PRICE_MAX as int);
    }
    let q = div_i128(pvsum, vsum as i128);
    Some(q as i64)
}

/// True range at row `i`.
fn tr_ix(data: &Vec<DataPoint>, i: usize) -> (r: Option<i64>)
    requires
        series_wf(data@),
        i < data@.len(),
    ensures
        opt64(r) == tr_at(data@, i as int),
        r matches Some(v) ==> 0 <= v <= PRICE_MAX,
{
    if i < 1 {
        return None;
    }
    assert(data@[i as int].wf());
    assert(data@[i - 1].wf());
    let p = data[i].price;
    let q = data[i - 1].price;
    if p >= q {
        Some(p - q)
    } else {
        Some(q - p)
    }
}

/// Average true range over a 14-row window at row `i`.
fn atr_ix(data: &Vec<DataPoint>, i: usize) -> (r: Option<i64>)
    requires
        series_wf(data@),
        i < data@.len(),
    ensures
        opt64(r) == atr_at(data@, i as int),
        r matches Some(v) ==> 0 <= v <= PRICE_MAX,
{
    let n = data.len();
    if i < 14 {
        return None;
    }
    let lo: usize = i - 13;
    let mut acc: i64 = 0;
    let mut j: usize = lo;
    while j <= i
        invariant
            lo <= j <= i + 1,
            14 <= i < n,
            n == data@.len(),
            series_wf(data@),
            lo == i - 13,
            acc == sum_int(lo as int, j as int, tr_f(data@)),
            0 <= acc <= (j - lo) * PRICE_MAX,
        decreases i + 1 - j,
    {
        assert(data@[j as int].wf());
        assert(data@[j - 1].wf());
        let p = data[j].price;
        let q = data[j - 1].price;
        let tr: i64 = if p >= q { p - q } else { q - p };
        assert(tr_f(data@)(j as int) == tr as int);
        acc = acc + tr;
        j += 1;
    }
    proof {
        lemma_div_range(acc as int, 14, 0, PRICE_MAX as int);
    }
    let q = div_i128(acc as i128, 14);
    Some(q as i64)
}

/// 14-window RSI at row `i`.
fn rsi_ix(data: &Vec<DataPoint>, i: usize) -> (r: Option<i64>)
    requires
        series_wf(data@),
        i < data@.len(),
    ensures
        opt64(r) == rsi_at(data@, i as int),
        r matches Some(v) ==> 0 <= v <= 100 * SCALE,
{
    let n = data.len();
    if i < 14 {
        return None;
    }
    let lo: usize = i - 13;
    let mut g: i64 = 0;
    let mut l: i64 = 0;
    let mut j: usize = lo;
    while j <= i
        invariant
            lo <= j <= i + 1,
            14 <= i < n,
            n == data@.len(),
            series_wf(data@),
            lo == i - 13,
            g == sum_int(lo as int, j as int, gain_f(data@)),
            l == sum_int(lo as int, j as int, loss_f(data@)),
            0 <= g <= (j - lo) * PRICE_MAX,
            0 <= l <= (j - lo) * PRICE_MAX,
        decreases i + 1 - j,
    {
        assert(data@[j as int].wf());
        assert(data@[j - 1].wf());
        let p = data[j].price;
        let q = data[j - 1].price;
        proof {
            assert(gain_f(data@)(j as int) == if p >= q { p - q } else { 0int });
            assert(loss_f(data@)(j as int) == if p < q { q - p } else { 0int });
        }
        if p >= q {
            g = g + (p - q);
        } else {
            l = l + (q - p);
        }
        j += 1;
    }
    if g == 0 && l == 0 {
        return None;
    }
    if l == 0 {
        return Some(100 * SCALE);
    }
    let num: i128 = 100 * (SCALE as i128) * (g as i128);
    proof {
        assert(100 * (SCALE as int) * (g as int) <= (g + l) * (100 * SCALE)) by (nonlinear_arith)
            requires 0 <= g && 1 <= l && SCALE == 1_000_000i64;
        lemma_div_range(num as int, (g + l) as int, 0, 100 * SCALE as int);
    }
    let q = div_i128(num, (g as i128) + (l as i128));
    Some(q as i64)
}

/// The six simple moving averages of the original frame, one column at a
/// time: the value at each row, or nothing while the window is not full.
pub fn calculate_moving_averages(data: &Vec<DataPoint>, window: usize) -> (r: Vec<Option<i64>>)
    requires
        series_wf(data@),
        1 <= window <= 365,
    ensures
        r@.len() == data@.len(),
        forall|i: int| 0 <= i < data@.len() ==> opt64(#[trigger] r@[i]) == sma_at(data@, window as int, i),
{
    let n = data.len();
    let mut out: Vec<Option<i64>> = Vec::new();
    let mut i: usize = 0;
    while i < n
        invariant
            i <= n,
            n == data@.len(),
            series_wf(data@),
            1 <= window <= 365,
            out@.len() == i,
            forall|k: int| 0 <= k < i ==> opt64(#[trigger] out@[k]) == sma_at(data@, window as int, k),
        decreases n - i,
    {
        let v = sma_ix(data, window, i);
        out.push(v);
        i += 1;
    }
    out
}

/// The indicator pipeline over one input series.
pub struct Indicators {
    pub data: Vec<DataPoint>,
}

impl Indicators {
    /// Wraps an input series for indicator calculation.
    pub fn new(data: Vec<DataPoint>) -> (r: Self)
        ensures
            r.data == data,
    {
        Indicators { data }
    }

    /// Computes the full indicator frame: one row per input bar, in input
    /// order, each column exactly as its spec function defines it. Rejects
    /// a series with out-of-range values or non-ascending timestamps.
    pub fn calculate(self) -> (r: Result<IndicatorFrame, EngineError>)
        ensures
            match r {
                Ok(f) => {
                    &&& series_wf(self.data@)
                    &&& frame_rows_ok(f.rows@, self.data@)
                    &&& frame_bounded(f.rows@)
                },
                Err(e) => e == EngineError::InputShape && !series_wf(self.data@),
            },
    {
        let data = self.data;
        if !validate_series(&data) {
            return Err(EngineError::InputShape);
        }
        let n = data.len();
        let mut rows: Vec<IndicatorRow> = Vec::new();
        let mut ema12_prev: i64 = 0;
        let mut ema26_prev: i64 = 0;
        let mut signal_prev: i64 = 0;
        let mut ath_prev: i64 = 0;
        let mut i: usize = 0;
        while i < n
            invariant
                i <= n,
                n == data@.len(),
                series_wf(data@),
                rows@.len() == i,
                forall|k: int| 0 <= k < i ==> #[trigger] row_ok(rows@[k], data@, k),
                forall|k: int| 0 <= k < i ==> #[trigger] row_bounded(rows@[k]),
                i > 0 ==> {
                    &&& ema12_prev == ema_at(data@, 12, i - 1)
                    &&& ema26_prev == ema_at(data@, 26, i - 1)
                    &&& signal_prev == signal_at(data@, i - 1)
                    &&& ath_prev == ath_at(data@, i - 1)
                    &&& 1 <= ema12_prev <= PRICE_MAX
                    &&& 1 <= ema26_prev <= PRICE_MAX
                    &&& -PRICE_MAX <= signal_prev <= PRICE_MAX
                    &&& 1 <= ath_prev <= PRICE_MAX
                },
            decreases n - i,
        {
            assert(data@[i as int].wf());
            let d = data[i];
            let p = d.price;

            let ema12: i64 = if i == 0 {
                p
            } else {
                let num: i128 = 2 * (p as i128) + 11 * (ema12_prev as i128);
                proof {
                    lemma_div_range(num as int, 13, 1, PRICE_MAX as int);
                }
                div_i128(num, 13) as i64
            };
            let ema26: i64 = if i == 0 {
                p
            } else {
                let num: i128 = 2 * (p as i128) + 25 * (ema26_prev as i128);
                proof {
                    lemma_div_range(num as int, 27, 1, PRICE_MAX as int);
                }
                div_i128(num, 27) as i64
            };
            let macd: i64 = ema12 - ema26;
            assert(macd == macd_at(data@, i as int));
            let signal: i64 = if i == 0 {
                macd
            } else {
                let num: i128 = 2 * (macd as i128) + 8 * (signal_prev as i128);
                proof {
                    crate::num::lemma_tdiv_bound(num as int, 10, PRICE_MAX as int);
                }
                div_i128(num, 10) as i64
            };
            assert(signal == signal_at(data@, i as int));
            let ath: i64 = if i == 0 {
                p
            } else if p > ath_prev {
                p
            } else {
                ath_prev
            };
            assert(ath == ath_at(data@, i as int));

            let ma5 = sma_ix(&data, 5, i);
            let ma25 = sma_ix(&data, 25, i);
            let ma50 = sma_ix(&data, 50, i);
            let ma111 = sma_ix(&data, 111, i);
            let ma350 = sma_ix(&data, 350, i);
            let ma365 = sma_ix(&data, 365, i);
            let std20 = std20_ix(&data, i);
            let upper_band: Option<i64> = match (ma25, std20) {
                (Some(m), Some(sd)) => Some(m + 2 * sd),
                _ => None,
            };
            let lower_band: Option<i64> = match (ma25, std20) {
                (Some(m), Some(sd)) => Some(m - 2 * sd),
                _ => None,
            };
            let roc = roc_ix(&data, i);
            let vma20 = vma_ix(&data, i);
            let tr14 = tr_ix(&data, i);
            let atr14 = atr_ix(&data, i);
            let pi_cycle_top: Option<i64> = match ma350 {
                Some(m) => Some(2 * m),
                None => None,
            };
            let rsi = rsi_ix(&data, i);

            let row = IndicatorRow {
                datetime: d.datetime,
                price: d.price,
                high: d.high,
                low: d.low,
                open: d.open,
                volume: d.volume,
                ma5, ma25, ma50, ma111, ma350, ma365,
                std20, upper_band, lower_band,
                ema12, ema26, macd, signal,
                roc, vma20, tr14, atr14, pi_cycle_top,
                ath, rsi,
            };
            assert(row_ok(row, data@, i as int));
            assert(row_bounded(row));
            rows.push(row);
            ema12_prev = ema12;
            ema26_prev = ema26;
            signal_prev = signal;
            ath_prev = ath;
            i += 1;
        }
        Ok(IndicatorFrame { rows })
    }
}


/// With at least the largest window of history, every indicator of the
/// last row is defined: only the RSI may be undefined, exactly when the
/// window saw neither gains nor losses, and the volume-weighted average
/// needs a positive volume sum in its window.
pub proof fn lemma_warm_frame_last_row(rows: Seq<IndicatorRow>, s: Seq<DataPoint>)
    requires
        frame_rows_ok(rows, s),
        s.len() >= 365,
    ensures
        ({
            let i = rows.len() - 1;
            let r = rows[i];
            &&& (r.ma5 is Some)
            &&& (r.ma25 is Some)
            &&& (r.ma50 is Some)
            &&& (r.ma111 is Some)
            &&& (r.ma350 is Some)
            &&& (r.ma365 is Some)
            &&& (r.std20 is Some)
            &&& (r.upper_band is Some)
            &&& (r.lower_band is Some)
            &&& (r.roc is Some)
            &&& (r.tr14 is Some)
            &&& (r.atr14 is Some)
            &&& (r.pi_cycle_top is Some)
            &&& (sum_int(i - 19, i + 1, vol_f(s)) > 0 ==> r.vma20 is Some)
            &&& ((r.rsi is None) <==> (sum_int(i - 13, i + 1, gain_f(s)) == 0
                    && sum_int(i - 13, i + 1, loss_f(s)) == 0))
        }),
{
    let i = rows.len() - 1;
    assert(row_ok(rows[i], s, i));
}

} // verus!
