use seyeon_engine::data_point::{DataPoint, validate_series};
use seyeon_engine::indicators::{Indicators, IndicatorFrame, calculate_moving_averages};
use seyeon_engine::{EngineError, SCALE};

const DAY_MS: i64 = 86_400_000;

fn fp(x: f64) -> i64 {
    (x * 1_000_000.0).round() as i64
}

fn bar(t: i64, price: i64, volume: i64) -> DataPoint {
    DataPoint { datetime: t * DAY_MS, price, high: price, low: price, open: price, volume }
}

fn series(prices: &[i64], volume: i64) -> Vec<DataPoint> {
    prices.iter().enumerate().map(|(t, &p)| bar(t as i64, p, volume)).collect()
}

fn frame_of(prices: &[i64], volume: i64) -> IndicatorFrame {
    Indicators::new(series(prices, volume)).calculate().expect("valid series")
}

#[test]
fn frame_has_one_row_per_bar_in_order() {
    let prices: Vec<i64> = (1..=50).map(|i| fp(i as f64)).collect();
    let frame = frame_of(&prices, fp(1.0));
    assert_eq!(frame.rows.len(), 50);
    for (t, row) in frame.rows.iter().enumerate() {
        assert_eq!(row.datetime, t as i64 * DAY_MS);
        assert_eq!(row.price, prices[t]);
        assert_eq!(row.volume, fp(1.0));
    }
}

#[test]
fn empty_input_gives_empty_frame() {
    let frame = Indicators::new(Vec::new()).calculate().expect("empty is fine");
    assert_eq!(frame.rows.len(), 0);
}

#[test]
fn non_ascending_timestamps_are_rejected() {
    let mut data = series(&[fp(1.0), fp(2.0), fp(3.0)], fp(1.0));
    data[2].datetime = data[1].datetime;
    assert_eq!(Indicators::new(data).calculate().unwrap_err(), EngineError::InputShape);
}

#[test]
fn out_of_range_price_is_rejected() {
    let mut data = series(&[fp(1.0), fp(2.0)], fp(1.0));
    data[1].price = 0;
    assert_eq!(Indicators::new(data).calculate().unwrap_err(), EngineError::InputShape);
}

#[test]
fn moving_averages_with_leading_nulls() {
    let prices: Vec<i64> = (1..=10).map(|i| fp(i as f64)).collect();
    let frame = frame_of(&prices, fp(1.0));
    assert_eq!(frame.rows[3].ma5, None);
    assert_eq!(frame.rows[4].ma5, Some(fp(3.0)));
    assert_eq!(frame.rows[9].ma5, Some(fp(8.0)));
    assert_eq!(frame.rows[9].ma25, None);
}

#[test]
fn ema_starts_at_first_close() {
    let prices = [fp(1.0), fp(2.0)];
    let frame = frame_of(&prices, fp(1.0));
    assert_eq!(frame.rows[0].ema12, fp(1.0));
    // (2 * 2e6 + 11 * 1e6) / 13 = 15e6 / 13, rounded toward zero.
    assert_eq!(frame.rows[1].ema12, 15_000_000 / 13);
    assert_eq!(frame.rows[0].macd, 0);
    assert_eq!(frame.rows[0].signal, 0);
}

#[test]
fn roc_after_twelve_rows() {
    let prices: Vec<i64> = (1..=14).map(|i| fp(i as f64)).collect();
    let frame = frame_of(&prices, fp(1.0));
    assert_eq!(frame.rows[11].roc, None);
    // price 13 against price 1: (13/1 - 1) * 100 percent, scaled.
    assert_eq!(frame.rows[12].roc, Some(1_200_000_000));
}

#[test]
fn true_range_and_atr_of_unit_steps() {
    let prices: Vec<i64> = (1..=20).map(|i| fp(i as f64)).collect();
    let frame = frame_of(&prices, fp(1.0));
    assert_eq!(frame.rows[0].tr14, None);
    assert_eq!(frame.rows[1].tr14, Some(fp(1.0)));
    assert_eq!(frame.rows[13].atr14, None);
    assert_eq!(frame.rows[14].atr14, Some(fp(1.0)));
}

#[test]
fn vwma_is_mean_price_under_uniform_volume() {
    let prices: Vec<i64> = (1..=20).map(|i| fp(i as f64)).collect();
    let frame = frame_of(&prices, fp(1.0));
    assert_eq!(frame.rows[18].vma20, None);
    assert_eq!(frame.rows[19].vma20, Some(fp(10.5)));
}

#[test]
fn vwma_undefined_at_zero_volume() {
    let prices: Vec<i64> = (1..=20).map(|i| fp(i as f64)).collect();
    let frame = frame_of(&prices, 0);
    assert_eq!(frame.rows[19].vma20, None);
}

#[test]
fn ath_is_cumulative_maximum() {
    let prices = [fp(3.0), fp(5.0), fp(4.0), fp(7.0), fp(6.0)];
    let frame = frame_of(&prices, fp(1.0));
    let ath: Vec<i64> = frame.rows.iter().map(|r| r.ath).collect();
    assert_eq!(ath, vec![fp(3.0), fp(5.0), fp(5.0), fp(7.0), fp(7.0)]);
}

#[test]
fn flat_series_has_degenerate_bands() {
    let prices: Vec<i64> = vec![fp(100.0); 30];
    let frame = frame_of(&prices, fp(1.0));
    assert_eq!(frame.rows[23].upper_band, None);
    assert_eq!(frame.rows[24].std20, Some(0));
    assert_eq!(frame.rows[24].upper_band, Some(fp(100.0)));
    assert_eq!(frame.rows[24].lower_band, Some(fp(100.0)));
}

#[test]
fn warm_frame_defines_every_column_of_last_row() {
    let prices: Vec<i64> = (0..400).map(|t| fp(100.0 * 1.002_f64.powi(t))).collect();
    let frame = frame_of(&prices, fp(1.0));
    let last = frame.rows.last().unwrap();
    assert!(last.ma5.is_some());
    assert!(last.ma25.is_some());
    assert!(last.ma50.is_some());
    assert!(last.ma111.is_some());
    assert!(last.ma350.is_some());
    assert!(last.ma365.is_some());
    assert!(last.std20.is_some());
    assert!(last.upper_band.is_some());
    assert!(last.lower_band.is_some());
    assert!(last.roc.is_some());
    assert!(last.vma20.is_some());
    assert!(last.tr14.is_some());
    assert!(last.atr14.is_some());
    assert!(last.pi_cycle_top.is_some());
    assert!(last.rsi.is_some());
    assert_eq!(last.pi_cycle_top, last.ma350.map(|m| 2 * m));
}

#[test]
fn rsi_of_alternating_unit_moves_is_fifty() {
    // 30 alternating +1/-1 moves over a base of 100: 31 bars.
    let mut prices = vec![fp(100.0)];
    for t in 0..30 {
        let last = *prices.last().unwrap();
        prices.push(if t % 2 == 0 { last + fp(1.0) } else { last - fp(1.0) });
    }
    let frame = frame_of(&prices, fp(1.0));
    assert_eq!(frame.rows[30].rsi, Some(50 * SCALE));
}

#[test]
fn rsi_of_strict_ascent_is_one_hundred() {
    let prices: Vec<i64> = (0..=30).map(|t| fp(100.0 + t as f64)).collect();
    let frame = frame_of(&prices, fp(1.0));
    assert_eq!(frame.rows[30].rsi, Some(100 * SCALE));
}

#[test]
fn rsi_undefined_on_flat_window() {
    let prices: Vec<i64> = vec![fp(100.0); 20];
    let frame = frame_of(&prices, fp(1.0));
    assert_eq!(frame.rows[19].rsi, None);
}

#[test]
fn validate_series_accepts_and_rejects() {
    let good = series(&[fp(1.0), fp(2.0), fp(3.0)], fp(1.0));
    assert!(validate_series(&good));
    let mut bad = good.clone();
    bad[1].volume = -1;
    assert!(!validate_series(&bad));
    let mut unordered = good.clone();
    unordered[2].datetime = unordered[0].datetime;
    assert!(!validate_series(&unordered));
    assert!(validate_series(&Vec::new()));
}

#[test]
fn moving_average_column_matches_frame() {
    let prices: Vec<i64> = (1..=30).map(|i| fp(i as f64)).collect();
    let data = series(&prices, fp(1.0));
    let column = calculate_moving_averages(&data, 5);
    let frame = Indicators::new(data).calculate().expect("valid series");
    assert_eq!(column.len(), 30);
    for (i, row) in frame.rows.iter().enumerate() {
        assert_eq!(column[i], row.ma5);
    }
}
