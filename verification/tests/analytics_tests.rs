use seyeon_engine::data_point::DataPoint;
use seyeon_engine::indicators::{Indicators, IndicatorFrame};
use seyeon_engine::engine::TradingEngine;
use seyeon_engine::{EngineError, SCALE};

const DAY_MS: i64 = 86_400_000;

fn fp(x: f64) -> i64 {
    (x * 1_000_000.0).round() as i64
}

fn frame_of(prices: &[i64]) -> IndicatorFrame {
    let data: Vec<DataPoint> = prices
        .iter()
        .enumerate()
        .map(|(t, &p)| DataPoint {
            datetime: t as i64 * DAY_MS,
            price: p,
            high: p,
            low: p,
            open: p,
            volume: fp(1.0),
        })
        .collect();
    Indicators::new(data).calculate().expect("valid series")
}

fn scaled(xs: &[f64]) -> Vec<i64> {
    xs.iter().map(|&x| fp(x)).collect()
}

#[test]
fn perfectly_correlated_series_score_one() {
    let x = scaled(&[1.0, 2.0, 3.0, 4.0, 5.0]);
    let y = scaled(&[2.0, 4.0, 6.0, 8.0, 10.0]);
    let data = vec![("a".to_string(), x), ("b".to_string(), y)];
    let mat = TradingEngine::calculate_correlation_matrix(&data).expect("aligned");
    assert_eq!(mat[0][1], SCALE);
    assert_eq!(mat[1][0], SCALE);
}

#[test]
fn anti_correlated_series_score_minus_one() {
    let x = scaled(&[1.0, 2.0, 3.0, 4.0, 5.0]);
    let y = scaled(&[5.0, 4.0, 3.0, 2.0, 1.0]);
    let data = vec![("a".to_string(), x), ("b".to_string(), y)];
    let mat = TradingEngine::calculate_correlation_matrix(&data).expect("aligned");
    assert_eq!(mat[0][1], -SCALE);
    assert_eq!(mat[1][0], -SCALE);
}

#[test]
fn matrix_is_symmetric_with_unit_diagonal() {
    let data = vec![
        ("a".to_string(), scaled(&[1.0, 2.0, 3.0, 5.0, 4.0])),
        ("b".to_string(), scaled(&[2.0, 1.0, 4.0, 3.0, 5.0])),
        ("c".to_string(), scaled(&[5.0, 3.0, 1.0, 2.0, 4.0])),
    ];
    let mat = TradingEngine::calculate_correlation_matrix(&data).expect("aligned");
    assert_eq!(mat.len(), 3);
    for i in 0..3 {
        assert_eq!(mat[i].len(), 3);
        assert_eq!(mat[i][i], SCALE);
        for j in 0..3 {
            assert_eq!(mat[i][j], mat[j][i]);
            assert!(-SCALE <= mat[i][j] && mat[i][j] <= SCALE);
        }
    }
}

#[test]
fn zero_variance_cell_is_zero() {
    let data = vec![
        ("a".to_string(), scaled(&[1.0, 2.0, 3.0])),
        ("b".to_string(), scaled(&[4.0, 4.0, 4.0])),
    ];
    let mat = TradingEngine::calculate_correlation_matrix(&data).expect("aligned");
    assert_eq!(mat[0][1], 0);
    assert_eq!(mat[1][0], 0);
}

#[test]
fn mismatched_lengths_are_rejected() {
    let data = vec![
        ("a".to_string(), scaled(&[1.0, 2.0, 3.0])),
        ("b".to_string(), scaled(&[1.0, 2.0])),
    ];
    let err = TradingEngine::calculate_correlation_matrix(&data).unwrap_err();
    assert_eq!(err, EngineError::InputShape);
}

#[test]
fn empty_series_cannot_be_correlated() {
    let data = vec![
        ("a".to_string(), Vec::new()),
        ("b".to_string(), Vec::new()),
    ];
    let err = TradingEngine::calculate_correlation_matrix(&data).unwrap_err();
    assert_eq!(err, EngineError::ComputeError);
}

#[test]
fn empty_batch_gives_empty_matrix() {
    let data: Vec<(String, Vec<i64>)> = Vec::new();
    let mat = TradingEngine::calculate_correlation_matrix(&data).expect("empty");
    assert!(mat.is_empty());
}

#[test]
fn performance_ranking_is_sorted_by_roi_descending() {
    let rising: Vec<i64> = (0..400).map(|t| fp(100.0 * 1.002_f64.powi(t))).collect();
    let flat: Vec<i64> = vec![fp(100.0); 400];
    let assets = vec![
        ("flat".to_string(), frame_of(&flat)),
        ("rising".to_string(), frame_of(&rising)),
    ];
    let ranked = TradingEngine::compare_assets_performance(assets, 365);
    assert_eq!(ranked.len(), 2);
    assert!(ranked[0].roi >= ranked[1].roi);
    assert_eq!(ranked[0].symbol, "rising");
    assert_eq!(ranked[1].symbol, "flat");
    assert_eq!(ranked[1].roi, 0);
    assert_eq!(ranked[1].num_trades, 0);
}

#[test]
fn performance_ranking_keeps_input_order_on_ties() {
    let flat: Vec<i64> = vec![fp(100.0); 50];
    let assets = vec![
        ("first".to_string(), frame_of(&flat)),
        ("second".to_string(), frame_of(&flat)),
        ("third".to_string(), frame_of(&flat)),
    ];
    let ranked = TradingEngine::compare_assets_performance(assets, 365);
    let symbols: Vec<&str> = ranked.iter().map(|r| r.symbol.as_str()).collect();
    assert_eq!(symbols, vec!["first", "second", "third"]);
}
