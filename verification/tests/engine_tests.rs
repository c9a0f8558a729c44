use seyeon_engine::data_point::DataPoint;
use seyeon_engine::indicators::{Indicators, IndicatorFrame};
use seyeon_engine::engine::{TradingEngine, Params, Signal, TradeType};
use seyeon_engine::SCALE;

const DAY_MS: i64 = 86_400_000;

fn fp(x: f64) -> i64 {
    (x * 1_000_000.0).round() as i64
}

fn bar(t: i64, price: i64, volume: i64) -> DataPoint {
    DataPoint { datetime: t * DAY_MS, price, high: price, low: price, open: price, volume }
}

fn frame_of(prices: &[i64], volume: i64) -> IndicatorFrame {
    let data: Vec<DataPoint> = prices
        .iter()
        .enumerate()
        .map(|(t, &p)| bar(t as i64, p, volume))
        .collect();
    Indicators::new(data).calculate().expect("valid series")
}

fn geometric(n: i32, start: f64, factor: f64) -> Vec<i64> {
    (0..n).map(|t| fp(start * factor.powi(t))).collect()
}

#[test]
fn default_params_match_the_documented_values() {
    let p = Params::default();
    assert_eq!(p.initial_capital, 10_000 * SCALE);
    assert_eq!(p.initial_investment_fraction, 350_000);
    assert_eq!(p.dca_buy_threshold, 100_000);
    assert_eq!(p.dca_buy_fraction, 750_000);
    assert_eq!(p.profit_sell_threshold, 200_000);
    assert_eq!(p.profit_sell_fraction, 400_000);
    assert_eq!(p.generic_fee, 5_000);
    assert_eq!(p.buy_threshold, 3);
    assert_eq!(p.sell_threshold, 2);
}

#[test]
fn new_engine_starts_flat_with_full_capital() {
    let frame = frame_of(&geometric(10, 100.0, 1.0), fp(1.0));
    let engine = TradingEngine::new(frame, None, Params::default());
    assert_eq!(engine.fgi, 50);
    assert_eq!(engine.current_cash, 10_000 * SCALE as i128);
    assert_eq!(engine.held, 0);
    assert!(engine.position.is_none());
    assert!(engine.trade_history.is_empty());
}

#[test]
fn monotone_up_market_buys_and_profits() {
    // 400 daily bars rising 0.2% a day under neutral sentiment.
    let frame = frame_of(&geometric(400, 100.0, 1.002), fp(1.0));
    let mut engine = TradingEngine::new(frame, Some(50), Params::default());

    let mut buy_after_warmup = false;
    for idx in 50..400 {
        let (buy, _) = engine.generate_signal(idx);
        if buy {
            buy_after_warmup = true;
        }
    }
    assert!(buy_after_warmup);

    engine.run_simulation();
    let summary = engine.get_summary();
    assert!(summary.num_trades >= 2);
    assert_eq!(engine.trade_history[0].trade_type, TradeType::Buy);
    assert!(summary.roi > 0);
    assert!(summary.estimated_fees_paid > 0);
}

#[test]
fn monotone_down_market_never_gains() {
    let frame = frame_of(&geometric(400, 100.0, 0.998), fp(1.0));
    let mut engine = TradingEngine::new(frame, Some(50), Params::default());

    // In a steady descent the outright sell side never reaches its
    // threshold; the oversold buy side keeps averaging down instead, and
    // the run can at best break even before fees.
    let mut sells = 0;
    for idx in 100..400 {
        let (_, sell) = engine.generate_signal(idx);
        if sell {
            sells += 1;
        }
    }
    assert_eq!(sells, 0);

    engine.run_simulation();
    let summary = engine.get_summary();
    assert!(summary.roi <= 0);
    assert!(summary.num_trades >= 2);
    assert_eq!(engine.trade_history[0].trade_type, TradeType::Buy);
    assert_eq!(
        engine.trade_history.last().unwrap().trade_type,
        TradeType::FinalSell
    );
}

#[test]
fn v_shape_recovery_ends_profitable_or_flat() {
    // 200 bars falling from 100 to 50, then 200 bars rising back.
    let mut prices: Vec<i64> = Vec::new();
    for t in 0..200 {
        prices.push(fp(100.0 - 50.0 * t as f64 / 199.0));
    }
    for t in 0..200 {
        prices.push(fp(50.0 + 50.0 * t as f64 / 199.0));
    }
    let frame = frame_of(&prices, fp(1.0));
    let mut engine = TradingEngine::new(frame, Some(50), Params::default());
    engine.run_simulation();
    let summary = engine.get_summary();
    // The linear descent never crosses the buy threshold, so the entry
    // comes on the recovery; the climb then pays out through partial
    // profit-taking and the terminal sell, well in the black.
    assert!(summary.num_trades >= 2);
    assert_eq!(engine.trade_history[0].trade_type, TradeType::Buy);
    assert!(engine
        .trade_history
        .iter()
        .any(|t| t.trade_type == TradeType::PartialSell));
    assert_eq!(
        engine.trade_history.last().unwrap().trade_type,
        TradeType::FinalSell
    );
    assert!(summary.roi > 0);
    assert!(engine.current_cash >= 0);
}

#[test]
fn flat_market_holds_and_trades_nothing() {
    let frame = frame_of(&vec![fp(100.0); 400], fp(1.0));
    let mut engine = TradingEngine::new(frame, Some(50), Params::default());
    let event = engine.poll_event();
    assert_eq!(event.signal, Signal::Hold);
    assert_eq!(event.price, fp(100.0));
    assert_eq!(event.datetime, 399 * DAY_MS);

    engine.run_simulation();
    let summary = engine.get_summary();
    assert_eq!(summary.num_trades, 0);
    assert_eq!(summary.roi, 0);
    assert_eq!(summary.final_portfolio_value, 10_000 * SCALE as i128);
    assert_eq!(summary.estimated_fees_paid, 0);
}

#[test]
fn simulator_state_stays_sound_and_history_ordered() {
    let frame = frame_of(&geometric(400, 100.0, 1.002), fp(1.0));
    let mut engine = TradingEngine::new(frame, Some(50), Params::default());
    engine.run_simulation();
    assert!(engine.current_cash >= 0);
    assert!(engine.held >= 0);
    for w in engine.trade_history.windows(2) {
        assert!(w[0].datetime <= w[1].datetime);
    }
    for t in &engine.trade_history {
        assert!(t.amount >= 0);
        assert!(t.price >= 1);
    }
    assert!(engine.position.is_none());
}

#[test]
fn poll_event_reports_last_row() {
    let prices = geometric(30, 100.0, 1.0);
    let frame = frame_of(&prices, fp(1.0));
    let engine = TradingEngine::new(frame, None, Params::default());
    let event = engine.poll_event();
    assert_eq!(event.datetime, 29 * DAY_MS);
    assert_eq!(event.price, fp(100.0));
    assert_eq!(event.signal, Signal::Hold);
}


#[test]
fn dca_buy_opportunity_on_deep_drawdown() {
    // A flat market at 80 against a position entered at 100: a 20% drop,
    // the close on the lower band and on the 25-row average.
    let frame = frame_of(&vec![fp(80.0); 60], fp(1.0));
    let mut engine = TradingEngine::new(frame, Some(50), Params::default());
    engine.position = Some(seyeon_engine::engine::Position {
        avg_price: fp(100.0),
        amount: 35 * 1_000_000_000_000,
        investment: 3_500 * SCALE as i128,
        entry_time: 0,
    });
    engine.held = 35 * 1_000_000_000_000;
    assert!(engine.check_dca_buy_opportunity(59));

    // Without enough cash the same opportunity is declined.
    engine.current_cash = 100 * SCALE as i128;
    assert!(!engine.check_dca_buy_opportunity(59));
}

#[test]
fn dca_sell_opportunity_on_large_gain() {
    // A flat market at 130 against a position entered at 100: a 30% gain
    // with the close sitting on the upper band.
    let frame = frame_of(&vec![fp(130.0); 60], fp(1.0));
    let mut engine = TradingEngine::new(frame, Some(50), Params::default());
    engine.position = Some(seyeon_engine::engine::Position {
        avg_price: fp(100.0),
        amount: 35 * 1_000_000_000_000,
        investment: 3_500 * SCALE as i128,
        entry_time: 0,
    });
    engine.held = 35 * 1_000_000_000_000;
    assert!(engine.check_dca_sell_opportunity(59));

    // Not in profit: no opportunity.
    engine.position = Some(seyeon_engine::engine::Position {
        avg_price: fp(200.0),
        amount: 35 * 1_000_000_000_000,
        investment: 3_500 * SCALE as i128,
        entry_time: 0,
    });
    assert!(!engine.check_dca_sell_opportunity(59));
}
