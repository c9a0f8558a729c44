use seyeon_engine::status::{TradeAction, CryptoStatus, ReportStatus};
use seyeon_engine::models::{HistodayParams, FgiValue, CallsInfo, Portfolio, TwitterStats};

#[test]
fn trade_action_text_names_every_variant() {
    assert_eq!(TradeAction::Buy.as_text(), "Buy");
    assert_eq!(TradeAction::Sell.as_text(), "Sell");
    assert_eq!(TradeAction::Hold.as_text(), "Hold");
    assert_eq!(TradeAction::DcaBuy.as_text(), "DcaBuy");
    assert_eq!(TradeAction::DcaSell.as_text(), "DcaSell");
    assert_eq!(TradeAction::Any.as_text(), "Any");
}

#[test]
fn report_status_defaults_to_an_old_unsent_report() {
    let status = ReportStatus::default();
    assert_eq!(status.last_report_date, "2000-01-01");
    assert!(!status.report_sent_today);
}

#[test]
fn crypto_status_carries_its_fields() {
    let status = CryptoStatus {
        symbol: "BTC".to_string(),
        action: TradeAction::Any,
        sent: false,
    };
    assert_eq!(status.symbol, "BTC");
    assert_eq!(status.action, TradeAction::Any);
    assert!(!status.sent);
}

#[test]
fn histoday_params_default_requests_a_year() {
    let params = HistodayParams::default();
    assert_eq!(params.source_sym, "");
    assert_eq!(params.target_sym, "");
    assert_eq!(params.limit, Some(365));
    assert!(params.to_ts.is_none());
}

#[test]
fn histoday_params_builder_sets_symbols_and_limit() {
    let params = HistodayParams::new("BTC".to_string(), "USD".to_string(), 2000);
    assert_eq!(params.source_sym, "BTC");
    assert_eq!(params.target_sym, "USD");
    assert_eq!(params.limit, Some(2000));
    assert!(params.to_ts.is_none());
}

#[test]
fn plain_models_hold_their_values() {
    let fgi = FgiValue { value: 61, value_text: "Greed".to_string() };
    assert_eq!(fgi.value, 61);
    let calls = CallsInfo::default();
    assert!(calls.second.is_none() && calls.month.is_none());
    let portfolio = Portfolio { portfolio: vec!["BTC".to_string(), "ETH".to_string()] };
    assert_eq!(portfolio.portfolio.len(), 2);
    let twitter = TwitterStats { followers_count: 10, status_count: 20 };
    assert_eq!(twitter.followers_count, 10);
    assert_eq!(twitter.status_count, 20);
    let shared = seyeon_engine::shared::TradeAction::Hold;
    assert_eq!(shared, seyeon_engine::shared::TradeAction::Hold);
}
