//! The per-asset signal status and the daily-report status, as the
//! key/value store holds them.

use vstd::prelude::*;

verus! {

/// The action last emitted for an asset; `Any` is the sentinel for "never
/// observed".
#[derive(Debug, Clone, PartialEq, Eq, Structural)]
pub enum TradeAction {
    Buy,
    Sell,
    Hold,
    DcaBuy,
    DcaSell,
    Any,
}

impl TradeAction {
    /// The action's display name.
    pub fn as_text(&self) -> (r: String)
        ensures
            r@ == match *self {
                TradeAction::Buy => "Buy"@,
                TradeAction::Sell => "Sell"@,
                TradeAction::Hold => "Hold"@,
                TradeAction::DcaBuy => "DcaBuy"@,
                TradeAction::DcaSell => "DcaSell"@,
                TradeAction::Any => "Any"@,
            },
    {
        match self {
            TradeAction::Buy => "Buy".to_string(),
            TradeAction::Sell => "Sell".to_string(),
            TradeAction::Hold => "Hold".to_string(),
            TradeAction::DcaBuy => "DcaBuy".to_string(),
            TradeAction::DcaSell => "DcaSell".to_string(),
            TradeAction::Any => "Any".to_string(),
        }
    }
}

/// The stored status of one asset: its symbol, the action last emitted,
/// and whether an alert for it was already sent.
#[derive(Debug, Clone)]
pub struct CryptoStatus {
    pub symbol: String,
    pub action: TradeAction,
    pub sent: bool,
}

/// The stored status of the daily report: the date it was last produced
/// and whether it already went out today.
#[derive(Debug, Clone)]
pub struct ReportStatus {
    pub last_report_date: String,
    pub report_sent_today: bool,
}

impl Default for ReportStatus {
    /// A report status from before any report: an old date, nothing sent.
    fn default() -> (r: Self)
        ensures
            r.last_report_date@ == "2000-01-01"@,
            !r.report_sent_today,
    {
        ReportStatus {
            last_report_date: "2000-01-01".to_string(),
            report_sent_today: false,
        }
    }
}

} // verus!
