//! Plain data models of the external collaborators: the sentiment index,
//! the daily-history request and response shells, the market listings, and
//! the portfolio file.

use vstd::prelude::*;

verus! {

/// The Fear-and-Greed index response: when it was last updated and its
/// readings over several horizons.
#[derive(Debug, Clone)]
pub struct FearAndGreedIndexResponse {
    pub last_updated: LastUpdated,
    pub fgi: Fgi,
}

/// When the sentiment index was last updated.
#[derive(Debug, Clone)]
pub struct LastUpdated {
    pub epoch_unix_seconds: i64,
    pub human_date: String,
}

/// The sentiment readings: now and at four earlier horizons.
#[derive(Debug, Clone)]
pub struct Fgi {
    pub now: FgiValue,
    pub previous_close: FgiValue,
    pub one_week_ago: FgiValue,
    pub one_month_ago: FgiValue,
    pub one_year_ago: FgiValue,
}

/// One sentiment reading: the 0 to 100 value and its classification.
#[derive(Debug, Clone)]
pub struct FgiValue {
    pub value: i64,
    pub value_text: String,
}

/// Marker for the sentiment-index endpoint.
#[derive(Debug, Clone, Copy)]
pub struct FearAndGreedIndex;

/// Parameters of a daily-history request: source and target symbols, and
/// optional row limit and end timestamp.
#[derive(Debug, Clone)]
pub struct HistodayParams {
    pub source_sym: String,
    pub target_sym: String,
    pub limit: Option<u32>,
    pub to_ts: Option<u32>,
}

impl Default for HistodayParams {
    /// Empty symbols, a year of rows, no end timestamp.
    fn default() -> (r: Self)
        ensures
            r.source_sym@ == ""@,
            r.target_sym@ == ""@,
            r.limit == Some(365u32),
            (r.to_ts is None),
    {
        HistodayParams {
            source_sym: "".to_string(),
            target_sym: "".to_string(),
            limit: Some(365),
            to_ts: None,
        }
    }
}

impl HistodayParams {
    /// Builds request parameters from the symbols and a row limit.
    pub fn new(source_sym: String, target_sym: String, limit: u32) -> (r: Self)
        ensures
            r.source_sym == source_sym,
            r.target_sym == target_sym,
            r.limit == Some(limit),
            (r.to_ts is None),
    {
        HistodayParams { source_sym, target_sym, limit: Some(limit), to_ts: None }
    }
}

/// The history endpoint's rate-limit report.
#[derive(Debug, Clone)]
pub struct RateLimit {
    pub calls_made: Option<CallsInfo>,
    pub calls_left: Option<CallsInfo>,
}

/// Call counts per time bucket.
#[derive(Debug, Clone, Copy, Default)]
pub struct CallsInfo {
    pub second: Option<i32>,
    pub minute: Option<i32>,
    pub hour: Option<i32>,
    pub day: Option<i32>,
    pub month: Option<i32>,
}

/// Marker for the daily-history endpoint.
#[derive(Debug, Clone, Copy)]
pub struct Histoday;

/// One portfolio entry of the options file: the listed symbols.
#[derive(Debug, Clone)]
pub struct Portfolio {
    pub portfolio: Vec<String>,
}

/// Detail of one exchange listing.
#[derive(Debug, Clone)]
pub struct ExchangeDetail {
    pub name: String,
    pub date_live: String,
    pub url: String,
}

/// Social statistics of an asset on one platform.
#[derive(Debug, Clone, Copy)]
pub struct TwitterStats {
    pub followers_count: i32,
    pub status_count: i32,
}

/// Paging information of a listing response.
#[derive(Debug, Clone, Copy)]
pub struct Info {
    pub coins_num: i32,
    pub time: i64,
}

} // verus!
