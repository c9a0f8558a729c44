//! One daily OHLCV bar, in scaled integers.

use vstd::prelude::*;
use crate::{PRICE_MAX, VOLUME_MAX, DATETIME_MAX};

verus! {

/// One daily bar: a UTC timestamp in epoch milliseconds, the four prices and
/// the traded volume, all as scaled integers with six decimal places.
#[derive(Debug, Clone, Copy, PartialEq, Eq, Structural)]
pub struct DataPoint {
    pub datetime: i64,
    pub price: i64,
    pub high: i64,
    pub low: i64,
    pub open: i64,
    pub volume: i64,
}

impl DataPoint {
    /// Every field of the bar is inside the accepted range.
    pub open spec fn wf(self) -> bool {
        &&& 1 <= self.price <= PRICE_MAX
        &&& 1 <= self.high <= PRICE_MAX
        &&& 1 <= self.low <= PRICE_MAX
        &&& 1 <= self.open <= PRICE_MAX
        &&& 0 <= self.volume <= VOLUME_MAX
        &&& -DATETIME_MAX <= self.datetime <= DATETIME_MAX
    }
}

/// A well-shaped input series: every bar in range, timestamps strictly
/// ascending.
pub open spec fn series_wf(s: Seq<DataPoint>) -> bool {
    &&& forall|i: int| 0 <= i < s.len() ==> #[trigger] s[i].wf()
    &&& forall|i: int| 0 < i < s.len() ==> #[trigger] s[i].datetime > s[i - 1].datetime
}

/// Decides whether a series is well shaped: all values in range and
/// timestamps strictly ascending.
pub fn validate_series(data: &Vec<DataPoint>) -> (r: bool)
    ensures
        r == series_wf(data@),
{
    let n = data.len();
    let mut i: usize = 0;
    while i < n
        invariant
            i <= n,
            n == data@.len(),
            forall|j: int| 0 <= j < i ==> #[trigger] data@[j].wf(),
            forall|j: int| 0 < j < i ==> #[trigger] data@[j].datetime > data@[j - 1].datetime,
        decreases n - i,
    {
        let d = data[i];
        if !(1 <= d.price && d.price <= PRICE_MAX
            && 1 <= d.high && d.high <= PRICE_MAX
            && 1 <= d.low && d.low <= PRICE_MAX
            && 1 <= d.open && d.open <= PRICE_MAX
            && 0 <= d.volume && d.volume <= VOLUME_MAX
            && -DATETIME_MAX <= d.datetime && d.datetime <= DATETIME_MAX)
        {
            assert(!data@[i as int].wf());
            return false;
        }
        if i > 0 && !(d.datetime > data[i - 1].datetime) {
            return false;
        }
        i += 1;
    }
    true
}

} // verus!
