//! Data model: time-series rows, pagination metadata, query parameters and
//! response envelopes, together with their mathematical views.

use vstd::prelude::*;

verus! {

/// Mathematical view of one stored trading day: the `(symbol, date)` key and
/// the payload fields, all as unbounded values.
pub ghost struct RowModel {
    pub symbol: Seq<char>,
    pub date: int,
    pub open: int,
    pub close: int,
    pub volume: int,
}

impl RowModel {
    /// Two rows collide in the store exactly when their keys agree.
    pub open spec fn same_key(self, other: RowModel) -> bool {
        self.symbol == other.symbol && self.date == other.date
    }
}

/// One entry of the time series: a single trading day for one equity.
///
/// `date` is a Julian day number; `open_price` and `close_price` are
/// fixed-point prices in ten-thousandths of the currency unit; `volume`
/// is the (non-negative) share count.
pub struct FinancialDataReport {
    pub symbol: String,
    pub date: i64,
    pub open_price: u64,
    pub close_price: u64,
    pub volume: u64,
}

impl FinancialDataReport {
    /// A copy of the row with the same view.
    pub fn duplicate(&self) -> (r: FinancialDataReport)
        ensures
            r@ == self@,
    {
        FinancialDataReport {
            symbol: self.symbol.clone(),
            date: self.date,
            open_price: self.open_price,
            close_price: self.close_price,
            volume: self.volume,
        }
    }
}

impl View for FinancialDataReport {
    type V = RowModel;

    open spec fn view(&self) -> RowModel {
        RowModel {
            symbol: self.symbol@,
            date: self.date as int,
            open: self.open_price as int,
            close: self.close_price as int,
            volume: self.volume as int,
        }
    }
}

/// Pagination metadata of a list response.
#[derive(Clone, Copy, PartialEq, Eq, Structural)]
pub struct Pagination {
    pub count: usize,
    pub page: usize,
    pub limit: usize,
    pub pages: usize,
}

/// Advisory info attached to every endpoint response; `error` is empty on
/// a response with results and holds a human-readable message otherwise.
pub struct ResponseInfo {
    pub error: String,
}

/// Parameters of a time-series page query. A missing side of the date range
/// leaves that side unbounded; missing `page` and `limit` take the defaults
/// 1 and 5.
pub struct FinancialDataQuery {
    pub symbol: Option<String>,
    pub start_date: Option<i64>,
    pub end_date: Option<i64>,
    pub page: Option<usize>,
    pub limit: Option<usize>,
}

/// Response of the time-series page query.
pub struct FinancialDataResponse {
    pub data: Vec<FinancialDataReport>,
    pub pagination: Pagination,
    pub info: ResponseInfo,
}

/// Parameters of a statistics query; symbol and both range ends are required.
pub struct StatisticsQuery {
    pub symbol: String,
    pub start_date: i64,
    pub end_date: i64,
}

/// Statistics over the rows of one equity within an inclusive date range.
///
/// The engine reports the exact sums and the row count; the arithmetic
/// means of the daily fields are the quotients `sum / count`, which the
/// embedding layer computes in its own numeric type.
pub struct StatisticsReport {
    pub symbol: String,
    pub start_date: i64,
    pub end_date: i64,
    pub open_price_sum: u128,
    pub close_price_sum: u128,
    pub volume_sum: u128,
    pub count: usize,
}

/// Response of the statistics query; `data` is absent when no row matches.
pub struct StatisticsResponse {
    pub data: Option<StatisticsReport>,
    pub info: ResponseInfo,
}

} // verus!
