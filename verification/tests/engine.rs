//! Store, query-engine and statistics-engine behavior on concrete data.

use financial_data::model::{FinancialDataQuery, FinancialDataReport, StatisticsQuery};
use financial_data::query::query_page;
use financial_data::stats::{compute_statistics, statistics_response};
use financial_data::store::Store;

fn day(y: i32, m: u8, d: u8) -> i64 {
    time::Date::from_calendar_date(y, time::Month::try_from(m).unwrap(), d)
        .unwrap()
        .to_julian_day() as i64
}

fn row(symbol: &str, date: i64, open: u64, close: u64, volume: u64) -> FinancialDataReport {
    FinancialDataReport {
        symbol: symbol.to_string(),
        date,
        open_price: open,
        close_price: close,
        volume,
    }
}

fn no_filter_query(page: Option<usize>, limit: Option<usize>) -> FinancialDataQuery {
    FinancialDataQuery { symbol: None, start_date: None, end_date: None, page, limit }
}

#[test]
fn upsert_same_key_retains_latest() {
    let mut store = Store::new();
    let d = day(2023, 1, 1);
    store.upsert(vec![row("AAPL", d, 1_000_000, 1_010_000, 1000)]);
    store.upsert(vec![row("AAPL", d, 2_000_000, 2_020_000, 2000)]);
    assert_eq!(store.len(), 1);
    let resp = query_page(&store, &no_filter_query(None, None));
    assert_eq!(resp.pagination.count, 1);
    assert_eq!(resp.data.len(), 1);
    assert_eq!(resp.data[0].open_price, 2_000_000);
    assert_eq!(resp.data[0].close_price, 2_020_000);
    assert_eq!(resp.data[0].volume, 2000);
    assert_eq!(resp.data[0].date, d);
}

#[test]
fn upsert_key_fields_never_replaced() {
    let mut store = Store::new();
    let d1 = day(2023, 1, 1);
    let d2 = day(2023, 1, 2);
    store.upsert(vec![row("AAPL", d1, 1, 2, 3), row("AAPL", d2, 4, 5, 6)]);
    store.upsert(vec![row("AAPL", d1, 7, 8, 9)]);
    assert_eq!(store.len(), 2);
    let resp = query_page(&store, &no_filter_query(None, None));
    assert_eq!(resp.pagination.count, 2);
    assert_eq!(resp.data[0].date, d2);
    assert_eq!(resp.data[1].date, d1);
    assert_eq!(resp.data[1].open_price, 7);
}

#[test]
fn full_first_page_is_whole_store_date_descending() {
    let mut store = Store::new();
    let days = [day(2023, 3, 5), day(2023, 3, 1), day(2023, 3, 9), day(2023, 3, 7)];
    let batch: Vec<FinancialDataReport> =
        days.iter().map(|&d| row("IBM", d, 10, 20, 30)).collect();
    store.upsert(batch);
    let resp = query_page(&store, &no_filter_query(Some(1), Some(100)));
    assert_eq!(resp.pagination.count, 4);
    assert_eq!(resp.data.len(), 4);
    let got: Vec<i64> = resp.data.iter().map(|r| r.date).collect();
    let mut expected = days.to_vec();
    expected.sort();
    expected.reverse();
    assert_eq!(got, expected);
    assert_eq!(resp.info.error, "");
}

#[test]
fn pages_use_floor_division() {
    let mut store = Store::new();
    let batch: Vec<FinancialDataReport> =
        (0..7).map(|i| row("IBM", day(2023, 1, 1) + i, 1, 1, 1)).collect();
    store.upsert(batch);
    let resp = query_page(&store, &no_filter_query(Some(1), Some(5)));
    assert_eq!(resp.pagination.count, 7);
    // floor division: a partial final page is not counted, although it exists
    assert_eq!(resp.pagination.pages, 1);
    assert_eq!(resp.data.len(), 5);
    let resp2 = query_page(&store, &no_filter_query(Some(2), Some(5)));
    assert_eq!(resp2.data.len(), 2);
    assert_eq!(resp2.pagination.count, 7);
}

#[test]
fn page_zero_is_absorbed_with_message() {
    let mut store = Store::new();
    store.upsert(vec![row("IBM", day(2023, 1, 1), 1, 1, 1)]);
    let resp = query_page(&store, &no_filter_query(Some(0), Some(5)));
    assert!(resp.data.is_empty());
    assert_eq!(resp.pagination.count, 0);
    assert_eq!(resp.pagination.page, 0);
    assert_eq!(resp.pagination.limit, 0);
    assert_eq!(resp.pagination.pages, 0);
    assert_eq!(resp.info.error, "Page must be a positive number bigger than 0.");
}

#[test]
fn limit_zero_is_absorbed_with_message() {
    let mut store = Store::new();
    store.upsert(vec![row("IBM", day(2023, 1, 1), 1, 1, 1)]);
    let resp = query_page(&store, &no_filter_query(Some(1), Some(0)));
    assert!(resp.data.is_empty());
    assert_eq!(resp.pagination.count, 0);
    assert_eq!(resp.pagination.page, 0);
    assert_eq!(resp.pagination.limit, 0);
    assert_eq!(resp.pagination.pages, 0);
    assert_eq!(resp.info.error, "Limit must be a positive number bigger than 0.");
}

#[test]
fn offset_beyond_end_keeps_true_count() {
    let mut store = Store::new();
    store.upsert(vec![row("IBM", day(2023, 1, 1), 1, 1, 1)]);
    let resp = query_page(&store, &no_filter_query(Some(9), Some(5)));
    assert!(resp.data.is_empty());
    assert_eq!(resp.pagination.count, 1);
    assert_eq!(resp.pagination.page, 9);
    assert_eq!(resp.pagination.limit, 5);
}

#[test]
fn aapl_two_days_first_page_of_one() {
    let mut store = Store::new();
    store.upsert(vec![
        row("AAPL", day(2023, 1, 1), 1_000_000, 1_010_000, 1000),
        row("AAPL", day(2023, 1, 2), 1_010_000, 1_020_000, 1100),
    ]);
    let query = FinancialDataQuery {
        symbol: Some("AAPL".to_string()),
        start_date: None,
        end_date: None,
        page: Some(1),
        limit: Some(1),
    };
    let resp = query_page(&store, &query);
    assert_eq!(resp.data.len(), 1);
    assert_eq!(resp.data[0].date, day(2023, 1, 2));
    assert_eq!(resp.pagination.count, 2);
    assert_eq!(resp.pagination.pages, 2);
    // the caller's 1-indexed page and limit come back unchanged
    assert_eq!(resp.pagination.page, 1);
    assert_eq!(resp.pagination.limit, 1);
}

#[test]
fn date_range_filter_is_inclusive() {
    let mut store = Store::new();
    let batch: Vec<FinancialDataReport> =
        (0..5).map(|i| row("IBM", day(2023, 2, 10) + i, 1, 1, 1)).collect();
    store.upsert(batch);
    let query = FinancialDataQuery {
        symbol: None,
        start_date: Some(day(2023, 2, 11)),
        end_date: Some(day(2023, 2, 13)),
        page: None,
        limit: None,
    };
    let resp = query_page(&store, &query);
    assert_eq!(resp.pagination.count, 3);
    assert_eq!(resp.data[0].date, day(2023, 2, 13));
    assert_eq!(resp.data[2].date, day(2023, 2, 11));
}

#[test]
fn returned_symbols_are_trimmed() {
    let mut store = Store::new();
    store.upsert(vec![row("  AAPL ", day(2023, 1, 1), 1, 1, 1)]);
    let query = FinancialDataQuery {
        symbol: Some("  AAPL ".to_string()),
        start_date: None,
        end_date: None,
        page: None,
        limit: None,
    };
    let resp = query_page(&store, &query);
    assert_eq!(resp.pagination.count, 1);
    assert_eq!(resp.data[0].symbol, "AAPL");
}

#[test]
fn no_results_message_on_empty_match() {
    let store = Store::new();
    let resp = query_page(&store, &no_filter_query(None, None));
    assert_eq!(resp.pagination.count, 0);
    assert_eq!(
        resp.info.error,
        "The query had no results. Try another date range and verify symbol is correct."
    );
}

#[test]
fn statistics_of_empty_store_is_none() {
    let store = Store::new();
    let query = StatisticsQuery {
        symbol: "IBM".to_string(),
        start_date: day(2023, 1, 1),
        end_date: day(2023, 12, 31),
    };
    assert!(compute_statistics(&store, &query).is_none());
}

#[test]
fn statistics_sums_and_count() {
    let mut store = Store::new();
    store.upsert(vec![
        row("AAPL", day(2023, 1, 1), 1_000_000, 1_010_000, 1000),
        row("AAPL", day(2023, 1, 2), 1_010_000, 1_020_000, 1100),
        row("IBM", day(2023, 1, 2), 9_999_999, 9_999_999, 9),
    ]);
    let query = StatisticsQuery {
        symbol: "AAPL".to_string(),
        start_date: day(2023, 1, 1),
        end_date: day(2023, 1, 2),
    };
    let rep = compute_statistics(&store, &query).unwrap();
    assert_eq!(rep.symbol, "AAPL");
    assert_eq!(rep.count, 2);
    assert_eq!(rep.open_price_sum, 2_010_000);
    assert_eq!(rep.close_price_sum, 2_030_000);
    assert_eq!(rep.volume_sum, 2100);
    // the averages the embedding reports are the quotients
    assert_eq!(rep.open_price_sum as f64 / rep.count as f64, 1_005_000.0);
    assert_eq!(rep.volume_sum as f64 / rep.count as f64, 1050.0);
}

#[test]
fn statistics_response_carries_advisory_message() {
    let store = Store::new();
    let query = StatisticsQuery {
        symbol: "IBM".to_string(),
        start_date: day(2023, 1, 1),
        end_date: day(2023, 1, 2),
    };
    let resp = statistics_response(&store, &query);
    assert!(resp.data.is_none());
    assert_eq!(
        resp.info.error,
        "The query had no results. Try another date range and verify symbol is correct."
    );
    let mut filled = Store::new();
    filled.upsert(vec![row("IBM", day(2023, 1, 1), 5, 5, 5)]);
    let resp2 = statistics_response(&filled, &query);
    assert!(resp2.data.is_some());
    assert_eq!(resp2.info.error, "");
}

#[test]
fn statistics_range_excludes_outside_rows() {
    let mut store = Store::new();
    store.upsert(vec![
        row("AAPL", day(2023, 1, 1), 10, 10, 10),
        row("AAPL", day(2023, 1, 5), 20, 20, 20),
    ]);
    let query = StatisticsQuery {
        symbol: "AAPL".to_string(),
        start_date: day(2023, 1, 2),
        end_date: day(2023, 1, 9),
    };
    let rep = compute_statistics(&store, &query).unwrap();
    assert_eq!(rep.count, 1);
    assert_eq!(rep.open_price_sum, 20);
}
