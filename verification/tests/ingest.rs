//! Normalizer and payload-decoding behavior, with the real `csv` and
//! `time` crates linked.

use financial_data::error::FetchError;
use financial_data::ingest::{decode_csv_payload, default_resource, flatten_fetches, normalize,
    RawFinancialDataReport};
use financial_data::model::FinancialDataReport;
use financial_data::text::{parse_date, parse_digits, parse_price, trim_symbol};

fn day(y: i32, m: u8, d: u8) -> i64 {
    time::Date::from_calendar_date(y, time::Month::try_from(m).unwrap(), d)
        .unwrap()
        .to_julian_day() as i64
}

fn raw(symbol: &str, timestamp: i64, open: u64, close: u64, volume: u64) -> RawFinancialDataReport {
    RawFinancialDataReport { symbol: symbol.to_string(), timestamp, open, close, volume }
}

#[test]
fn normalizer_cutoff_boundary_is_inclusive() {
    let cutoff = day(2023, 6, 15);
    let symbol = "AAPL".to_string();
    assert!(normalize(raw("x", cutoff - 1, 1, 1, 1), &symbol, cutoff).is_none());
    let at = normalize(raw("x", cutoff, 1, 1, 1), &symbol, cutoff).unwrap();
    assert_eq!(at.date, cutoff);
    let after = normalize(raw("x", cutoff + 1, 1, 1, 1), &symbol, cutoff).unwrap();
    assert_eq!(after.date, cutoff + 1);
}

#[test]
fn normalizer_stamps_requested_symbol() {
    let cutoff = day(2023, 6, 1);
    let symbol = "AAPL".to_string();
    let row = normalize(raw("untrusted", cutoff + 3, 5, 6, 7), &symbol, cutoff).unwrap();
    assert_eq!(row.symbol, "AAPL");
    assert_eq!(row.open_price, 5);
    assert_eq!(row.close_price, 6);
    assert_eq!(row.volume, 7);
}

#[test]
fn default_resource_is_placeholder() {
    assert_eq!(default_resource(), "uninitialized");
}

#[test]
fn decode_payload_keeps_provider_order() {
    let text = "timestamp,open,close,volume\n\
                2023-06-20,145.3200,146.0000,1000\n\
                2023-06-19,140.5,141.25,2000\n";
    let symbol = "AAPL".to_string();
    let rows = decode_csv_payload(text, &symbol, day(2023, 6, 1)).unwrap();
    assert_eq!(rows.len(), 2);
    assert_eq!(rows[0].date, day(2023, 6, 20));
    assert_eq!(rows[0].open_price, 1_453_200);
    assert_eq!(rows[0].close_price, 1_460_000);
    assert_eq!(rows[0].volume, 1000);
    assert_eq!(rows[0].symbol, "AAPL");
    assert_eq!(rows[1].date, day(2023, 6, 19));
    assert_eq!(rows[1].open_price, 1_405_000);
    assert_eq!(rows[1].close_price, 1_412_500);
}

#[test]
fn decode_payload_drops_rows_before_cutoff() {
    let text = "timestamp,open,close,volume\n\
                2023-06-20,1.0,1.0,1\n\
                2023-05-01,1.0,1.0,1\n";
    let symbol = "AAPL".to_string();
    let rows = decode_csv_payload(text, &symbol, day(2023, 6, 1)).unwrap();
    assert_eq!(rows.len(), 1);
    assert_eq!(rows[0].date, day(2023, 6, 20));
}

#[test]
fn decode_payload_overwrites_payload_symbol() {
    let text = "symbol,timestamp,open,close,volume\n\
                SOMETHING,2023-06-20,1.0,1.0,1\n";
    let symbol = "IBM".to_string();
    let rows = decode_csv_payload(text, &symbol, day(2023, 6, 1)).unwrap();
    assert_eq!(rows[0].symbol, "IBM");
}

#[test]
fn decode_failure_yields_no_rows() {
    // the second record's price is malformed: the whole symbol fails,
    // leaking none of the rows that did decode
    let text = "timestamp,open,close,volume\n\
                2023-06-20,1.0,1.0,1\n\
                2023-06-19,not-a-price,1.0,1\n";
    let symbol = "AAPL".to_string();
    let r = decode_csv_payload(text, &symbol, day(2023, 6, 1));
    assert!(matches!(r, Err(FetchError::Decode)));
}

#[test]
fn decode_invalid_date_fails() {
    let text = "timestamp,open,close,volume\n2023-13-01,1.0,1.0,1\n";
    let symbol = "AAPL".to_string();
    assert!(matches!(decode_csv_payload(text, &symbol, 0), Err(FetchError::Decode)));
}

#[test]
fn decode_missing_column_fails() {
    let text = "timestamp,open,close\n2023-06-20,1.0,1.0\n";
    let symbol = "AAPL".to_string();
    assert!(matches!(decode_csv_payload(text, &symbol, 0), Err(FetchError::Decode)));
}

#[test]
fn decode_ragged_table_fails() {
    let text = "timestamp,open,close,volume\n2023-06-20,1.0\n";
    let symbol = "AAPL".to_string();
    assert!(matches!(decode_csv_payload(text, &symbol, 0), Err(FetchError::Decode)));
}

#[test]
fn flatten_fetches_concatenates_in_order() {
    let a = vec![FinancialDataReport {
        symbol: "IBM".to_string(),
        date: 10,
        open_price: 1,
        close_price: 2,
        volume: 3,
    }];
    let b = vec![FinancialDataReport {
        symbol: "AAPL".to_string(),
        date: 11,
        open_price: 4,
        close_price: 5,
        volume: 6,
    }];
    let merged = flatten_fetches(vec![Ok(a), Ok(b)]).unwrap();
    assert_eq!(merged.len(), 2);
    assert_eq!(merged[0].symbol, "IBM");
    assert_eq!(merged[1].symbol, "AAPL");
}

#[test]
fn one_failed_symbol_aborts_the_tick() {
    let a = vec![FinancialDataReport {
        symbol: "IBM".to_string(),
        date: 10,
        open_price: 1,
        close_price: 2,
        volume: 3,
    }];
    let r = flatten_fetches(vec![Ok(a), Err(FetchError::Transport)]);
    assert!(matches!(r, Err(FetchError::Transport)));
}

#[test]
fn parse_price_exact_values() {
    assert_eq!(parse_price("145.3200"), Some(1_453_200));
    assert_eq!(parse_price("0.5"), Some(5_000));
    assert_eq!(parse_price("100"), Some(1_000_000));
    assert_eq!(parse_price("100."), Some(1_000_000));
    assert_eq!(parse_price(".25"), Some(2_500));
    assert_eq!(parse_price("0"), Some(0));
    assert_eq!(parse_price(""), None);
    assert_eq!(parse_price("."), None);
    assert_eq!(parse_price("-1.0"), None);
    assert_eq!(parse_price("1.23456"), None);
    assert_eq!(parse_price("1.2.3"), None);
}

#[test]
fn parse_date_matches_time_crate() {
    let r = parse_date("2023-01-02").unwrap();
    let expected = time::Date::from_calendar_date(2023, time::Month::January, 2)
        .unwrap()
        .to_julian_day();
    assert_eq!(r, expected);
    assert_eq!(parse_date("2023-02-29"), None);
    assert_eq!(parse_date("2024-02-29").is_some(), true);
    assert_eq!(parse_date("2023-1-2"), None);
    assert_eq!(parse_date("20230102"), None);
}

#[test]
fn parse_digits_bounds() {
    assert_eq!(parse_digits("0"), Some(0));
    assert_eq!(parse_digits("18446744073709551615"), Some(u64::MAX));
    assert_eq!(parse_digits("18446744073709551616"), None);
    assert_eq!(parse_digits("12x"), None);
}

#[test]
fn trim_symbol_removes_surrounding_whitespace() {
    assert_eq!(trim_symbol(&"  AAPL \t".to_string()), "AAPL");
    assert_eq!(trim_symbol(&"AAPL".to_string()), "AAPL");
    assert_eq!(trim_symbol(&"   ".to_string()), "");
    assert_eq!(trim_symbol(&"A B".to_string()), "A B");
}
