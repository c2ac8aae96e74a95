//! Ingestion: decoding one provider payload into canonical rows.
//!
//! The provider answers one request per symbol with a CSV table whose
//! columns include at least `timestamp`, `open`, `close` and `volume`; a
//! `symbol` column is tolerated but not trusted. The table is split into
//! records by the `csv` crate; every field is then decoded by the verified
//! parsers, and the normalizer stamps the requested symbol and drops rows
//! older than the lookback cutoff. The first undecodable record aborts the
//! whole symbol's fetch — partial success for a symbol is not accepted —
//! and one failed symbol aborts the whole tick.

use crate::error::FetchError;
use crate::model::{FinancialDataReport, RowModel};
use crate::store::{lemma_models_push, models};
use crate::text::{all_digits, digits_val, spec_parse_date, spec_parse_price, parse_date,
    parse_digits, parse_price};
use vstd::prelude::*;
use vstd::string::StringExecFns;

verus! {

/// One record as the provider sends it, before normalization: the payload's
/// own (untrusted) symbol, the date as a Julian day number, fixed-point
/// prices, and the volume.
pub struct RawFinancialDataReport {
    pub symbol: String,
    pub timestamp: i64,
    pub open: u64,
    pub close: u64,
    pub volume: u64,
}

impl View for RawFinancialDataReport {
    type V = RowModel;

    open spec fn view(&self) -> RowModel {
        RowModel {
            symbol: self.symbol@,
            date: self.timestamp as int,
            open: self.open as int,
            close: self.close as int,
            volume: self.volume as int,
        }
    }
}

/// Placeholder symbol for a provider record whose payload carries no
/// `symbol` column; the fetcher overwrites it with the requested symbol
/// regardless.
pub fn default_resource() -> (r: String)
    ensures
        r@ == "uninitialized"@,
{
    String::from_str("uninitialized")
}

/// What the normalizer keeps of one decoded record: the caller's symbol
/// stamped over the payload's, and nothing at all for a record dated
/// strictly before the cutoff.
pub open spec fn spec_normalize(rec: RowModel, symbol: Seq<char>, cutoff: int) -> Option<
    RowModel,
> {
    if rec.date >= cutoff {
        Some(RowModel { symbol, date: rec.date, open: rec.open, close: rec.close, volume: rec.volume })
    } else {
        None
    }
}

/// Turns one provider record into a canonical row: overwrites the record's
/// symbol with the caller-supplied one and drops the record — not an error —
/// when its date lies strictly before `cutoff`; the boundary is inclusive.
pub fn normalize(record: RawFinancialDataReport, symbol: &String, cutoff: i64) -> (r: Option<
    FinancialDataReport,
>)
    ensures
        r is Some <==> record@.date >= cutoff,
        r is Some ==> Some(r->0@) == spec_normalize(record@, symbol@, cutoff as int),
{
    if record.timestamp >= cutoff {
        Some(
            FinancialDataReport {
                symbol: symbol.clone(),
                date: record.timestamp,
                open_price: record.open,
                close_price: record.close,
                volume: record.volume,
            },
        )
    } else {
        None
    }
}

/// The header and records of the CSV table `text` holds, or nothing when
/// the `csv` crate refuses the text. The parse is a function of the text
/// alone.
pub uninterp spec fn csv_table_of(text: Seq<char>) -> Option<(Seq<Seq<char>>, Seq<Seq<Seq<char>>>)>;

/// Relies on `csv::Reader`: `headers` yields the first record, `records`
/// the remaining ones, each a sequence of text fields; reading fails — and
/// this returns `None` — exactly on a malformed table, such as a record
/// whose field count differs from the header's.
#[verifier::external_body]
fn csv_records(text: &str) -> (r: Option<(Vec<String>, Vec<Vec<String>>)>)
    ensures
        r is Some <==> csv_table_of(text@) is Some,
        r matches Some(t) ==> csv_table_of(text@) == Some(
            (t.0.deep_view(), t.1.deep_view()),
        ),
{
    let mut rdr = csv::Reader::from_reader(text.as_bytes());
    let headers: Vec<String> = match rdr.headers() {
        Ok(h) => h.iter().map(|f| f.to_string()).collect(),
        Err(_) => return None,
    };
    let mut out: Vec<Vec<String>> = Vec::new();
    for rec in rdr.records() {
        match rec {
            Ok(r) => out.push(r.iter().map(|f| f.to_string()).collect()),
            Err(_) => return None,
        }
    }
    Some((headers, out))
}

/// Index of the first header equal to `name`, or `-1`.
pub open spec fn find_col(headers: Seq<Seq<char>>, name: Seq<char>) -> int
    decreases headers.len(),
{
    if headers.len() == 0 {
        -1
    } else if headers[0] == name {
        0
    } else {
        let k = find_col(headers.drop_first(), name);
        if k == -1 {
            -1
        } else {
            k + 1
        }
    }
}

/// A header equal to `name`, with none earlier, is the first.
proof fn lemma_find_col_is(headers: Seq<Seq<char>>, name: Seq<char>, j: int)
    requires
        0 <= j < headers.len(),
        headers[j] == name,
        forall|i: int| 0 <= i < j ==> #[trigger] headers[i] != name,
    ensures
        find_col(headers, name) == j,
    decreases headers.len(),
{
    if j == 0 {
    } else {
        let rest = headers.drop_first();
        assert(rest[j - 1] == headers[j]);
        assert forall|i: int| 0 <= i < j - 1 implies #[trigger] rest[i] != name by {
            assert(rest[i] == headers[i + 1]);
        }
        lemma_find_col_is(rest, name, j - 1);
    }
}

/// With no header equal to `name`, there is no first.
proof fn lemma_find_col_none(headers: Seq<Seq<char>>, name: Seq<char>)
    requires
        forall|i: int| 0 <= i < headers.len() ==> #[trigger] headers[i] != name,
    ensures
        find_col(headers, name) == -1,
    decreases headers.len(),
{
    if headers.len() > 0 {
        let rest = headers.drop_first();
        assert forall|i: int| 0 <= i < rest.len() implies #[trigger] rest[i] != name by {
            assert(rest[i] == headers[i + 1]);
        }
        lemma_find_col_none(rest, name);
    }
}

/// Index of the first header equal to `name`, if any.
fn find_column(headers: &Vec<String>, name: &String) -> (r: Option<usize>)
    ensures
        r is None ==> find_col(headers.deep_view(), name@) == -1,
        r matches Some(i) ==> i as int == find_col(headers.deep_view(), name@),
{
    let mut i: usize = 0;
    while i < headers.len()
        invariant
            i <= headers.len(),
            forall|k: int| 0 <= k < i ==> #[trigger] headers.deep_view()[k] != name@,
        decreases headers.len() - i,
    {
        if headers[i] == *name {
            proof {
                lemma_find_col_is(headers.deep_view(), name@, i as int);
            }
            return Some(i);
        }
        i += 1;
    }
    proof {
        lemma_find_col_none(headers.deep_view(), name@);
    }
    None
}

/// The column layout of one payload: index of each field's column, `-1`
/// where the header lacks it.
pub ghost struct ColumnIndices {
    pub symbol: int,
    pub timestamp: int,
    pub open: int,
    pub close: int,
    pub volume: int,
}

/// The columns a header row announces.
pub open spec fn spec_columns(headers: Seq<Seq<char>>) -> ColumnIndices {
    ColumnIndices {
        symbol: find_col(headers, "symbol"@),
        timestamp: find_col(headers, "timestamp"@),
        open: find_col(headers, "open"@),
        close: find_col(headers, "close"@),
        volume: find_col(headers, "volume"@),
    }
}

/// The exec-side column layout, as `find_column` reports it.
pub open spec fn cols_of(
    syc: Option<usize>,
    tsc: Option<usize>,
    opc: Option<usize>,
    clc: Option<usize>,
    voc: Option<usize>,
) -> ColumnIndices {
    ColumnIndices {
        symbol: match syc {
            Some(i) => i as int,
            None => -1,
        },
        timestamp: match tsc {
            Some(i) => i as int,
            None => -1,
        },
        open: match opc {
            Some(i) => i as int,
            None => -1,
        },
        close: match clc {
            Some(i) => i as int,
            None => -1,
        },
        volume: match voc {
            Some(i) => i as int,
            None => -1,
        },
    }
}

/// The volume a digit string denotes: non-empty, digits only, within `u64`.
pub open spec fn spec_parse_volume(s: Seq<char>) -> Option<int> {
    if s.len() > 0 && all_digits(s) && digits_val(s) <= u64::MAX {
        Some(digits_val(s))
    } else {
        None
    }
}

/// The raw record one CSV row denotes: each required column present in the
/// row and decodable; the symbol from its column when one exists, else the
/// placeholder.
pub open spec fn spec_decode_row(row: Seq<Seq<char>>, ci: ColumnIndices) -> Option<RowModel> {
    if 0 <= ci.timestamp < row.len() && 0 <= ci.open < row.len() && 0 <= ci.close < row.len()
        && 0 <= ci.volume < row.len() {
        match spec_parse_date(row[ci.timestamp]) {
            None => None,
            Some(date) => match spec_parse_price(row[ci.open]) {
                None => None,
                Some(open) => match spec_parse_price(row[ci.close]) {
                    None => None,
                    Some(close) => match spec_parse_volume(row[ci.volume]) {
                        None => None,
                        Some(volume) => Some(
                            RowModel {
                                symbol: if 0 <= ci.symbol < row.len() {
                                    row[ci.symbol]
                                } else {
                                    "uninitialized"@
                                },
                                date,
                                open,
                                close,
                                volume,
                            },
                        ),
                    },
                },
            },
        }
    } else {
        None
    }
}

/// The canonical rows a record list denotes under one layout, symbol and
/// cutoff: every record decoded and normalized in order, or nothing as soon
/// as any record fails to decode.
pub open spec fn spec_decode_rows(
    rows: Seq<Seq<Seq<char>>>,
    ci: ColumnIndices,
    symbol: Seq<char>,
    cutoff: int,
) -> Option<Seq<RowModel>>
    decreases rows.len(),
{
    if rows.len() == 0 {
        Some(Seq::empty())
    } else {
        match spec_decode_rows(rows.drop_last(), ci, symbol, cutoff) {
            None => None,
            Some(acc) => match spec_decode_row(rows.last(), ci) {
                None => None,
                Some(raw) => match spec_normalize(raw, symbol, cutoff) {
                    None => Some(acc),
                    Some(r) => Some(acc.push(r)),
                },
            },
        }
    }
}

/// A record list that decodes whole decodes at every prefix.
proof fn lemma_decode_rows_prefix(
    rows: Seq<Seq<Seq<char>>>,
    ci: ColumnIndices,
    symbol: Seq<char>,
    cutoff: int,
    i: int,
)
    requires
        0 <= i <= rows.len(),
        spec_decode_rows(rows, ci, symbol, cutoff) is Some,
    ensures
        spec_decode_rows(rows.take(i), ci, symbol, cutoff) is Some,
    decreases rows.len(),
{
    if i == rows.len() {
        assert(rows.take(i) =~= rows);
    } else {
        assert(rows.drop_last().take(i) =~= rows.take(i));
        lemma_decode_rows_prefix(rows.drop_last(), ci, symbol, cutoff, i);
    }
}

/// One CSV record decoded into a raw provider record, under the exec-side
/// column layout; `Decode` on a missing column or an undecodable field.
fn decode_row(
    row: &Vec<String>,
    syc: Option<usize>,
    tsc: Option<usize>,
    opc: Option<usize>,
    clc: Option<usize>,
    voc: Option<usize>,
) -> (r: Result<RawFinancialDataReport, FetchError>)
    ensures
        ({
            let spec = spec_decode_row(row.deep_view(), cols_of(syc, tsc, opc, clc, voc));
            &&& r is Ok <==> spec is Some
            &&& r matches Ok(raw) ==> Some(raw@) == spec
            &&& r is Err ==> r->Err_0 is Decode
        }),
{
    let n = row.len();
    let ts_i = match tsc {
        Some(i) => i,
        None => { return Err(FetchError::Decode) },
    };
    let op_i = match opc {
        Some(i) => i,
        None => { return Err(FetchError::Decode) },
    };
    let cl_i = match clc {
        Some(i) => i,
        None => { return Err(FetchError::Decode) },
    };
    let vo_i = match voc {
        Some(i) => i,
        None => { return Err(FetchError::Decode) },
    };
    if ts_i >= n || op_i >= n || cl_i >= n || vo_i >= n {
        return Err(FetchError::Decode);
    }
    let date = match parse_date(row[ts_i].as_str()) {
        Some(d) => d,
        None => { return Err(FetchError::Decode) },
    };
    let open = match parse_price(row[op_i].as_str()) {
        Some(v) => v,
        None => { return Err(FetchError::Decode) },
    };
    let close = match parse_price(row[cl_i].as_str()) {
        Some(v) => v,
        None => { return Err(FetchError::Decode) },
    };
    let vs = row[vo_i].as_str();
    if vs.is_empty() {
        return Err(FetchError::Decode);
    }
    let volume = match parse_digits(vs) {
        Some(v) => v,
        None => { return Err(FetchError::Decode) },
    };
    let symbol = match syc {
        Some(i) => {
            if i < n {
                row[i].clone()
            } else {
                default_resource()
            }
        },
        None => default_resource(),
    };
    Ok(RawFinancialDataReport { symbol, timestamp: date as i64, open, close, volume })
}

/// The canonical rows of one already-split CSV table: every record decoded
/// by the verified field parsers and normalized against `symbol` and
/// `cutoff`, provider order kept; the first undecodable record aborts the
/// whole table with `Decode`.
pub fn decode_table(
    headers: &Vec<String>,
    rows: &Vec<Vec<String>>,
    symbol: &String,
    cutoff: i64,
) -> (r: Result<Vec<FinancialDataReport>, FetchError>)
    ensures
        ({
            let spec = spec_decode_rows(
                rows.deep_view(),
                spec_columns(headers.deep_view()),
                symbol@,
                cutoff as int,
            );
            &&& r is Ok <==> spec is Some
            &&& r matches Ok(v) ==> Some(models(v@)) == spec
            &&& r is Err ==> r->Err_0 is Decode
        }),
{
    let name_symbol = String::from_str("symbol");
    let name_timestamp = String::from_str("timestamp");
    let name_open = String::from_str("open");
    let name_close = String::from_str("close");
    let name_volume = String::from_str("volume");
    let syc = find_column(headers, &name_symbol);
    let tsc = find_column(headers, &name_timestamp);
    let opc = find_column(headers, &name_open);
    let clc = find_column(headers, &name_close);
    let voc = find_column(headers, &name_volume);
    let ghost ci = spec_columns(headers.deep_view());
    proof {
        assert(cols_of(syc, tsc, opc, clc, voc) == ci);
    }
    let mut out: Vec<FinancialDataReport> = Vec::new();
    let n = rows.len();
    let mut i: usize = 0;
    while i < n
        invariant
            i <= n,
            n == rows@.len(),
            cols_of(syc, tsc, opc, clc, voc) == ci,
            ci == spec_columns(headers.deep_view()),
            spec_decode_rows(rows.deep_view().take(i as int), ci, symbol@, cutoff as int)
                is Some,
            spec_decode_rows(rows.deep_view().take(i as int), ci, symbol@, cutoff as int)->0
                =~= models(out@),
        decreases n - i,
    {
        let ghost rv = rows.deep_view();
        proof {
            assert(rv.take(i + 1).drop_last() =~= rv.take(i as int));
            assert(rv.take(i + 1).last() == rv[i as int]);
            assert(rows@[i as int].deep_view() == rv[i as int]);
        }
        let raw = match decode_row(&rows[i], syc, tsc, opc, clc, voc) {
            Ok(raw) => raw,
            Err(e) => {
                proof {
                    if spec_decode_rows(rv, ci, symbol@, cutoff as int) is Some {
                        lemma_decode_rows_prefix(rv, ci, symbol@, cutoff as int, i + 1);
                        let p1 = rv.take(i + 1);
                        assert(spec_decode_rows(p1, ci, symbol@, cutoff as int) is Some);
                        assert(spec_decode_row(p1.last(), ci) is None);
                        assert(spec_decode_rows(p1.drop_last(), ci, symbol@, cutoff as int)
                            == spec_decode_rows(rv.take(i as int), ci, symbol@, cutoff as int));
                        assert(spec_decode_rows(p1, ci, symbol@, cutoff as int) is None);
                    }
                }
                return Err(e);
            },
        };
        let ghost pre = out@;
        match normalize(raw, symbol, cutoff) {
            Some(row) => {
                out.push(row);
                proof {
                    lemma_models_push(pre, row);
                }
            },
            None => {},
        }
        i += 1;
    }
    proof {
        assert(rows.deep_view().take(n as int) =~= rows.deep_view());
    }
    Ok(out)
}

/// The canonical rows one provider payload denotes: the CSV split by the
/// `csv` crate, fields decoded and rows normalized by the verified decoder.
/// `Decode` exactly when the table is malformed or any record fails to
/// decode.
pub fn decode_csv_payload(text: &str, symbol: &String, cutoff: i64) -> (r: Result<
    Vec<FinancialDataReport>,
    FetchError,
>)
    ensures
        ({
            match csv_table_of(text@) {
                None => r is Err && r->Err_0 is Decode,
                Some(table) => {
                    let spec = spec_decode_rows(
                        table.1,
                        spec_columns(table.0),
                        symbol@,
                        cutoff as int,
                    );
                    &&& r is Ok <==> spec is Some
                    &&& r matches Ok(v) ==> Some(models(v@)) == spec
                    &&& r is Err ==> r->Err_0 is Decode
                },
            }
        }),
{
    match csv_records(text) {
        None => Err(FetchError::Decode),
        Some(table) => decode_table(&table.0, &table.1, symbol, cutoff),
    }
}

/// Every symbol's fetch succeeded.
pub open spec fn all_fetches_ok(results: Seq<Result<Vec<FinancialDataReport>, FetchError>>) -> bool {
    forall|i: int| 0 <= i < results.len() ==> (#[trigger] results[i]) is Ok
}

/// The rows of the successful fetches, concatenated in symbol order.
pub open spec fn concat_fetched(results: Seq<Result<Vec<FinancialDataReport>, FetchError>>) -> Seq<
    RowModel,
>
    decreases results.len(),
{
    if results.len() == 0 {
        Seq::empty()
    } else {
        concat_fetched(results.drop_last()) + (match results.last() {
            Ok(v) => models(v@),
            Err(_) => Seq::empty(),
        })
    }
}

/// Index of the first failed fetch, or `-1`.
pub open spec fn first_fetch_err(results: Seq<Result<Vec<FinancialDataReport>, FetchError>>) -> int
    decreases results.len(),
{
    if results.len() == 0 {
        -1
    } else if results[0] is Err {
        0
    } else {
        let k = first_fetch_err(results.drop_first());
        if k == -1 {
            -1
        } else {
            k + 1
        }
    }
}

/// A failed fetch with none earlier is the first.
proof fn lemma_first_fetch_err_is(
    results: Seq<Result<Vec<FinancialDataReport>, FetchError>>,
    j: int,
)
    requires
        0 <= j < results.len(),
        results[j] is Err,
        forall|i: int| 0 <= i < j ==> (#[trigger] results[i]) is Ok,
    ensures
        first_fetch_err(results) == j,
    decreases results.len(),
{
    if j == 0 {
    } else {
        let rest = results.drop_first();
        assert(rest[j - 1] == results[j]);
        assert forall|i: int| 0 <= i < j - 1 implies (#[trigger] rest[i]) is Ok by {
            assert(rest[i] == results[i + 1]);
        }
        lemma_first_fetch_err_is(rest, j - 1);
    }
}

/// The whole ingestion batch of one tick: the per-symbol fetch outcomes in
/// request order, flattened fail-fast. All successes concatenate in order;
/// any failure aborts the tick with the first failure's error, so no rows —
/// from that symbol or any other — leak out of a failed tick.
pub fn flatten_fetches(results: Vec<Result<Vec<FinancialDataReport>, FetchError>>) -> (r: Result<
    Vec<FinancialDataReport>,
    FetchError,
>)
    ensures
        r is Ok <==> all_fetches_ok(results@),
        r matches Ok(v) ==> models(v@) =~= concat_fetched(results@),
        r is Err ==> ({
            let j = first_fetch_err(results@);
            &&& 0 <= j < results@.len()
            &&& results@[j] is Err
            &&& r->Err_0 == results@[j]->Err_0
        }),
{
    let mut out: Vec<FinancialDataReport> = Vec::new();
    let n = results.len();
    let mut i: usize = 0;
    while i < n
        invariant
            i <= n,
            n == results@.len(),
            forall|k: int| 0 <= k < i ==> (#[trigger] results@[k]) is Ok,
            models(out@) =~= concat_fetched(results@.take(i as int)),
        decreases n - i,
    {
        proof {
            assert(results@.take(i + 1).drop_last() =~= results@.take(i as int));
            assert(results@.take(i + 1).last() == results@[i as int]);
        }
        match &results[i] {
            Ok(v) => {
                let ghost batch_start = out@;
                let m = v.len();
                let mut k: usize = 0;
                while k < m
                    invariant
                        k <= m,
                        m == v@.len(),
                        models(out@) =~= models(batch_start) + models(v@).take(k as int),
                    decreases m - k,
                {
                    let ghost pre = out@;
                    let c = v[k].duplicate();
                    out.push(c);
                    proof {
                        lemma_models_push(pre, c);
                        assert(models(v@).take(k + 1) =~= models(v@).take(k as int).push(
                            models(v@)[k as int],
                        ));
                        assert(models(out@) =~= models(batch_start) + models(v@).take(k + 1));
                    }
                    k += 1;
                }
                proof {
                    assert(models(v@).take(m as int) =~= models(v@));
                }
            },
            Err(e) => {
                proof {
                    lemma_first_fetch_err_is(results@, i as int);
                }
                return Err(*e);
            },
        }
        i += 1;
    }
    proof {
        assert(results@.take(n as int) =~= results@);
    }
    Ok(out)
}

} // verus!
