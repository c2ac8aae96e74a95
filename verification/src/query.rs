//! The query engine: filtering, date-descending ordering, pagination.
//!
//! `query_page` selects the stored rows matching an optional symbol and an
//! optional inclusive date range, orders them by date descending, slices the
//! requested page, and reports pagination metadata. Bad `page`/`limit`
//! values are absorbed into an empty result with an advisory message, never
//! an error.

use crate::model::{FinancialDataQuery, FinancialDataReport, FinancialDataResponse, Pagination,
    ResponseInfo, RowModel};
use crate::store::{lemma_models_insert, lemma_models_push, models, Store};
use crate::text::{trim_spec, trim_symbol};
use vstd::prelude::*;
use vstd::seq_lib::lemma_multiset_commutative;
use vstd::string::StringExecFns;

verus! {

broadcast use vstd::seq_lib::group_to_multiset_ensures;

impl FinancialDataQuery {
    /// The symbol filter, as a character sequence.
    pub open spec fn spec_symbol(&self) -> Option<Seq<char>> {
        match self.symbol {
            Some(s) => Some(s@),
            None => None,
        }
    }

    /// The requested page, default 1.
    pub open spec fn spec_page(&self) -> int {
        match self.page {
            Some(p) => p as int,
            None => 1,
        }
    }

    /// The requested page size, default 5.
    pub open spec fn spec_limit(&self) -> int {
        match self.limit {
            Some(l) => l as int,
            None => 5,
        }
    }

    /// Whether a stored row passes this query's filters: the symbol matches
    /// when one is given, and the date lies within the inclusive range, each
    /// missing side unbounded.
    pub open spec fn spec_matches(&self, r: RowModel) -> bool {
        &&& match self.spec_symbol() {
            Some(sym) => r.symbol == sym,
            None => true,
        }
        &&& match self.start_date {
            Some(d) => r.date >= d,
            None => true,
        }
        &&& match self.end_date {
            Some(d) => r.date <= d,
            None => true,
        }
    }
}

/// The rows passing the query's filters, in storage order.
pub open spec fn matching_rows(m: Seq<RowModel>, query: &FinancialDataQuery) -> Seq<RowModel> {
    m.filter(|r: RowModel| query.spec_matches(r))
}

/// Dates never increase along the sequence.
pub open spec fn sorted_desc(s: Seq<RowModel>) -> bool {
    forall|i: int, j: int| 0 <= i <= j < s.len() ==> s[i].date >= s[j].date
}

/// `r` placed after every row dating at or after it.
pub open spec fn insert_desc(s: Seq<RowModel>, r: RowModel) -> Seq<RowModel>
    decreases s.len(),
{
    if s.len() == 0 {
        seq![r]
    } else if s[0].date >= r.date {
        seq![s[0]] + insert_desc(s.drop_first(), r)
    } else {
        seq![r] + s
    }
}

/// Stable insertion sort by date descending: a row is placed after every
/// earlier row whose date is at least its own.
pub open spec fn sort_desc(s: Seq<RowModel>) -> Seq<RowModel>
    decreases s.len(),
{
    if s.len() == 0 {
        s
    } else {
        insert_desc(sort_desc(s.drop_last()), s.last())
    }
}

/// Where `insert_desc` puts the row: at the first index dating before it.
proof fn lemma_insert_desc_at(s: Seq<RowModel>, r: RowModel, k: int)
    requires
        0 <= k <= s.len(),
        forall|i: int| 0 <= i < k ==> (#[trigger] s[i]).date >= r.date,
        k < s.len() ==> s[k].date < r.date,
    ensures
        insert_desc(s, r) =~= s.take(k) + seq![r] + s.skip(k),
    decreases s.len(),
{
    if k == 0 {
    } else {
        let rest = s.drop_first();
        assert forall|i: int| 0 <= i < k - 1 implies (#[trigger] rest[i]).date >= r.date by {
            assert(rest[i] == s[i + 1]);
        }
        assert(k - 1 < rest.len() ==> rest[k - 1] == s[k]);
        lemma_insert_desc_at(rest, r, k - 1);
        assert(insert_desc(s, r) =~= seq![s[0]] + (rest.take(k - 1) + seq![r] + rest.skip(k - 1)));
    }
}

/// Inserting adds exactly the one row to the contents.
proof fn lemma_insert_desc_multiset(s: Seq<RowModel>, r: RowModel)
    ensures
        insert_desc(s, r).to_multiset() =~= s.to_multiset().insert(r),
        insert_desc(s, r).len() == s.len() + 1,
    decreases s.len(),
{
    if s.len() == 0 {
        assert(seq![r] =~= Seq::<RowModel>::empty().push(r));
    } else if s[0].date >= r.date {
        let rest = s.drop_first();
        lemma_insert_desc_multiset(rest, r);
        lemma_multiset_commutative(seq![s[0]], insert_desc(rest, r));
        lemma_multiset_commutative(seq![s[0]], rest);
        assert(s =~= seq![s[0]] + rest);
        assert(seq![s[0]] =~= Seq::<RowModel>::empty().push(s[0]));
    } else {
        lemma_multiset_commutative(seq![r], s);
        assert(seq![r] =~= Seq::<RowModel>::empty().push(r));
    }
}

/// Inserting into a date-descending sequence keeps it date-descending.
proof fn lemma_insert_desc_sorted(s: Seq<RowModel>, r: RowModel)
    requires
        sorted_desc(s),
    ensures
        sorted_desc(insert_desc(s, r)),
    decreases s.len(),
{
    if s.len() == 0 {
    } else if s[0].date >= r.date {
        let rest = s.drop_first();
        assert forall|i: int, j: int|
            0 <= i <= j < rest.len() implies (#[trigger] rest[i]).date >= (
        #[trigger] rest[j]).date by {
            assert(rest[i] == s[i + 1]);
            assert(rest[j] == s[j + 1]);
        }
        lemma_insert_desc_sorted(rest, r);
        lemma_insert_desc_multiset(rest, r);
        let u = insert_desc(rest, r);
        let t = insert_desc(s, r);
        assert(t =~= seq![s[0]] + u);
        assert forall|i: int, j: int|
            0 <= i <= j < t.len() implies (#[trigger] t[i]).date >= (#[trigger] t[j]).date by {
            if i == 0 && j > 0 {
                assert(t[j] == u[j - 1]);
                assert(u.contains(u[j - 1]));
                assert(u.to_multiset().count(u[j - 1]) > 0);
                if u[j - 1] == r {
                } else {
                    assert(rest.to_multiset().count(u[j - 1]) > 0);
                    assert(rest.contains(u[j - 1]));
                    let w = choose|w: int| 0 <= w < rest.len() && rest[w] == u[j - 1];
                    assert(s[0].date >= s[w + 1].date);
                }
            } else if i > 0 {
                assert(t[i] == u[i - 1]);
                assert(t[j] == u[j - 1]);
            }
        }
    } else {
        let t = insert_desc(s, r);
        assert(t =~= seq![r] + s);
        assert forall|i: int, j: int|
            0 <= i <= j < t.len() implies (#[trigger] t[i]).date >= (#[trigger] t[j]).date by {
            if i == 0 && j > 0 {
                assert(t[j] == s[j - 1]);
                assert(s[0].date >= s[j - 1].date);
            } else if i > 0 {
                assert(t[i] == s[i - 1]);
                assert(t[j] == s[j - 1]);
            }
        }
    }
}

/// Sorting yields a date-descending sequence with the same contents and
/// length.
pub proof fn lemma_sort_desc_ensures(s: Seq<RowModel>)
    ensures
        sorted_desc(sort_desc(s)),
        sort_desc(s).to_multiset() =~= s.to_multiset(),
        sort_desc(s).len() == s.len(),
    decreases s.len(),
{
    if s.len() == 0 {
    } else {
        let rest = s.drop_last();
        lemma_sort_desc_ensures(rest);
        lemma_insert_desc_sorted(sort_desc(rest), s.last());
        lemma_insert_desc_multiset(sort_desc(rest), s.last());
        assert(s =~= rest.push(s.last()));
    }
}

/// The requested window of the ordered match set: `limit` rows starting at
/// `limit * (page - 1)`, clipped to the sequence; empty past the end.
pub open spec fn page_slice(s: Seq<RowModel>, page: int, limit: int) -> Seq<RowModel> {
    let offset = limit * (page - 1);
    if offset >= s.len() {
        Seq::empty()
    } else if offset + limit <= s.len() {
        s.subrange(offset, offset + limit)
    } else {
        s.subrange(offset, s.len() as int)
    }
}

/// The row as the endpoints expose it: symbol trimmed, all else unchanged.
pub open spec fn trim_row(r: RowModel) -> RowModel {
    RowModel { symbol: trim_spec(r.symbol), date: r.date, open: r.open, close: r.close, volume: r.volume }
}

/// Every row's symbol trimmed.
pub open spec fn trim_all(s: Seq<RowModel>) -> Seq<RowModel> {
    Seq::new(s.len(), |i: int| trim_row(s[i]))
}

/// Advisory message for a page number below 1.
pub open spec fn page_error_message() -> Seq<char> {
    "Page must be a positive number bigger than 0."@
}

/// Advisory message for a zero limit.
pub open spec fn limit_error_message() -> Seq<char> {
    "Limit must be a positive number bigger than 0."@
}

/// Advisory message for an empty match set.
pub open spec fn no_results_message() -> Seq<char> {
    "The query had no results. Try another date range and verify symbol is correct."@
}

/// Whether the row passes the query's filters.
fn row_matches_exec(r: &FinancialDataReport, query: &FinancialDataQuery) -> (b: bool)
    ensures
        b == query.spec_matches(r@),
{
    let sym_ok = match &query.symbol {
        Some(s) => r.symbol == *s,
        None => true,
    };
    let start_ok = match query.start_date {
        Some(d) => r.date >= d,
        None => true,
    };
    let end_ok = match query.end_date {
        Some(d) => r.date <= d,
        None => true,
    };
    sym_ok && start_ok && end_ok
}

/// The rows sorted by date descending, stably.
fn sort_rows_desc(rows: Vec<FinancialDataReport>) -> (r: Vec<FinancialDataReport>)
    ensures
        models(r@) =~= sort_desc(models(rows@)),
        r@.len() == rows@.len(),
{
    let mut out: Vec<FinancialDataReport> = Vec::new();
    let mut i: usize = 0;
    while i < rows.len()
        invariant
            i <= rows.len(),
            models(out@) =~= sort_desc(models(rows@).take(i as int)),
            out@.len() == i,
        decreases rows.len() - i,
    {
        let r = rows[i].duplicate();
        let mut k: usize = 0;
        while k < out.len() && out[k].date >= r.date
            invariant
                k <= out.len(),
                out@.len() == i,
                r@ == rows@[i as int]@,
                forall|t: int| 0 <= t < k ==> (#[trigger] models(out@)[t]).date >= r@.date,
            decreases out.len() - k,
        {
            k += 1;
        }
        let ghost pre = out@;
        proof {
            assert(k < out@.len() ==> models(pre)[k as int].date < r@.date);
            lemma_insert_desc_at(models(pre), r@, k as int);
        }
        out.insert(k, r);
        proof {
            lemma_models_insert(pre, k as int, r);
            assert(models(pre).insert(k as int, r@) =~= models(pre).take(k as int) + seq![r@]
                + models(pre).skip(k as int));
            assert(models(out@) =~= insert_desc(models(pre), r@));
            let m = models(rows@);
            assert(m.take(i + 1).drop_last() =~= m.take(i as int));
            assert(m.take(i + 1).last() == m[i as int]);
        }
        i += 1;
    }
    proof {
        assert(models(rows@).take(rows@.len() as int) =~= models(rows@));
        lemma_sort_desc_ensures(models(rows@));
    }
    out
}

/// One page of the time series, as the `financial_data` endpoint serves it.
///
/// Selects the stored rows the query's filters match, orders them by date
/// descending, slices the page window `limit * (page - 1) ..`, and trims
/// each returned symbol. The pagination echoes the caller's (1-indexed)
/// `page` and `limit`; `count` and `pages = count / limit` (floor) always
/// describe the whole match set. `page == 0` or `limit == 0` yields an
/// empty result with zeroed pagination and an advisory message.
pub fn query_page(store: &Store, query: &FinancialDataQuery) -> (resp: FinancialDataResponse)
    ensures
        ({
            let page = query.spec_page();
            let limit = query.spec_limit();
            let matching = matching_rows(store@, query);
            &&& page == 0 ==> resp.data@.len() == 0 && resp.pagination == (Pagination {
                count: 0,
                page: 0,
                limit: 0,
                pages: 0,
            }) && resp.info.error@ == page_error_message() && resp.info.error@.len() > 0
            &&& page > 0 && limit == 0 ==> resp.data@.len() == 0 && resp.pagination
                == (Pagination { count: 0, page: 0, limit: 0, pages: 0 }) && resp.info.error@
                == limit_error_message() && resp.info.error@.len() > 0
            &&& page > 0 && limit > 0 ==> {
                &&& models(resp.data@) =~= trim_all(
                    page_slice(sort_desc(matching), page, limit),
                )
                &&& resp.pagination.count == matching.len()
                &&& resp.pagination.page == page
                &&& resp.pagination.limit == limit
                &&& resp.pagination.pages == matching.len() as int / limit
                &&& matching.len() > 0 ==> resp.info.error@ == Seq::<char>::empty()
                &&& matching.len() == 0 ==> resp.info.error@ == no_results_message()
            }
        }),
{
    let rows = store.snapshot();
    let mut matched: Vec<FinancialDataReport> = Vec::new();
    let mut i: usize = 0;
    proof {
        reveal(Seq::filter);
        assert(models(matched@) =~= matching_rows(models(rows@).take(0), query));
    }
    while i < rows.len()
        invariant
            i <= rows.len(),
            models(matched@) =~= matching_rows(models(rows@).take(i as int), query),
        decreases rows.len() - i,
    {
        let keep = row_matches_exec(&rows[i], query);
        let ghost pre = matched@;
        if keep {
            let c = rows[i].duplicate();
            matched.push(c);
            proof {
                lemma_models_push(pre, c);
            }
        }
        proof {
            reveal(Seq::filter);
            let m = models(rows@);
            assert(m.take(i + 1).drop_last() =~= m.take(i as int));
            assert(m.take(i + 1).last() == m[i as int]);
            assert(models(matched@) =~= matching_rows(m.take(i + 1), query));
        }
        i += 1;
    }
    proof {
        assert(models(rows@).take(rows@.len() as int) =~= models(rows@));
    }
    let count = matched.len();
    let page_raw = match query.page {
        Some(p) => p,
        None => 1,
    };
    let limit = match query.limit {
        Some(l) => l,
        None => 5,
    };
    if page_raw == 0 {
        proof {
            reveal_strlit("Page must be a positive number bigger than 0.");
        }
        return FinancialDataResponse {
            data: Vec::new(),
            pagination: Pagination { count: 0, page: 0, limit: 0, pages: 0 },
            info: ResponseInfo {
                error: String::from_str("Page must be a positive number bigger than 0."),
            },
        };
    }
    if limit == 0 {
        proof {
            reveal_strlit("Limit must be a positive number bigger than 0.");
        }
        return FinancialDataResponse {
            data: Vec::new(),
            pagination: Pagination { count: 0, page: 0, limit: 0, pages: 0 },
            info: ResponseInfo {
                error: String::from_str("Limit must be a positive number bigger than 0."),
            },
        };
    }
    let page0 = page_raw - 1;
    let pages = count / limit;
    let sorted = sort_rows_desc(matched);
    let ghost target = trim_all(page_slice(models(sorted@), page_raw as int, limit as int));
    let mut data: Vec<FinancialDataReport> = Vec::new();
    match limit.checked_mul(page0) {
        None => {
            proof {
                assert(limit * page0 > usize::MAX);
                assert(target.len() == 0);
            }
        },
        Some(offset) => {
            if offset < sorted.len() {
                let avail = sorted.len() - offset;
                let take_n = if avail < limit {
                    avail
                } else {
                    limit
                };
                proof {
                    assert(target.len() == take_n);
                }
                let mut j: usize = 0;
                while j < take_n
                    invariant
                        j <= take_n,
                        offset + take_n <= sorted@.len(),
                        sorted@.len() <= usize::MAX,
                        target.len() == take_n,
                        target =~= trim_all(
                            page_slice(models(sorted@), page_raw as int, limit as int),
                        ),
                        forall|t: int|
                            0 <= t < take_n ==> #[trigger] target[t] == trim_row(
                                models(sorted@)[offset + t],
                            ),
                        models(data@) =~= target.take(j as int),
                    decreases take_n - j,
                {
                    let mut c = sorted[offset + j].duplicate();
                    let trimmed = trim_symbol(&c.symbol);
                    c.symbol = trimmed;
                    let ghost pre = data@;
                    proof {
                        assert(c@ == trim_row(models(sorted@)[offset + j]));
                    }
                    data.push(c);
                    proof {
                        lemma_models_push(pre, c);
                        assert(models(data@) =~= target.take(j + 1));
                    }
                    j += 1;
                }
                proof {
                    assert(target.take(take_n as int) =~= target);
                }
            } else {
                proof {
                    assert(target.len() == 0);
                }
            }
        },
    }
    let error = if count > 0 {
        String::new()
    } else {
        String::from_str(
            "The query had no results. Try another date range and verify symbol is correct.",
        )
    };
    FinancialDataResponse {
        data,
        pagination: Pagination { count, page: page_raw, limit, pages },
        info: ResponseInfo { error },
    }
}

/// Law: a query with no filters selects every stored row.
pub proof fn lemma_no_filters_match_all(m: Seq<RowModel>, query: &FinancialDataQuery)
    requires
        query.symbol is None,
        query.start_date is None,
        query.end_date is None,
    ensures
        matching_rows(m, query) =~= m,
    decreases m.len(),
{
    reveal(Seq::filter);
    if m.len() > 0 {
        lemma_no_filters_match_all(m.drop_last(), query);
        assert(query.spec_matches(m.last()));
        assert(matching_rows(m, query) =~= matching_rows(m.drop_last(), query).push(m.last()));
    }
}

/// Law: with no filters and a limit at least the row count, the first page
/// is the whole store, ordered by date descending: same contents, dates
/// never increasing.
pub proof fn lemma_full_first_page(m: Seq<RowModel>, query: &FinancialDataQuery, limit: int)
    requires
        query.symbol is None,
        query.start_date is None,
        query.end_date is None,
        limit >= m.len(),
        limit >= 1,
    ensures
        page_slice(sort_desc(matching_rows(m, query)), 1, limit) =~= sort_desc(m),
        sorted_desc(sort_desc(m)),
        sort_desc(m).to_multiset() =~= m.to_multiset(),
        sort_desc(m).len() == m.len(),
{
    lemma_no_filters_match_all(m, query);
    lemma_sort_desc_ensures(m);
    let sorted = sort_desc(matching_rows(m, query));
    assert(sorted == sort_desc(m));
    if sorted.len() > 0 {
        assert(page_slice(sorted, 1, limit) =~= sorted.subrange(0, sorted.len() as int));
    }
}

} // verus!
