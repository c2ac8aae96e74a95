//! The statistics engine: averaged daily metrics over a filtered row set.
//!
//! `compute_statistics` selects the rows of one symbol within an inclusive
//! date range (both ends required) and reports the exact field sums and the
//! row count; the arithmetic means are the quotients `sum / count`, which
//! the embedding layer computes in its own numeric type. No matching row
//! yields no report, keeping "no data" distinct from zero-valued data.

use crate::model::{FinancialDataReport, ResponseInfo, RowModel, StatisticsQuery, StatisticsReport,
    StatisticsResponse};
use crate::query::no_results_message;
use crate::store::{models, Store};
use vstd::prelude::*;
use vstd::string::StringExecFns;

verus! {

/// The rows of `symbol` dated within `[start, end]`, in storage order.
pub open spec fn stats_matching(m: Seq<RowModel>, symbol: Seq<char>, start: int, end: int) -> Seq<
    RowModel,
> {
    m.filter(|r: RowModel| r.symbol == symbol && start <= r.date && r.date <= end)
}

/// Sum of the opening prices.
pub open spec fn sum_open(s: Seq<RowModel>) -> int
    decreases s.len(),
{
    if s.len() == 0 {
        0
    } else {
        sum_open(s.drop_last()) + s.last().open
    }
}

/// Sum of the closing prices.
pub open spec fn sum_close(s: Seq<RowModel>) -> int
    decreases s.len(),
{
    if s.len() == 0 {
        0
    } else {
        sum_close(s.drop_last()) + s.last().close
    }
}

/// Sum of the volumes.
pub open spec fn sum_volume(s: Seq<RowModel>) -> int
    decreases s.len(),
{
    if s.len() == 0 {
        0
    } else {
        sum_volume(s.drop_last()) + s.last().volume
    }
}

/// The averaged-metrics row of one equity over an inclusive date range, or
/// nothing when no stored row matches.
pub fn compute_statistics(store: &Store, query: &StatisticsQuery) -> (r: Option<StatisticsReport>)
    ensures
        ({
            let ms = stats_matching(
                store@,
                query.symbol@,
                query.start_date as int,
                query.end_date as int,
            );
            &&& r is Some <==> ms.len() > 0
            &&& r is Some ==> {
                let rep = r->0;
                &&& rep.symbol@ == query.symbol@
                &&& rep.start_date == query.start_date
                &&& rep.end_date == query.end_date
                &&& rep.count == ms.len()
                &&& rep.open_price_sum as int == sum_open(ms)
                &&& rep.close_price_sum as int == sum_close(ms)
                &&& rep.volume_sum as int == sum_volume(ms)
            }
        }),
{
    let rows = store.snapshot();
    let ghost m = models(rows@);
    let mut cnt: usize = 0;
    let mut open_sum: u128 = 0;
    let mut close_sum: u128 = 0;
    let mut volume_sum: u128 = 0;
    let mut i: usize = 0;
    proof {
        reveal(Seq::filter);
        assert(stats_matching(m.take(0), query.symbol@, query.start_date as int, query.end_date as int)
            =~= Seq::<RowModel>::empty());
    }
    while i < rows.len()
        invariant
            i <= rows.len(),
            m == models(rows@),
            ({
                let f = stats_matching(
                    m.take(i as int),
                    query.symbol@,
                    query.start_date as int,
                    query.end_date as int,
                );
                &&& cnt == f.len()
                &&& open_sum as int == sum_open(f)
                &&& close_sum as int == sum_close(f)
                &&& volume_sum as int == sum_volume(f)
            }),
            cnt <= i,
            open_sum as int <= cnt as int * 0xffff_ffff_ffff_ffffu64 as int,
            close_sum as int <= cnt as int * 0xffff_ffff_ffff_ffffu64 as int,
            volume_sum as int <= cnt as int * 0xffff_ffff_ffff_ffffu64 as int,
        decreases rows.len() - i,
    {
        let row = &rows[i];
        let keep = row.symbol == query.symbol && query.start_date <= row.date && row.date
            <= query.end_date;
        if keep {
            open_sum = open_sum + row.open_price as u128;
            close_sum = close_sum + row.close_price as u128;
            volume_sum = volume_sum + row.volume as u128;
            cnt = cnt + 1;
        }
        proof {
            reveal(Seq::filter);
            assert(m.take(i + 1).drop_last() =~= m.take(i as int));
            assert(m.take(i + 1).last() == m[i as int]);
            let f = stats_matching(
                m.take(i as int),
                query.symbol@,
                query.start_date as int,
                query.end_date as int,
            );
            let f1 = stats_matching(
                m.take(i + 1),
                query.symbol@,
                query.start_date as int,
                query.end_date as int,
            );
            if keep {
                assert(f1 =~= f.push(m[i as int]));
                assert(f1.drop_last() =~= f);
                assert(sum_open(f1) == sum_open(f) + m[i as int].open);
                assert(sum_close(f1) == sum_close(f) + m[i as int].close);
                assert(sum_volume(f1) == sum_volume(f) + m[i as int].volume);
            } else {
                assert(f1 =~= f);
            }
        }
        i += 1;
    }
    proof {
        assert(m.take(rows@.len() as int) =~= m);
    }
    if cnt == 0 {
        None
    } else {
        Some(
            StatisticsReport {
                symbol: query.symbol.clone(),
                start_date: query.start_date,
                end_date: query.end_date,
                open_price_sum: open_sum,
                close_price_sum: close_sum,
                volume_sum: volume_sum,
                count: cnt,
            },
        )
    }
}

/// The full `statistics` endpoint response: the report when any row
/// matches, and an advisory message — never an error — when none does.
pub fn statistics_response(store: &Store, query: &StatisticsQuery) -> (resp: StatisticsResponse)
    ensures
        ({
            let ms = stats_matching(
                store@,
                query.symbol@,
                query.start_date as int,
                query.end_date as int,
            );
            &&& resp.data is Some <==> ms.len() > 0
            &&& resp.data is Some ==> {
                let rep = resp.data->0;
                &&& rep.symbol@ == query.symbol@
                &&& rep.start_date == query.start_date
                &&& rep.end_date == query.end_date
                &&& rep.count == ms.len()
                &&& rep.open_price_sum as int == sum_open(ms)
                &&& rep.close_price_sum as int == sum_close(ms)
                &&& rep.volume_sum as int == sum_volume(ms)
            }
            &&& ms.len() > 0 ==> resp.info.error@ == Seq::<char>::empty()
            &&& ms.len() == 0 ==> resp.info.error@ == no_results_message()
        }),
{
    let data = compute_statistics(store, query);
    let error = if data.is_some() {
        String::new()
    } else {
        String::from_str(
            "The query had no results. Try another date range and verify symbol is correct.",
        )
    };
    StatisticsResponse { data, info: ResponseInfo { error } }
}

} // verus!
