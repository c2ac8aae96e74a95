//! The store model and the upsert engine.
//!
//! `Store` models the one relational table of the service: a set of
//! time-series rows with the invariant that the `(symbol, date)` key is
//! unique. The upsert engine applies a batch with insert-or-update-on-conflict
//! semantics: payload fields are overwritten, key fields never are, and the
//! batch is applied as a whole (the storage layer mirrors this with one
//! transaction).

use crate::model::{FinancialDataReport, RowModel};
use vstd::prelude::*;

verus! {

/// The mathematical contents of a row vector.
pub open spec fn models(rows: Seq<FinancialDataReport>) -> Seq<RowModel> {
    Seq::new(rows.len(), |i: int| rows[i]@)
}

/// No two rows share the `(symbol, date)` key.
pub open spec fn unique_keys(rows: Seq<RowModel>) -> bool {
    forall|i: int, j: int|
        0 <= i < j < rows.len() ==> !(#[trigger] rows[i]).same_key(#[trigger] rows[j])
}

/// Index of the first row sharing `r`'s key, or `-1` when the key is fresh.
pub open spec fn first_match(rows: Seq<RowModel>, r: RowModel) -> int
    decreases rows.len(),
{
    if rows.len() == 0 {
        -1
    } else if rows[0].same_key(r) {
        0
    } else {
        let k = first_match(rows.drop_first(), r);
        if k == -1 {
            -1
        } else {
            k + 1
        }
    }
}

/// Insert-or-update-on-conflict of one row: the first row with the same key
/// has its payload replaced in place, and a fresh key is appended.
pub open spec fn spec_upsert_one(rows: Seq<RowModel>, r: RowModel) -> Seq<RowModel> {
    let j = first_match(rows, r);
    if j == -1 {
        rows.push(r)
    } else {
        rows.update(j, r)
    }
}

/// One batch applied in order; a later entry for a key overwrites an earlier
/// one.
pub open spec fn spec_upsert(rows: Seq<RowModel>, batch: Seq<RowModel>) -> Seq<RowModel>
    decreases batch.len(),
{
    if batch.len() == 0 {
        rows
    } else {
        spec_upsert_one(spec_upsert(rows, batch.drop_last()), batch.last())
    }
}

/// What `first_match` finds: a well-placed first index, or no match at all.
pub proof fn lemma_first_match_characterization(rows: Seq<RowModel>, r: RowModel)
    ensures
        ({
            let j = first_match(rows, r);
            &&& -1 <= j < rows.len()
            &&& j == -1 ==> forall|i: int|
                0 <= i < rows.len() ==> !(#[trigger] rows[i]).same_key(r)
            &&& j >= 0 ==> rows[j].same_key(r) && forall|i: int|
                0 <= i < j ==> !(#[trigger] rows[i]).same_key(r)
        }),
    decreases rows.len(),
{
    if rows.len() == 0 {
    } else if rows[0].same_key(r) {
    } else {
        let rest = rows.drop_first();
        lemma_first_match_characterization(rest, r);
        let k = first_match(rest, r);
        if k == -1 {
            assert forall|i: int| 0 <= i < rows.len() implies !(#[trigger] rows[i]).same_key(r) by {
                if i > 0 {
                    assert(rows[i] == rest[i - 1]);
                }
            }
        } else {
            assert(rows[k + 1] == rest[k]);
            assert forall|i: int| 0 <= i < k + 1 implies !(#[trigger] rows[i]).same_key(r) by {
                if i > 0 {
                    assert(rows[i] == rest[i - 1]);
                }
            }
        }
    }
}

/// An index that matches, with no earlier match, is the first match.
pub proof fn lemma_first_match_is(rows: Seq<RowModel>, r: RowModel, j: int)
    requires
        0 <= j < rows.len(),
        rows[j].same_key(r),
        forall|i: int| 0 <= i < j ==> !(#[trigger] rows[i]).same_key(r),
    ensures
        first_match(rows, r) == j,
    decreases rows.len(),
{
    if j == 0 {
    } else {
        let rest = rows.drop_first();
        assert(rest[j - 1] == rows[j]);
        assert forall|i: int| 0 <= i < j - 1 implies !(#[trigger] rest[i]).same_key(r) by {
            assert(rest[i] == rows[i + 1]);
        }
        lemma_first_match_is(rest, r, j - 1);
    }
}

/// Appending a row appends its model.
pub proof fn lemma_models_push(pre: Seq<FinancialDataReport>, r: FinancialDataReport)
    ensures
        models(pre.push(r)) =~= models(pre).push(r@),
{
    assert forall|k: int|
        0 <= k < pre.len() + 1 implies models(pre.push(r))[k] == models(pre).push(r@)[k] by {
        if k < pre.len() {
            assert(pre.push(r)[k] == pre[k]);
        }
    }
}

/// Inserting a row inserts its model.
pub proof fn lemma_models_insert(pre: Seq<FinancialDataReport>, k: int, r: FinancialDataReport)
    requires
        0 <= k <= pre.len(),
    ensures
        models(pre.insert(k, r)) =~= models(pre).insert(k, r@),
{
    assert forall|t: int|
        0 <= t < pre.len() + 1 implies models(pre.insert(k, r))[t] == models(pre).insert(
        k,
        r@,
    )[t] by {
        if t < k {
            assert(pre.insert(k, r)[t] == pre[t]);
        } else if t > k {
            assert(pre.insert(k, r)[t] == pre[t - 1]);
        }
    }
}

/// Replacing a row by one with the same key preserves key uniqueness.
pub proof fn lemma_update_same_key_unique(m: Seq<RowModel>, j: int, r: RowModel)
    requires
        unique_keys(m),
        0 <= j < m.len(),
        m[j].same_key(r),
    ensures
        unique_keys(m.update(j, r)),
{
    let t = m.update(j, r);
    assert forall|a: int, b: int|
        0 <= a < b < t.len() implies !(#[trigger] t[a]).same_key(#[trigger] t[b]) by {
        if a == j {
            assert(t[b] == m[b]);
            assert(!m[j].same_key(m[b]));
        } else if b == j {
            assert(t[a] == m[a]);
            assert(!m[a].same_key(m[j]));
        } else {
            assert(t[a] == m[a]);
            assert(t[b] == m[b]);
        }
    }
}

/// Appending a row with a fresh key preserves key uniqueness.
pub proof fn lemma_push_fresh_unique(m: Seq<RowModel>, r: RowModel)
    requires
        unique_keys(m),
        forall|i: int| 0 <= i < m.len() ==> !(#[trigger] m[i]).same_key(r),
    ensures
        unique_keys(m.push(r)),
{
    let t = m.push(r);
    assert forall|a: int, b: int|
        0 <= a < b < t.len() implies !(#[trigger] t[a]).same_key(#[trigger] t[b]) by {
        if b == m.len() {
            assert(t[a] == m[a]);
            assert(t[b] == r);
        } else {
            assert(t[a] == m[a]);
            assert(t[b] == m[b]);
        }
    }
}

/// The relational store, modeled: one table of time-series rows, keyed by
/// `(symbol, date)`.
pub struct Store {
    rows: Vec<FinancialDataReport>,
}

impl View for Store {
    type V = Seq<RowModel>;

    closed spec fn view(&self) -> Seq<RowModel> {
        models(self.rows@)
    }
}

impl Store {
    /// The store invariant: the `(symbol, date)` key is unique.
    pub open spec fn wf(&self) -> bool {
        unique_keys(self@)
    }

    /// An empty store.
    pub fn new() -> (s: Store)
        ensures
            s@ =~= Seq::<RowModel>::empty(),
            s.wf(),
    {
        Store { rows: Vec::new() }
    }

    /// Number of stored rows.
    pub fn len(&self) -> (n: usize)
        ensures
            n == self@.len(),
    {
        self.rows.len()
    }

    /// A copy of the stored rows, in storage order.
    pub fn snapshot(&self) -> (v: Vec<FinancialDataReport>)
        ensures
            models(v@) =~= self@,
    {
        let mut v: Vec<FinancialDataReport> = Vec::new();
        let mut i: usize = 0;
        while i < self.rows.len()
            invariant
                i <= self.rows.len(),
                models(v@) =~= models(self.rows@).take(i as int),
            decreases self.rows.len() - i,
        {
            let ghost pre = v@;
            proof {
                assert(models(self.rows@).len() == self.rows@.len());
                assert(models(pre).len() == pre.len());
                assert(pre.len() == i as int);
            }
            v.push(self.rows[i].duplicate());
            proof {
                assert forall|k: int|
                    0 <= k < i + 1 implies models(v@)[k] == models(self.rows@).take(i + 1)[k] by {
                    if k < i {
                        assert(v@[k] == pre[k]);
                        assert(models(pre)[k] == pre[k]@);
                    }
                }
                assert(models(v@) =~= models(self.rows@).take(i + 1));
            }
            i += 1;
        }
        proof {
            assert(models(self.rows@).take(self.rows@.len() as int) =~= models(self.rows@));
        }
        v
    }

    /// Insert-or-update one row: the stored row with the same `(symbol,
    /// date)` key has its prices and volume replaced — never its key fields —
    /// and a row with a fresh key is appended.
    pub fn upsert_row(&mut self, row: FinancialDataReport)
        requires
            old(self).wf(),
        ensures
            final(self).wf(),
            final(self)@ =~= spec_upsert_one(old(self)@, row@),
    {
        let n = self.rows.len();
        let mut i: usize = 0;
        while i < n
            invariant
                i <= n,
                n == self.rows.len(),
                self.rows@ == old(self).rows@,
                old(self).wf(),
                forall|k: int|
                    0 <= k < i ==> !(#[trigger] models(self.rows@)[k]).same_key(row@),
            decreases n - i,
        {
            if self.rows[i].date == row.date && self.rows[i].symbol == row.symbol {
                proof {
                    assert(models(self.rows@)[i as int].same_key(row@));
                    lemma_first_match_is(models(self.rows@), row@, i as int);
                    lemma_update_same_key_unique(models(self.rows@), i as int, row@);
                }
                let mut existing = self.rows.remove(i);
                existing.open_price = row.open_price;
                existing.close_price = row.close_price;
                existing.volume = row.volume;
                self.rows.insert(i, existing);
                proof {
                    assert(self.rows@ =~= old(self).rows@.update(i as int, existing));
                    assert(existing@ == row@);
                    assert forall|k: int|
                        0 <= k < self.rows@.len() implies models(self.rows@)[k] == old(
                        self,
                    )@.update(i as int, row@)[k] by {
                        assert(models(self.rows@)[k] == self.rows@[k]@);
                    }
                    assert(models(self.rows@) =~= old(self)@.update(i as int, row@));
                }
                return ;
            }
            i += 1;
        }
        proof {
            lemma_first_match_characterization(models(self.rows@), row@);
            lemma_push_fresh_unique(models(self.rows@), row@);
        }
        let ghost pre = self.rows@;
        self.rows.push(row);
        proof {
            assert forall|k: int|
                0 <= k < self.rows@.len() implies models(self.rows@)[k] == models(pre).push(
                row@,
            )[k] by {
                if k < pre.len() {
                    assert(self.rows@[k] == pre[k]);
                    assert(models(pre)[k] == pre[k]@);
                }
            }
            assert(models(self.rows@) =~= models(pre).push(row@));
        }
    }

    /// Apply one ingestion batch, insert-or-update per row, in order.
    pub fn upsert(&mut self, batch: Vec<FinancialDataReport>)
        requires
            old(self).wf(),
        ensures
            final(self).wf(),
            final(self)@ =~= spec_upsert(old(self)@, models(batch@)),
    {
        let n = batch.len();
        let mut i: usize = 0;
        while i < n
            invariant
                i <= n,
                n == batch.len(),
                self.wf(),
                self@ =~= spec_upsert(old(self)@, models(batch@).take(i as int)),
            decreases n - i,
        {
            self.upsert_row(batch[i].duplicate());
            proof {
                let b = models(batch@);
                assert(b.take(i + 1).drop_last() =~= b.take(i as int));
                assert(b.take(i + 1).last() == b[i as int]);
            }
            i += 1;
        }
        proof {
            assert(models(batch@).take(n as int) =~= models(batch@));
        }
    }
}

/// Law: upserting two rows with the same `(symbol, date)` key — in one batch
/// or across batches — leaves exactly one row with that key, holding the
/// later payload; every row with another key is untouched.
pub proof fn lemma_upsert_latest_wins(rows: Seq<RowModel>, r1: RowModel, r2: RowModel)
    requires
        unique_keys(rows),
        r1.same_key(r2),
    ensures
        ({
            let t = spec_upsert_one(spec_upsert_one(rows, r1), r2);
            &&& unique_keys(t)
            &&& exists|j: int| 0 <= j < t.len() && t[j] == r2
            &&& forall|j: int| 0 <= j < t.len() && (#[trigger] t[j]).same_key(r2) ==> t[j] == r2
            &&& forall|j: int|
                0 <= j < rows.len() && !(#[trigger] rows[j]).same_key(r2) ==> t.contains(rows[j])
        }),
{
    lemma_first_match_characterization(rows, r1);
    let j1 = first_match(rows, r1);
    let t = spec_upsert_one(spec_upsert_one(rows, r1), r2);
    if j1 == -1 {
        let s1 = rows.push(r1);
        lemma_first_match_is(s1, r2, rows.len() as int);
        assert(t =~= rows.push(r2));
        assert forall|j: int|
            0 <= j < rows.len() && !(#[trigger] rows[j]).same_key(r2) implies t.contains(
            rows[j],
        ) by {
            assert(t[j] == rows[j]);
        }
        assert(t[rows.len() as int] == r2);
    } else {
        let s1 = rows.update(j1, r1);
        assert forall|i: int| 0 <= i < j1 implies !(#[trigger] s1[i]).same_key(r2) by {
            assert(s1[i] == rows[i]);
        }
        lemma_first_match_is(s1, r2, j1);
        assert(t =~= rows.update(j1, r2));
        assert forall|j: int|
            0 <= j < rows.len() && !(#[trigger] rows[j]).same_key(r2) implies t.contains(
            rows[j],
        ) by {
            assert(t[j] == rows[j]);
        }
        assert(t[j1] == r2);
    }
}

} // verus!
