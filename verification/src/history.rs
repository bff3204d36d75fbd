//! The append-only history of analysis runs. Each successful run adds
//! exactly one record under the next identity; records are never
//! updated or deleted, and retrieval returns the most recently added
//! records first.

use vstd::prelude::*;
use crate::analysis::AnalysisResult;
use crate::dates::Date;
use crate::decimal::Decimal;
use crate::export::copy_range;

verus! {

#[derive(Debug)]
pub struct HistoryRecord {
    /// Monotonically increasing surrogate key, starting at 1.
    pub id: u64,
    pub symbol: Vec<u8>,
    /// The run date, not a price date.
    pub date: Date,
    pub trend: Vec<u8>,
    pub predicted: Decimal,
    pub recommendation: Vec<u8>,
}

/// Equality of records up to byte content.
pub open spec fn rec_like(a: HistoryRecord, b: HistoryRecord) -> bool {
    &&& a.id == b.id
    &&& a.symbol@ == b.symbol@
    &&& a.date == b.date
    &&& a.trend@ == b.trend@
    &&& a.predicted == b.predicted
    &&& a.recommendation@ == b.recommendation@
}

pub struct HistoryStore {
    pub rows: Vec<HistoryRecord>,
}

impl HistoryStore {
    /// Identities are assigned in insertion order, starting at 1.
    pub open spec fn wf(self) -> bool {
        forall|i: int| 0 <= i < self.rows@.len() ==> (#[trigger] self.rows@[i]).id == i + 1
    }

    pub fn new() -> (r: HistoryStore)
        ensures
            r.wf(),
            r.rows@.len() == 0,
    {
        HistoryStore { rows: Vec::new() }
    }

    /// Appends one record for a successful run; never touches existing
    /// rows. Yields the new record's identity.
    pub fn append(&mut self, symbol: &Vec<u8>, date: Date, a: &AnalysisResult) -> (id: u64)
        requires
            old(self).wf(),
            old(self).rows@.len() + 1 <= u64::MAX,
        ensures
            final(self).wf(),
            id == old(self).rows@.len() + 1,
            final(self).rows@.len() == old(self).rows@.len() + 1,
            forall|i: int|
                0 <= i < old(self).rows@.len() ==> final(self).rows@[i] == old(self).rows@[i],
            rec_like(
                final(self).rows@.last(),
                HistoryRecord {
                    id,
                    symbol: *symbol,
                    date,
                    trend: a.trend,
                    predicted: a.predicted,
                    recommendation: a.recommendation,
                },
            ),
    {
        let id = (self.rows.len() as u64) + 1;
        let rec = HistoryRecord {
            id,
            symbol: copy_all(symbol),
            date,
            trend: copy_all(&a.trend),
            predicted: a.predicted,
            recommendation: copy_all(&a.recommendation),
        };
        self.rows.push(rec);
        id
    }

    /// Up to `limit` records, most recently inserted first: entry `i`
    /// of the result is row `len - 1 - i`, so identities come out in
    /// strictly descending order.
    pub fn recent(&self, limit: usize) -> (r: Vec<HistoryRecord>)
        requires
            self.wf(),
        ensures
            r@.len() == if limit <= self.rows@.len() {
                limit as int
            } else {
                self.rows@.len() as int
            },
            forall|i: int|
                0 <= i < r@.len() ==> rec_like(
                    #[trigger] r@[i],
                    self.rows@[self.rows@.len() - 1 - i],
                ),
            forall|i: int|
                0 <= i < r@.len() ==> (#[trigger] r@[i]).id == self.rows@.len() - i,
    {
        let n = self.rows.len();
        let count = if limit <= n {
            limit
        } else {
            n
        };
        let mut r: Vec<HistoryRecord> = Vec::new();
        let mut i: usize = 0;
        while i < count
            invariant
                count <= n == self.rows@.len(),
                0 <= i <= count,
                self.wf(),
                r@.len() == i,
                forall|t: int|
                    0 <= t < i ==> rec_like(#[trigger] r@[t], self.rows@[n - 1 - t]),
                forall|t: int| 0 <= t < i ==> (#[trigger] r@[t]).id == n - t,
            decreases count - i,
        {
            let src = &self.rows[n - 1 - i];
            let rec = HistoryRecord {
                id: src.id,
                symbol: copy_all(&src.symbol),
                date: src.date,
                trend: copy_all(&src.trend),
                predicted: src.predicted,
                recommendation: copy_all(&src.recommendation),
            };
            r.push(rec);
            i = i + 1;
        }
        r
    }
}

/// A fresh copy of a byte string.
fn copy_all(v: &Vec<u8>) -> (r: Vec<u8>)
    ensures
        r@ == v@,
{
    let r = copy_range(v, 0, v.len());
    proof {
        assert(v@.subrange(0, v@.len() as int) =~= v@);
    }
    r
}

} // verus!
