//! What the workshop is asked for.
use vstd::prelude::*;

use crate::table::Table;

verus! {

/// The time over which the trend of items is taken.
#[derive(Debug, Clone, Copy, PartialEq, Eq, Structural)]
pub enum WorkshopTrendPeriod {
    Today,
    Week,
    ThreeMonths,
    SixMonths,
    OneYear,
    AllTime,
}

/// The order in which items are listed.
#[derive(Debug, Clone, Copy, PartialEq, Eq, Structural)]
pub enum WorkshopSort {
    Trend(WorkshopTrendPeriod),
    LastUpdated,
    MostRecent,
    TextSearch,
    TotalUniqueSubscribers,
}

/// A search in the workshop.
pub struct WorkshopQuery {
    pub query: String,
    pub sort: WorkshopSort,
    /// The tags that the items must have.
    pub tags: Table<String, ()>,
}

#[verifier::ext_equal]
pub struct QueryModel {
    pub query: Seq<char>,
    pub sort: WorkshopSort,
    pub tags: Set<Seq<char>>,
}

impl View for WorkshopQuery {
    type V = QueryModel;

    open spec fn view(&self) -> QueryModel {
        QueryModel { query: self.query@, sort: self.sort, tags: self.tags@.dom() }
    }
}

pub(crate) fn copy_tags(tags: &Table<String, ()>) -> (r: Table<String, ()>)
    ensures
        r@.dom() == tags@.dom(),
{
    let mut out: Table<String, ()> = Table::new();
    let n = tags.len();
    let ghost rows = tags.rows();
    let mut i: usize = 0;
    while i < n
        invariant
            0 <= i <= n,
            n == rows.len(),
            rows == tags.rows(),
            forall|k: Seq<char>|
                #[trigger] out@.dom().contains(k) <==> exists|j: int|
                    0 <= j < i && (#[trigger] rows[j]).0 == k,
        decreases n - i,
    {
        let key = tags.key_at(i).clone();
        let ghost before = out@;
        let ghost text = key@;
        out.insert(key, ());
        assert(rows[i as int].0 == text);
        assert forall|k: Seq<char>| #[trigger] out@.dom().contains(k) <==> exists|j: int|
            0 <= j < i + 1 && (#[trigger] rows[j]).0 == k by {
            assert(out@.dom().contains(k) <==> before.dom().contains(k) || k == text);
            if before.dom().contains(k) {
                let j = choose|j: int| 0 <= j < i && (#[trigger] rows[j]).0 == k;
                assert(rows[j].0 == k);
            }
        }
        i += 1;
    }
    assert(out@.dom() =~= tags@.dom());
    out
}

impl WorkshopQuery {
    pub fn copy(&self) -> (r: WorkshopQuery)
        ensures
            r@ == self@,
    {
        WorkshopQuery {
            query: self.query.clone(),
            sort: self.sort,
            tags: copy_tags(&self.tags),
        }
    }
}

} // verus!
