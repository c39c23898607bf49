//! Browsing the workshop page by page.
use vstd::prelude::*;

use crate::numbers::decimal;
use crate::table::Table;
use crate::text::join_two;
use crate::web::{WorkshopQuery, WorkshopSort, WorkshopTrendPeriod};
#[allow(unused_imports)]
use crate::numbers::decimal_text;
#[allow(unused_imports)]
use crate::text::laws::holds_text;
#[allow(unused_imports)]
use crate::text::occurs_at;
#[allow(unused_imports)]
use crate::web::QueryModel;

verus! {

/// How to get from a page to its neighbours.
#[derive(Debug)]
pub struct Paging {
    pub previous: Option<u32>,
    pub label: String,
    pub next: Option<u32>,
}

/// What a page is called.
pub open spec fn page_label(page: u32, max_page: u32) -> Seq<char> {
    if max_page > 0 {
        "Page "@ + decimal_text(page as nat) + " of "@ + decimal_text(max_page as nat)
    } else {
        "Nothing to see..."@
    }
}

/// Something that is browsed page by page.
pub trait WorkshopBrowser {
    spec fn page(&self) -> u32;

    spec fn max_page(&self) -> u32;

    spec fn searched(&self) -> QueryModel;

    spec fn tags_shown(&self) -> bool;

    fn get_page(&self) -> (r: u32)
        ensures
            r == self.page(),
    ;

    fn get_max_page(&self) -> (r: u32)
        ensures
            r == self.max_page(),
    ;

    fn get_query(&self) -> (r: &WorkshopQuery)
        ensures
            r@ == self.searched(),
    ;

    fn get_tags_toggled(&self) -> (r: bool)
        ensures
            r == self.tags_shown(),
    ;

    /// How to get from the page to its neighbours.
    fn paging(&self) -> (r: Paging)
        ensures
            r.previous == previous_page(self.page(), self.max_page()),
            r.next == next_page(self.page(), self.max_page()),
            r.label@ == page_label(self.page(), self.max_page()),
    {
        make_paging(self.get_page(), self.get_max_page())
    }
}

/// The page before a page, where there is one.
pub open spec fn previous_page(page: u32, max_page: u32) -> Option<u32> {
    if max_page > 0 && page > 1 {
        Some((page - 1) as u32)
    } else {
        None
    }
}

/// The page behind a page, where there is one.
pub open spec fn next_page(page: u32, max_page: u32) -> Option<u32> {
    if max_page > 0 && page < max_page {
        Some((page + 1) as u32)
    } else {
        None
    }
}

/// From each page one gets to the next one and back, and on to the last, but not beyond it, nor
/// before the first. A page says which of how many it is.
pub proof fn pages_lead_to_one_another(page: u32, max_page: u32)
    requires
        1 <= page <= max_page,
    ensures
        page < max_page <==> next_page(page, max_page) is Some,
        page > 1 <==> previous_page(page, max_page) is Some,
        next_page(page, max_page) matches Some(n) ==> page < n <= max_page && previous_page(
            n,
            max_page,
        ) == Some(page),
        previous_page(page, max_page) matches Some(n) ==> 1 <= n < page && next_page(n, max_page)
            == Some(page),
        holds_text(page_label(page, max_page), decimal_text(page as nat)),
        holds_text(page_label(page, max_page), decimal_text(max_page as nat)),
{
    let label = page_label(page, max_page);
    let first = decimal_text(page as nat);
    let last = decimal_text(max_page as nat);
    let i = "Page "@.len() as int;
    let k = ("Page "@ + first + " of "@).len() as int;
    assert(label.subrange(i, i + first.len()) =~= first);
    assert(occurs_at(label, first, i));
    assert(label.subrange(k, k + last.len()) =~= last);
    assert(occurs_at(label, last, k));
}

/// How to get from a page to its neighbours.
pub fn make_paging(page: u32, max_page: u32) -> (r: Paging)
    ensures
        r.previous == previous_page(page, max_page),
        r.next == next_page(page, max_page),
        r.label@ == page_label(page, max_page),
{
    let previous: Option<u32> = if max_page > 0 && page > 1 {
        Some(page - 1)
    } else {
        None
    };
    let next: Option<u32> = if max_page > 0 && page < max_page {
        Some(page + 1)
    } else {
        None
    };
    let label = if max_page > 0 {
        let current = decimal(page as u64);
        let last = decimal(max_page as u64);
        let a = join_two("Page ", current.as_str());
        let b = join_two(a.as_str(), " of ");
        join_two(b.as_str(), last.as_str())
    } else {
        "Nothing to see...".to_owned()
    };
    Paging { previous, label, next }
}

/// What is browsed, and what is searched for.
pub struct Browse {
    pub browsing_page: u32,
    pub browsing_page_max: u32,
    pub browsing_query: WorkshopQuery,
    pub browsing_query_period: WorkshopTrendPeriod,
    pub browse_query_tags_open: bool,
}

#[verifier::ext_equal]
pub struct BrowseModel {
    pub page: u32,
    pub page_max: u32,
    pub query: QueryModel,
    pub period: WorkshopTrendPeriod,
    pub tags_open: bool,
}

impl View for Browse {
    type V = BrowseModel;

    open spec fn view(&self) -> BrowseModel {
        BrowseModel {
            page: self.browsing_page,
            page_max: self.browsing_page_max,
            query: self.browsing_query@,
            period: self.browsing_query_period,
            tags_open: self.browse_query_tags_open,
        }
    }
}

impl WorkshopBrowser for Browse {
    open spec fn page(&self) -> u32 {
        self.browsing_page
    }

    open spec fn max_page(&self) -> u32 {
        self.browsing_page_max
    }

    open spec fn searched(&self) -> QueryModel {
        self.browsing_query@
    }

    open spec fn tags_shown(&self) -> bool {
        self.browse_query_tags_open
    }

    fn get_page(&self) -> (r: u32) {
        self.browsing_page
    }

    fn get_max_page(&self) -> (r: u32) {
        self.browsing_page_max
    }

    fn get_query(&self) -> (r: &WorkshopQuery) {
        &self.browsing_query
    }

    fn get_tags_toggled(&self) -> (r: bool) {
        self.browse_query_tags_open
    }
}

/// The first page is the lowest.
pub open spec fn at_least_one(page: u32) -> u32 {
    if page > 1 {
        page
    } else {
        1
    }
}

/// A sort with the trend taken over another time, if it goes by the trend.
pub open spec fn with_period(sort: WorkshopSort, period: WorkshopTrendPeriod) -> WorkshopSort {
    match sort {
        WorkshopSort::Trend(_) => WorkshopSort::Trend(period),
        _ => sort,
    }
}

/// A tag is taken out where it is there, and put in where it is not.
pub open spec fn toggled(tags: Set<Seq<char>>, tag: Seq<char>) -> Set<Seq<char>> {
    if tags.contains(tag) {
        tags.remove(tag)
    } else {
        tags.insert(tag)
    }
}

impl Browse {
    /// A search that has not begun.
    pub fn new(sort: WorkshopSort, period: WorkshopTrendPeriod) -> (r: Self)
        ensures
            r@ == (BrowseModel {
                page: 0,
                page_max: 0,
                query: QueryModel { query: Seq::empty(), sort, tags: Set::empty() },
                period,
                tags_open: false,
            }),
    {
        let r = Browse {
            browsing_page: 0,
            browsing_page_max: 0,
            browsing_query: WorkshopQuery { query: String::new(), sort, tags: Table::new() },
            browsing_query_period: period,
            browse_query_tags_open: false,
        };
        assert(r@.query.query =~= Seq::empty());
        assert(r@.query.tags =~= Set::empty());
        r
    }

    /// Goes to a page. Says whether it is another one, which is to be loaded.
    pub fn set_page(&mut self, new: u32) -> (r: bool)
        ensures
            r == (at_least_one(new) != old(self)@.page),
            final(self)@ == (BrowseModel { page: at_least_one(new), ..old(self)@ }),
    {
        let page: u32 = if new > 1 {
            new
        } else {
            1
        };
        if page == self.browsing_page {
            return false;
        }
        self.browsing_page = page;
        true
    }

    pub fn edit_query(&mut self, query: String)
        ensures
            final(self)@ == (BrowseModel {
                query: QueryModel { query: query@, ..old(self)@.query },
                ..old(self)@
            }),
    {
        self.browsing_query.query = query;
    }

    pub fn edit_sort(&mut self, sort: WorkshopSort)
        ensures
            final(self)@ == (BrowseModel {
                query: QueryModel { sort, ..old(self)@.query },
                ..old(self)@
            }),
    {
        self.browsing_query.sort = sort;
    }

    pub fn edit_tag(&mut self, tag: String)
        ensures
            final(self)@ == (BrowseModel {
                query: QueryModel {
                    tags: toggled(old(self)@.query.tags, tag@),
                    ..old(self)@.query
                },
                ..old(self)@
            }),
    {
        let ghost before = self@.query.tags;
        let ghost key = tag@;
        if self.browsing_query.tags.contains(&tag) {
            let gone = self.browsing_query.tags.remove(&tag);
            assert(self@.query.tags =~= before.remove(key));
        } else {
            self.browsing_query.tags.insert(tag, ());
            assert(self@.query.tags =~= before.insert(key));
        }
    }

    pub fn edit_period(&mut self, period: WorkshopTrendPeriod)
        ensures
            final(self)@ == (BrowseModel {
                period,
                query: QueryModel {
                    sort: with_period(old(self)@.query.sort, period),
                    ..old(self)@.query
                },
                ..old(self)@
            }),
    {
        self.browsing_query_period = period;
        if let WorkshopSort::Trend(_) = self.browsing_query.sort {
            self.browsing_query.sort = WorkshopSort::Trend(period);
        }
    }

    pub fn toggle_tags(&mut self, open: bool)
        ensures
            final(self)@ == (BrowseModel { tags_open: open, ..old(self)@ }),
    {
        self.browse_query_tags_open = open;
    }

    /// Begins the search from its first page.
    pub fn submit(&mut self)
        ensures
            final(self)@ == (BrowseModel { page: 1, ..old(self)@ }),
    {
        self.browsing_page = 1;
    }

    /// A page was loaded of a search that found `total` items.
    pub fn loaded(&mut self, total: u32, page_size: u32)
        requires
            page_size > 1,
        ensures
            final(self)@ == (BrowseModel {
                page_max: (total as int / page_size as int + 1) as u32,
                ..old(self)@
            }),
            total as int / page_size as int + 1 <= u32::MAX,
    {
        proof {
            let t = total as int;
            let p = page_size as int;
            assert(t / p <= t / 2) by (nonlinear_arith)
                requires
                    t >= 0,
                    p >= 2,
            ;
        }
        self.browsing_page_max = total / page_size + 1;
    }
}

/// Putting a tag in and taking it out again leaves the search as it was.
pub proof fn tags_toggle_back(tags: Set<Seq<char>>, tag: Seq<char>)
    ensures
        toggled(toggled(tags, tag), tag) == tags,
{
    assert(toggled(toggled(tags, tag), tag) =~= tags);
}

} // verus!
