//! Browsing the workshop without its web interface.
use vstd::prelude::*;

use crate::browser::{make_paging, Paging};
use crate::collections::{Collection, CollectionSource, ImageSource};
use crate::db::Record;
use crate::table::Table;
use crate::web::{copy_tags, WorkshopQuery, WorkshopSort, WorkshopTrendPeriod};
use crate::xcom_mod::ModId;
#[allow(unused_imports)]
use crate::browser::{at_least_one, next_page, page_label, previous_page};
#[allow(unused_imports)]
use crate::collections::ImageModel;
#[allow(unused_imports)]
use crate::extensions::string_views;
#[allow(unused_imports)]
use crate::web::QueryModel;

verus! {

/// How many of five stars are full.
pub open spec fn stars_text(stars: u8) -> Seq<char> {
    if stars == 0 {
        "☆☆☆☆☆"@
    } else if stars == 1 {
        "★☆☆☆☆"@
    } else if stars == 2 {
        "★★☆☆☆"@
    } else if stars == 3 {
        "★★★☆☆"@
    } else if stars == 4 {
        "★★★★☆"@
    } else {
        "★★★★★"@
    }
}

/// Five stars, so many of them full.
pub fn star_string(stars: u8) -> (r: &'static str)
    ensures
        r@ == stars_text(stars),
{
    if stars == 0 {
        "☆☆☆☆☆"
    } else if stars == 1 {
        "★☆☆☆☆"
    } else if stars == 2 {
        "★★☆☆☆"
    } else if stars == 3 {
        "★★★☆☆"
    } else if stars == 4 {
        "★★★★☆"
    } else {
        "★★★★★"
    }
}

/// The time over which the trend of items is taken, as the pages know it.
#[derive(Debug, Clone, Copy, PartialEq, Eq, Structural)]
pub enum QueryPeriod {
    Today,
    Week,
    ThreeMonths,
    SixMonths,
    OneYear,
    AllTime,
}

/// The order in which items are listed, as the pages know it.
#[derive(Debug, Clone, Copy, PartialEq, Eq, Structural)]
pub enum QuerySort {
    Trend(QueryPeriod),
    LastUpdated,
    MostRecent,
    TextSearch,
    TotalUniqueSubscribers,
}

pub open spec fn period_of(period: WorkshopTrendPeriod) -> QueryPeriod {
    match period {
        WorkshopTrendPeriod::Today => QueryPeriod::Today,
        WorkshopTrendPeriod::Week => QueryPeriod::Week,
        WorkshopTrendPeriod::ThreeMonths => QueryPeriod::ThreeMonths,
        WorkshopTrendPeriod::SixMonths => QueryPeriod::SixMonths,
        WorkshopTrendPeriod::OneYear => QueryPeriod::OneYear,
        WorkshopTrendPeriod::AllTime => QueryPeriod::AllTime,
    }
}

pub open spec fn sort_of(sort: WorkshopSort) -> QuerySort {
    match sort {
        WorkshopSort::Trend(period) => QuerySort::Trend(period_of(period)),
        WorkshopSort::LastUpdated => QuerySort::LastUpdated,
        WorkshopSort::MostRecent => QuerySort::MostRecent,
        WorkshopSort::TextSearch => QuerySort::TextSearch,
        WorkshopSort::TotalUniqueSubscribers => QuerySort::TotalUniqueSubscribers,
    }
}

pub open spec fn web_sort_of(sort: QuerySort) -> WorkshopSort {
    match sort {
        QuerySort::Trend(period) => WorkshopSort::Trend(
            match period {
                QueryPeriod::Today => WorkshopTrendPeriod::Today,
                QueryPeriod::Week => WorkshopTrendPeriod::Week,
                QueryPeriod::ThreeMonths => WorkshopTrendPeriod::ThreeMonths,
                QueryPeriod::SixMonths => WorkshopTrendPeriod::SixMonths,
                QueryPeriod::OneYear => WorkshopTrendPeriod::OneYear,
                QueryPeriod::AllTime => WorkshopTrendPeriod::AllTime,
            },
        ),
        QuerySort::LastUpdated => WorkshopSort::LastUpdated,
        QuerySort::MostRecent => WorkshopSort::MostRecent,
        QuerySort::TextSearch => WorkshopSort::TextSearch,
        QuerySort::TotalUniqueSubscribers => WorkshopSort::TotalUniqueSubscribers,
    }
}

impl QueryPeriod {
    pub fn from_web(period: WorkshopTrendPeriod) -> (r: Self)
        ensures
            r == period_of(period),
    {
        match period {
            WorkshopTrendPeriod::Today => QueryPeriod::Today,
            WorkshopTrendPeriod::Week => QueryPeriod::Week,
            WorkshopTrendPeriod::ThreeMonths => QueryPeriod::ThreeMonths,
            WorkshopTrendPeriod::SixMonths => QueryPeriod::SixMonths,
            WorkshopTrendPeriod::OneYear => QueryPeriod::OneYear,
            WorkshopTrendPeriod::AllTime => QueryPeriod::AllTime,
        }
    }
}

impl QuerySort {
    pub fn from_web(sort: WorkshopSort) -> (r: Self)
        ensures
            r == sort_of(sort),
    {
        match sort {
            WorkshopSort::Trend(period) => QuerySort::Trend(QueryPeriod::from_web(period)),
            WorkshopSort::LastUpdated => QuerySort::LastUpdated,
            WorkshopSort::MostRecent => QuerySort::MostRecent,
            WorkshopSort::TextSearch => QuerySort::TextSearch,
            WorkshopSort::TotalUniqueSubscribers => QuerySort::TotalUniqueSubscribers,
        }
    }

    pub fn to_web(self) -> (r: WorkshopSort)
        ensures
            r == web_sort_of(self),
    {
        match self {
            QuerySort::Trend(period) => {
                let taken = match period {
                    QueryPeriod::Today => WorkshopTrendPeriod::Today,
                    QueryPeriod::Week => WorkshopTrendPeriod::Week,
                    QueryPeriod::ThreeMonths => WorkshopTrendPeriod::ThreeMonths,
                    QueryPeriod::SixMonths => WorkshopTrendPeriod::SixMonths,
                    QueryPeriod::OneYear => WorkshopTrendPeriod::OneYear,
                    QueryPeriod::AllTime => WorkshopTrendPeriod::AllTime,
                };
                WorkshopSort::Trend(taken)
            },
            QuerySort::LastUpdated => WorkshopSort::LastUpdated,
            QuerySort::MostRecent => WorkshopSort::MostRecent,
            QuerySort::TextSearch => WorkshopSort::TextSearch,
            QuerySort::TotalUniqueSubscribers => WorkshopSort::TotalUniqueSubscribers,
        }
    }
}

/// Both ways to name an order name the same orders.
pub proof fn sorts_convert_back(sort: WorkshopSort, other: QuerySort)
    ensures
        web_sort_of(sort_of(sort)) == sort,
        sort_of(web_sort_of(other)) == other,
{
}

/// What is searched for.
pub struct QueryParams {
    pub search_text: String,
    pub sort_method: QuerySort,
    pub tags: Table<String, ()>,
}

#[verifier::ext_equal]
pub struct ParamsModel {
    pub text: Seq<char>,
    pub sort: QuerySort,
    pub tags: Set<Seq<char>>,
}

impl View for QueryParams {
    type V = ParamsModel;

    open spec fn view(&self) -> ParamsModel {
        ParamsModel { text: self.search_text@, sort: self.sort_method, tags: self.tags@.dom() }
    }
}

impl QueryParams {
    pub fn copy(&self) -> (r: QueryParams)
        ensures
            r@ == self@,
    {
        QueryParams {
            search_text: self.search_text.clone(),
            sort_method: self.sort_method,
            tags: copy_tags(&self.tags),
        }
    }
}

/// What a page lists.
#[derive(Debug, Clone, Copy, PartialEq, Eq, Structural)]
pub enum QueryType {
    Item,
    Collection,
}

/// What can be listed on a page.
pub trait Queryable {
    spec fn listed_as() -> QueryType;

    spec fn preview(&self) -> Seq<char>;

    fn query_type() -> (r: QueryType)
        ensures
            r == Self::listed_as(),
    ;

    fn get_preview_url(&self) -> (r: &str)
        ensures
            r@ == self.preview(),
    ;
}

/// An item of the workshop as a page lists it.
#[derive(Debug)]
pub struct QueryItem {
    pub id: u64,
    pub title: String,
    pub author_name: String,
    pub preview_url: String,
    pub stars: u8,
    pub short_description: Option<String>,
}

impl Queryable for QueryItem {
    open spec fn listed_as() -> QueryType {
        QueryType::Item
    }

    open spec fn preview(&self) -> Seq<char> {
        self.preview_url@
    }

    fn query_type() -> (r: QueryType) {
        QueryType::Item
    }

    fn get_preview_url(&self) -> (r: &str) {
        self.preview_url.as_str()
    }
}

/// A collection of the workshop as a page lists it.
#[derive(Debug)]
pub struct QueryCollection {
    pub id: u64,
    pub title: String,
    pub assembler_name: String,
    pub preview_url: String,
    pub stars: u8,
    pub short_description: Option<String>,
}

impl Queryable for QueryCollection {
    open spec fn listed_as() -> QueryType {
        QueryType::Collection
    }

    open spec fn preview(&self) -> Seq<char> {
        self.preview_url@
    }

    fn query_type() -> (r: QueryType) {
        QueryType::Collection
    }

    fn get_preview_url(&self) -> (r: &str) {
        self.preview_url.as_str()
    }
}

/// What a page listed, and how many pages there are.
#[derive(Debug)]
pub struct QueryResult<I> {
    pub pages: u32,
    pub items: Vec<I>,
}

/// What happens while the workshop is browsed.
pub enum WorkshopClientMessage<I> {
    Page(u32),
    SubmitQuery,
    RefreshQuery,
    EditQueryText(String),
    EditSort(WorkshopSort),
    EditPeriod(WorkshopTrendPeriod),
    ToggleTags(bool),
    EditTag(String),
    ResolveQuery(QueryResult<I>),
}

/// What is to be done while the workshop is browsed.
pub enum ClientAction {
    SetBusy(bool),
    /// Loads a page of what is searched for.
    Query(QueryType, u32, QueryParams),
    ResetScroll,
    LoadImage(String),
}

/// The workshop as it is browsed.
pub struct WorkshopBrowser<I> {
    pub max_page: u32,
    pub page: u32,
    /// What is searched for, and what will be when it is submitted.
    pub query: QueryParams,
    pub edit_query: QueryParams,
    pub edit_period: QueryPeriod,
    pub tags_toggled: bool,
    pub query_result: Option<QueryResult<I>>,
    /// How many seconds a page is kept.
    pub lifetime: u64,
}

/// What loading a page calls for.
pub open spec fn refreshing(
    kind: QueryType,
    page: u32,
    query: ParamsModel,
    r: Seq<ClientAction>,
) -> bool {
    &&& r.len() == 4
    &&& r[0] == ClientAction::SetBusy(true)
    &&& r[1] matches ClientAction::Query(k, p, q) && k == kind && p == page && q@ == query
    &&& r[2] == ClientAction::ResetScroll
    &&& r[3] == ClientAction::SetBusy(false)
}

/// The order that is searched by after a search is submitted.
pub open spec fn submitted_sort(sort: QuerySort, period: QueryPeriod) -> QuerySort {
    match sort {
        QuerySort::Trend(_) => QuerySort::Trend(period),
        _ => sort,
    }
}

/// The images of a page that are not known yet.
pub open spec fn unknown_images<I: Queryable>(items: Seq<I>, images: Set<Seq<char>>) -> Seq<
    Seq<char>,
>
    decreases items.len(),
{
    if items.len() == 0 {
        Seq::empty()
    } else {
        let front = unknown_images(items.drop_last(), images);
        if images.contains(items.last().preview()) {
            front
        } else {
            front.push(items.last().preview())
        }
    }
}

/// Whether all that is to be done is to load images.
pub open spec fn loads_images(r: Seq<ClientAction>, urls: Seq<Seq<char>>) -> bool {
    &&& r.len() == urls.len()
    &&& forall|i: int|
        0 <= i < r.len() ==> (#[trigger] r[i] matches ClientAction::LoadImage(url) && url@
            == urls[i])
}

/// What a message does.
pub open spec fn browser_step<I: Queryable>(
    a: WorkshopBrowser<I>,
    b: WorkshopBrowser<I>,
    message: WorkshopClientMessage<I>,
    images: Set<Seq<char>>,
    r: Seq<ClientAction>,
) -> bool {
    match message {
        WorkshopClientMessage::Page(page) => {
            &&& b == (WorkshopBrowser { page: at_least_one(page), ..a })
            &&& if at_least_one(page) == a.page {
                r.len() == 0
            } else {
                refreshing(I::listed_as(), at_least_one(page), a.query@, r)
            }
        },
        WorkshopClientMessage::SubmitQuery => {
            let sort = submitted_sort(a.edit_query.sort_method, a.edit_period);
            &&& b == (WorkshopBrowser {
                page: 1,
                query: b.query,
                edit_query: QueryParams { sort_method: sort, ..a.edit_query },
                ..a
            })
            &&& b.query@ == b.edit_query@
            &&& refreshing(I::listed_as(), 1, b.query@, r)
        },
        WorkshopClientMessage::RefreshQuery => {
            a == b && refreshing(I::listed_as(), a.page, a.query@, r)
        },
        WorkshopClientMessage::EditQueryText(text) => {
            &&& b == (WorkshopBrowser {
                edit_query: QueryParams { search_text: text, ..a.edit_query },
                ..a
            })
            &&& r.len() == 0
        },
        WorkshopClientMessage::EditSort(sort) => {
            &&& b == (WorkshopBrowser {
                edit_query: QueryParams { sort_method: sort_of(sort), ..a.edit_query },
                ..a
            })
            &&& r.len() == 0
        },
        WorkshopClientMessage::EditPeriod(period) => {
            &&& b == (WorkshopBrowser { edit_period: period_of(period), ..a })
            &&& r.len() == 0
        },
        WorkshopClientMessage::ToggleTags(toggled) => {
            &&& b == (WorkshopBrowser { tags_toggled: toggled, ..a })
            &&& r.len() == 0
        },
        WorkshopClientMessage::EditTag(_) => {
            &&& b == (WorkshopBrowser {
                edit_query: QueryParams { tags: b.edit_query.tags, ..a.edit_query },
                ..a
            })
            &&& b.edit_query.tags@ == a.edit_query.tags@
            &&& r.len() == 0
        },
        WorkshopClientMessage::ResolveQuery(resolved) => {
            &&& b == (WorkshopBrowser {
                max_page: resolved.pages,
                query_result: Some(resolved),
                ..a
            })
            &&& loads_images(r, unknown_images(resolved.items@, images))
        },
    }
}

fn refresh(kind: QueryType, page: u32, query: &QueryParams) -> (r: Vec<ClientAction>)
    ensures
        refreshing(kind, page, query@, r@),
{
    vec![
        ClientAction::SetBusy(true),
        ClientAction::Query(kind, page, query.copy()),
        ClientAction::ResetScroll,
        ClientAction::SetBusy(false),
    ]
}

fn load_images<I: Queryable>(items: &Vec<I>, images: &Table<String, ()>) -> (r: Vec<ClientAction>)
    ensures
        loads_images(r@, unknown_images(items@, images@.dom())),
{
    let mut out: Vec<ClientAction> = Vec::new();
    let mut i: usize = 0;
    while i < items.len()
        invariant
            0 <= i <= items@.len(),
            loads_images(out@, unknown_images(items@.take(i as int), images@.dom())),
        decreases items@.len() - i,
    {
        let ghost front = items@.take(i + 1);
        assert(front.drop_last() =~= items@.take(i as int));
        assert(front.last() == items@[i as int]);
        let url = items[i].get_preview_url().to_owned();
        if !images.contains(&url) {
            out.push(ClientAction::LoadImage(url));
        }
        i += 1;
    }
    assert(items@.take(i as int) =~= items@);
    out
}

impl<I: Queryable> WorkshopBrowser<I> {
    /// The workshop before it is browsed.
    pub fn new(
        query: QueryParams,
        edit_query: QueryParams,
        edit_period: QueryPeriod,
        lifetime: u64,
    ) -> (r: Self)
        ensures
            r == (WorkshopBrowser::<I> {
                max_page: 0,
                page: 0,
                query,
                edit_query,
                edit_period,
                tags_toggled: false,
                query_result: None,
                lifetime,
            }),
    {
        WorkshopBrowser {
            max_page: 0,
            page: 0,
            query,
            edit_query,
            edit_period,
            tags_toggled: false,
            query_result: None,
            lifetime,
        }
    }

    /// How to get from the page to its neighbours.
    pub fn paging(&self) -> (r: Paging)
        ensures
            r.previous == previous_page(self.page, self.max_page),
            r.next == next_page(self.page, self.max_page),
            r.label@ == page_label(self.page, self.max_page),
    {
        make_paging(self.page, self.max_page)
    }

    /// What will be searched for, with those of its tags that are known.
    pub fn get_query(&self, known: &Table<String, ()>) -> (r: WorkshopQuery)
        ensures
            r@ == (QueryModel {
                query: self.edit_query@.text,
                sort: web_sort_of(self.edit_query@.sort),
                tags: self.edit_query@.tags.intersect(known@.dom()),
            }),
    {
        let mut tags: Table<String, ()> = Table::new();
        let all = &self.edit_query.tags;
        let n = all.len();
        let ghost rows = all.rows();
        let mut i: usize = 0;
        while i < n
            invariant
                0 <= i <= n,
                n == rows.len(),
                rows == all.rows(),
                forall|k: Seq<char>|
                    #[trigger] tags@.dom().contains(k) <==> known@.dom().contains(k)
                        && exists|j: int| 0 <= j < i && (#[trigger] rows[j]).0 == k,
            decreases n - i,
        {
            let key = all.key_at(i).clone();
            let ghost text = key@;
            let ghost before = tags@;
            assert(rows[i as int].0 == text);
            if known.contains(&key) {
                tags.insert(key, ());
            }
            assert forall|k: Seq<char>| #[trigger] tags@.dom().contains(k) <==> known@.dom().contains(
                k,
            ) && exists|j: int| 0 <= j < i + 1 && (#[trigger] rows[j]).0 == k by {
                assert(tags@.dom().contains(k) <==> before.dom().contains(k) || (k == text
                    && known@.dom().contains(text)));
                if before.dom().contains(k) {
                    let j = choose|j: int| 0 <= j < i && (#[trigger] rows[j]).0 == k;
                    assert(rows[j].0 == k);
                }
            }
            i += 1;
        }
        let r = WorkshopQuery {
            query: self.edit_query.search_text.clone(),
            sort: self.edit_query.sort_method.to_web(),
            tags,
        };
        assert(r@.tags =~= self.edit_query@.tags.intersect(known@.dom()));
        r
    }

    /// Keeps pages for so many seconds, or as long as is usual for none.
    pub fn set_lifetime(&mut self, lifetime: u64, usual: u64)
        ensures
            *final(self) == (WorkshopBrowser {
                lifetime: if lifetime > 0 {
                    lifetime
                } else {
                    usual
                },
                ..*old(self)
            }),
    {
        self.lifetime = if lifetime > 0 {
            lifetime
        } else {
            usual
        };
    }

    /// What the page lists.
    pub fn get_items(&self) -> (r: &[I])
        ensures
            r@ == match self.query_result {
                Some(result) => result.items@,
                None => Seq::empty(),
            },
    {
        match &self.query_result {
            Some(result) => result.items.as_slice(),
            None => &[],
        }
    }

    /// Does what follows from a message, and gives what is to be done for it.
    /// `images` are those that are known.
    pub fn update(&mut self, images: &Table<String, ()>, message: WorkshopClientMessage<I>) -> (r:
        Vec<ClientAction>)
        ensures
            browser_step(*old(self), *final(self), message, images@.dom(), r@),
    {
        match message {
            WorkshopClientMessage::Page(page) => {
                let new: u32 = if page > 1 {
                    page
                } else {
                    1
                };
                if new == self.page {
                    return Vec::new();
                }
                self.page = new;
                refresh(I::query_type(), new, &self.query)
            },
            WorkshopClientMessage::SubmitQuery => {
                if let QuerySort::Trend(_) = self.edit_query.sort_method {
                    self.edit_query.sort_method = QuerySort::Trend(self.edit_period);
                }
                self.page = 1;
                self.query = self.edit_query.copy();
                refresh(I::query_type(), 1, &self.query)
            },
            WorkshopClientMessage::RefreshQuery => refresh(
                I::query_type(),
                self.page,
                &self.query,
            ),
            WorkshopClientMessage::EditQueryText(text) => {
                self.edit_query.search_text = text;
                Vec::new()
            },
            WorkshopClientMessage::EditSort(sort) => {
                self.edit_query.sort_method = QuerySort::from_web(sort);
                Vec::new()
            },
            WorkshopClientMessage::EditPeriod(period) => {
                self.edit_period = QueryPeriod::from_web(period);
                Vec::new()
            },
            WorkshopClientMessage::ToggleTags(toggled) => {
                self.tags_toggled = toggled;
                Vec::new()
            },
            WorkshopClientMessage::EditTag(tag) => {
                let ghost before = self.edit_query.tags@;
                if self.edit_query.tags.contains(&tag) {
                    self.edit_query.tags.insert(tag, ());
                } else {
                    self.edit_query.tags.remove(&tag);
                }
                assert(self.edit_query.tags@ =~= before);
                Vec::new()
            },
            WorkshopClientMessage::ResolveQuery(resolved) => {
                let out = load_images(&resolved.items, images);
                self.max_page = resolved.pages;
                self.query_result = Some(resolved);
                out
            },
        }
    }
}

/// Something in a collection of the workshop.
#[derive(Debug)]
pub struct CollectionItem {
    pub id: u64,
    pub title: String,
    pub preview_url: Option<String>,
    pub short_description: Option<String>,
}

/// A collection of the workshop.
#[derive(Debug)]
pub struct WorkshopCollection {
    pub id: u64,
    pub title: String,
    pub preview_url: Option<String>,
    pub description: Option<String>,
    pub items: Vec<CollectionItem>,
}

impl Record for WorkshopCollection {
    type PrimaryKey = u64;

    open spec fn key(&self) -> u64 {
        self.id
    }

    fn primary_key(&self) -> (r: u64) {
        self.id
    }
}

/// The images of the items of a collection that are not known yet.
pub open spec fn unknown_item_images(items: Seq<CollectionItem>, known: Set<Seq<char>>) -> Seq<
    Seq<char>,
>
    decreases items.len(),
{
    if items.len() == 0 {
        Seq::empty()
    } else {
        let front = unknown_item_images(items.drop_last(), known);
        match items.last().preview_url {
            Some(url) => if known.contains(url@) {
                front
            } else {
                front.push(url@)
            },
            None => front,
        }
    }
}

impl WorkshopCollection {
    pub open spec fn own_image(&self) -> Seq<Seq<char>> {
        match self.preview_url {
            Some(url) => seq![url@],
            None => Seq::empty(),
        }
    }

    /// The images that are loaded when the collection is shown: its own, and those of
    /// its items that are not known yet.
    pub fn images(&self, known: &Table<String, ()>) -> (r: Vec<String>)
        ensures
            string_views(r@) == self.own_image() + unknown_item_images(self.items@, known@.dom()),
    {
        let mut out: Vec<String> = Vec::new();
        if let Some(url) = &self.preview_url {
            out.push(url.clone());
        }
        let ghost own = self.own_image();
        assert(string_views(out@) =~= own + unknown_item_images(self.items@.take(0), known@.dom()));
        let mut i: usize = 0;
        while i < self.items.len()
            invariant
                0 <= i <= self.items@.len(),
                string_views(out@) == own + unknown_item_images(
                    self.items@.take(i as int),
                    known@.dom(),
                ),
            decreases self.items@.len() - i,
        {
            let ghost front = self.items@.take(i + 1);
            assert(front.drop_last() =~= self.items@.take(i as int));
            assert(front.last() == self.items@[i as int]);
            let ghost before = string_views(out@);
            if let Some(url) = &self.items[i].preview_url {
                if !known.contains(url) {
                    let copy = url.clone();
                    let ghost text = copy@;
                    out.push(copy);
                    assert(string_views(out@) =~= before.push(text));
                    assert(own + unknown_item_images(front, known@.dom()) =~= before.push(text));
                }
            }
            i += 1;
        }
        assert(self.items@.take(i as int) =~= self.items@);
        out
    }

    /// The numbers of the items. Those of more than 32 bits lose the higher ones.
    pub fn item_ids(&self) -> (r: Vec<u32>)
        ensures
            r@.len() == self.items@.len(),
            forall|i: int|
                0 <= i < r@.len() ==> #[trigger] r@[i] == (self.items@[i].id as u32),
    {
        let mut out: Vec<u32> = Vec::new();
        let mut i: usize = 0;
        while i < self.items.len()
            invariant
                0 <= i <= self.items@.len(),
                out@.len() == i,
                forall|j: int|
                    0 <= j < i ==> #[trigger] out@[j] == (self.items@[j].id as u32),
            decreases self.items@.len() - i,
        {
            out.push(self.items[i].id as u32);
            i += 1;
        }
        out
    }

    /// The items as mods.
    pub fn mods(&self) -> (r: Vec<ModId>)
        ensures
            r@.len() == self.items@.len(),
            forall|i: int|
                0 <= i < r@.len() ==> #[trigger] r@[i] == ModId::Workshop(
                    self.items@[i].id as u32,
                ),
    {
        let mut out: Vec<ModId> = Vec::new();
        let mut i: usize = 0;
        while i < self.items.len()
            invariant
                0 <= i <= self.items@.len(),
                out@.len() == i,
                forall|j: int|
                    0 <= j < i ==> #[trigger] out@[j] == ModId::Workshop(
                        self.items@[j].id as u32,
                    ),
            decreases self.items@.len() - i,
        {
            out.push(ModId::Workshop(self.items[i].id as u32));
            i += 1;
        }
        out
    }

    /// The collection of which a profile is made.
    pub fn to_collection(&self) -> (r: Collection)
        ensures
            r.source == CollectionSource::Workshop(self.id as u32),
            r.title == self.title,
            r.items@.len() == self.items@.len(),
            forall|i: int|
                0 <= i < r.items@.len() ==> #[trigger] r.items@[i] == (self.items@[i].id as u32),
            r.image@ == ImageModel::Web(
                match self.preview_url {
                    Some(url) => url@,
                    None => Seq::empty(),
                },
            ),
            r.banner is None,
            r.description@ == Seq::<char>::empty(),
    {
        let url = match &self.preview_url {
            Some(url) => url.clone(),
            None => String::new(),
        };
        assert(self.preview_url is None ==> url@ =~= Seq::empty());
        let r = Collection {
            source: CollectionSource::Workshop(self.id as u32),
            title: self.title.clone(),
            items: self.item_ids(),
            image: ImageSource::Web(url),
            banner: None,
            description: String::new(),
        };
        assert(r.description@ =~= Seq::empty());
        r
    }
}

/// What is browsed changes only when a search is submitted.
pub proof fn searches_change_only_when_submitted<I: Queryable>(
    a: WorkshopBrowser<I>,
    b: WorkshopBrowser<I>,
    message: WorkshopClientMessage<I>,
    images: Set<Seq<char>>,
    r: Seq<ClientAction>,
)
    requires
        browser_step(a, b, message, images, r),
        !(message is SubmitQuery),
    ensures
        b.query == a.query,
{
}

/// The images that are loaded are those that a page shows and that are not known yet.
pub proof fn new_images_are_loaded<I: Queryable>(
    items: Seq<I>,
    images: Set<Seq<char>>,
    r: Seq<ClientAction>,
    url: Seq<char>,
)
    requires
        loads_images(r, unknown_images(items, images)),
    ensures
        (exists|i: int|
            0 <= i < r.len() && (#[trigger] r[i] matches ClientAction::LoadImage(u) && u@ == url))
            <==> !images.contains(url) && exists|k: int|
            0 <= k < items.len() && (#[trigger] items[k]).preview() == url,
{
    let urls = unknown_images(items, images);
    lemma_unknown_images(items, images, url);
    if urls.contains(url) {
        let i = choose|i: int| 0 <= i < urls.len() && urls[i] == url;
        assert(r[i] matches ClientAction::LoadImage(u) && u@ == url);
    }
    if exists|i: int|
        0 <= i < r.len() && (#[trigger] r[i] matches ClientAction::LoadImage(u) && u@ == url) {
        let i = choose|i: int|
            0 <= i < r.len() && (#[trigger] r[i] matches ClientAction::LoadImage(u) && u@ == url);
        assert(urls[i] == url);
    }
}

proof fn lemma_unknown_images<I: Queryable>(items: Seq<I>, images: Set<Seq<char>>, url: Seq<char>)
    ensures
        unknown_images(items, images).contains(url) <==> !images.contains(url) && exists|k: int|
            0 <= k < items.len() && (#[trigger] items[k]).preview() == url,
    decreases items.len(),
{
    if items.len() > 0 {
        let fewer = items.drop_last();
        lemma_unknown_images(fewer, images, url);
        let front = unknown_images(fewer, images);
        let all = unknown_images(items, images);
        let last = items.last().preview();
        assert(items[items.len() - 1] == items.last());
        if front.contains(url) {
            let i = choose|i: int| 0 <= i < front.len() && front[i] == url;
            assert(all[i] == url);
            let k = choose|k: int| 0 <= k < fewer.len() && (#[trigger] fewer[k]).preview() == url;
            assert(items[k].preview() == url);
        }
        if last == url && !images.contains(url) {
            assert(all[front.len() as int] == url);
        }
        if all.contains(url) {
            let i = choose|i: int| 0 <= i < all.len() && all[i] == url;
            if i < front.len() {
                assert(front[i] == url);
            }
        }
        if exists|k: int| 0 <= k < items.len() && (#[trigger] items[k]).preview() == url {
            let k = choose|k: int| 0 <= k < items.len() && (#[trigger] items[k]).preview() == url;
            if k < fewer.len() {
                assert(fewer[k].preview() == url);
            }
        }
    } else {
        assert(!unknown_images(items, images).contains(url));
    }
}

/// Submitting a search shows the first page of what was entered, in the order that was chosen,
/// over the chosen time.
pub proof fn submitted_searches_are_shown<I: Queryable>(
    a: WorkshopBrowser<I>,
    b: WorkshopBrowser<I>,
    images: Set<Seq<char>>,
    r: Seq<ClientAction>,
)
    requires
        browser_step(a, b, WorkshopClientMessage::SubmitQuery, images, r),
    ensures
        b.query@.text == a.edit_query@.text,
        b.query@.tags == a.edit_query@.tags,
        match a.edit_query@.sort {
            QuerySort::Trend(_) => b.query@.sort == QuerySort::Trend(a.edit_period),
            other => b.query@.sort == other,
        },
        exists|i: int|
            0 <= i < r.len() && (#[trigger] r[i] matches ClientAction::Query(k, p, q) && k
                == I::listed_as() && p == 1 && q@ == b.query@),
        b.page == 1,
{
    assert(r[1] is Query);
}

} // verus!
