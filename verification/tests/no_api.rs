use std::collections::BTreeMap;

use lxcomm::db::store::{DiskStep, Lookup, DB};
use lxcomm::db::{bulk_order, read_keys, AccessCache, PrimaryKey, Record};
use lxcomm::no_api::browser::{
    star_string, ClientAction, CollectionItem, QueryItem, QueryParams, QueryPeriod, QueryResult,
    QuerySort, QueryType, Queryable, WorkshopBrowser, WorkshopClientMessage, WorkshopCollection,
};
use lxcomm::no_api::webcache::{
    cache_page, get_entry, get_entry_after, next_page_step, refresh_timestamp, time_before,
    ExpirationFactory, ExpirationFilter, PageEvent, PageStep, Verdict, FIRST_SECOND, LAST_SECOND,
};
use lxcomm::table::Table;
use lxcomm::web::{WorkshopSort, WorkshopTrendPeriod};

#[test]
fn keys_are_stored_lowest_byte_first() {
    assert_eq!(0x0102_0304u32.to_bytes(), vec![4, 3, 2, 1]);
    assert_eq!(1u64.to_bytes(), vec![1, 0, 0, 0, 0, 0, 0, 0]);
    assert_eq!(u64::from_bytes(&[1, 0, 0, 0, 0, 0, 0, 2]), Some(0x0200_0000_0000_0001));
    assert_eq!(u64::from_bytes(&[1, 2, 3]), None);
    assert_eq!(u32::from_bytes(&[0, 1, 0, 0]), Some(256));
    for key in [0u64, 1, 255, 256, u64::MAX] {
        assert_eq!(u64::from_bytes(&key.to_bytes()), Some(key));
    }
}

#[test]
fn records_in_use_are_given_out() {
    let mut cache: AccessCache<u32, &str> = AccessCache::new();
    cache.insert(6, "six");
    cache.insert(42, "answer");
    assert_eq!(cache.get(&42, 2), Some(&"answer"));
    assert_eq!(cache.get(&42, 1), None);
    assert_eq!(cache.get(&7, 2), None);
    assert_eq!(cache.len(), 2);
    assert_eq!(*cache.value_at(0), "six");
    cache.clear_stale(&vec![1, 3]);
    assert_eq!(cache.find(&6), None);
    assert_eq!(cache.get(&42, 3), Some(&"answer"));
    cache.insert(7, "seven");
    cache.invalidate(&7);
    assert_eq!(cache.get(&42, 3), Some(&"answer"));
    assert_eq!(cache.find(&42), Some(&"answer"));
    cache.invalidate(&42);
    assert_eq!(cache.find(&42), None);
}

#[test]
fn many_records_are_stored_in_the_order_of_their_keys() {
    let keys: Vec<Vec<u8>> =
        [256u64, 1, 2, 1].iter().map(|key| key.to_bytes()).collect();
    assert_eq!(bulk_order(&keys), vec![0, 1, 3, 2]);
    let raw = vec![5u64.to_bytes(), vec![1, 2], 6u64.to_bytes()];
    let read: Vec<u64> = read_keys(&raw);
    assert_eq!(read, vec![5, 6]);
}

#[derive(Debug, Clone, PartialEq)]
struct TestItem {
    id: u32,
    title: String,
    description: Option<String>,
}

impl TestItem {
    fn new(id: u32, title: &str, description: Option<&str>) -> TestItem {
        TestItem { id, title: title.into(), description: description.map(str::to_string) }
    }

    fn bytes(&self) -> Vec<u8> {
        self.title.as_bytes().to_vec()
    }
}

fn carry_out(disk: &mut BTreeMap<Vec<u8>, Vec<u8>>, step: DiskStep) {
    match step {
        DiskStep::Write(key, bytes) => {
            disk.insert(key, bytes);
        }
        DiskStep::Remove(key) => {
            disk.remove(&key);
        }
    }
}

#[test]
fn basic_test() {
    let mut disk: BTreeMap<Vec<u8>, Vec<u8>> = BTreeMap::new();
    let mut items: DB<u32, TestItem> = DB::create();
    let test = TestItem::new(0, "Test", None);
    carry_out(&mut disk, items.store(0, test.bytes(), &Vec::new()));
    match items.get(&0, 0) {
        Lookup::Read(key) => assert_eq!(disk.get(&key), Some(&b"Test".to_vec())),
        Lookup::Cached(_) => panic!("the item is not in use yet"),
    }
    items.found(0, Some(test.clone()));
    assert!(matches!(items.get(&0, 2), Lookup::Cached(item) if *item == test));
    assert!(matches!(items.get(&0, 1), Lookup::Read(_)));

    let described = TestItem::new(0, "Test", Some("Test description"));
    items.fetch_update(0, Some(described.clone()));
    assert!(matches!(items.get(&0, 2), Lookup::Cached(item) if *item == described));

    let answer = TestItem::new(42, "Haha 42", Some("The universal answer"));
    let afraid = TestItem::new(6, "Why was it afraid of 7", Some("haha 67"));
    let many = vec![(42, answer.bytes()), (6, afraid.bytes())];
    let turned = vec![(6, afraid.bytes()), (42, answer.bytes())];
    let mut other = disk.clone();
    for step in items.bulk_store(&many) {
        carry_out(&mut disk, step);
    }
    for step in items.bulk_store(&turned) {
        carry_out(&mut other, step);
    }
    assert_eq!(disk, other);
    assert_eq!(disk.get(&42u32.to_bytes()), Some(&answer.bytes()));

    let step = items.remove(&6, true);
    carry_out(&mut disk, step.unwrap());
    assert!(items.remove(&7, false).is_none());
    let raw: Vec<Vec<u8>> = disk.keys().cloned().collect();
    assert_eq!(2, items.keys(&raw).len());

    items.found(42, Some(answer.clone()));
    carry_out(&mut disk, items.store(0, described.bytes(), &vec![2, 1]));
    assert!(matches!(items.get(&0, 2), Lookup::Read(_)));
    assert!(matches!(items.get(&42, 2), Lookup::Read(_)));
}

#[test]
fn pages_are_stored_and_read_back() {
    let bytes = cache_page(1700000000, "<html>まじで</html>");
    assert_eq!(bytes[8], 0);
    let entry = get_entry(&bytes).unwrap();
    assert_eq!(entry.timestamp, 1700000000);
    assert_eq!(entry.page, "<html>まじで</html>");
    assert!(get_entry_after(get_entry(&bytes), 1700000000).is_none());
    assert!(get_entry_after(get_entry(&bytes), 1699999999).is_some());
    let again = refresh_timestamp(&get_entry(&bytes), 5).unwrap();
    assert_eq!(get_entry(&again).unwrap().timestamp, 5);
    assert!(refresh_timestamp(&None, 5).is_none());
    let mut broken = cache_page(0, "");
    broken.push(0xff);
    assert!(get_entry(&broken).is_none());
}

#[test]
fn dates_have_bounds() {
    for (seconds, dated) in [
        (FIRST_SECOND, true),
        (FIRST_SECOND - 1, false),
        (LAST_SECOND, true),
        (LAST_SECOND + 1, false),
        (i64::MAX, false),
    ] {
        assert_eq!(get_entry(&cache_page(seconds, "x")).is_some(), dated, "{seconds}");
        assert_eq!(chrono::DateTime::from_timestamp_secs(seconds).is_some(), dated);
    }
}

#[test]
fn old_pages_expire() {
    let factory = ExpirationFactory(100);
    assert_eq!(factory.name(), "expiration");
    let filter = factory.make_filter(1000);
    assert_eq!(filter, ExpirationFilter(900));
    assert_eq!(filter.filter_item(&cache_page(901, "x")), Verdict::Keep);
    assert_eq!(filter.filter_item(&cache_page(900, "x")), Verdict::Remove);
    assert_eq!(filter.filter_item(&cache_page(i64::MAX, "x")), Verdict::Remove);
    assert_eq!(time_before(10, 20), -10);
}

#[test]
fn pages_are_asked_for_step_by_step() {
    let next = |step, event| next_page_step(step, event).unwrap();
    assert_eq!(next(PageStep::FindFresh, PageEvent::Found), PageStep::GiveFound);
    assert_eq!(next(PageStep::FindFresh, PageEvent::NotFound), PageStep::Wait);
    assert_eq!(next(PageStep::Wait, PageEvent::Done), PageStep::FindAny);
    assert_eq!(next(PageStep::FindAny, PageEvent::NotFound), PageStep::Fetch);
    assert_eq!(next(PageStep::Fetch, PageEvent::Done), PageStep::Store);
    assert_eq!(next_page_step(PageStep::Store, PageEvent::Done), None);
}

#[test]
fn stars_are_shown() {
    assert_eq!(star_string(0), "☆☆☆☆☆");
    assert_eq!(star_string(3), "★★★☆☆");
    assert_eq!(star_string(200), "★★★★★");
}

fn params() -> QueryParams {
    QueryParams {
        search_text: String::new(),
        sort_method: QuerySort::Trend(QueryPeriod::Week),
        tags: Table::new(),
    }
}

fn item(url: &str) -> QueryItem {
    QueryItem {
        id: 1,
        title: "t".into(),
        author_name: "a".into(),
        preview_url: url.into(),
        stars: 5,
        short_description: None,
    }
}

#[test]
fn the_workshop_is_browsed_without_its_interface() {
    let images: Table<String, ()> = Table::new();
    let mut browser: WorkshopBrowser<QueryItem> =
        WorkshopBrowser::new(params(), params(), QueryPeriod::Week, 60);
    assert_eq!(QueryItem::query_type(), QueryType::Item);
    browser.update(&images, WorkshopClientMessage::EditPeriod(WorkshopTrendPeriod::Today));
    browser.update(&images, WorkshopClientMessage::EditQueryText("holo".into()));
    assert_eq!(browser.query.search_text, "");
    let actions = browser.update(&images, WorkshopClientMessage::SubmitQuery);
    assert_eq!(browser.query.search_text, "holo");
    assert_eq!(browser.query.sort_method, QuerySort::Trend(QueryPeriod::Today));
    assert!(matches!(
        &actions[..],
        [
            ClientAction::SetBusy(true),
            ClientAction::Query(QueryType::Item, 1, query),
            ClientAction::ResetScroll,
            ClientAction::SetBusy(false),
        ] if query.search_text == "holo"
            && query.sort_method == QuerySort::Trend(QueryPeriod::Today)
    ));
    assert!(browser.update(&images, WorkshopClientMessage::Page(0)).is_empty());
    assert_eq!(browser.update(&images, WorkshopClientMessage::Page(3)).len(), 4);
    assert_eq!(browser.page, 3);
    browser.update(&images, WorkshopClientMessage::EditSort(WorkshopSort::MostRecent));
    assert_eq!(browser.edit_query.sort_method, QuerySort::MostRecent);
    browser.update(&images, WorkshopClientMessage::ToggleTags(true));
    assert!(browser.tags_toggled);
}

#[test]
fn unknown_images_are_loaded() {
    let mut images: Table<String, ()> = Table::new();
    images.insert("known".into(), ());
    let mut browser: WorkshopBrowser<QueryItem> =
        WorkshopBrowser::new(params(), params(), QueryPeriod::Week, 60);
    let found = QueryResult { pages: 4, items: vec![item("known"), item("new")] };
    let actions = browser.update(&images, WorkshopClientMessage::ResolveQuery(found));
    assert!(matches!(&actions[..], [ClientAction::LoadImage(url)] if url == "new"));
    assert_eq!(browser.max_page, 4);
    assert_eq!(browser.get_items().len(), 2);
    let paging = browser.paging();
    assert_eq!(paging.previous, None);
    assert_eq!(paging.next, Some(1));
    assert_eq!(paging.label, "Page 0 of 4");
}

#[test]
fn lifetimes_have_a_default() {
    let mut browser: WorkshopBrowser<QueryItem> =
        WorkshopBrowser::new(params(), params(), QueryPeriod::Week, 60);
    browser.set_lifetime(0, 86400);
    assert_eq!(browser.lifetime, 86400);
    browser.set_lifetime(7, 86400);
    assert_eq!(browser.lifetime, 7);
}

#[test]
fn only_known_tags_are_shown() {
    let mut searched = params();
    searched.tags.insert("Gameplay".into(), ());
    searched.tags.insert("Odd".into(), ());
    let browser: WorkshopBrowser<QueryItem> =
        WorkshopBrowser::new(params(), searched, QueryPeriod::Week, 60);
    let mut known: Table<String, ()> = Table::new();
    known.insert("Gameplay".into(), ());
    let query = browser.get_query(&known);
    assert_eq!(query.tags.len(), 1);
    assert!(query.tags.contains(&"Gameplay".to_string()));
    assert_eq!(query.sort, WorkshopSort::Trend(WorkshopTrendPeriod::Week));
}

#[test]
fn orders_convert_both_ways() {
    for sort in [
        WorkshopSort::Trend(WorkshopTrendPeriod::ThreeMonths),
        WorkshopSort::LastUpdated,
        WorkshopSort::MostRecent,
        WorkshopSort::TextSearch,
        WorkshopSort::TotalUniqueSubscribers,
    ] {
        assert_eq!(QuerySort::from_web(sort).to_web(), sort);
    }
}

#[test]
fn collections_become_profiles() {
    let collection = WorkshopCollection {
        id: 0x1_0000_0007,
        title: "All".into(),
        preview_url: Some("own".into()),
        description: None,
        items: vec![
            CollectionItem {
                id: 5,
                title: "five".into(),
                preview_url: Some("five.png".into()),
                short_description: None,
            },
            CollectionItem {
                id: 6,
                title: "six".into(),
                preview_url: Some("six.png".into()),
                short_description: None,
            },
        ],
    };
    let mut known: Table<String, ()> = Table::new();
    known.insert("six.png".into(), ());
    assert_eq!(collection.primary_key(), 0x1_0000_0007);
    assert_eq!(collection.images(&known), vec!["own", "five.png"]);
    assert_eq!(collection.item_ids(), vec![5, 6]);
    assert_eq!(collection.mods().len(), 2);
    let made = collection.to_collection();
    assert_eq!(made.title, "All");
    assert_eq!(made.items, vec![5, 6]);
    assert_eq!(made.source.text(), "7");
}
