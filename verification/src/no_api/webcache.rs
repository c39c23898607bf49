//! Pages of the workshop that are kept for a while.
use vstd::bytes::{u64_from_le_bytes, u64_to_le_bytes};
use vstd::prelude::*;

use crate::text::{bytes_of, push_bytes, string_from_utf8, sub_bytes};
#[allow(unused_imports)]
use vstd::bytes::{
    lemma_auto_spec_u64_to_from_le_bytes, spec_u64_from_le_bytes, spec_u64_to_le_bytes,
};
#[allow(unused_imports)]
use vstd::utf8::{decode_utf8, encode_utf8, valid_utf8};

verus! {

/// The seconds since 1970 at which the first day begins that has a date, and those
/// at which the last one ends.
pub const FIRST_SECOND: i64 = -8_334_601_228_800;

pub const LAST_SECOND: i64 = 8_210_266_876_799;

/// Whether seconds since 1970 have a date.
pub open spec fn has_date(secs: i64) -> bool {
    FIRST_SECOND <= secs <= LAST_SECOND
}

/// [`chrono::DateTime::from_timestamp_secs`] gives a date for the seconds from the
/// beginning of the year -262143 to the end of the year 262142, and none for others.
#[verifier::external_body]
fn is_timestamp(secs: i64) -> (r: bool)
    ensures
        r == has_date(secs),
{
    chrono::DateTime::from_timestamp_secs(secs).is_some()
}

/// The bytes of a time, the lowest first.
pub open spec fn time_bytes(secs: i64) -> Seq<u8> {
    spec_u64_to_le_bytes(secs as u64)
}

/// The time that eight bytes stand for.
pub open spec fn time_of(bytes: Seq<u8>) -> i64 {
    spec_u64_from_le_bytes(bytes) as i64
}

proof fn lemma_time_reads_back(secs: i64)
    ensures
        time_bytes(secs).len() == 8,
        time_of(time_bytes(secs)) == secs,
{
    lemma_auto_spec_u64_to_from_le_bytes();
    assert((secs as u64) as i64 == secs) by (bit_vector);
}

/// A page, and when it was loaded.
#[derive(Debug)]
pub struct CacheEntry {
    pub timestamp: i64,
    pub page: String,
}

#[verifier::ext_equal]
pub struct EntryModel {
    pub timestamp: i64,
    pub page: Seq<char>,
}

impl View for CacheEntry {
    type V = EntryModel;

    open spec fn view(&self) -> EntryModel {
        EntryModel { timestamp: self.timestamp, page: self.page@ }
    }
}

/// How a page is stored: when it was loaded, a zero, and the page.
pub open spec fn entry_bytes(entry: EntryModel) -> Seq<u8> {
    time_bytes(entry.timestamp).push(0) + encode_utf8(entry.page)
}

/// The page that is stored as these bytes.
pub open spec fn entry_of(bytes: Seq<u8>) -> Option<EntryModel> {
    let time = time_of(bytes.take(8));
    if !has_date(time) || !valid_utf8(bytes.skip(9)) {
        None
    } else {
        Some(EntryModel { timestamp: time, page: decode_utf8(bytes.skip(9)) })
    }
}

/// How a page that is loaded now is stored.
pub fn cache_page(now: i64, body: &str) -> (r: Vec<u8>)
    ensures
        r@ == entry_bytes(EntryModel { timestamp: now, page: body@ }),
{
    let mut out = u64_to_le_bytes(now as u64);
    out.push(0);
    let page = bytes_of(body);
    push_bytes(&mut out, page.as_slice());
    out
}

fn front_time(bytes: &[u8]) -> (r: i64)
    requires
        bytes@.len() >= 8,
    ensures
        r == time_of(bytes@.take(8)),
{
    let front = sub_bytes(bytes, 0, 8);
    assert(front@ =~= bytes@.take(8));
    u64_from_le_bytes(front.as_slice()) as i64
}

/// The page that is stored as these bytes, where they are a page. What is too short
/// for a time and a zero is only looked at where its time has no date.
pub fn get_entry(bytes: &[u8]) -> (r: Option<CacheEntry>)
    requires
        bytes@.len() >= 9 || (bytes@.len() == 8 && !has_date(time_of(bytes@.take(8)))),
    ensures
        match r {
            Some(entry) => bytes@.len() >= 9 && entry_of(bytes@) == Some(entry@),
            None => bytes@.len() >= 9 ==> entry_of(bytes@) is None,
        },
{
    let timestamp: i64 = front_time(bytes);
    if !is_timestamp(timestamp) {
        return None;
    }
    let rest = sub_bytes(bytes, 9, bytes.len());
    assert(rest@ =~= bytes@.skip(9));
    match string_from_utf8(rest.as_slice()) {
        Some(page) => Some(CacheEntry { timestamp, page }),
        None => None,
    }
}

/// The page, if it was loaded after a time.
pub fn get_entry_after(entry: Option<CacheEntry>, limit: i64) -> (r: Option<CacheEntry>)
    ensures
        r == match entry {
            Some(found) => if found.timestamp > limit {
                Some(found)
            } else {
                None
            },
            None => None,
        },
{
    match entry {
        Some(found) => if found.timestamp > limit {
            Some(found)
        } else {
            None
        },
        None => None,
    }
}

/// How a page is stored again as if it was loaded now.
pub fn refresh_timestamp(entry: &Option<CacheEntry>, now: i64) -> (r: Option<Vec<u8>>)
    ensures
        match (entry, r) {
            (Some(found), Some(bytes)) => bytes@ == entry_bytes(
                EntryModel { timestamp: now, page: found.page@ },
            ),
            (None, None) => true,
            _ => false,
        },
{
    match entry {
        Some(found) => Some(cache_page(now, found.page.as_str())),
        None => None,
    }
}

/// A page that was stored is read back with the time at which it was loaded.
pub proof fn stored_pages_read_back(entry: EntryModel)
    requires
        has_date(entry.timestamp),
    ensures
        entry_bytes(entry).len() >= 9,
        entry_of(entry_bytes(entry)) == Some(entry),
{
    lemma_time_reads_back(entry.timestamp);
    let bytes = entry_bytes(entry);
    assert(bytes.take(8) =~= time_bytes(entry.timestamp));
    assert(bytes.skip(9) =~= encode_utf8(entry.page));
    vstd::utf8::encode_utf8_valid_utf8(entry.page);
    vstd::utf8::encode_utf8_decode_utf8(entry.page);
}

/// What becomes of a stored page.
#[derive(Debug, Clone, Copy, PartialEq, Eq, Structural)]
pub enum Verdict {
    Keep,
    Remove,
}

/// Keeps the pages that were loaded after a time.
#[derive(Debug, Clone, Copy, PartialEq, Eq, Structural)]
pub struct ExpirationFilter(pub i64);

impl ExpirationFilter {
    /// What becomes of a stored page. What is no page goes away.
    pub fn filter_item(&self, bytes: &[u8]) -> (r: Verdict)
        requires
            bytes@.len() >= 8,
        ensures
            r == if has_date(time_of(bytes@.take(8))) && time_of(bytes@.take(8)) > self.0 {
                Verdict::Keep
            } else {
                Verdict::Remove
            },
    {
        let timestamp: i64 = front_time(bytes);
        if is_timestamp(timestamp) && timestamp > self.0 {
            Verdict::Keep
        } else {
            Verdict::Remove
        }
    }
}

/// Makes filters that keep pages for so many seconds.
#[derive(Debug, Clone, Copy, PartialEq, Eq, Structural)]
pub struct ExpirationFactory(pub u64);

/// The time so many seconds before another one, as long as it has a date.
pub open spec fn has_limit(now: i64, lifetime: u64) -> bool {
    has_date(now) && now - lifetime >= FIRST_SECOND
}

/// The time so many seconds before another one.
pub fn time_before(now: i64, lifetime: u64) -> (r: i64)
    requires
        has_limit(now, lifetime),
    ensures
        r == now - lifetime,
{
    now - lifetime as i64
}

impl ExpirationFactory {
    pub fn make_filter(&self, now: i64) -> (r: ExpirationFilter)
        requires
            has_limit(now, self.0),
        ensures
            r.0 == now - self.0,
    {
        ExpirationFilter(time_before(now, self.0))
    }

    pub fn name(&self) -> (r: &'static str)
        ensures
            r@ == "expiration"@,
    {
        "expiration"
    }
}

/// A page that a filter removes is not given out as one that is new enough either,
/// and one that it keeps is.
pub proof fn filters_agree_with_reads(entry: EntryModel, limit: i64)
    requires
        has_date(entry.timestamp),
    ensures
        (has_date(time_of(entry_bytes(entry).take(8))) && time_of(entry_bytes(entry).take(8))
            > limit) <==> entry_of(entry_bytes(entry))->Some_0.timestamp > limit,
{
    stored_pages_read_back(entry);
    lemma_time_reads_back(entry.timestamp);
    assert(entry_bytes(entry).take(8) =~= time_bytes(entry.timestamp));
}

/// What is done to get a page.
#[derive(Debug, Clone, Copy, PartialEq, Eq, Structural)]
pub enum PageStep {
    /// Looks for a page that is new enough.
    FindFresh,
    /// Waits until another page may be asked for.
    Wait,
    /// Looks for a page, however old.
    FindAny,
    Fetch,
    /// Stores the page that was fetched, and gives it out.
    Store,
    /// Gives out the page that was found.
    GiveFound,
}

/// What comes of a step.
#[derive(Debug, Clone, Copy, PartialEq, Eq, Structural)]
pub enum PageEvent {
    Found,
    NotFound,
    Done,
}

/// What is done next to get a page, or nothing where that is not how a step ends.
pub open spec fn page_after(step: PageStep, event: PageEvent) -> Option<PageStep> {
    match (step, event) {
        (PageStep::FindFresh, PageEvent::Found) => Some(PageStep::GiveFound),
        (PageStep::FindFresh, PageEvent::NotFound) => Some(PageStep::Wait),
        (PageStep::Wait, PageEvent::Done) => Some(PageStep::FindAny),
        (PageStep::FindAny, PageEvent::Found) => Some(PageStep::GiveFound),
        (PageStep::FindAny, PageEvent::NotFound) => Some(PageStep::Fetch),
        (PageStep::Fetch, PageEvent::Done) => Some(PageStep::Store),
        _ => None,
    }
}

/// What is done next to get a page.
pub fn next_page_step(step: PageStep, event: PageEvent) -> (r: Option<PageStep>)
    ensures
        r == page_after(step, event),
{
    match (step, event) {
        (PageStep::FindFresh, PageEvent::Found) => Some(PageStep::GiveFound),
        (PageStep::FindFresh, PageEvent::NotFound) => Some(PageStep::Wait),
        (PageStep::Wait, PageEvent::Done) => Some(PageStep::FindAny),
        (PageStep::FindAny, PageEvent::Found) => Some(PageStep::GiveFound),
        (PageStep::FindAny, PageEvent::NotFound) => Some(PageStep::Fetch),
        (PageStep::Fetch, PageEvent::Done) => Some(PageStep::Store),
        _ => None,
    }
}

/// No page is fetched before the wait for it is over, and none while a page is kept.
pub proof fn pages_are_fetched_only_after_a_wait(before: PageStep, event: PageEvent)
    ensures
        page_after(before, event) == Some(PageStep::Fetch) <==> before == PageStep::FindAny && event
            == PageEvent::NotFound,
        page_after(before, event) == Some(PageStep::FindAny) <==> before == PageStep::Wait && event
            == PageEvent::Done,
{
}

} // verus!
