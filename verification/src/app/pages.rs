//! What the pages show.
use vstd::prelude::*;

use super::downloads::Downloads;
use super::on_browse::holds_number;
use super::state::{App, Message};
use crate::collections::ImageSource;
use crate::extensions::Truncatable;
use crate::files::{ChildFile, ModDetails, SizeDisplay, XCOM_APPID};
use crate::library::missing::{parse_child, put_in_brackets, ModIndex};
use crate::library::profile::Profile;
use crate::library::{CompatibilityIssue, LibraryItem};
use crate::numbers::{decimal, parse_unsigned_text};
use crate::metadata::Tag;
use crate::paths::join;
use crate::table::Table;
use crate::text::{chars_of, join_chars, join_two, string_of};
use crate::xcom_mod::ModId;
#[allow(unused_imports)]
use super::downloads::in_rows;
#[allow(unused_imports)]
use crate::collections::ImageModel;
#[allow(unused_imports)]
use crate::extensions::string_views;
#[allow(unused_imports)]
use crate::library::missing::{child_number, with_brackets};
#[allow(unused_imports)]
use crate::library::profile::{issue_models, IssueModel};
#[allow(unused_imports)]
use crate::library::{picked, shown, ItemModel};
#[allow(unused_imports)]
use crate::numbers::{decimal_text, unsigned_value};
#[allow(unused_imports)]
use crate::paths::joined;
#[allow(unused_imports)]
use crate::text::{join_texts, texts};
#[allow(unused_imports)]
use crate::xcom_mod::ModIdModel;
#[allow(unused_imports)]
use vstd::utf8::encode_utf8;

verus! {

/// How much of a download is there.
#[derive(Debug, Clone, Copy, PartialEq, Eq, Structural)]
pub enum DownloadSize {
    /// So much of so much.
    Of(SizeDisplay, SizeDisplay),
    /// So much of nobody knows how much.
    Plain(SizeDisplay),
}

/// A download that goes on or waits, as it is shown.
#[derive(Debug)]
pub struct DownloadRow {
    pub id: u32,
    pub label: String,
    pub size: DownloadSize,
    /// Whether it can be cancelled.
    pub cancel: bool,
}

#[verifier::ext_equal]
pub struct DownloadRowModel {
    pub id: u32,
    pub label: Seq<char>,
    pub size: DownloadSize,
    pub cancel: bool,
}

impl View for DownloadRow {
    type V = DownloadRowModel;

    open spec fn view(&self) -> DownloadRowModel {
        DownloadRowModel {
            id: self.id,
            label: self.label@,
            size: self.size,
            cancel: self.cancel,
        }
    }
}

/// How an item is called in the lists of downloads.
pub open spec fn item_label(index: ModIndex, id: u32) -> Seq<char> {
    let key = ModIdModel::Workshop(id);
    with_brackets(
        if index.details@.dom().contains(key) {
            index.details@[key].title_text()
        } else {
            "Unknown"@
        },
        decimal_text(id as nat),
    )
}

/// The size that the workshop says an item has, or zero where it says none.
pub open spec fn listed_size(text: Seq<char>) -> u64 {
    match unsigned_value(encode_utf8(text), u64::MAX as nat) {
        Some(n) => n as u64,
        None => 0,
    }
}

pub open spec fn download_row(
    index: ModIndex,
    queue: Seq<(u32, u64)>,
    id: u32,
    size: u64,
) -> DownloadRowModel {
    let key = ModIdModel::Workshop(id);
    let cancel = in_rows(queue, id);
    if index.details@.dom().contains(key) && index.details@[key] is Workshop {
        let details = index.details@[key]->Workshop_0;
        let total = listed_size(details.file_size@);
        DownloadRowModel {
            id,
            label: with_brackets(details.title@, decimal_text(id as nat)),
            size: DownloadSize::Of(
                SizeDisplay::in_unit_of(size, total),
                SizeDisplay::in_unit_of(total, total),
            ),
            cancel,
        }
    } else {
        DownloadRowModel {
            id,
            label: with_brackets("Unknown"@, decimal_text(id as nat)),
            size: DownloadSize::Plain(SizeDisplay::in_unit_of(size, size)),
            cancel,
        }
    }
}

/// How it is shown when an item was last updated.
pub const UPDATE_TIME_FORMAT: &'static str = "%Y %B %e - %I:%M%p";

/// A time in seconds, written out in a format.
pub uninterp spec fn formatted_time(time: u64, format: Seq<char>) -> Seq<char>;

/// [`chrono::DateTime::from_timestamp`] turns seconds into a date, or the first
/// second of 1970 stands for it where there is no such date, and `format` writes
/// it out. It panics on what is no format, so that only one is handed in. The text is
/// left unsaid.
#[verifier::external_body]
fn format_time(time: u64, format: &str) -> (r: String)
    requires
        format@ == UPDATE_TIME_FORMAT@,
    ensures
        r@ == formatted_time(time, format@),
{
    chrono::DateTime::from_timestamp(time as i64, 0)
        .unwrap_or_default()
        .naive_local()
        .format(format)
        .to_string()
}

/// The downloads as they are shown.
#[derive(Debug)]
pub struct DownloadsPage {
    pub ongoing: Option<DownloadRow>,
    pub queued: Vec<DownloadRow>,
    /// Whether the user is told that the queue waits for a login.
    pub login_note: bool,
    pub completed: Vec<(u32, String)>,
    /// Outdated items, with when they were last updated.
    pub pending: Vec<(u32, String, String)>,
    pub errored: Vec<(u32, String)>,
    /// Whether the user is told that there are none.
    pub empty_note: bool,
}

pub open spec fn row_views(rows: Seq<DownloadRow>) -> Seq<DownloadRowModel> {
    Seq::new(rows.len(), |i: int| rows[i]@)
}

pub open spec fn queued_rows(index: ModIndex, queue: Seq<(u32, u64)>) -> Seq<DownloadRowModel> {
    Seq::new(queue.len(), |i: int| download_row(index, queue, queue[i].0, queue[i].1))
}

pub open spec fn pairs(list: Seq<(u32, String)>) -> Seq<(u32, Seq<char>)> {
    Seq::new(list.len(), |i: int| (list[i].0, list[i].1@))
}

pub open spec fn triples(list: Seq<(u32, String, String)>) -> Seq<(u32, Seq<char>, Seq<char>)> {
    Seq::new(list.len(), |i: int| (list[i].0, list[i].1@, list[i].2@))
}

pub open spec fn completed_rows(index: ModIndex, rows: Seq<(u32, ())>) -> Seq<(u32, Seq<char>)> {
    Seq::new(rows.len(), |i: int| (rows[i].0, item_label(index, rows[i].0)))
}

pub open spec fn pending_rows(index: ModIndex, rows: Seq<(u32, u64)>) -> Seq<
    (u32, Seq<char>, Seq<char>),
> {
    Seq::new(
        rows.len(),
        |i: int|
            (
                rows[i].0,
                item_label(index, rows[i].0),
                "Last Updated - "@ + formatted_time(rows[i].1, UPDATE_TIME_FORMAT@),
            ),
    )
}

pub open spec fn errored_rows(index: ModIndex, rows: Seq<(u32, String)>) -> Seq<(u32, Seq<char>)> {
    Seq::new(
        rows.len(),
        |i: int| (rows[i].0, item_label(index, rows[i].0) + "\n"@ + rows[i].1@),
    )
}

fn make_label(index: &ModIndex, id: u32) -> (r: String)
    ensures
        r@ == item_label(*index, id),
{
    let number = decimal(id as u64);
    match index.details.get(&ModId::Workshop(id)) {
        Some(details) => put_in_brackets(details.title(), number.as_str()),
        None => put_in_brackets("Unknown", number.as_str()),
    }
}

fn make_download_row(index: &ModIndex, downloads: &Downloads, id: u32, size: u64) -> (r:
    DownloadRow)
    ensures
        r@ == download_row(*index, downloads@.queue, id, size),
{
    let cancel = downloads.is_queued(id);
    let number = decimal(id as u64);
    if let Some(details) = index.details.get(&ModId::Workshop(id)) {
        if let ModDetails::Workshop(info) = details {
            let total: u64 = match parse_unsigned_text(info.file_size.as_str(), u64::MAX) {
                Some(n) => n,
                None => 0,
            };
            return DownloadRow {
                id,
                label: put_in_brackets(info.title.as_str(), number.as_str()),
                size: DownloadSize::Of(
                    SizeDisplay::automatic_from(size, total),
                    SizeDisplay::automatic(total),
                ),
                cancel,
            };
        }
    }
    DownloadRow {
        id,
        label: put_in_brackets("Unknown", number.as_str()),
        size: DownloadSize::Plain(SizeDisplay::automatic(size)),
        cancel,
    }
}

impl App {
    fn list_queued(&self) -> (r: Vec<DownloadRow>)
        ensures
            row_views(r@) == queued_rows(self.index, self.downloads@.queue),
    {
        let mut out: Vec<DownloadRow> = Vec::new();
        let n = self.downloads.queue_len();
        let ghost queue = self.downloads@.queue;
        let mut i: usize = 0;
        while i < n
            invariant
                0 <= i <= n,
                queue == self.downloads@.queue,
                n == queue.len(),
                out@.len() == i,
                forall|j: int|
                    0 <= j < i ==> (#[trigger] out@[j])@ == download_row(
                        self.index,
                        queue,
                        queue[j].0,
                        queue[j].1,
                    ),
            decreases n - i,
        {
            let (id, size) = self.downloads.queued_at(i);
            out.push(make_download_row(&self.index, &self.downloads, id, size));
            i += 1;
        }
        assert(row_views(out@) =~= queued_rows(self.index, queue));
        out
    }

    fn list_completed(&self) -> (r: Vec<(u32, String)>)
        ensures
            pairs(r@) == completed_rows(self.index, self.downloads.completed_downloads.rows()),
    {
        let mut out: Vec<(u32, String)> = Vec::new();
        let table = &self.downloads.completed_downloads;
        let n = table.len();
        let ghost rows = table.rows();
        let mut i: usize = 0;
        while i < n
            invariant
                0 <= i <= n,
                rows == table.rows(),
                n == rows.len(),
                out@.len() == i,
                forall|j: int|
                    0 <= j < i ==> (#[trigger] out@[j]).0 == rows[j].0 && out@[j].1@ == item_label(
                        self.index,
                        rows[j].0,
                    ),
            decreases n - i,
        {
            let id: u32 = *table.key_at(i);
            out.push((id, make_label(&self.index, id)));
            i += 1;
        }
        assert(pairs(out@) =~= completed_rows(self.index, rows));
        out
    }

    fn list_pending(&self) -> (r: Vec<(u32, String, String)>)
        ensures
            triples(r@) == pending_rows(self.index, self.downloads.pending_queue.rows()),
    {
        let mut out: Vec<(u32, String, String)> = Vec::new();
        let table = &self.downloads.pending_queue;
        let n = table.len();
        let ghost rows = table.rows();
        let mut i: usize = 0;
        while i < n
            invariant
                0 <= i <= n,
                rows == table.rows(),
                n == rows.len(),
                out@.len() == i,
                forall|j: int|
                    0 <= j < i ==> (#[trigger] out@[j]).0 == rows[j].0 && out@[j].1@ == item_label(
                        self.index,
                        rows[j].0,
                    ) && out@[j].2@ == "Last Updated - "@ + formatted_time(
                        rows[j].1,
                        UPDATE_TIME_FORMAT@,
                    ),
            decreases n - i,
        {
            let id: u32 = *table.key_at(i);
            let time = format_time(*table.value_at(i), UPDATE_TIME_FORMAT);
            out.push(
                (id, make_label(&self.index, id), join_two("Last Updated - ", time.as_str())),
            );
            i += 1;
        }
        assert(triples(out@) =~= pending_rows(self.index, rows));
        out
    }

    fn list_errored(&self) -> (r: Vec<(u32, String)>)
        ensures
            pairs(r@) == errored_rows(self.index, self.downloads.errorred_downloads.rows()),
    {
        let mut out: Vec<(u32, String)> = Vec::new();
        let table = &self.downloads.errorred_downloads;
        let n = table.len();
        let ghost rows = table.rows();
        let mut i: usize = 0;
        while i < n
            invariant
                0 <= i <= n,
                rows == table.rows(),
                n == rows.len(),
                out@.len() == i,
                forall|j: int|
                    0 <= j < i ==> (#[trigger] out@[j]).0 == rows[j].0 && out@[j].1@ == item_label(
                        self.index,
                        rows[j].0,
                    ) + "\n"@ + rows[j].1@,
            decreases n - i,
        {
            let id: u32 = *table.key_at(i);
            let label = make_label(&self.index, id);
            let a = join_two(label.as_str(), "\n");
            out.push((id, join_two(a.as_str(), table.value_at(i).as_str())));
            i += 1;
        }
        assert(pairs(out@) =~= errored_rows(self.index, rows));
        out
    }

    /// The downloads as they are shown.
    pub fn downloads_page(&self) -> (r: DownloadsPage)
        ensures
            match (self.downloads@.ongoing, r.ongoing) {
                (Some(pair), Some(row)) => row@ == download_row(
                    self.index,
                    self.downloads@.queue,
                    pair.0,
                    pair.1,
                ),
                (None, None) => true,
                _ => false,
            },
            row_views(r.queued@) == queued_rows(self.index, self.downloads@.queue),
            r.login_note == (self.downloads@.queue.len() > 0 && !self.login.logged_in),
            pairs(r.completed@) == completed_rows(
                self.index,
                self.downloads.completed_downloads.rows(),
            ),
            triples(r.pending@) == pending_rows(self.index, self.downloads.pending_queue.rows()),
            pairs(r.errored@) == errored_rows(
                self.index,
                self.downloads.errorred_downloads.rows(),
            ),
            r.empty_note == (self.downloads@.ongoing is None && self.downloads@.queue.len() == 0
                && self.downloads.completed_downloads.rows().len() == 0
                && self.downloads.pending_queue.rows().len() == 0
                && self.downloads.errorred_downloads.rows().len() == 0),
    {
        let ongoing = match self.downloads.ongoing_download {
            Some((id, size)) => Some(make_download_row(&self.index, &self.downloads, id, size)),
            None => None,
        };
        let queued = self.list_queued();
        assert(row_views(queued@).len() == queued@.len());
        let completed = self.list_completed();
        assert(pairs(completed@).len() == completed@.len());
        let pending = self.list_pending();
        assert(triples(pending@).len() == pending@.len());
        let errored = self.list_errored();
        assert(pairs(errored@).len() == errored@.len());
        let login_note = queued.len() > 0 && !self.login.logged_in;
        let empty_note = ongoing.is_none() && queued.len() == 0 && completed.len() == 0
            && pending.len() == 0 && errored.len() == 0;
        DownloadsPage { ongoing, queued, login_note, completed, pending, errored, empty_note }
    }
}

/// The library as it is shown.
pub struct LibraryPage<'a> {
    /// Whether all mods that are shown are selected, and whether any is.
    pub all_selected: bool,
    pub some_selected: bool,
    pub rows: Vec<LibraryRow<'a>>,
}

/// A mod of the library as it is shown.
pub struct LibraryRow<'a> {
    pub item: &'a LibraryItem,
    /// By what the game knows it, where that is known.
    pub dlc_name: String,
    /// What it asks for and does not get.
    pub missing: Vec<String>,
    /// Whether it asks for something that it does not get.
    pub danger: bool,
}

/// What is said of what a mod asks for.
pub open spec fn missing_texts(app: App, id: ModIdModel) -> Seq<Seq<char>> {
    if app.library.missing_dependencies@.dom().contains(id) {
        let all = app.library.missing_dependencies@[id]@;
        Seq::new(all.len(), |i: int| "Missing Item: "@ + all[i]@)
    } else {
        Seq::empty()
    }
}

pub open spec fn is_library_row(app: App, row: LibraryRow, item: ItemModel) -> bool {
    &&& row.item@ == item
    &&& row.dlc_name@ == if app.index.metadata@.dom().contains(item.id) {
        app.index.metadata@[item.id].dlc_name@
    } else {
        "UNKNOWN"@
    }
    &&& string_views(row.missing@) == missing_texts(app, item.id)
    &&& row.danger == app.library.missing_dependencies@.dom().contains(item.id)
}

/// The mods that the entered query lets through.
pub open spec fn filtered(app: App) -> Seq<ItemModel> {
    picked(app.library.all(), |item: ItemModel| app.library.filter().lets_through(item))
}

impl App {
    fn library_row<'a>(&'a self, item: &'a LibraryItem) -> (r: LibraryRow<'a>)
        ensures
            is_library_row(*self, r, item@),
    {
        let dlc_name = match self.index.metadata.get(&item.id) {
            Some(data) => data.dlc_name.clone(),
            None => "UNKNOWN".to_owned(),
        };
        let mut missing: Vec<String> = Vec::new();
        let mut danger = false;
        match self.library.missing_dependencies.get(&item.id) {
            Some(all) => {
                danger = true;
                let mut i: usize = 0;
                while i < all.len()
                    invariant
                        0 <= i <= all@.len(),
                        missing@.len() == i,
                        forall|j: int|
                            0 <= j < i ==> (#[trigger] missing@[j])@ == "Missing Item: "@
                                + all@[j]@,
                    decreases all@.len() - i,
                {
                    missing.push(join_two("Missing Item: ", all[i].as_str()));
                    i += 1;
                }
            },
            None => {},
        }
        assert(string_views(missing@) =~= missing_texts(*self, item@.id));
        LibraryRow { item, dlc_name, missing, danger }
    }

    /// The library as it is shown, where the entered query can be searched for.
    pub fn library_page(&self) -> (r: Option<LibraryPage<'_>>)
        ensures
            r is Some == self.library.filter_takes_all(self.library.filter()),
            r matches Some(page) ==> {
                let items = filtered(*self);
                &&& page.rows@.len() == items.len()
                &&& forall|i: int|
                    0 <= i < items.len() ==> is_library_row(*self, #[trigger] page.rows@[i], items[i])
                &&& page.all_selected == forall|i: int|
                    0 <= i < items.len() ==> (#[trigger] items[i]).selected
                &&& page.some_selected == exists|i: int|
                    0 <= i < items.len() && (#[trigger] items[i]).selected
            },
    {
        let found = match self.library.try_iter_filtered() {
            None => return None,
            Some(found) => found,
        };
        let ghost items = filtered(*self);
        assert(shown(found@) == items);
        let mut rows: Vec<LibraryRow<'_>> = Vec::new();
        let mut all_selected = true;
        let mut some_selected = false;
        let mut i: usize = 0;
        while i < found.len()
            invariant
                0 <= i <= found@.len(),
                items == shown(found@),
                items == filtered(*self),
                rows@.len() == i,
                forall|j: int|
                    0 <= j < i ==> is_library_row(*self, #[trigger] rows@[j], items[j]),
                all_selected == forall|j: int| 0 <= j < i ==> (#[trigger] items[j]).selected,
                some_selected == exists|j: int| 0 <= j < i && (#[trigger] items[j]).selected,
            decreases found@.len() - i,
        {
            let item = found[i];
            assert(items[i as int] == item@);
            rows.push(self.library_row(item));
            if item.selected {
                some_selected = true;
            } else {
                all_selected = false;
            }
            i += 1;
        }
        Some(LibraryPage { all_selected, some_selected, rows })
    }
}

/// Something that a mod asks for, as it is shown.
#[derive(Debug)]
pub enum ChildRow {
    /// Its number and its name, and whether it was downloaded.
    Known(u32, String, bool),
    Unknown(String),
}

#[verifier::ext_equal]
pub enum ChildModel {
    Known(u32, Seq<char>, bool),
    Unknown(Seq<char>),
}

impl View for ChildRow {
    type V = ChildModel;

    open spec fn view(&self) -> ChildModel {
        match self {
            ChildRow::Known(id, label, there) => ChildModel::Known(*id, label@, *there),
            ChildRow::Unknown(label) => ChildModel::Unknown(label@),
        }
    }
}

pub open spec fn child_row(index: ModIndex, id: u32, there: bool) -> ChildModel {
    let key = ModIdModel::Workshop(id);
    let number = decimal_text(id as nat);
    if index.details@.dom().contains(key) {
        ChildModel::Known(id, with_brackets(index.details@[key].title_text(), number), there)
    } else {
        ChildModel::Unknown(with_brackets("UNKNOWN"@, number))
    }
}

/// A mod as it is shown on its own.
#[derive(Debug)]
pub struct ItemView {
    pub title: String,
    pub image: ImageSource,
    /// What it asks for.
    pub children: Vec<ChildRow>,
    /// Whether it is there, so that it is updated where it would be downloaded.
    pub there: bool,
    /// Whether a download can be asked for.
    pub can_download: bool,
    /// Whether what it asks for can be downloaded, and added to a profile.
    pub can_download_all: bool,
    pub can_add_all: bool,
    pub can_delete: bool,
    /// Who made it, and where the page of their items is.
    pub author: Option<(u64, String)>,
    /// Where its page is.
    pub page: Option<String>,
    pub tags: Vec<String>,
    pub description: String,
}

/// The image of a mod: that of its page, or the one in its directory.
pub open spec fn item_image(details: ModDetails, id: ModIdModel, preview: bool) -> ImageModel {
    match (details, id) {
        (ModDetails::Workshop(info), _) => ImageModel::Web(info.preview_url@),
        (_, ModIdModel::Local(path)) => if preview {
            ImageModel::Path(joined(path, "ModPreview.jpg"@))
        } else {
            ImageModel::Web(Seq::empty())
        },
        _ => ImageModel::Web(Seq::empty()),
    }
}

pub open spec fn children_of_details(details: ModDetails) -> Seq<ChildFile> {
    match details {
        ModDetails::Workshop(info) => info.children@,
        ModDetails::Local(_) => Seq::empty(),
    }
}

pub open spec fn tags_of_details(details: ModDetails) -> Seq<String> {
    match details {
        ModDetails::Workshop(info) => info.tags@,
        ModDetails::Local(_) => Seq::empty(),
    }
}

/// The tags of a mod as they are shown: those that were noted in its directory, in their
/// order, if it is in the library, else those of its page.
pub open spec fn item_tags(app: App, id: ModIdModel, noted: Table<Tag, ()>) -> Seq<Seq<char>> {
    if app.library.items@.dom().contains(id) {
        Seq::new(noted.rows().len(), |i: int| noted.rows()[i].0.text())
    } else {
        string_views(tags_of_details(app.index.details@[id]))
    }
}

/// Where the page of the items is that somebody made.
pub open spec fn author_page(creator: u64) -> Seq<char> {
    "https://steamcommunity.com/profiles/"@ + decimal_text(creator as nat)
        + "/myworkshopfiles/?appid="@ + decimal_text(268500)
}

pub open spec fn is_item_view(
    app: App,
    id: ModIdModel,
    there: bool,
    preview: bool,
    noted: Table<Tag, ()>,
    children_there: Seq<u32>,
    view: ItemView,
) -> bool {
    let details = app.index.details@[id];
    let children = children_of_details(details);
    &&& view.title@ == details.title_text()
    &&& view.image@ == item_image(details, id, preview)
    &&& view.children@.len() == children.len()
    &&& forall|i: int|
        0 <= i < children.len() ==> (#[trigger] view.children@[i])@ == child_row(
            app.index,
            child_number(children[i])->Some_0 as u32,
            children_there.contains(child_number(children[i])->Some_0 as u32),
        )
    &&& view.there == there
    &&& view.can_download == match id {
        ModIdModel::Workshop(n) => !app.downloads@.is_downloading(n),
        ModIdModel::Local(_) => false,
    }
    &&& view.can_download_all == (id is Workshop && children.len() > 0)
    &&& view.can_add_all == (id is Workshop)
    &&& view.can_delete == (id is Workshop && there)
    &&& match (view.author, details) {
        (Some(author), ModDetails::Workshop(info)) => author.0 == info.creator && author.1@
            == author_page(info.creator),
        (None, ModDetails::Local(_)) => true,
        _ => false,
    }
    &&& match (view.page, id) {
        (Some(page), ModIdModel::Workshop(n)) => page@
            == "https://steamcommunity.com/sharedfiles/filedetails/?id="@ + decimal_text(n as nat),
        (None, ModIdModel::Local(_)) => true,
        _ => false,
    }
    &&& string_views(view.tags@) == item_tags(app, id, noted)
    &&& view.description@ == details.description_text()
}

fn find_author_page(creator: u64) -> (r: String)
    ensures
        r@ == author_page(creator),
{
    let number = decimal(creator);
    let game = decimal(XCOM_APPID as u64);
    let a = join_two("https://steamcommunity.com/profiles/", number.as_str());
    let b = join_two(a.as_str(), "/myworkshopfiles/?appid=");
    join_two(b.as_str(), game.as_str())
}

fn list_tags(tags: &Table<Tag, ()>) -> (r: Vec<String>)
    ensures
        string_views(r@) == Seq::new(tags.rows().len(), |i: int| tags.rows()[i].0.text()),
{
    let mut out: Vec<String> = Vec::new();
    let n = tags.len();
    let mut i: usize = 0;
    while i < n
        invariant
            0 <= i <= n,
            n == tags.rows().len(),
            out@.len() == i,
            forall|j: int| 0 <= j < i ==> (#[trigger] out@[j])@ == tags.rows()[j].0.text(),
        decreases n - i,
    {
        out.push(tags.key_at(i).as_text().to_owned());
        i += 1;
    }
    assert(string_views(out@) =~= Seq::new(tags.rows().len(), |i: int| tags.rows()[i].0.text()));
    out
}

fn copy_texts(texts: &[String]) -> (r: Vec<String>)
    ensures
        string_views(r@) == string_views(texts@),
{
    let mut out: Vec<String> = Vec::new();
    let mut i: usize = 0;
    while i < texts.len()
        invariant
            0 <= i <= texts@.len(),
            out@ == texts@.take(i as int),
        decreases texts@.len() - i,
    {
        out.push(texts[i].clone());
        i += 1;
    }
    assert(texts@.take(i as int) =~= texts@);
    out
}

impl App {
    /// A mod as it is shown on its own, if something is known of it. `there` says
    /// whether it was downloaded, `preview` whether its directory holds an image,
    /// `noted` which tags were noted there, and `children_there` which items of those
    /// that it asks for were downloaded.
    pub fn view_item_detailed(
        &self,
        id: &ModId,
        there: bool,
        preview: bool,
        noted: &Table<Tag, ()>,
        children_there: &Vec<u32>,
    ) -> (r: Option<ItemView>)
        requires
            super::on_browse::children_have_numbers(self.index, id@),
        ensures
            match r {
                Some(view) => self.index.details@.dom().contains(id@) && is_item_view(
                    *self,
                    id@,
                    there,
                    preview,
                    *noted,
                    children_there@,
                    view,
                ),
                None => !self.index.details@.dom().contains(id@),
            },
    {
        let details: &ModDetails = match self.index.details.get(id) {
            None => return None,
            Some(details) => details,
        };
        let image = match details {
            ModDetails::Workshop(info) => ImageSource::Web(info.preview_url.clone()),
            ModDetails::Local(_) => match id {
                ModId::Local(path) => if preview {
                    ImageSource::Path(join(path.as_str(), "ModPreview.jpg"))
                } else {
                    ImageSource::Web(String::new())
                },
                ModId::Workshop(_) => ImageSource::Web(String::new()),
            },
        };
        assert(image@ =~= item_image(*details, id@, preview));
        let children = details.children();
        assert(children@ == children_of_details(*details));
        assert(children@ == self.index.children_of(id@));
        let mut rows: Vec<ChildRow> = Vec::new();
        let mut i: usize = 0;
        while i < children.len()
            invariant
                0 <= i <= children@.len(),
                children@ == self.index.children_of(id@),
                super::on_browse::children_have_numbers(self.index, id@),
                rows@.len() == i,
                forall|j: int|
                    0 <= j < i ==> (#[trigger] rows@[j])@ == child_row(
                        self.index,
                        child_number(children@[j])->Some_0 as u32,
                        children_there@.contains(child_number(children@[j])->Some_0 as u32),
                    ),
            decreases children@.len() - i,
        {
            assert(child_number(self.index.children_of(id@)[i as int]) is Some);
            if let Some(n) = parse_child(&children[i]) {
                let number = decimal(n as u64);
                match self.index.details.get(&ModId::Workshop(n)) {
                    Some(known) => rows.push(
                        ChildRow::Known(
                            n,
                            put_in_brackets(known.title(), number.as_str()),
                            holds_number(children_there, n),
                        ),
                    ),
                    None => rows.push(
                        ChildRow::Unknown(put_in_brackets("UNKNOWN", number.as_str())),
                    ),
                }
            }
            i += 1;
        }
        let number = id.maybe_workshop();
        let page = match number {
            Some(n) => {
                let text = decimal(n as u64);
                Some(
                    join_two(
                        "https://steamcommunity.com/sharedfiles/filedetails/?id=",
                        text.as_str(),
                    ),
                )
            },
            None => None,
        };
        let author = match details {
            ModDetails::Workshop(info) => Some((info.creator, find_author_page(info.creator))),
            ModDetails::Local(_) => None,
        };
        let tags = if self.library.items.contains(id) {
            list_tags(noted)
        } else {
            copy_texts(details.tags())
        };
        let can_download = match number {
            Some(n) => !self.downloads.is_downloading(n),
            None => false,
        };
        Some(
            ItemView {
                title: details.title().to_owned(),
                image,
                children: rows,
                there,
                can_download,
                can_download_all: number.is_some() && children.len() > 0,
                can_add_all: number.is_some(),
                can_delete: number.is_some() && there,
                author,
                page,
                tags,
                description: details.get_description(),
            },
        )
    }
}

/// How a mod of a profile is set off.
#[derive(Debug, Clone, Copy, PartialEq, Eq, Structural)]
pub enum ProfileRowStyle {
    Selected,
    Danger,
    Plain,
}

/// A mod of a profile as it is shown.
#[derive(Debug)]
pub struct ProfileRow {
    pub label: String,
    /// Whether it can be selected.
    pub selectable: bool,
    pub style: ProfileRowStyle,
    /// Why it may not work.
    pub issues: Vec<String>,
}

/// What is said of why a mod may not work.
pub open spec fn issue_text(issue: IssueModel) -> Seq<char> {
    match issue {
        IssueModel::MissingWorkshop(_, text) => "Missing Workshop Dependency: "@ + text,
        IssueModel::MissingRequired(name) => "Missing Dependency: "@ + name,
        IssueModel::Incompatible(name) => "Incompatible Mod: "@ + name,
        IssueModel::Overlapping(name, names) => name + " Provides Same DLCNames: "@ + join_texts(
            names,
            ", "@,
        ),
        IssueModel::Unknown => "Missing Info"@,
    }
}

pub fn issue_message(issue: &CompatibilityIssue) -> (r: String)
    ensures
        r@ == issue_text(issue@),
{
    match issue {
        CompatibilityIssue::MissingWorkshop(_, text) => join_two(
            "Missing Workshop Dependency: ",
            text.as_str(),
        ),
        CompatibilityIssue::MissingRequired(name) => join_two(
            "Missing Dependency: ",
            name.as_str(),
        ),
        CompatibilityIssue::Incompatible(name) => join_two("Incompatible Mod: ", name.as_str()),
        CompatibilityIssue::Overlapping(name, names) => {
            let mut parts: Vec<Vec<char>> = Vec::new();
            let mut i: usize = 0;
            while i < names.len()
                invariant
                    0 <= i <= names@.len(),
                    parts@.len() == i,
                    forall|j: int| 0 <= j < i ==> (#[trigger] parts@[j])@ == names@[j]@,
                decreases names@.len() - i,
            {
                parts.push(chars_of(names[i].as_str()));
                i += 1;
            }
            assert(texts(parts@) =~= string_views(names@));
            let separator = chars_of(", ");
            let all = join_chars(&parts, separator.as_slice());
            let list = string_of(all.as_slice());
            let front = join_two(name.as_str(), " Provides Same DLCNames: ");
            join_two(front.as_str(), list.as_str())
        },
        CompatibilityIssue::Unknown => "Missing Info".to_owned(),
    }
}

/// What is said of a mod that is not there.
pub open spec fn absence_text(id: ModIdModel) -> Seq<char> {
    match id {
        ModIdModel::Workshop(_) => "Missing: Mod is not downloaded (or found)"@,
        ModIdModel::Local(path) => "Missing: Could find mod at "@ + path,
    }
}

/// What is said of why a mod of a profile may not work.
pub open spec fn profile_issues(profile: Profile, id: ModIdModel, there: bool) -> Seq<Seq<char>> {
    let first = if there {
        Seq::empty()
    } else {
        seq![absence_text(id)]
    };
    let rest = if profile.compatibility_issues@.dom().contains(id) {
        let all = issue_models(profile.compatibility_issues@[id]@);
        Seq::new(all.len(), |i: int| issue_text(all[i]))
    } else {
        Seq::empty()
    };
    first + rest
}

pub open spec fn is_profile_row(
    app: App,
    profile: Profile,
    id: ModIdModel,
    there: bool,
    row: ProfileRow,
) -> bool {
    let known = app.index.details@.dom().contains(id);
    &&& string_views(row.issues@) == profile_issues(profile, id, there)
    &&& row.selectable == known
    &&& row.label@ == with_brackets(
        if known {
            app.index.details@[id].title_text()
        } else {
            "UNKNOWN"@
        },
        id.text(),
    ) + if there {
        ""@
    } else {
        " (MISSING)"@
    }
    &&& row.style == if profile.view_selected_item is Some
        && profile.view_selected_item->Some_0@ == id {
        ProfileRowStyle::Selected
    } else if profile_issues(profile, id, there).len() > 0 {
        ProfileRowStyle::Danger
    } else {
        ProfileRowStyle::Plain
    }
}

impl App {
    /// A mod of a profile as it is shown. `there` says whether the mod was found.
    pub fn view_profile_mod(&self, profile: &Profile, id: &ModId, there: bool) -> (r: ProfileRow)
        ensures
            is_profile_row(*self, *profile, id@, there, r),
    {
        let mut issues: Vec<String> = Vec::new();
        if !there {
            match id {
                ModId::Workshop(_) => issues.push(
                    "Missing: Mod is not downloaded (or found)".to_owned(),
                ),
                ModId::Local(path) => issues.push(
                    join_two("Missing: Could find mod at ", path.as_str()),
                ),
            }
        }
        let ghost first = string_views(issues@);
        assert(first =~= if there {
            Seq::empty()
        } else {
            seq![absence_text(id@)]
        });
        if let Some(all) = profile.compatibility_issues.get(id) {
            let ghost models = issue_models(all@);
            let mut i: usize = 0;
            assert(string_views(issues@) =~= first + Seq::new(0, |k: int| issue_text(models[k])));
            while i < all.len()
                invariant
                    0 <= i <= all@.len(),
                    models == issue_models(all@),
                    string_views(issues@) == first + Seq::new(
                        i as nat,
                        |k: int| issue_text(models[k]),
                    ),
                decreases all@.len() - i,
            {
                let ghost before = string_views(issues@);
                let text = issue_message(&all[i]);
                let ghost view = text@;
                issues.push(text);
                assert(string_views(issues@) =~= before.push(view));
                assert(first + Seq::new((i + 1) as nat, |k: int| issue_text(models[k])) =~= (first
                    + Seq::new(i as nat, |k: int| issue_text(models[k]))).push(
                    issue_text(models[i as int]),
                ));
                i += 1;
            }
        }
        assert(string_views(issues@) =~= profile_issues(*profile, id@, there));
        assert(string_views(issues@).len() == issues@.len());
        let selected = match &profile.view_selected_item {
            Some(shown) => shown.is(id),
            None => false,
        };
        let style = if selected {
            ProfileRowStyle::Selected
        } else if issues.len() > 0 {
            ProfileRowStyle::Danger
        } else {
            ProfileRowStyle::Plain
        };
        let number = id.text();
        let (title, selectable) = match self.index.details.get(id) {
            Some(details) => (put_in_brackets(details.title(), number.as_str()), true),
            None => (put_in_brackets("UNKNOWN", number.as_str()), false),
        };
        let label = join_two(
            title.as_str(),
            if there {
                ""
            } else {
                " (MISSING)"
            },
        );
        ProfileRow { label, selectable, style, issues }
    }

    /// Whether the user can log in.
    pub fn can_log_in(&self) -> (r: bool)
        ensures
            r == !(self.login.logged_in || self.login.username@.len() == 0
                || self.login.password@.len() == 0),
    {
        !(self.login.logged_in || self.login.username.as_str().is_empty()
            || self.login.password.as_str().is_empty())
    }

    /// Whether the key of the web interface of Steam can be submitted.
    pub fn can_submit_key(&self) -> (r: bool)
        ensures
            r == (self.api_key@.len() > 0),
    {
        !self.api_key.as_str().is_empty()
    }

    /// Whether the code of the Steam Guard can be submitted.
    pub fn can_submit_code(&self) -> (r: bool)
        ensures
            r == (self.login.code@.len() > 0),
    {
        !self.login.code.as_str().is_empty()
    }

    /// Whether a profile with the entered name can be added.
    pub fn can_add_profile(&self) -> (r: bool)
        ensures
            r == (self.profile_add_name@.len() > 0),
    {
        !self.profile_add_name.as_str().is_empty()
    }

    /// What the button for the download of an item says, and whether it can be
    /// pressed. `there` says whether the item was downloaded.
    pub fn download_button(&self, id: u32, there: bool) -> (r: (&'static str, bool))
        ensures
            r.0@ == if there {
                "Update"@
            } else {
                "Download"@
            },
            r.1 == !self.downloads@.is_downloading(id),
    {
        let label = if there {
            "Update"
        } else {
            "Download"
        };
        (label, !self.downloads.is_downloading(id))
    }

    /// The selected mods, as they are listed before they are deleted.
    pub fn deletion_list(&self) -> (r: Vec<String>)
        ensures
            ({
                let items = picked(self.library.all(), |item: ItemModel| item.selected);
                string_views(r@) == Seq::new(
                    items.len(),
                    |i: int| with_brackets(items[i].title, items[i].id.text()),
                )
            }),
    {
        let selected = self.library.iter_selected();
        let ghost items = shown(selected@);
        let mut out: Vec<String> = Vec::new();
        let mut i: usize = 0;
        while i < selected.len()
            invariant
                0 <= i <= selected@.len(),
                items == shown(selected@),
                out@.len() == i,
                forall|j: int|
                    0 <= j < i ==> (#[trigger] out@[j])@ == with_brackets(
                        items[j].title,
                        items[j].id.text(),
                    ),
            decreases selected@.len() - i,
        {
            let item = selected[i];
            assert(items[i as int] == item@);
            let number = item.id.text();
            out.push(put_in_brackets(item.title.as_str(), number.as_str()));
            i += 1;
        }
        assert(string_views(out@) =~= Seq::new(
            items.len(),
            |i: int| with_brackets(items[i].title, items[i].id.text()),
        ));
        out
    }

    /// Whether a profile can be applied, and the game started.
    pub fn can_apply(&self) -> (r: bool)
        ensures
            r == (self.save.active_profile is Some),
    {
        self.save.active_profile.is_some()
    }

    /// Whether there are settings to save.
    pub fn can_save_settings(&self) -> (r: bool)
        ensures
            r == (self.settings@ != self.settings_editing@),
    {
        !self.settings.is(&self.settings_editing)
    }

    /// Whether all profiles are selected for mods to be added.
    pub fn all_profiles_selected(&self) -> (r: bool)
        ensures
            r == forall|i: int|
                0 <= i < self.profiles.rows().len() ==> (
                #[trigger] self.profiles.rows()[i]).1.add_selected,
    {
        let n = self.profiles.len();
        let mut i: usize = 0;
        while i < n
            invariant
                0 <= i <= n,
                n == self.profiles.rows().len(),
                forall|j: int|
                    0 <= j < i ==> (#[trigger] self.profiles.rows()[j]).1.add_selected,
            decreases n - i,
        {
            if !self.profiles.value_at(i).add_selected {
                return false;
            }
            i += 1;
        }
        true
    }

    /// What closing the details of a profile does: changes that are not saved keep
    /// them open.
    pub fn close_profile_details(&self, name: &String) -> (r: Message)
        ensures
            if self.profiles@.dom().contains(name@) && self.profiles@[name@].settings
                != self.profiles@[name@].settings_editing {
                r matches Message::DisplayError(t, b) && t@ == "Unsaved Changes"@ && b@
                    == "This profile has unsaved changes!"@
            } else {
                r is CloseModal
            },
    {
        if let Some(profile) = self.profiles.get(name) {
            if profile.settings != profile.settings_editing {
                return Message::DisplayError(
                    "Unsaved Changes".to_owned(),
                    "This profile has unsaved changes!".to_owned(),
                );
            }
        }
        Message::CloseModal
    }
}

} // verus!
