//! What happens to the downloads.
use vstd::prelude::*;

use super::downloads::Requested;
use super::modal::{AppModal, AsyncDialogKey, AsyncDialogStrategy};
use super::state::{
    busy_message, error_message, nothing, only, show_error, Action, App, Message, Outcome,
};
use crate::files::{get_item_directory, ModDetails, SizeDisplay};
use crate::library::missing::{put_in_brackets, ModIndex};
use crate::library::Library;
use crate::numbers::{decimal, parse_unsigned_text};
use crate::table::Table;
use crate::text::{chars_of, join_chars, join_two, string_of};
use crate::xcom_mod::ModId;
#[allow(unused_imports)]
use super::downloads::DownloadsModel;
#[allow(unused_imports)]
use super::modal::KeyModel;
#[allow(unused_imports)]
use super::on_login::download_action;
#[allow(unused_imports)]
use super::state::{is_busy_message, is_error, only_error};
#[allow(unused_imports)]
use crate::extensions::string_views;
#[allow(unused_imports)]
use crate::files::item_path;
#[allow(unused_imports)]
use crate::library::missing::with_brackets;
#[allow(unused_imports)]
use crate::numbers::{decimal_text, unsigned_value};
#[allow(unused_imports)]
use crate::table::{rising, TableKey};
#[allow(unused_imports)]
use crate::text::{join_texts, texts};
#[allow(unused_imports)]
use crate::xcom_mod::ModIdModel;
#[allow(unused_imports)]
use vstd::utf8::encode_utf8;

verus! {

/// Whether nothing but the downloads changed.
pub open spec fn only_downloads(a: App, b: App) -> bool {
    b == (App { downloads: b.downloads, ..a })
}

pub open spec fn item_deleted(a: App, b: App, id: u32, r: Seq<Action>) -> bool {
    &&& b == (App {
        downloads: b.downloads,
        downloaded: b.downloaded,
        library: Library { items: b.library.items, ..a.library },
        ..a
    })
    &&& b.downloads@ == (DownloadsModel {
        completed: a.downloads@.completed.remove(id),
        ..a.downloads@
    })
    &&& b.downloaded@ == a.downloaded@.remove(id)
    &&& b.library.items@ == a.library.items@.remove(ModIdModel::Workshop(id))
    &&& r.len() == 1
    &&& r[0] matches Action::RemoveItem(n, path) && n == id && path@ == item_path(
        a.settings.download_directory@,
        id,
    )
}

pub open spec fn download_requested(a: App, b: App, id: u32, r: Seq<Action>) -> bool {
    &&& only_downloads(a, b)
    &&& b.downloads@ == a.downloads@.requested(id, a.login.logged_in)
    &&& if !a.login.logged_in {
        only_error(
            r,
            "Error: Not Logged In"@,
            "You must be logged in to steamcmd to download files."@,
        )
    } else {
        r == if !a.downloads@.is_downloading(id) && a.downloads@.ongoing is None {
            seq![Action::Download(id, a.settings.automatic_download_retries)]
        } else {
            Seq::empty()
        }
    }
}

/// Whether an action tells what came of a download.
pub open spec fn is_item_notice(action: Action, id: u32, summary: Seq<char>, body: Seq<char>) -> bool {
    action matches Action::NotifyItem(n, s, b) && n == id && s@ == summary && b@ == body
}

/// Whether the user is told what comes of an item's download.
pub open spec fn notifies(a: App, id: u32) -> bool {
    a.settings.notify_progress && a.index.details@.dom().contains(ModIdModel::Workshop(id))
}

pub open spec fn download_completed(a: App, b: App, id: u32, r: Seq<Action>) -> bool {
    let done = a.downloads@.completed_one(id);
    let logged_in = a.login.logged_in;
    let told: int = if notifies(a, id) {
        2
    } else {
        1
    };
    &&& only_downloads(a, b)
    &&& r.len() >= told
    &&& r[0] is ScanDownloads
    &&& notifies(a, id) ==> is_item_notice(
        r[1],
        id,
        "Downloaded "@ + a.index.details@[ModIdModel::Workshop(id)].title_text(),
        "Downloaded Completed"@,
    )
    &&& if a.downloads@.queue.len() == 0 {
        &&& b.downloads@ == done
        &&& r.skip(told) == if a.settings.notify_on_download_complete {
            seq![Action::NotifyAll(a.settings.notify_with_sound)]
        } else {
            Seq::empty()
        }
    } else {
        &&& b.downloads@ == done.queued(logged_in)
        &&& r.skip(told) == download_action(
            done.next(logged_in),
            a.settings.automatic_download_retries,
        )
    }
}

pub open spec fn download_errored(
    a: App,
    b: App,
    id: u32,
    message: Seq<char>,
    r: Seq<Action>,
) -> bool {
    let failed = a.downloads@.errored_one(id, message);
    let told: int = if notifies(a, id) {
        1
    } else {
        0
    };
    &&& only_downloads(a, b)
    &&& b.downloads@ == failed.queued(a.login.logged_in)
    &&& r.len() >= told
    &&& notifies(a, id) ==> is_item_notice(
        r[0],
        id,
        "Error Downloading "@ + a.index.details@[ModIdModel::Workshop(id)].title_text(),
        message,
    )
    &&& r.skip(told) == download_action(
        failed.next(a.login.logged_in),
        a.settings.automatic_download_retries,
    )
}

/// The size that the workshop says an item has.
pub open spec fn total_of(index: ModIndex, id: u32) -> Option<nat> {
    let key = ModIdModel::Workshop(id);
    if index.details@.dom().contains(key) && index.details@[key] is Workshop {
        unsigned_value(
            encode_utf8(index.details@[key]->Workshop_0.file_size@),
            u64::MAX as nat,
        )
    } else {
        None
    }
}

/// Whether the share of a download that is there can be told.
pub open spec fn progress_is_defined(a: App, id: u32, size: u64) -> bool {
    a.downloads@.ongoing is Some && a.downloads@.ongoing->Some_0.0 == id
        && a.settings.notify_progress && total_of(a.index, id) is Some ==> total_of(a.index, id)
        != Some(0nat) && size * 100 <= u64::MAX
}

pub open spec fn download_progressed(a: App, b: App, id: u32, size: u64, r: Seq<Action>) -> bool {
    &&& only_downloads(a, b)
    &&& b.downloads@ == a.downloads@.progressed(id, size)
    &&& match total_of(a.index, id) {
        Some(total) => if a.downloads@.ongoing is Some && a.downloads@.ongoing->Some_0.0 == id
            && a.settings.notify_progress {
            &&& r.len() == 1
            &&& r[0] matches Action::NotifyProgress(n, title, there, of) && n == id && title@
                == a.index.details@[ModIdModel::Workshop(id)].title_text() && there
                == SizeDisplay::in_unit_of(size, total as u64) && of == SizeDisplay::in_unit_of(
                total as u64,
                total as u64,
            )
        } else {
            r.len() == 0
        },
        None => r.len() == 0,
    }
}

/// Whether numbers rise, so that none occurs twice.
pub open spec fn ids_rise(ids: Seq<u32>) -> bool {
    forall|i: int, j: int| 0 <= i < j < ids.len() ==> #[trigger] ids[i] < #[trigger] ids[j]
}

/// Whether the numbers are those of `from` that are not in `without`, in order.
pub open spec fn rest_of(ids: Seq<u32>, from: Seq<u32>, without: Set<u32>) -> bool {
    &&& ids_rise(ids)
    &&& forall|x: u32| #[trigger] ids.contains(x) <==> from.contains(x) && !without.contains(x)
}

/// How items are listed.
pub open spec fn item_names(index: ModIndex, ids: Seq<u32>) -> Seq<Seq<char>> {
    Seq::new(
        ids.len(),
        |i: int|
            with_brackets(
                index.title_or_unknown(ModIdModel::Workshop(ids[i])),
                decimal_text(ids[i] as nat),
            ),
    )
}

/// Whether a dialog asks a question that is answered with no or yes.
pub open spec fn is_question(
    modal: AppModal,
    key: KeyModel,
    title: Seq<char>,
    body: Seq<char>,
    strategy: AsyncDialogStrategy,
    ticket: u64,
) -> bool {
    &&& modal is Choose
    &&& modal->Choose_0.key@ == key
    &&& modal->Choose_0.title@ == title
    &&& modal->Choose_0.body@ == body
    &&& string_views(modal->Choose_0.options@) == seq!["No"@, "Yes"@]
    &&& modal->Choose_0.strategy == strategy
    &&& modal->Choose_0.ticket == ticket
}

/// A dialog that asks a question.
pub(crate) fn question(
    key: AsyncDialogKey,
    title: &str,
    body: String,
    strategy: AsyncDialogStrategy,
    ticket: u64,
) -> (r: AppModal)
    ensures
        is_question(r, key@, title@, body@, strategy, ticket),
{
    let options = vec!["No".to_owned(), "Yes".to_owned()];
    assert(string_views(options@) =~= seq!["No"@, "Yes"@]);
    AppModal::async_choose(key, title.to_owned(), body, options, strategy, ticket)
}

/// The ticket after another one.
pub open spec fn next_of(ticket: u64) -> u64 {
    if ticket == u64::MAX {
        0
    } else {
        (ticket + 1) as u64
    }
}

/// Whether the user is asked whether items are to be downloaded.
pub open spec fn downloads_asked(
    a: App,
    b: App,
    key: KeyModel,
    body: Seq<char>,
    ids: Seq<u32>,
    r: Seq<Action>,
) -> bool {
    &&& b == (App { next_ticket: next_of(a.next_ticket), ..a })
    &&& r.len() == 2
    &&& r[0] matches Action::Send(Message::OpenModal(modal)) && is_question(
        modal,
        key,
        "Download All?"@,
        body,
        AsyncDialogStrategy::Replace,
        a.next_ticket,
    )
    &&& r[1] matches Action::AwaitChoice(ticket, Outcome::DownloadAll(n)) && ticket
        == a.next_ticket && n@ == ids
}

/// The items of the workshop that are there, in order.
pub open spec fn items_there(a: App) -> Seq<u32> {
    Seq::new(a.downloaded.rows().len(), |i: int| a.downloaded.rows()[i].0)
}

pub open spec fn all_requested(a: App, id: u32, r: Seq<Action>) -> bool {
    &&& r.len() == 3
    &&& is_busy_message(r[0], "Resolving Dependencies..."@)
    &&& r[1] matches Action::ResolveDependencies(key, i, Some(there)) && key@ == a.api_key@ && i
        == id && there@ == items_there(a)
    &&& r[2] == Action::Send(Message::SetBusy(false))
}

/// What follows once it is known what an item asks for: the user is asked about
/// what was not there when that was asked for.
pub open spec fn all_resolved(
    a: App,
    b: App,
    found: Seq<u32>,
    there: Seq<u32>,
    r: Seq<Action>,
) -> bool {
    exists|ids: Seq<u32>| #[trigger]
        rest_of(ids, found, there.to_set()) && if ids.len() == 0 {
            a == b && only_error(
                r,
                "Already Downloaded"@,
                "All dependencies listed by Steam have already been downloaded."@,
            )
        } else {
            downloads_asked(
                a,
                b,
                KeyModel::DownloadAllConfirm,
                "The following items have not been downloaded yet:\n"@ + join_texts(
                    item_names(a.index, ids),
                    "\n"@,
                ),
                ids,
                r,
            )
        }
}

pub open spec fn multiple_requested(
    a: App,
    b: App,
    wanted: Seq<u32>,
    there: Seq<u32>,
    r: Seq<Action>,
) -> bool {
    exists|ids: Seq<u32>| #[trigger]
        rest_of(ids, wanted, there.to_set()) && downloads_asked(
            a,
            b,
            KeyModel::DownloadMultipleConfirm,
            join_texts(item_names(a.index, ids), ", "@),
            ids,
            r,
        )
}

pub open spec fn request_each(ids: Seq<u32>) -> Seq<Action> {
    Seq::new(ids.len(), |i: int| Action::Send(Message::SteamCMDDownloadRequested(ids[i])))
}

pub open spec fn pending_pushed(a: App, b: App, ids: Seq<u32>, r: Seq<Action>) -> bool {
    let m = a.downloads@.pushed_pending(ids);
    &&& only_downloads(a, b)
    &&& b.downloads@ == m.queued(a.login.logged_in)
    &&& r == download_action(
        m.next(a.login.logged_in),
        a.settings.automatic_download_retries,
    )
}

/// The names of items, with something between them.
fn list_items(index: &ModIndex, ids: &Vec<u32>, separator: &str) -> (r: String)
    ensures
        r@ == join_texts(item_names(*index, ids@), separator@),
{
    let mut names: Vec<Vec<char>> = Vec::new();
    let mut i: usize = 0;
    while i < ids.len()
        invariant
            0 <= i <= ids@.len(),
            names@.len() == i,
            forall|j: int| 0 <= j < i ==> (#[trigger] names@[j])@ == item_names(*index, ids@)[j],
        decreases ids@.len() - i,
    {
        let title = index.find_title(&ModId::Workshop(ids[i]));
        let number = decimal(ids[i] as u64);
        let name = put_in_brackets(title.as_str(), number.as_str());
        names.push(chars_of(name.as_str()));
        i += 1;
    }
    assert(texts(names@) =~= item_names(*index, ids@));
    let between = chars_of(separator);
    let all = join_chars(&names, between.as_slice());
    string_of(all.as_slice())
}

/// The numbers of `from` that are not in `without`, in order.
fn sorted_rest(from: &Vec<u32>, without: &Table<u32, ()>) -> (r: Vec<u32>)
    ensures
        rest_of(r@, from@, without@.dom()),
{
    let mut found: Table<u32, ()> = Table::new();
    let mut i: usize = 0;
    while i < from.len()
        invariant
            0 <= i <= from@.len(),
            forall|x: u32| #[trigger]
                found@.dom().contains(x) <==> from@.take(i as int).contains(x)
                    && !without@.dom().contains(x),
        decreases from@.len() - i,
    {
        let id: u32 = from[i];
        let ghost before = found@;
        if !without.contains(&id) {
            found.insert(id, ());
        }
        proof {
            let short = from@.take(i as int);
            let long = from@.take(i + 1);
            assert(long =~= short.push(id));
            assert forall|x: u32| #[trigger] found@.dom().contains(x) <==> long.contains(x)
                && !without@.dom().contains(x) by {
                assert(before.dom().contains(x) <==> short.contains(x) && !without@.dom().contains(
                    x,
                ));
                if short.contains(x) {
                    let k = choose|k: int| 0 <= k < short.len() && short[k] == x;
                    assert(long[k] == x);
                }
                if x == id {
                    assert(long[i as int] == x);
                }
                if long.contains(x) && x != id {
                    let k = choose|k: int| 0 <= k < long.len() && long[k] == x;
                    assert(short[k] == x);
                }
            }
        }
        i += 1;
    }
    assert(from@.take(i as int) =~= from@);
    let mut out: Vec<u32> = Vec::new();
    let n = found.len();
    let ghost rows = found.rows();
    let mut k: usize = 0;
    while k < n
        invariant
            0 <= k <= n,
            rows == found.rows(),
            n == rows.len(),
            rising::<u32, ()>(rows),
            out@.len() == k,
            forall|j: int| 0 <= j < k ==> #[trigger] out@[j] == rows[j].0,
        decreases n - k,
    {
        out.push(*found.key_at(k));
        k += 1;
    }
    proof {
        assert forall|i: int, j: int| 0 <= i < j < out@.len() implies #[trigger] out@[i]
            < #[trigger] out@[j] by {
            assert(<u32 as TableKey>::before(rows[i].0, rows[j].0));
        }
        assert forall|x: u32| #[trigger] out@.contains(x) <==> from@.contains(x)
            && !without@.dom().contains(x) by {
            assert(found@.dom().contains(x) <==> from@.contains(x) && !without@.dom().contains(x));
            if found@.dom().contains(x) {
                let j = choose|j: int| 0 <= j < rows.len() && (#[trigger] rows[j]).0 == x;
                assert(out@[j] == x);
            }
            if out@.contains(x) {
                let j = choose|j: int| 0 <= j < out@.len() && out@[j] == x;
                assert(rows[j].0 == x);
            }
        }
    }
    out
}

fn key_set(ids: &Vec<u32>) -> (r: Table<u32, ()>)
    ensures
        r@.dom() == ids@.to_set(),
{
    let mut out: Table<u32, ()> = Table::new();
    let mut i: usize = 0;
    assert(out@.dom() =~= ids@.take(0).to_set());
    while i < ids.len()
        invariant
            0 <= i <= ids@.len(),
            out@.dom() == ids@.take(i as int).to_set(),
        decreases ids@.len() - i,
    {
        let ghost before = out@;
        out.insert(ids[i], ());
        proof {
            super::downloads::lemma_take_one_more(ids@, i as int);
            assert(out@.dom() =~= before.dom().insert(ids@[i as int]));
        }
        i += 1;
    }
    assert(ids@.take(i as int) =~= ids@);
    out
}

/// The numbers of a table, in order.
fn list_keys(table: &Table<u32, String>) -> (r: Vec<u32>)
    ensures
        r@ == Seq::new(table.rows().len(), |i: int| table.rows()[i].0),
{
    let mut out: Vec<u32> = Vec::new();
    let n = table.len();
    let mut i: usize = 0;
    while i < n
        invariant
            0 <= i <= n,
            n == table.rows().len(),
            out@ == Seq::new(i as nat, |j: int| table.rows()[j].0),
        decreases n - i,
    {
        out.push(*table.key_at(i));
        i += 1;
    }
    out
}

/// The items that are there are all listed.
pub proof fn lemma_items_there(a: App)
    ensures
        items_there(a).to_set() == a.downloaded@.dom(),
{
    let rows = a.downloaded.rows();
    let ids = items_there(a);
    assert forall|id: u32| ids.contains(id) <==> #[trigger] a.downloaded@.dom().contains(id) by {
        if ids.contains(id) {
            let i = choose|i: int| 0 <= i < ids.len() && ids[i] == id;
            assert(rows[i].0 == id);
        }
        if a.downloaded@.dom().contains(id) {
            let i = choose|i: int| 0 <= i < rows.len() && (#[trigger] rows[i]).0 == id;
            assert(ids[i] == id);
        }
    }
    assert(ids.to_set() =~= a.downloaded@.dom());
}

/// What is asked of the user before all that an item asks for is downloaded: what
/// was there when that was asked for is left out, and nothing else is.
pub proof fn what_is_there_is_not_downloaded_again(
    a: App,
    b: App,
    c: App,
    found: Seq<u32>,
    r: Seq<Action>,
)
    requires
        all_resolved(b, c, found, items_there(a), r),
    ensures
        (r.len() == 2 && r[1] is AwaitChoice) <==> exists|id: u32| #[trigger]
            found.contains(id) && !a.downloaded@.dom().contains(id),
        r.len() == 2 && r[1] is AwaitChoice ==> {
            &&& r[1]->AwaitChoice_1 is DownloadAll
            &&& forall|id: u32| #[trigger]
                r[1]->AwaitChoice_1->DownloadAll_0@.contains(id) <==> found.contains(id)
                    && !a.downloaded@.dom().contains(id)
        },
{
    lemma_items_there(a);
    let ids = choose|ids: Seq<u32>| #[trigger]
        rest_of(ids, found, items_there(a).to_set()) && if ids.len() == 0 {
            b == c && only_error(
                r,
                "Already Downloaded"@,
                "All dependencies listed by Steam have already been downloaded."@,
            )
        } else {
            downloads_asked(
                b,
                c,
                KeyModel::DownloadAllConfirm,
                "The following items have not been downloaded yet:\n"@ + join_texts(
                    item_names(b.index, ids),
                    "\n"@,
                ),
                ids,
                r,
            )
        };
    assert forall|id: u32| #[trigger]
        found.contains(id) && !a.downloaded@.dom().contains(id) implies ids.contains(id) by {
        assert(!items_there(a).to_set().contains(id));
    }
    if ids.len() > 0 {
        assert(ids.contains(ids[0]));
        assert(found.contains(ids[0]) && !a.downloaded@.dom().contains(ids[0]));
    }
}

impl App {
    /// A ticket for somebody who waits for a dialog.
    pub(crate) fn take_ticket(&mut self) -> (r: u64)
        ensures
            *final(self) == (App { next_ticket: next_of(old(self).next_ticket), ..*old(self) }),
            r == old(self).next_ticket,
    {
        let ticket: u64 = self.next_ticket;
        if ticket == u64::MAX {
            self.next_ticket = 0;
        } else {
            self.next_ticket = ticket + 1;
        }
        ticket
    }

    /// An item of the workshop is to be deleted.
    pub fn delete_requested(&mut self, id: u32) -> (r: Vec<Action>)
        ensures
            item_deleted(*old(self), *final(self), id, r@),
    {
        self.downloads.forget(id);
        let there = self.downloaded.remove(&id);
        let known = self.library.items.remove(&ModId::Workshop(id));
        let path = get_item_directory(self.settings.download_directory.as_str(), id);
        only(Action::RemoveItem(id, path))
    }

    /// A download is asked for.
    pub fn download_requested(&mut self, id: u32) -> (r: Vec<Action>)
        ensures
            download_requested(*old(self), *final(self), id, r@),
    {
        match self.downloads.request(id, self.login.logged_in) {
            Requested::NotLoggedIn => show_error(
                "Error: Not Logged In",
                "You must be logged in to steamcmd to download files.",
            ),
            Requested::Started => only(
                Action::Download(id, self.settings.automatic_download_retries),
            ),
            Requested::Nothing => nothing(),
            Requested::Queued => nothing(),
        }
    }

    fn item_title(&self, id: u32) -> (r: Option<String>)
        ensures
            match r {
                Some(title) => notifies(*self, id) && title@
                    == self.index.details@[ModIdModel::Workshop(id)].title_text(),
                None => !notifies(*self, id),
            },
    {
        if !self.settings.notify_progress {
            return None;
        }
        match self.index.details.get(&ModId::Workshop(id)) {
            Some(details) => Some(details.title().to_owned()),
            None => None,
        }
    }

    /// A download ended well.
    pub fn download_completed(&mut self, id: u32) -> (r: Vec<Action>)
        ensures
            download_completed(*old(self), *final(self), id, r@),
    {
        let title = self.item_title(id);
        self.downloads.complete(id);
        let mut out = only(Action::ScanDownloads);
        if let Some(title) = title {
            let summary = join_two("Downloaded ", title.as_str());
            out.push(Action::NotifyItem(id, summary, "Downloaded Completed".to_owned()));
        }
        let ghost told = out@;
        if self.downloads.queue_is_empty() {
            if self.settings.notify_on_download_complete {
                out.push(Action::NotifyAll(self.settings.notify_with_sound));
            }
            assert(out@.skip(told.len() as int) =~= if self.settings.notify_on_download_complete {
                seq![Action::NotifyAll(self.settings.notify_with_sound)]
            } else {
                Seq::empty()
            });
            return out;
        }
        let mut next = self.queue_downloads();
        let ghost begun = next@;
        out.append(&mut next);
        assert(out@.skip(told.len() as int) =~= begun);
        out
    }

    /// A download failed.
    pub fn download_errored(&mut self, id: u32, message: String) -> (r: Vec<Action>)
        ensures
            download_errored(*old(self), *final(self), id, message@, r@),
    {
        let mut out: Vec<Action> = Vec::new();
        if let Some(title) = self.item_title(id) {
            let summary = join_two("Error Downloading ", title.as_str());
            out.push(Action::NotifyItem(id, summary, message.clone()));
        }
        let ghost told = out@;
        self.downloads.fail(id, message);
        let mut next = self.queue_downloads();
        let ghost begun = next@;
        out.append(&mut next);
        assert(out@.skip(told.len() as int) =~= begun);
        out
    }

    /// A download got on.
    pub fn download_progress(&mut self, id: u32, size: u64) -> (r: Vec<Action>)
        requires
            progress_is_defined(*old(self), id, size),
        ensures
            download_progressed(*old(self), *final(self), id, size, r@),
    {
        if !self.downloads.progress(id, size) {
            return nothing();
        }
        if self.settings.notify_progress {
            if let Some(details) = self.index.details.get(&ModId::Workshop(id)) {
                if let ModDetails::Workshop(info) = details {
                    if let Some(total) = parse_unsigned_text(info.file_size.as_str(), u64::MAX) {
                        return only(
                            Action::NotifyProgress(
                                id,
                                info.title.clone(),
                                SizeDisplay::automatic_from(size, total),
                                SizeDisplay::automatic(total),
                            ),
                        );
                    }
                }
            }
        }
        nothing()
    }

    /// An item is to be downloaded with all that it asks for.
    pub fn download_all_requested(&self, id: u32) -> (r: Vec<Action>)
        ensures
            all_requested(*self, id, r@),
    {
        let there = list_keys(&self.downloaded);
        vec![
            busy_message("Resolving Dependencies..."),
            Action::ResolveDependencies(self.api_key.clone(), id, Some(there)),
            Action::Send(Message::SetBusy(false)),
        ]
    }

    fn ask_for_downloads(&mut self, key: AsyncDialogKey, body: String, ids: Vec<u32>) -> (r: Vec<
        Action,
    >)
        ensures
            downloads_asked(*old(self), *final(self), key@, body@, ids@, r@),
    {
        let ticket = self.take_ticket();
        let modal = question(key, "Download All?", body, AsyncDialogStrategy::Replace, ticket);
        vec![
            Action::Send(Message::OpenModal(modal)),
            Action::AwaitChoice(ticket, Outcome::DownloadAll(ids)),
        ]
    }

    /// It is known what an item asks for.
    pub fn download_all_resolved(&mut self, found: Vec<u32>, there: Vec<u32>) -> (r: Vec<Action>)
        ensures
            all_resolved(*old(self), *final(self), found@, there@, r@),
    {
        let set = key_set(&there);
        let ids = sorted_rest(&found, &set);
        let ghost chosen = ids@;
        assert(rest_of(chosen, found@, there@.to_set()));
        if ids.len() == 0 {
            return show_error(
                "Already Downloaded",
                "All dependencies listed by Steam have already been downloaded.",
            );
        }
        let list = list_items(&self.index, &ids, "\n");
        let body = join_two(
            "The following items have not been downloaded yet:\n",
            list.as_str(),
        );
        self.ask_for_downloads(AsyncDialogKey::DownloadAllConfirm, body, ids)
    }

    /// Several items are to be downloaded.
    pub fn download_multiple_requested(&mut self, wanted: Vec<u32>, there: Vec<u32>) -> (r: Vec<
        Action,
    >)
        ensures
            multiple_requested(*old(self), *final(self), wanted@, there@, r@),
    {
        let set = key_set(&there);
        let ids = sorted_rest(&wanted, &set);
        let ghost chosen = ids@;
        assert(rest_of(chosen, wanted@, there@.to_set()));
        let body = list_items(&self.index, &ids, ", ");
        self.ask_for_downloads(AsyncDialogKey::DownloadMultipleConfirm, body, ids)
    }

    /// The user wants the items to be downloaded.
    pub fn download_all_confirmed(&self, ids: Vec<u32>) -> (r: Vec<Action>)
        ensures
            r@ == request_each(ids@),
    {
        let mut out: Vec<Action> = Vec::new();
        let mut i: usize = 0;
        while i < ids.len()
            invariant
                0 <= i <= ids@.len(),
                out@.len() == i,
                forall|j: int| 0 <= j < i ==> #[trigger] out@[j] == request_each(ids@)[j],
            decreases ids@.len() - i,
        {
            out.push(Action::Send(Message::SteamCMDDownloadRequested(ids[i])));
            i += 1;
        }
        assert(out@ =~= request_each(ids@));
        out
    }

    /// Outdated items are to be downloaded.
    pub fn download_push_pending(&mut self, ids: &Vec<u32>) -> (r: Vec<Action>)
        ensures
            pending_pushed(*old(self), *final(self), ids@, r@),
    {
        match self.downloads.push_pending(ids, self.login.logged_in) {
            Some(id) => only(Action::Download(id, self.settings.automatic_download_retries)),
            None => nothing(),
        }
    }
}

/// How a download ended, for the program.
pub open spec fn download_outcome(id: u32, error: Option<String>, r: Seq<Action>) -> bool {
    match error {
        None => r == seq![Action::Send(Message::SteamCMDDownloadCompleted(id))],
        Some(text) => {
            &&& r.len() == 3
            &&& is_error(r[0], "Error Downloading "@ + decimal_text(id as nat), text@)
            &&& r[1] matches Action::Send(Message::SteamCMDDownloadErrored(n, t)) && n == id && t@
                == text@
            &&& r[2] == Action::Send(Message::SteamCMDDownloadCompleted(id))
        },
    }
}

/// What follows from how a download ended.
pub fn download_ended(id: u32, error: Option<String>) -> (r: Vec<Action>)
    ensures
        download_outcome(id, error, r@),
{
    match error {
        None => only(Action::Send(Message::SteamCMDDownloadCompleted(id))),
        Some(text) => {
            let number = decimal(id as u64);
            let title = join_two("Error Downloading ", number.as_str());
            vec![
                error_message(title.as_str(), text.as_str()),
                Action::Send(Message::SteamCMDDownloadErrored(id, text)),
                Action::Send(Message::SteamCMDDownloadCompleted(id)),
            ]
        },
    }
}

/// Whether an item is there: it is neither being downloaded nor waits for it, and
/// as much of it is there as the workshop says, or it is there at all where the
/// workshop does not say.
pub open spec fn is_there(a: App, id: u32, enough: bool, exists: bool) -> bool {
    !a.downloads@.is_downloading(id) && match total_of(a.index, id) {
        Some(_) => enough,
        None => exists,
    }
}

impl App {
    /// Whether an item is there. `enough` says whether its files have the size
    /// that is expected, within a tenth; `exists` whether its directory is there.
    pub fn item_downloaded(&self, id: u32, enough: bool, exists: bool) -> (r: bool)
        ensures
            r == is_there(*self, id, enough, exists),
    {
        if self.downloads.is_downloading(id) {
            return false;
        }
        if let Some(details) = self.index.details.get(&ModId::Workshop(id)) {
            if let ModDetails::Workshop(info) = details {
                if parse_unsigned_text(info.file_size.as_str(), u64::MAX).is_some() {
                    return enough;
                }
            }
        }
        exists
    }

    /// The directory of an item, where it was found before or `exists` says that
    /// it is there.
    pub fn get_item_directory(&mut self, id: u32, exists: bool) -> (r: Option<String>)
        ensures
            ({
                let path = item_path(old(self).settings.download_directory@, id);
                let before = old(self).downloaded@;
                let after = final(self).downloaded@;
                let known = before.dom().contains(id);
                &&& match r {
                    Some(found) => if known {
                        found@ == before[id]@
                    } else {
                        exists && found@ == path
                    },
                    None => !known && !exists,
                }
                &&& *final(self) == (App { downloaded: final(self).downloaded, ..*old(self) })
                &&& if !known && exists {
                    &&& after.dom() == before.dom().insert(id)
                    &&& after[id]@ == path
                    &&& forall|k: u32|
                        k != id && before.dom().contains(k) ==> #[trigger] after[k] == before[k]
                } else {
                    after == before
                }
            }),
    {
        if let Some(path) = self.downloaded.get(&id) {
            return Some(path.clone());
        }
        if exists {
            let path = get_item_directory(self.settings.download_directory.as_str(), id);
            self.downloaded.insert(id, path.clone());
            return Some(path);
        }
        None
    }
}

} // verus!
