//! What happens when the workshop is browsed.
use vstd::prelude::*;

use super::modal::AppModal;
use super::state::{nothing, only, Action, App, Message};
use crate::files::{ChildFile, ModDetails, WorkshopDetails};
use crate::library::missing::{parse_child, ModIndex};
use crate::numbers::parse_unsigned_text;
use crate::table::Table;
use crate::xcom_mod::ModId;
#[allow(unused_imports)]
use crate::browser::{at_least_one, BrowseModel};
#[allow(unused_imports)]
use crate::files::same_details;
#[allow(unused_imports)]
use crate::library::missing::child_number;
#[allow(unused_imports)]
use crate::numbers::unsigned_value;
#[allow(unused_imports)]
use crate::xcom_mod::ModIdModel;
#[allow(unused_imports)]
use vstd::utf8::encode_utf8;

verus! {

/// Whether nothing but what is browsed changed.
pub open spec fn only_browse(a: App, b: App) -> bool {
    b == (App { browse: b.browse, ..a })
}

pub open spec fn browse_page_set(a: App, b: App, new: u32, r: Seq<Action>) -> bool {
    &&& only_browse(a, b)
    &&& b.browse@ == (BrowseModel { page: at_least_one(new), ..a.browse@ })
    &&& r == if at_least_one(new) != a.browse@.page {
        seq![Action::Send(Message::BrowseUpdateQuery)]
    } else {
        Seq::empty()
    }
}

pub open spec fn query_submitted(a: App, b: App, r: Seq<Action>) -> bool {
    &&& only_browse(a, b)
    &&& b.browse@ == (BrowseModel { page: 1, ..a.browse@ })
    &&& r == seq![Action::Send(Message::BrowseUpdateQuery)]
}

/// What loading the page calls for.
pub open spec fn page_query(a: App, r: Seq<Action>) -> bool {
    &&& r.len() == 4
    &&& r[0] == Action::Send(Message::SetBusy(true))
    &&& r[1] matches Action::QueryMods(key, page, query, lifetime) && key@ == a.api_key@ && page
        == a.browse@.page && query@ == a.browse@.query && lifetime
        == a.settings.steam_webapi_cache_lifetime
    &&& r[2] == Action::ResetScroll
    &&& r[3] == Action::Send(Message::SetBusy(false))
}

/// The number of an item, if it is one.
pub open spec fn file_number(file: WorkshopDetails) -> Option<nat> {
    unsigned_value(encode_utf8(file.published_file_id@), u32::MAX as nat)
}

/// What is known after the workshop told about an item. What was known already stays
/// as it was, and what could not be kept on disk does not become known.
pub open spec fn noted(
    details: Map<ModIdModel, ModDetails>,
    file: WorkshopDetails,
    kept: Seq<u32>,
) -> Map<ModIdModel, ModDetails> {
    match file_number(file) {
        Some(n) => if details.dom().contains(ModIdModel::Workshop(n as u32)) || !kept.contains(
            n as u32,
        ) {
            details
        } else {
            details.insert(ModIdModel::Workshop(n as u32), ModDetails::Workshop(file))
        },
        None => details,
    }
}

/// What is known after the workshop told about items.
pub open spec fn indexed(
    details: Map<ModIdModel, ModDetails>,
    files: Seq<WorkshopDetails>,
    kept: Seq<u32>,
) -> Map<ModIdModel, ModDetails>
    decreases files.len(),
{
    if files.len() == 0 {
        details
    } else {
        noted(indexed(details, files.drop_last(), kept), files.last(), kept)
    }
}

/// What showing an image calls for: nothing, where there is none or it is there.
pub open spec fn image_action(url: String, images: Set<Seq<char>>) -> Seq<Action> {
    if url@.len() == 0 || images.contains(url@) {
        Seq::empty()
    } else {
        seq![Action::LoadImage(url)]
    }
}

pub open spec fn image_actions(files: Seq<WorkshopDetails>, images: Set<Seq<char>>) -> Seq<Action>
    decreases files.len(),
{
    if files.len() == 0 {
        Seq::empty()
    } else {
        image_actions(files.drop_last(), images) + image_action(files.last().preview_url, images)
    }
}

/// Whether nothing but what is known of the mods changed.
pub open spec fn only_details(a: App, b: App) -> bool {
    b == (App {
        index: ModIndex { details: b.index.details, ..a.index },
        loaded_files: b.loaded_files,
        browse: b.browse,
        ..a
    })
}

pub open spec fn files_resolved(
    a: App,
    b: App,
    files: Seq<WorkshopDetails>,
    kept: Seq<u32>,
    r: Seq<Action>,
) -> bool {
    &&& b == (App { index: ModIndex { details: b.index.details, ..a.index }, ..a })
    &&& b.index.details@ == indexed(a.index.details@, files, kept)
    &&& r == image_actions(files, a.images@.dom())
}

/// Whether two pages say the same.
pub open spec fn are_copies(a: Seq<WorkshopDetails>, b: Seq<WorkshopDetails>) -> bool {
    &&& a.len() == b.len()
    &&& forall|i: int| 0 <= i < a.len() ==> same_details(#[trigger] a[i], b[i])
}

pub open spec fn files_loaded(
    a: App,
    b: App,
    total: u32,
    files: Seq<WorkshopDetails>,
    kept: Seq<u32>,
    r: Seq<Action>,
) -> bool {
    &&& only_details(a, b)
    &&& b.index.details@ == indexed(a.index.details@, files, kept)
    &&& are_copies(b.loaded_files@, files)
    &&& b.browse@ == (BrowseModel {
        page_max: (total as int / a.query_page_size as int + 1) as u32,
        ..a.browse@
    })
    &&& r == image_actions(files, a.images@.dom())
}

/// Whether the items that a page asks for all have numbers.
pub open spec fn children_have_numbers(index: ModIndex, id: ModIdModel) -> bool {
    forall|i: int|
        0 <= i < index.children_of(id).len() ==> child_number(#[trigger] index.children_of(id)[i])
            is Some
}

/// The items that a page asks for and nothing is known of.
pub open spec fn unknown_children(index: ModIndex, children: Seq<ChildFile>) -> Seq<u32>
    decreases children.len(),
{
    if children.len() == 0 {
        Seq::empty()
    } else {
        let front = unknown_children(index, children.drop_last());
        match child_number(children.last()) {
            Some(n) => if index.details@.dom().contains(ModIdModel::Workshop(n as u32)) {
                front
            } else {
                front.push(n as u32)
            },
            None => front,
        }
    }
}

/// Whether an action asks for a description to be turned into markdown.
pub open spec fn is_markup(action: Action, text: Seq<char>) -> bool {
    action matches Action::CacheMarkup(t) && t@ == text
}

/// Whether an action asks the background task about items.
pub open spec fn is_resolve(action: Action, ids: Seq<u32>) -> bool {
    action matches Action::RequestResolve(n) && n@ == ids
}

pub open spec fn item_viewed(a: App, b: App, id: ModId, r: Seq<Action>) -> bool {
    let details = a.index.details@;
    &&& b == (App { modal_stack: b.modal_stack, ..a })
    &&& b.modal_stack@ == a.modal_stack@.push(AppModal::ItemDetailedView(id))
    &&& if details.dom().contains(id@) && details[id@] is Workshop {
        let info = details[id@]->Workshop_0;
        let unknown = unknown_children(a.index, info.children@);
        let image = image_action(info.preview_url, a.images@.dom());
        &&& r.len() > 0
        &&& is_markup(r[0], details[id@].description_text())
        &&& if unknown.len() > 0 && a.resolver {
            &&& r.len() == 2 + image.len()
            &&& is_resolve(r[1], unknown)
            &&& r.skip(2) == image
        } else {
            r.skip(1) == image
        }
    } else if id is Workshop && a.resolver {
        r.len() == 1 && is_resolve(r[0], seq![id->Workshop_0])
    } else if details.dom().contains(id@) {
        r.len() == 1 && is_markup(r[0], details[id@].description_text())
    } else {
        r.len() == 0
    }
}

pub open spec fn api_key_updated(a: App, b: App, key: Seq<char>) -> bool {
    &&& b == (App {
        api_key: b.api_key,
        settings: b.settings,
        settings_editing: b.settings_editing,
        ..a
    })
    &&& b.api_key@ == key
    &&& b.settings == (crate::app::settings::AppSettings {
        steam_webapi_api_key: b.settings.steam_webapi_api_key,
        ..a.settings
    })
    &&& b.settings.steam_webapi_api_key@ == key
    &&& b.settings_editing == (crate::app::settings::AppSettings {
        steam_webapi_api_key: b.settings_editing.steam_webapi_api_key,
        ..a.settings_editing
    })
    &&& b.settings_editing.steam_webapi_api_key@ == key
}

/// What follows from a key that was submitted. It is kept only where the user wants
/// it to be.
pub open spec fn api_key_submitted(a: App, b: App, r: Seq<Action>) -> bool {
    if a.api_key@.len() == 0 {
        a == b && r.len() == 0
    } else {
        &&& b == (App { modal_stack: b.modal_stack, ..a })
        &&& b.modal_stack@.len() == 0
        &&& r == if a.settings.steam_webapi_save_api_key {
            seq![Action::StoreApiKey(a.api_key)]
        } else {
            seq![Action::TellApiKey(a.api_key)]
        }
    }
}

fn note_file(details: &mut Table<ModId, ModDetails>, file: WorkshopDetails, kept: &Vec<u32>)
    ensures
        final(details)@ == noted(old(details)@, file, kept@),
{
    if let Some(n) = parse_file(&file) {
        if !details.contains(&ModId::Workshop(n)) && holds_number(kept, n) {
            details.insert(ModId::Workshop(n), ModDetails::Workshop(file));
        }
    }
}

/// Whether a number is among others.
pub(crate) fn holds_number(ids: &Vec<u32>, id: u32) -> (r: bool)
    ensures
        r == ids@.contains(id),
{
    let mut i: usize = 0;
    while i < ids.len()
        invariant
            0 <= i <= ids@.len(),
            forall|j: int| 0 <= j < i ==> ids@[j] != id,
        decreases ids@.len() - i,
    {
        if ids[i] == id {
            return true;
        }
        i += 1;
    }
    false
}

fn show_image(images: &Table<String, ()>, url: &String) -> (r: Vec<Action>)
    ensures
        r@ == image_action(*url, images@.dom()),
{
    if url.as_str().is_empty() || images.contains(url) {
        return nothing();
    }
    only(Action::LoadImage(url.clone()))
}

fn index_all(
    details: &mut Table<ModId, ModDetails>,
    images: &Table<String, ()>,
    files: Vec<WorkshopDetails>,
    kept: &Vec<u32>,
) -> (r: Vec<Action>)
    ensures
        final(details)@ == indexed(old(details)@, files@, kept@),
        r@ == image_actions(files@, images@.dom()),
{
    let ghost all = files@;
    let mut rest = files;
    let mut actions: Vec<Action> = Vec::new();
    let ghost mut seen: int = 0;
    assert(all.skip(0) =~= all);
    assert(actions@ =~= image_actions(all.take(0), images@.dom()));
    while rest.len() > 0
        invariant
            0 <= seen <= all.len(),
            rest@ == all.skip(seen),
            details@ == indexed(old(details)@, all.take(seen), kept@),
            actions@ == image_actions(all.take(seen), images@.dom()),
        decreases rest@.len(),
    {
        proof {
            assert(all.take(seen + 1).drop_last() =~= all.take(seen));
            assert(all.take(seen + 1).last() == all[seen]);
            assert(all.skip(seen)[0] == all[seen]);
        }
        let file = rest.remove(0);
        assert(rest@ =~= all.skip(seen + 1));
        let mut image = show_image(images, &file.preview_url);
        actions.append(&mut image);
        note_file(details, file, kept);
        proof {
            seen = seen + 1;
        }
    }
    assert(all.take(seen) =~= all);
    actions
}

fn copy_files(files: &Vec<WorkshopDetails>) -> (r: Vec<WorkshopDetails>)
    ensures
        are_copies(r@, files@),
{
    let mut out: Vec<WorkshopDetails> = Vec::new();
    let mut i: usize = 0;
    while i < files.len()
        invariant
            0 <= i <= files@.len(),
            out@.len() == i,
            forall|j: int| 0 <= j < i ==> same_details(#[trigger] out@[j], files@[j]),
        decreases files@.len() - i,
    {
        out.push(files[i].copy());
        i += 1;
    }
    out
}

fn parse_file(file: &WorkshopDetails) -> (r: Option<u32>)
    ensures
        match r {
            Some(n) => file_number(*file) == Some(n as nat),
            None => file_number(*file) is None,
        },
{
    match parse_unsigned_text(file.published_file_id.as_str(), u32::MAX as u64) {
        Some(n) => Some(n as u32),
        None => None,
    }
}

impl App {
    /// What showing an image calls for.
    pub fn cache_item_image(&self, url: &String) -> (r: Vec<Action>)
        ensures
            r@ == image_action(*url, self.images@.dom()),
    {
        show_image(&self.images, url)
    }

    /// An image was loaded.
    pub fn image_loaded(&mut self, url: String)
        ensures
            *final(self) == (App { images: final(self).images, ..*old(self) }),
            final(self).images@ == old(self).images@.insert(url@, ()),
    {
        self.images.insert(url, ());
    }

    /// Goes to a page of the workshop.
    pub fn set_browse_page(&mut self, new: u32) -> (r: Vec<Action>)
        ensures
            browse_page_set(*old(self), *final(self), new, r@),
    {
        if self.browse.set_page(new) {
            only(Action::Send(Message::BrowseUpdateQuery))
        } else {
            nothing()
        }
    }

    /// Begins a search.
    pub fn browse_submit_query(&mut self) -> (r: Vec<Action>)
        ensures
            query_submitted(*old(self), *final(self), r@),
    {
        self.browse.submit();
        only(Action::Send(Message::BrowseUpdateQuery))
    }

    /// Loads the page.
    pub fn browse_update_query(&self) -> (r: Vec<Action>)
        ensures
            page_query(*self, r@),
    {
        vec![
            Action::Send(Message::SetBusy(true)),
            Action::QueryMods(
                self.api_key.clone(),
                self.browse.browsing_page,
                self.browse.browsing_query.copy(),
                self.settings.steam_webapi_cache_lifetime,
            ),
            Action::ResetScroll,
            Action::Send(Message::SetBusy(false)),
        ]
    }

    /// Notes what the workshop told about items.
    fn index_files(&mut self, files: Vec<WorkshopDetails>, kept: &Vec<u32>) -> (r: Vec<Action>)
        ensures
            files_resolved(*old(self), *final(self), files@, kept@, r@),
    {
        index_all(&mut self.index.details, &self.images, files, kept)
    }

    /// The background task found out about items. `kept` are the numbers of those that
    /// were kept on disk.
    pub fn background_resolved(&mut self, files: Vec<WorkshopDetails>, kept: &Vec<u32>) -> (r:
        Vec<Action>)
        ensures
            files_resolved(*old(self), *final(self), files@, kept@, r@),
    {
        self.index_files(files, kept)
    }

    /// A page of the workshop was loaded.
    pub fn query_files_loaded(
        &mut self,
        total: u32,
        files: Vec<WorkshopDetails>,
        kept: &Vec<u32>,
    ) -> (r: Vec<Action>)
        requires
            old(self).query_page_size > 1,
        ensures
            files_loaded(*old(self), *final(self), total, files@, kept@, r@),
    {
        let shown = copy_files(&files);
        let actions = self.index_files(files, kept);
        self.loaded_files = shown;
        self.browse.loaded(total, self.query_page_size);
        actions
    }

    /// Shows a mod.
    pub fn set_viewing_item(&mut self, id: ModId) -> (r: Vec<Action>)
        requires
            children_have_numbers(old(self).index, id@),
        ensures
            item_viewed(*old(self), *final(self), id, r@),
    {
        let ghost start = *self;
        let mut out: Vec<Action> = Vec::new();
        match self.index.details.get(&id) {
            Some(details) => {
                match details {
                    ModDetails::Workshop(info) => {
                        out.push(Action::CacheMarkup(details.get_description()));
                        let unknown = find_unknown(&self.index, &info.children);
                        let ghost prefix: int = if unknown@.len() > 0 && self.resolver {
                            2
                        } else {
                            1
                        };
                        if unknown.len() > 0 && self.resolver {
                            out.push(Action::RequestResolve(unknown));
                        }
                        let mut image = self.cache_item_image(&info.preview_url);
                        let ghost shown = image@;
                        out.append(&mut image);
                        assert(out@.skip(prefix) =~= shown);
                    },
                    ModDetails::Local(_) => {
                        if self.resolver && id.maybe_workshop().is_some() {
                            if let Some(n) = id.maybe_workshop() {
                                let ids = vec![n];
                                assert(ids@ =~= seq![n]);
                                out.push(Action::RequestResolve(ids));
                            }
                        } else {
                            out.push(Action::CacheMarkup(details.get_description()));
                        }
                    },
                }
            },
            None => {
                if self.resolver {
                    if let Some(n) = id.maybe_workshop() {
                        let ids = vec![n];
                        assert(ids@ =~= seq![n]);
                        out.push(Action::RequestResolve(ids));
                    }
                }
            },
        }
        self.modal_stack.push(AppModal::ItemDetailedView(id));
        out
    }

    /// The key for the web interface of Steam was entered.
    pub fn api_key_request_update(&mut self, key: String)
        ensures
            api_key_updated(*old(self), *final(self), key@),
    {
        self.settings.steam_webapi_api_key = key.clone();
        self.settings_editing.steam_webapi_api_key = key.clone();
        self.api_key = key;
    }

    /// The key for the web interface of Steam was submitted.
    pub fn api_key_submit(&mut self) -> (r: Vec<Action>)
        ensures
            api_key_submitted(*old(self), *final(self), r@),
    {
        if self.api_key.as_str().is_empty() {
            return nothing();
        }
        self.modal_stack = Vec::new();
        let key = self.api_key.clone();
        if self.settings.steam_webapi_save_api_key {
            only(Action::StoreApiKey(key))
        } else {
            only(Action::TellApiKey(key))
        }
    }
}

fn find_unknown(index: &ModIndex, children: &Vec<ChildFile>) -> (r: Vec<u32>)
    ensures
        r@ == unknown_children(*index, children@),
{
    let mut out: Vec<u32> = Vec::new();
    let mut i: usize = 0;
    while i < children.len()
        invariant
            0 <= i <= children@.len(),
            out@ == unknown_children(*index, children@.take(i as int)),
        decreases children@.len() - i,
    {
        proof {
            assert(children@.take(i + 1).drop_last() =~= children@.take(i as int));
            assert(children@.take(i + 1).last() == children@[i as int]);
        }
        if let Some(n) = parse_child(&children[i]) {
            if !index.details.contains(&ModId::Workshop(n)) {
                out.push(n);
            }
        }
        i += 1;
    }
    assert(children@.take(i as int) =~= children@);
    out
}

/// What is known of an item stays as it is, whatever the workshop tells later.
pub proof fn what_is_known_stays(
    details: Map<ModIdModel, ModDetails>,
    files: Seq<WorkshopDetails>,
    kept: Seq<u32>,
    id: ModIdModel,
)
    requires
        details.dom().contains(id),
    ensures
        indexed(details, files, kept).dom().contains(id),
        indexed(details, files, kept)[id] == details[id],
    decreases files.len(),
{
    if files.len() > 0 {
        what_is_known_stays(details, files.drop_last(), kept, id);
    }
}

/// Of an item that nothing was known of, something is known only after it was kept on
/// disk.
pub proof fn only_what_is_kept_becomes_known(
    details: Map<ModIdModel, ModDetails>,
    files: Seq<WorkshopDetails>,
    kept: Seq<u32>,
    id: ModIdModel,
)
    requires
        !details.dom().contains(id),
        indexed(details, files, kept).dom().contains(id),
    ensures
        id is Workshop && kept.contains(id->Workshop_0),
    decreases files.len(),
{
    if files.len() > 0 && indexed(details, files.drop_last(), kept).dom().contains(id) {
        only_what_is_kept_becomes_known(details, files.drop_last(), kept, id);
    }
}

} // verus!
