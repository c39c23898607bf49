//! How the program begins.
use vstd::prelude::*;

use super::downloads::Downloads;
use super::settings::AppSettings;
use super::state::{
    error_message, nothing, only, Action, App, AppPage, AppSave, CollectionsState, Login, Message,
};
use crate::browser::Browse;
use crate::library::missing::ModIndex;
use crate::library::profile::Profile;
use crate::library::Library;
use crate::numbers::parse_unsigned_text;
use crate::table::Table;
use crate::text::join_two;
use crate::web::{WorkshopSort, WorkshopTrendPeriod};
#[allow(unused_imports)]
use super::downloads::DownloadsModel;
#[allow(unused_imports)]
use super::state::is_error;
#[allow(unused_imports)]
use crate::browser::BrowseModel;
#[allow(unused_imports)]
use crate::extensions::string_views;
#[allow(unused_imports)]
use crate::files::ModDetails;
#[allow(unused_imports)]
use crate::mod_edit::option_text;
#[allow(unused_imports)]
use crate::numbers::unsigned_value;
#[allow(unused_imports)]
use crate::web::QueryModel;
#[allow(unused_imports)]
use crate::xcom_mod::{ModIdModel, ModMetadata};
#[allow(unused_imports)]
use vstd::utf8::encode_utf8;

verus! {

/// Why something that was kept could not be read.
#[derive(Debug, Clone, Copy, PartialEq, Eq, Structural)]
pub enum LoadFailure {
    /// It is not there.
    NotFound,
    /// It is there and could not be read, and whether it was copied aside.
    Unreadable(bool),
}

/// What the user is told of it.
pub open spec fn load_text(name: Seq<char>, backup: Seq<char>, failure: LoadFailure) -> Option<
    Seq<char>,
> {
    match failure {
        LoadFailure::NotFound => None,
        LoadFailure::Unreadable(true) => Some(
            "Failed to load "@ + name + ", original has been backed up to "@ + backup + "."@,
        ),
        LoadFailure::Unreadable(false) => Some(
            "Failed to load "@ + name + " and could not automatically create a backup at "@ + backup
                + ", "@ + name
                + " will be lost if you do not back it up manually before closing LXCOMM."@,
        ),
    }
}

/// What the user is told when something that was kept could not be read. Where
/// it is not there, the program begins anew.
pub fn load_report(name: &str, source: &str, failure: LoadFailure) -> (r: Option<String>)
    ensures
        option_text(r) == load_text(name@, source@ + ".bak"@, failure),
{
    let backup = join_two(source, ".bak");
    match failure {
        LoadFailure::NotFound => None,
        LoadFailure::Unreadable(copied) => {
            let a = join_two("Failed to load ", name);
            if copied {
                let b = join_two(a.as_str(), ", original has been backed up to ");
                let c = join_two(b.as_str(), backup.as_str());
                Some(join_two(c.as_str(), "."))
            } else {
                let b = join_two(a.as_str(), " and could not automatically create a backup at ");
                let c = join_two(b.as_str(), backup.as_str());
                let d = join_two(c.as_str(), ", ");
                let e = join_two(d.as_str(), name);
                Some(
                    join_two(
                        e.as_str(),
                        " will be lost if you do not back it up manually before closing LXCOMM.",
                    ),
                )
            }
        },
    }
}

/// The name of a profile that was kept under a number: a name that is itself a
/// number gets a prefix, so that it is not taken for that of another profile.
pub open spec fn migrated(name: Seq<char>) -> Seq<char> {
    if unsigned_value(encode_utf8(name), u64::MAX as nat) is Some {
        "Profile_"@ + name
    } else {
        name
    }
}

/// The name of a profile that was kept under a number.
pub fn migrated_name(name: String) -> (r: String)
    ensures
        r@ == migrated(name@),
{
    if parse_unsigned_text(name.as_str(), u64::MAX).is_some() {
        join_two("Profile_", name.as_str())
    } else {
        name
    }
}

/// The profiles that are known, with those that were kept in another way.
pub open spec fn known_with(known: Set<Seq<char>>, names: Seq<Seq<char>>) -> Set<Seq<char>>
    decreases names.len(),
{
    if names.len() == 0 {
        known
    } else {
        known_with(known, names.drop_last()).insert(names.last())
    }
}

/// Notes profiles that were kept in another way.
pub fn migrate_profiles(known: &mut Table<String, ()>, names: &Vec<String>)
    ensures
        final(known)@.dom() == known_with(old(known)@.dom(), string_views(names@)),
{
    let ghost all = string_views(names@);
    let mut i: usize = 0;
    while i < names.len()
        invariant
            0 <= i <= names@.len(),
            all == string_views(names@),
            known@.dom() == known_with(old(known)@.dom(), all.take(i as int)),
        decreases names@.len() - i,
    {
        proof {
            assert(all.take(i + 1).drop_last() =~= all.take(i as int));
            assert(all.take(i + 1).last() == names@[i as int]@);
        }
        let ghost before = known@;
        known.insert(names[i].clone(), ());
        assert(known@.dom() =~= before.dom().insert(names@[i as int]@));
        i += 1;
    }
    assert(all.take(i as int) =~= all);
}

/// Whether the directory of a profile is moved to its new place.
pub fn moves_profile(old_exists: bool, new_exists: bool) -> (r: bool)
    ensures
        r == (old_exists && !new_exists),
{
    old_exists && !new_exists
}

/// What came of asking for the key of the web interface of Steam.
#[derive(Debug)]
pub enum KeyResult {
    Found(String),
    NoEntry,
    Failed(String),
}

pub open spec fn key_loaded(a: App, b: App, result: KeyResult, r: Seq<Action>) -> bool {
    let ask = Action::Send(Message::ApiKeyRequest);
    if !a.settings.steam_webapi_save_api_key {
        a == b && r == seq![ask]
    } else {
        match result {
            KeyResult::Found(key) => if key@.len() == 0 {
                a == b && r == seq![ask]
            } else {
                &&& super::on_browse::api_key_updated(a, b, key@)
                &&& r == if a.settings.check_updates_on_startup {
                    seq![Action::Send(Message::LibraryForceCheckOutdated)]
                } else {
                    Seq::empty()
                }
            },
            KeyResult::NoEntry => a == b && r == seq![ask],
            KeyResult::Failed(text) => {
                &&& a == b
                &&& r.len() == 2
                &&& r[0] == ask
                &&& is_error(r[1], "Error Loading API Key"@, text@)
            },
        }
    }
}

pub open spec fn are_errors(r: Seq<Action>, texts: Seq<Seq<char>>) -> bool {
    &&& r.len() == texts.len()
    &&& forall|i: int| 0 <= i < r.len() ==> is_error(#[trigger] r[i], "Startup Error"@, texts[i])
}

/// What the program begins with.
pub struct Kept {
    pub settings: AppSettings,
    pub save: AppSave,
    pub password: String,
    pub profiles: Table<String, Profile>,
    pub data_dir: String,
    pub profiles_dir: String,
    pub profile_data_name: String,
    pub query_page_size: u32,
}

/// The state in which the program begins.
pub open spec fn begun(
    app: App,
    kept: Kept,
    sort: WorkshopSort,
    period: WorkshopTrendPeriod,
) -> bool {
    let browse = BrowseModel {
        page: 0,
        page_max: 0,
        query: QueryModel { query: Seq::empty(), sort, tags: Set::empty() },
        period,
        tags_open: false,
    };
    &&& app.api_key@.len() == 0
    &&& app.current_page == AppPage::Main
    &&& app.modal_stack@.len() == 0
    &&& app.browse@ == browse
    &&& app.loaded_files@.len() == 0
    &&& app.login.username == kept.save.username
    &&& app.login.password == kept.password
    &&& app.login.code@.len() == 0
    &&& app.login.is_cached
    &&& !app.login.session
    &&& !app.login.logged_in
    &&& !app.login.killed
    &&& !app.login.shared
    &&& app.settings == kept.settings
    &&& app.settings_editing@ == kept.settings@
    &&& app.save == kept.save
    &&& app.images@ == Map::<Seq<char>, ()>::empty()
    &&& app.downloads@ == (DownloadsModel {
        queue: Seq::empty(),
        pending: Map::empty(),
        ongoing: None,
        completed: Set::empty(),
        errored: Map::empty(),
    })
    &&& app.downloaded@ == Map::<u32, String>::empty()
    &&& app.local@ == Map::<ModIdModel, ()>::empty()
    &&& app.library.items@ == Map::<ModIdModel, crate::library::LibraryItem>::empty()
    &&& app.library.compatibility@ == Map::<ModIdModel, crate::xcom_mod::ModCompatibility>::empty()
    &&& app.library.missing_dependencies@ == Map::<ModIdModel, Vec<String>>::empty()
    &&& !app.library.filter_fuzzy
    &&& app.library.filter_query@.len() == 0
    &&& app.data_dir == kept.data_dir
    &&& app.profiles_dir == kept.profiles_dir
    &&& app.profile_data_name == kept.profile_data_name
    &&& app.query_page_size == kept.query_page_size
    &&& app.next_ticket == 0
    &&& app.profiles == kept.profiles
    &&& app.index.details@ == Map::<ModIdModel, ModDetails>::empty()
    &&& app.index.metadata@ == Map::<ModIdModel, ModMetadata>::empty()
    &&& app.steamcmd_log@.len() == 0
    &&& app.launch_log@.len() == 0
    &&& app.profile_add_name@.len() == 0
    &&& app.selected_profile_name is None
    &&& app.collections.loaded_web_collections@.len() == 0
    &&& app.collections.browse@ == browse
    &&& !app.resolver
}

impl App {
    /// The state in which the program begins.
    pub fn boot(kept: Kept, sort: WorkshopSort, period: WorkshopTrendPeriod) -> (r: App)
        ensures
            begun(r, kept, sort, period),
    {
        let editing = kept.settings.copy();
        App {
            api_key: String::new(),
            current_page: AppPage::Main,
            modal_stack: Vec::new(),
            browse: Browse::new(sort, period),
            loaded_files: Vec::new(),
            login: Login {
                username: kept.save.username.clone(),
                password: kept.password,
                code: String::new(),
                is_cached: true,
                session: false,
                logged_in: false,
                killed: false,
                shared: false,
            },
            settings: kept.settings,
            settings_editing: editing,
            data_dir: kept.data_dir,
            profiles_dir: kept.profiles_dir,
            profile_data_name: kept.profile_data_name,
            save: kept.save,
            images: Table::new(),
            downloads: Downloads::default(),
            downloaded: Table::new(),
            local: Table::new(),
            library: Library::default(),
            profiles: kept.profiles,
            index: ModIndex { metadata: Table::new(), details: Table::new() },
            steamcmd_log: String::new(),
            launch_log: String::new(),
            profile_add_name: String::new(),
            selected_profile_name: None,
            collections: CollectionsState {
                loaded_web_collections: Vec::new(),
                browse: Browse::new(sort, period),
            },
            query_page_size: kept.query_page_size,
            resolver: false,
            next_ticket: 0,
        }
    }

    /// It is known whether there is a key of the web interface of Steam.
    pub fn boot_api_key(&mut self, result: KeyResult) -> (r: Vec<Action>)
        ensures
            key_loaded(*old(self), *final(self), result, r@),
    {
        if !self.settings.steam_webapi_save_api_key {
            return only(Action::Send(Message::ApiKeyRequest));
        }
        match result {
            KeyResult::Found(key) => {
                if key.as_str().is_empty() {
                    return only(Action::Send(Message::ApiKeyRequest));
                }
                let check = self.settings.check_updates_on_startup;
                self.api_key_request_update(key);
                if check {
                    only(Action::Send(Message::LibraryForceCheckOutdated))
                } else {
                    nothing()
                }
            },
            KeyResult::NoEntry => only(Action::Send(Message::ApiKeyRequest)),
            KeyResult::Failed(text) => vec![
                Action::Send(Message::ApiKeyRequest),
                error_message("Error Loading API Key", text.as_str()),
            ],
        }
    }

    /// Whether the program logs in at its beginning.
    pub fn boot_login(&self) -> (r: Vec<Action>)
        ensures
            r@ == if self.settings.steamcmd_login_on_startup && self.save.username@.len() > 0 {
                seq![Action::Send(Message::SteamCMDLogin(false))]
            } else {
                Seq::empty()
            },
    {
        if self.settings.steamcmd_login_on_startup && !self.save.username.as_str().is_empty() {
            only(Action::Send(Message::SteamCMDLogin(false)))
        } else {
            nothing()
        }
    }
}

/// What went wrong at the beginning is shown.
pub fn boot_errors(texts: &Vec<String>) -> (r: Vec<Action>)
    ensures
        are_errors(r@, string_views(texts@)),
{
    let mut out: Vec<Action> = Vec::new();
    let mut i: usize = 0;
    while i < texts.len()
        invariant
            0 <= i <= texts@.len(),
            out@.len() == i,
            forall|j: int|
                0 <= j < i ==> is_error(
                    #[trigger] out@[j],
                    "Startup Error"@,
                    string_views(texts@)[j],
                ),
        decreases texts@.len() - i,
    {
        out.push(error_message("Startup Error", texts[i].as_str()));
        i += 1;
    }
    out
}

/// A migrated profile is never named by a number alone.
pub proof fn migrated_names_are_no_numbers(name: Seq<char>)
    ensures
        unsigned_value(encode_utf8(migrated(name)), u64::MAX as nat) is None,
{
    if unsigned_value(encode_utf8(name), u64::MAX as nat) is Some {
        reveal_strlit("Profile_");
        let whole = "Profile_"@ + name;
        lemma_begins_with_letter(whole);
    }
}

proof fn lemma_begins_with_letter(text: Seq<char>)
    requires
        text.len() > 0,
        text[0] == 'P',
    ensures
        unsigned_value(encode_utf8(text), u64::MAX as nat) is None,
{
    let scalar = 'P' as u32;
    assert(scalar == 0x50);
    assert((0x50u32 & 0x7f) as u8 == 0x50u8) by (bit_vector);
    assert(encode_utf8(text) == vstd::utf8::encode_scalar(scalar) + encode_utf8(
        text.drop_first(),
    ));
    assert(encode_utf8(text)[0] == vstd::utf8::encode_scalar(scalar)[0]);
}

} // verus!
