//! What happens to the profiles.
use vstd::prelude::*;

use super::modal::{AppModal, AsyncDialogKey, AsyncDialogStrategy};
use super::on_download::question;
use super::on_library::take_profile;
use super::on_modal::pop_modal;
use super::state::{
    nothing, only, push_modal, show_error, Action, App, AppSave, Message, Outcome,
};
use crate::files::ModDetails;
use crate::library::profile::{Profile, ProfileSettings};
use crate::library::LibraryItemSettings;
use crate::loading::{CHARACTER_POOL, PHOTOBOOTH, SAVE_DATA};
use crate::paths::join;
use crate::table::{Table, TableKey};
use crate::text::{join_two, same_text};
use crate::xcom_mod::ModId;
#[allow(unused_imports)]
use crate::library::CompatibilityIssue;
#[allow(unused_imports)]
use super::modal::KeyModel;
#[allow(unused_imports)]
use super::on_download::{is_question, next_of};
#[allow(unused_imports)]
use super::on_modal::popped;
#[allow(unused_imports)]
use super::state::{only_error, with_modal};
#[allow(unused_imports)]
use crate::library::missing::{dependencies_noted, ModIndex};
#[allow(unused_imports)]
use crate::library::profile::{id_models, issues_noted};
#[allow(unused_imports)]
use crate::library::row_keys;
#[allow(unused_imports)]
use crate::loading::CONFIG;
#[allow(unused_imports)]
use crate::mod_edit::option_text;
#[allow(unused_imports)]
use crate::paths::joined;
#[allow(unused_imports)]
use crate::xcom_mod::ModIdModel;

verus! {

pub open spec fn add_completed(
    a: App,
    b: App,
    submitted: bool,
    invalid: Option<String>,
    r: Seq<Action>,
) -> bool {
    let name = a.profile_add_name;
    if !submitted {
        &&& b == (App { modal_stack: b.modal_stack, ..a })
        &&& b.modal_stack@ == popped(a.modal_stack@)
        &&& r.len() == 0
    } else if name@.len() == 0 {
        a == b && r.len() == 0
    } else if a.profiles@.dom().contains(name@) {
        a == b && only_error(r, "Error"@, "Profile with this name already exists!"@)
    } else if invalid is Some {
        a == b && only_error(r, "Invalid Name"@, invalid->Some_0@)
    } else {
        a == b && r == seq![Action::CreateProfile(name)]
    }
}

/// Whether a profile is one without mods.
pub open spec fn is_new_profile(profile: Profile, name: String, settings: ProfileSettings) -> bool {
    &&& profile.id == 0
    &&& profile.name == name
    &&& profile.items@ == Map::<ModIdModel, LibraryItemSettings>::empty()
    &&& !profile.add_selected
    &&& profile.view_selected_item is None
    &&& profile.compatibility_issues@ == Map::<ModIdModel, Vec<CompatibilityIssue>>::empty()
    &&& profile.settings == settings
    &&& profile.settings_editing == settings
}

pub open spec fn profile_made(a: App, b: App, name: String, settings: ProfileSettings) -> bool {
    &&& b == (App {
        profiles: b.profiles,
        save: AppSave { tracked_profiles: b.save.tracked_profiles, ..a.save },
        selected_profile_name: Some(name),
        modal_stack: b.modal_stack,
        ..a
    })
    &&& b.profiles@ == a.profiles@.insert(name@, b.profiles@[name@])
    &&& is_new_profile(b.profiles@[name@], name, settings)
    &&& b.save.tracked_profiles@ == a.save.tracked_profiles@.insert(name@, ())
    &&& b.modal_stack@ == popped(a.modal_stack@)
}

/// The mods of a profile with others put in. One that it has gets new settings.
pub open spec fn extended(
    items: Map<ModIdModel, LibraryItemSettings>,
    ids: Seq<ModIdModel>,
) -> Map<ModIdModel, LibraryItemSettings>
    decreases ids.len(),
{
    if ids.len() == 0 {
        items
    } else {
        extended(items, ids.drop_last()).insert(ids.last(), LibraryItemSettings { enabled: true })
    }
}

pub open spec fn items_added(
    a: App,
    b: App,
    name: Seq<char>,
    ids: Seq<ModIdModel>,
    r: Seq<Action>,
) -> bool {
    if a.profiles@.dom().contains(name) {
        let before = a.profiles@[name];
        let after = b.profiles@[name];
        &&& b == (App { profiles: b.profiles, ..a })
        &&& b.profiles@ == a.profiles@.insert(name, after)
        &&& after == (Profile { items: after.items, ..before })
        &&& after.items@ == extended(before.items@, ids)
        &&& r.len() == 2
        &&& r[0] matches Action::FindProvided(n) && n@ == name
        &&& r[1] matches Action::SaveProfile(n, added) && n@ == name && !added
    } else {
        a == b && r.len() == 0
    }
}

pub open spec fn delete_asked(a: App, b: App, name: Seq<char>, r: Seq<Action>) -> bool {
    &&& b == (App { modal_stack: b.modal_stack, next_ticket: next_of(a.next_ticket), ..a })
    &&& exists|modal: AppModal| #[trigger]
        is_question(
            modal,
            KeyModel::StringId(name),
            "Delete Profile"@,
            "Are you sure you want to delete this profile?"@,
            AsyncDialogStrategy::Replace,
            a.next_ticket,
        ) && b.modal_stack@ == with_modal(a.modal_stack@, modal)
    &&& r.len() == 1
    &&& r[0] matches Action::AwaitChoice(ticket, Outcome::DeleteProfile(n)) && ticket
        == a.next_ticket && n@ == name
}

pub open spec fn profile_deleted(a: App, b: App, name: Seq<char>) -> bool {
    if a.profiles@.dom().contains(name) {
        &&& b == (App {
            profiles: b.profiles,
            save: AppSave {
                tracked_profiles: b.save.tracked_profiles,
                active_profile: b.save.active_profile,
                ..a.save
            },
            ..a
        })
        &&& b.profiles@ == a.profiles@.remove(name)
        &&& b.save.tracked_profiles@ == a.save.tracked_profiles@.remove(name)
        &&& b.save.active_profile == if option_text(a.save.active_profile) == Some(name) {
            None
        } else {
            a.save.active_profile
        }
    } else {
        &&& b == (App { profiles: b.profiles, ..a })
        &&& b.profiles@ == a.profiles@
    }
}

/// Where a profile is kept.
pub open spec fn data_path(a: App, name: Seq<char>) -> Seq<char> {
    joined(joined(a.profiles_dir@, name), a.profile_data_name@)
}

pub open spec fn items_removed(
    a: App,
    b: App,
    name: Seq<char>,
    ids: Seq<ModIdModel>,
    writable: bool,
    r: Seq<Action>,
) -> bool {
    if !a.profiles@.dom().contains(name) {
        a == b && r.len() == 0
    } else if !writable {
        a == b && only_error(r, "Write Error"@, "Failed to open "@ + data_path(a, name))
    } else {
        let before = a.profiles@[name];
        let after = b.profiles@[name];
        &&& b == (App { profiles: b.profiles, ..a })
        &&& b.profiles@ == a.profiles@.insert(name, after)
        &&& after == (Profile { items: after.items, ..before })
        &&& after.items@ == before.items@.remove_keys(ids.to_set())
        &&& r.len() == 2
        &&& r[0] matches Action::FindProvided(n) && n@ == name
        &&& r[1] matches Action::SaveRemoval(n) && n@ == name
    }
}

pub open spec fn removal_saved(a: App, b: App, name: Seq<char>) -> bool {
    if option_text(a.selected_profile_name) == Some(name) && a.profiles@.dom().contains(name)
        && a.profiles@[name].view_selected_item is Some {
        &&& b == (App { profiles: b.profiles, ..a })
        &&& b.profiles@ == a.profiles@.insert(
            name,
            Profile { view_selected_item: None, ..a.profiles@[name] },
        )
    } else {
        a == b
    }
}

/// Something that showing a mod calls for.
#[verifier::ext_equal]
pub enum Wanted {
    Markup(Seq<char>),
    Image(Seq<char>),
}

pub open spec fn is_wanted(action: Action, wanted: Wanted) -> bool {
    match wanted {
        Wanted::Markup(text) => action matches Action::CacheMarkup(t) && t@ == text,
        Wanted::Image(url) => action matches Action::LoadImage(u) && u@ == url,
    }
}

pub open spec fn are_wanted(r: Seq<Action>, wanted: Seq<Wanted>) -> bool {
    &&& r.len() == wanted.len()
    &&& forall|i: int| 0 <= i < r.len() ==> is_wanted(#[trigger] r[i], wanted[i])
}

/// What showing mods of the workshop calls for: their descriptions, and their
/// images where they are not there yet.
pub open spec fn wanted_for(index: ModIndex, images: Set<Seq<char>>, ids: Seq<ModIdModel>) -> Seq<
    Wanted,
>
    decreases ids.len(),
{
    if ids.len() == 0 {
        Seq::empty()
    } else {
        let front = wanted_for(index, images, ids.drop_last());
        let id = ids.last();
        if index.details@.dom().contains(id) && index.details@[id] is Workshop {
            let details = index.details@[id];
            let url = details->Workshop_0.preview_url@;
            let text = front.push(Wanted::Markup(details.description_text()));
            if url.len() == 0 || images.contains(url) {
                text
            } else {
                text.push(Wanted::Image(url))
            }
        } else {
            front
        }
    }
}

pub open spec fn profile_chosen(a: App, b: App, name: String, r: Seq<Action>) -> bool {
    &&& b == (App { selected_profile_name: Some(name), ..a })
    &&& are_wanted(
        r,
        if a.profiles@.dom().contains(name@) {
            wanted_for(a.index, a.images@.dom(), row_keys(a.profiles@[name@].items.rows()))
        } else {
            Seq::empty()
        },
    )
}

pub open spec fn item_chosen(a: App, b: App, id: ModId, unsaved: bool, r: Seq<Action>) -> bool {
    if unsaved {
        a == b && only_error(
            r,
            "Unsaved Changes"@,
            "Your configurations to the current mod have unsaved changes."@,
        )
    } else {
        match option_text(a.selected_profile_name) {
            Some(name) => if a.profiles@.dom().contains(name) {
                let before = a.profiles@[name];
                let after = b.profiles@[name];
                let again = before.view_selected_item is Some
                    && before.view_selected_item->Some_0@ == id@;
                &&& b == (App { profiles: b.profiles, ..a })
                &&& b.profiles@ == a.profiles@.insert(name, after)
                &&& after == (Profile { view_selected_item: after.view_selected_item, ..before })
                &&& if again {
                    after.view_selected_item is None && r.len() == 0
                } else {
                    &&& after.view_selected_item is Some
                    &&& after.view_selected_item->Some_0@ == id@
                    &&& r.len() == 1
                    &&& r[0] matches Action::LoadEditor(n, i) && n@ == name && i@ == id@
                }
            } else {
                a == b && r.len() == 0
            },
            None => a == b && r.len() == 0,
        }
    }
}

/// Whether there is such a folder in a profile.
pub open spec fn is_folder(name: Seq<char>) -> bool {
    ||| name == CHARACTER_POOL@
    ||| name == CONFIG@
    ||| name == PHOTOBOOTH@
    ||| name == SAVE_DATA@
}

pub open spec fn folder_viewed(a: App, profile: Seq<char>, name: Seq<char>, r: Seq<Action>) -> bool {
    if is_folder(name) {
        &&& r.len() == 1
        &&& r[0] matches Action::OpenFolder(path) && path@ == joined(
            joined(a.profiles_dir@, profile),
            name,
        )
    } else {
        only_error(r, "Does Not Exist"@, "There is no such folder in a profile"@)
    }
}

/// What was found of a folder that is to take the place of a profile's.
#[derive(Debug, Clone, Copy)]
pub struct ImportFacts {
    pub empty: bool,
    pub character_pool: bool,
    pub photobooth: bool,
    pub save_data: bool,
}

/// Why a folder cannot take the place of a profile's.
pub open spec fn import_error(name: Seq<char>, facts: ImportFacts) -> Option<Seq<char>> {
    if facts.empty {
        Some(
            "The folder that was selected is empty, import request will be disregarded."@,
        )
    } else if name == CHARACTER_POOL@ {
        if facts.character_pool {
            None
        } else {
            Some(
                "The selected folder does not appear to contain a default character pool (missing 'DefaultCharacterPool.bin')"@,
            )
        }
    } else if name == PHOTOBOOTH@ {
        if facts.photobooth {
            None
        } else {
            Some(
                "The selected folder does not appear to contain any photobooth data (missing 'PhotoboothData.x2')"@,
            )
        }
    } else if name == SAVE_DATA@ {
        if facts.save_data {
            None
        } else {
            Some(
                "The selected folder does not appear to contain any save data (missing 'profile.bin')"@,
            )
        }
    } else {
        None
    }
}

/// Why a folder cannot take the place of a profile's, if it cannot.
pub fn check_import(name: &str, facts: ImportFacts) -> (r: Option<String>)
    ensures
        option_text(r) == import_error(name@, facts),
{
    if facts.empty {
        return Some(
            "The folder that was selected is empty, import request will be disregarded.".to_owned(),
        );
    }
    if same_text(name, CHARACTER_POOL) {
        if !facts.character_pool {
            return Some(
                "The selected folder does not appear to contain a default character pool (missing 'DefaultCharacterPool.bin')".to_owned(),
            );
        }
    } else if same_text(name, PHOTOBOOTH) {
        if !facts.photobooth {
            return Some(
                "The selected folder does not appear to contain any photobooth data (missing 'PhotoboothData.x2')".to_owned(),
            );
        }
    } else if same_text(name, SAVE_DATA) {
        if !facts.save_data {
            return Some(
                "The selected folder does not appear to contain any save data (missing 'profile.bin')".to_owned(),
            );
        }
    }
    None
}

pub open spec fn export_asked(a: App, name: String, exists: bool, r: Seq<Action>) -> bool {
    if !a.save.tracked_profiles@.dom().contains(name@) {
        r.len() == 0
    } else if !exists {
        only_error(
            r,
            "Profile Not Found"@,
            "Failed to read profile directory for '"@ + name@ + "'."@,
        )
    } else {
        r == seq![
            Action::Send(Message::SetBusy(true)),
            Action::ExportSnapshot(name),
            Action::Send(Message::SetBusy(false)),
        ]
    }
}

pub open spec fn snapshot_imported(a: App, b: App, profile: Profile) -> bool {
    let name = profile.name@;
    &&& b == (App {
        profiles: b.profiles,
        save: AppSave { tracked_profiles: b.save.tracked_profiles, ..a.save },
        ..a
    })
    &&& b.profiles@ == a.profiles@.insert(
        name,
        Profile { settings_editing: profile.settings, ..profile },
    )
    &&& b.save.tracked_profiles@ == a.save.tracked_profiles@.insert(name, ())
}

pub open spec fn active_chosen(a: App, b: App, name: String) -> bool {
    if a.profiles@.dom().contains(name@) {
        b == (App { save: AppSave { active_profile: Some(name), ..a.save }, ..a })
    } else {
        a == b
    }
}

pub open spec fn provided_found(a: App, b: App, name: Seq<char>, provided: Set<Seq<char>>) -> bool {
    if a.profiles@.dom().contains(name) {
        &&& b == (App { profiles: b.profiles, ..a })
        &&& b.profiles@ == a.profiles@.insert(name, b.profiles@[name])
        &&& issues_noted(a.profiles@[name], b.profiles@[name], a.library, a.index, provided)
    } else {
        a == b
    }
}

fn remove_mods(items: &mut Table<ModId, LibraryItemSettings>, ids: &Vec<ModId>)
    ensures
        final(items)@ == old(items)@.remove_keys(id_models(ids@).to_set()),
{
    let ghost all = id_models(ids@);
    let mut i: usize = 0;
    assert(items@ =~= old(items)@.remove_keys(all.take(0).to_set()));
    while i < ids.len()
        invariant
            0 <= i <= ids@.len(),
            all == id_models(ids@),
            items@ == old(items)@.remove_keys(all.take(i as int).to_set()),
        decreases ids@.len() - i,
    {
        let ghost before = items@;
        let gone = items.remove(&ids[i]);
        proof {
            let short = all.take(i as int);
            let long = all.take(i + 1);
            assert(long =~= short.push(all[i as int]));
            assert forall|x: ModIdModel| long.contains(x) <==> short.contains(x) || x
                == all[i as int] by {
                if short.contains(x) {
                    let k = choose|k: int| 0 <= k < short.len() && short[k] == x;
                    assert(long[k] == x);
                }
                if x == all[i as int] {
                    assert(long[i as int] == x);
                }
                if long.contains(x) {
                    let k = choose|k: int| 0 <= k < long.len() && long[k] == x;
                    if k < i {
                        assert(short[k] == x);
                    }
                }
            }
            assert(items@ =~= old(items)@.remove_keys(long.to_set()));
        }
        i += 1;
    }
    assert(all.take(i as int) =~= all);
}

fn extend_mods(items: &mut Table<ModId, LibraryItemSettings>, ids: &Vec<ModId>)
    ensures
        final(items)@ == extended(old(items)@, id_models(ids@)),
{
    let ghost all = id_models(ids@);
    let mut i: usize = 0;
    while i < ids.len()
        invariant
            0 <= i <= ids@.len(),
            all == id_models(ids@),
            items@ == extended(old(items)@, all.take(i as int)),
        decreases ids@.len() - i,
    {
        proof {
            assert(all.take(i + 1).drop_last() =~= all.take(i as int));
            assert(all.take(i + 1).last() == ids@[i as int]@);
        }
        items.insert(ids[i].copy_key(), LibraryItemSettings { enabled: true });
        i += 1;
    }
    assert(all.take(i as int) =~= all);
}

fn is_option(option: &Option<String>, text: &str) -> (r: bool)
    ensures
        r == (option_text(*option) == Some(text@)),
{
    match option {
        Some(found) => same_text(found.as_str(), text),
        None => false,
    }
}

impl App {
    /// A profile is to be made.
    pub fn profile_add_pressed(&mut self)
        ensures
            *final(self) == (App {
                modal_stack: final(self).modal_stack,
                profile_add_name: final(self).profile_add_name,
                ..*old(self)
            }),
            final(self).profile_add_name@.len() == 0,
            final(self).modal_stack@ == old(self).modal_stack@.push(AppModal::ProfileAddRequest),
    {
        self.profile_add_name = String::new();
        self.modal_stack.push(AppModal::ProfileAddRequest);
    }

    /// The name of the new profile was submitted, or left.
    pub fn profile_add_completed(&mut self, submitted: bool, invalid: Option<String>) -> (r: Vec<
        Action,
    >)
        ensures
            add_completed(*old(self), *final(self), submitted, invalid, r@),
    {
        if !submitted {
            pop_modal(&mut self.modal_stack);
            return nothing();
        }
        if self.profile_add_name.as_str().is_empty() {
            return nothing();
        }
        if self.profiles.contains(&self.profile_add_name) {
            return show_error("Error", "Profile with this name already exists!");
        }
        if let Some(message) = invalid {
            return show_error("Invalid Name", message.as_str());
        }
        only(Action::CreateProfile(self.profile_add_name.clone()))
    }

    /// The directory of the new profile was made.
    pub fn profile_created(&mut self, name: String, settings: ProfileSettings)
        ensures
            profile_made(*old(self), *final(self), name, settings),
    {
        let profile = Profile::new(name.clone(), settings);
        self.profiles.insert(name.clone(), profile);
        self.save.tracked_profiles.insert(name.clone(), ());
        self.selected_profile_name = Some(name);
        pop_modal(&mut self.modal_stack);
    }

    /// Mods are put into a profile.
    pub fn profile_add_items(&mut self, name: String, ids: &Vec<ModId>) -> (r: Vec<Action>)
        ensures
            items_added(*old(self), *final(self), name@, id_models(ids@), r@),
    {
        match self.profiles.find(&name) {
            None => nothing(),
            Some(i) => {
                let ghost before = self.profiles@;
                let mut profile = take_profile(&mut self.profiles, i);
                extend_mods(&mut profile.items, ids);
                let ghost changed = profile;
                let hole = self.profiles.set_value_at(i, profile);
                assert(self.profiles@ =~= before.insert(name@, changed));
                vec![Action::FindProvided(name.clone()), Action::SaveProfile(name, false)]
            },
        }
    }

    /// A profile is to be deleted, if the user is sure.
    pub fn profile_delete_pressed(&mut self, name: String) -> (r: Vec<Action>)
        ensures
            delete_asked(*old(self), *final(self), name@, r@),
    {
        let ticket = self.take_ticket();
        let modal = question(
            AsyncDialogKey::StringId(name.clone()),
            "Delete Profile",
            "Are you sure you want to delete this profile?".to_owned(),
            AsyncDialogStrategy::Replace,
            ticket,
        );
        assert(is_question(
            modal,
            KeyModel::StringId(name@),
            "Delete Profile"@,
            "Are you sure you want to delete this profile?"@,
            AsyncDialogStrategy::Replace,
            ticket,
        ));
        push_modal(&mut self.modal_stack, modal);
        only(Action::AwaitChoice(ticket, Outcome::DeleteProfile(name)))
    }

    /// A profile is deleted.
    pub fn profile_delete_confirmed(&mut self, name: &String)
        ensures
            profile_deleted(*old(self), *final(self), name@),
    {
        if self.profiles.remove(name).is_some() {
            let known = self.save.tracked_profiles.remove(name);
            if is_option(&self.save.active_profile, name.as_str()) {
                self.save.active_profile = None;
            }
        } else {
            assert(self.profiles@ =~= old(self).profiles@);
        }
    }

    /// Mods are taken out of a profile.
    pub fn profile_remove_items(&mut self, name: String, ids: &Vec<ModId>, writable: bool) -> (r:
        Vec<Action>)
        ensures
            items_removed(*old(self), *final(self), name@, id_models(ids@), writable, r@),
    {
        match self.profiles.find(&name) {
            None => nothing(),
            Some(i) => {
                if !writable {
                    let folder = join(self.profiles_dir.as_str(), name.as_str());
                    let path = join(folder.as_str(), self.profile_data_name.as_str());
                    let body = join_two("Failed to open ", path.as_str());
                    return show_error("Write Error", body.as_str());
                }
                let ghost before = self.profiles@;
                let mut profile = take_profile(&mut self.profiles, i);
                remove_mods(&mut profile.items, ids);
                let ghost changed = profile;
                let hole = self.profiles.set_value_at(i, profile);
                assert(self.profiles@ =~= before.insert(name@, changed));
                vec![Action::FindProvided(name.clone()), Action::SaveRemoval(name)]
            },
        }
    }

    /// The profile was written after mods were taken out of it.
    pub fn profile_items_removed(&mut self, name: &String)
        ensures
            removal_saved(*old(self), *final(self), name@),
    {
        if is_option(&self.selected_profile_name, name.as_str()) {
            if let Some(i) = self.profiles.find(name) {
                if self.profiles.value_at(i).view_selected_item.is_some() {
                    let ghost before = self.profiles@;
                    let mut profile = take_profile(&mut self.profiles, i);
                    profile.view_selected_item = None;
                    let ghost changed = profile;
                    let hole = self.profiles.set_value_at(i, profile);
                    assert(self.profiles@ =~= before.insert(name@, changed));
                }
            }
        }
    }

    fn profile_wants(&self, items: &Table<ModId, LibraryItemSettings>) -> (r: Vec<Action>)
        ensures
            are_wanted(
                r@,
                wanted_for(self.index, self.images@.dom(), row_keys(items.rows())),
            ),
    {
        let n = items.len();
        let ghost keys = row_keys(items.rows());
        let mut out: Vec<Action> = Vec::new();
        let mut i: usize = 0;
        while i < n
            invariant
                0 <= i <= n,
                n == items.rows().len(),
                keys == row_keys(items.rows()),
                are_wanted(
                    out@,
                    wanted_for(self.index, self.images@.dom(), keys.take(i as int)),
                ),
            decreases n - i,
        {
            let id = items.key_at(i);
            proof {
                assert(keys.take(i + 1).drop_last() =~= keys.take(i as int));
                assert(keys.take(i + 1).last() == id@);
            }
            if let Some(details) = self.index.details.get(id) {
                if let ModDetails::Workshop(info) = details {
                    out.push(Action::CacheMarkup(details.get_description()));
                    if !info.preview_url.as_str().is_empty() && !self.images.contains(
                        &info.preview_url,
                    ) {
                        out.push(Action::LoadImage(info.preview_url.clone()));
                    }
                }
            }
            i += 1;
        }
        assert(keys.take(i as int) =~= keys);
        out
    }

    /// A profile is to be shown.
    pub fn profile_selected(&mut self, name: String) -> (r: Vec<Action>)
        ensures
            profile_chosen(*old(self), *final(self), name, r@),
    {
        let out = match self.profiles.get(&name) {
            Some(profile) => self.profile_wants(&profile.items),
            None => nothing(),
        };
        self.selected_profile_name = Some(name);
        out
    }

    /// A mod of the profile is to be shown, or is not any more.
    pub fn profile_item_selected(&mut self, id: ModId, unsaved: bool) -> (r: Vec<Action>)
        ensures
            item_chosen(*old(self), *final(self), id, unsaved, r@),
    {
        if unsaved {
            return show_error(
                "Unsaved Changes",
                "Your configurations to the current mod have unsaved changes.",
            );
        }
        let name: String = match &self.selected_profile_name {
            Some(name) => name.clone(),
            None => return nothing(),
        };
        match self.profiles.find(&name) {
            None => nothing(),
            Some(i) => {
                let ghost before = self.profiles@;
                let mut profile = take_profile(&mut self.profiles, i);
                let again = match &profile.view_selected_item {
                    Some(shown) => shown.is(&id),
                    None => false,
                };
                let mut out = nothing();
                if again {
                    profile.view_selected_item = None;
                } else {
                    profile.view_selected_item = Some(id.copy_key());
                    out = only(Action::LoadEditor(name, id));
                }
                let ghost changed = profile;
                let ghost key = self.profiles.rows()[i as int].0;
                let hole = self.profiles.set_value_at(i, profile);
                assert(self.profiles@ =~= before.insert(key, changed));
                out
            },
        }
    }

    /// A folder of a profile is to be opened.
    pub fn profile_view_folder_requested(&self, profile: &str, name: &str) -> (r: Vec<Action>)
        ensures
            folder_viewed(*self, profile@, name@, r@),
    {
        if !(same_text(name, CHARACTER_POOL) || same_text(name, crate::loading::CONFIG)
            || same_text(name, PHOTOBOOTH) || same_text(name, SAVE_DATA)) {
            return show_error("Does Not Exist", "There is no such folder in a profile");
        }
        let folder = join(self.profiles_dir.as_str(), profile);
        only(Action::OpenFolder(join(folder.as_str(), name)))
    }

    /// A snapshot of a profile is to be written.
    pub fn profile_export_snapshot_requested(&self, name: String, exists: bool) -> (r: Vec<Action>)
        ensures
            export_asked(*self, name, exists, r@),
    {
        if !self.save.tracked_profiles.contains(&name) {
            return nothing();
        }
        if !exists {
            let a = join_two("Failed to read profile directory for '", name.as_str());
            let body = join_two(a.as_str(), "'.");
            return show_error("Profile Not Found", body.as_str());
        }
        vec![
            Action::Send(Message::SetBusy(true)),
            Action::ExportSnapshot(name),
            Action::Send(Message::SetBusy(false)),
        ]
    }

    /// A profile was read from a snapshot.
    pub fn profile_import_snapshot_completed(&mut self, profile: Profile)
        ensures
            snapshot_imported(*old(self), *final(self), profile),
    {
        let mut profile = profile;
        profile.settings_editing = profile.settings;
        let name = profile.name.clone();
        self.save.tracked_profiles.insert(name.clone(), ());
        self.profiles.insert(name, profile);
    }

    /// Another profile is to be played with.
    pub fn active_profile_selected(&mut self, name: String)
        ensures
            active_chosen(*old(self), *final(self), name),
    {
        if self.profiles.contains(&name) {
            self.save.active_profile = Some(name);
        }
    }

    /// It is known what the mods of a profile stand for.
    pub fn profile_provided(&mut self, name: &String, provided: &Table<String, ()>)
        ensures
            provided_found(*old(self), *final(self), name@, provided@.dom()),
    {
        if let Some(i) = self.profiles.find(name) {
            let ghost before = self.profiles@;
            let mut profile = take_profile(&mut self.profiles, i);
            profile.update_compatibility_issues(&self.library, &self.index, provided);
            let ghost changed = profile;
            let hole = self.profiles.set_value_at(i, profile);
            assert(self.profiles@ =~= before.insert(name@, changed));
        }
    }

    /// It is known what the mods of the library stand for.
    pub fn library_provided(&mut self, provided: &Table<String, ()>)
        ensures
            *final(self) == (App { library: final(self).library, ..*old(self) }),
            dependencies_noted(
                old(self).library,
                final(self).library,
                old(self).index,
                provided@.dom(),
            ),
    {
        self.library.update_missing_dependencies(&self.index, provided);
    }
}

/// What comes of the name that a collection is to be imported under.
pub open spec fn collection_named(
    name: String,
    used: Set<Seq<char>>,
    invalid: Option<String>,
    ids: Vec<ModId>,
    r: Message,
) -> bool {
    if name@.len() == 0 {
        r matches Message::DisplayError(t, b) && t@ == "Empty Name"@ && b@
            == "Cannot create a profile with no name."@
    } else if used.contains(name@) {
        r matches Message::DisplayError(t, b) && t@ == "Name In Use"@ && b@
            == "There is already a profile with this name."@
    } else if invalid is Some {
        r matches Message::DisplayError(t, b) && t@ == "Invalid Name"@ && b == invalid->Some_0
    } else {
        &&& r is Chained
        &&& r->Chained_0@ == seq![
            Message::ProfileAddEdited(name),
            Message::ProfileAddCompleted(true, None),
            Message::ProfileAddItems(name, ids),
        ]
    }
}

/// What comes of the name that a collection is to be imported under.
pub fn import_collection(
    name: String,
    used: &Table<String, Profile>,
    invalid: Option<String>,
    ids: Vec<ModId>,
) -> (r: Message)
    ensures
        collection_named(name, used@.dom(), invalid, ids, r),
{
    if name.as_str().is_empty() {
        return Message::DisplayError(
            "Empty Name".to_owned(),
            "Cannot create a profile with no name.".to_owned(),
        );
    }
    if used.contains(&name) {
        return Message::DisplayError(
            "Name In Use".to_owned(),
            "There is already a profile with this name.".to_owned(),
        );
    }
    if let Some(message) = invalid {
        return Message::DisplayError("Invalid Name".to_owned(), message);
    }
    Message::Chained(
        vec![
            Message::ProfileAddEdited(name.clone()),
            Message::ProfileAddCompleted(true, None),
            Message::ProfileAddItems(name, ids),
        ],
    )
}

/// Why a snapshot cannot be imported under a name, if it cannot.
pub fn check_snapshot_name(
    name: &String,
    used: &Table<String, ()>,
    invalid: Option<String>,
) -> (r: Option<String>)
    ensures
        match invalid {
            Some(message) => r == Some(message),
            None => option_text(r) == if used@.dom().contains(name@) {
                Some("Profile with name '"@ + name@ + "' already exists."@)
            } else {
                None
            },
        },
{
    match invalid {
        Some(message) => Some(message),
        None => {
            if used.contains(name) {
                let a = join_two("Profile with name '", name.as_str());
                Some(join_two(a.as_str(), "' already exists."))
            } else {
                None
            }
        },
    }
}

/// A profile is known under its name as long as it is there, and not after it was
/// deleted.
pub proof fn deleted_profiles_are_forgotten(a: App, b: App, name: Seq<char>)
    requires
        profile_deleted(a, b, name),
        a.profiles@.dom().contains(name),
    ensures
        !b.profiles@.dom().contains(name),
        !b.save.tracked_profiles@.dom().contains(name),
        option_text(b.save.active_profile) != Some(name),
        forall|other: Seq<char>|
            other != name && a.profiles@.dom().contains(other)
                ==> #[trigger] b.profiles@.dom().contains(other),
{
}

/// Mods that were taken out of a profile are not in it any more, and the others
/// are.
pub proof fn removed_mods_are_gone(
    items: Map<ModIdModel, LibraryItemSettings>,
    ids: Seq<ModIdModel>,
    id: ModIdModel,
)
    ensures
        items.remove_keys(ids.to_set()).dom().contains(id) <==> items.dom().contains(id)
            && !ids.contains(id),
{
}

} // verus!
