//! What happens to the settings.
use vstd::prelude::*;

use super::modal::AppModal;
use super::settings::{add_mod_directory, remove_mod_directory, AppSettings};
use super::state::{nothing, only, Action, App, AppSave, Message, SettingsMessage};
use crate::library::Library;
use crate::text::same_text;
use crate::xcom_mod::ModId;
#[allow(unused_imports)]
use super::on_load::picking;
#[allow(unused_imports)]
use super::on_modal::with_error;
#[allow(unused_imports)]
use super::settings::{
    default_settings, dir_rows, edited_settings, holds_path, is_setting, SettingsModel,
};
#[allow(unused_imports)]
use crate::extensions::string_views;
#[allow(unused_imports)]
use crate::xcom_mod::ModIdModel;

verus! {

/// Whether nothing but the settings that are being edited changed.
pub open spec fn only_editing(a: App, b: App) -> bool {
    b == (App { settings_editing: b.settings_editing, ..a })
}

/// What saving the settings calls for.
pub open spec fn save_actions(a: App) -> Seq<Action> {
    let scan = if a.settings@.download_directory != a.settings_editing@.download_directory {
        seq![Action::ScanDownloads]
    } else {
        Seq::empty()
    };
    let session = if !a.login.shared {
        seq![Action::ApplySessionSettings]
    } else {
        Seq::empty()
    };
    scan + session + seq![Action::SaveSettings]
}

pub open spec fn settings_saved(a: App, b: App, r: Seq<Action>) -> bool {
    &&& b == (App {
        settings: b.settings,
        api_key: b.api_key,
        modal_stack: b.modal_stack,
        ..a
    })
    &&& b.settings@ == a.settings_editing@
    &&& b.api_key@ == if a.settings@.steam_webapi_api_key
        != a.settings_editing@.steam_webapi_api_key {
        a.settings_editing@.steam_webapi_api_key
    } else {
        a.api_key@
    }
    &&& if !a.login.shared {
        b.modal_stack@ == a.modal_stack@
    } else {
        with_error(
            a.modal_stack@,
            b.modal_stack@,
            "Warning"@,
            "Was unable to apply settings for steamcmd.\nPlease report this issue to the devs."@,
        )
    }
    &&& r == save_actions(a)
}

/// Whether nothing but the directories of mods changed.
pub open spec fn only_dirs(a: App, b: App) -> bool {
    b == (App { save: AppSave { local_mod_dirs: b.save.local_mod_dirs, ..a.save }, ..a })
}

pub open spec fn directory_added(a: App, b: App, path: Seq<char>, r: Seq<Action>) -> bool {
    &&& only_dirs(a, b)
    &&& if holds_path(dir_rows(a.save.local_mod_dirs), path) {
        dir_rows(b.save.local_mod_dirs) == dir_rows(a.save.local_mod_dirs) && r.len() == 0
    } else {
        &&& dir_rows(b.save.local_mod_dirs) == dir_rows(a.save.local_mod_dirs).push(path)
        &&& r.len() == 1
        &&& r[0] matches Action::ScanMods(p) && p@ == path
    }
}

pub open spec fn directory_removed(a: App, b: App, index: usize, r: Seq<Action>) -> bool {
    let dirs = dir_rows(a.save.local_mod_dirs);
    &&& only_dirs(a, b)
    &&& if index < dirs.len() {
        &&& dir_rows(b.save.local_mod_dirs) == dirs.remove(index as int)
        &&& r.len() == 1
        &&& r[0] matches Action::ListMods(p) && p@ == dirs[index as int]
    } else {
        dir_rows(b.save.local_mod_dirs) == dirs && r.len() == 0
    }
}

/// The mods in directories.
pub open spec fn local_ids(paths: Seq<Seq<char>>) -> Set<ModIdModel> {
    Set::new(|id: ModIdModel| id is Local && paths.contains(id->Local_0))
}

pub open spec fn local_mods_forgotten(a: App, b: App, paths: Seq<Seq<char>>) -> bool {
    &&& b == (App {
        library: Library { items: b.library.items, ..a.library },
        local: b.local,
        index: b.index,
        ..a
    })
    &&& b.library.items@ == a.library.items@.remove_keys(local_ids(paths))
    &&& b.local@ == a.local@.remove_keys(local_ids(paths))
    &&& b.index.details@ == a.index.details@.remove_keys(local_ids(paths))
    &&& b.index.metadata@ == a.index.metadata@.remove_keys(local_ids(paths))
}

/// What a change of the settings does.
pub open spec fn settings_step(a: App, b: App, message: SettingsMessage, r: Seq<Action>) -> bool {
    match message {
        SettingsMessage::Edit(edit) => {
            &&& only_editing(a, b)
            &&& b.settings_editing@ == edited_settings(a.settings_editing@, edit)
            &&& r.len() == 0
        },
        SettingsMessage::ResetToDefault => {
            &&& only_editing(a, b)
            &&& b.settings_editing@ == (SettingsModel {
                steam_webapi_api_key: a.settings_editing@.steam_webapi_api_key,
                ..default_settings(a.data_dir@)
            })
            &&& r.len() == 0
        },
        SettingsMessage::ResetToSaved => {
            &&& only_editing(a, b)
            &&& b.settings_editing@ == a.settings@
            &&& r.len() == 0
        },
        SettingsMessage::Save => settings_saved(a, b, r),
        SettingsMessage::AddModDirectory => a == b && picking(r, Action::PickModDirectory),
        SettingsMessage::AddModDirectoryConfirmed(path) => directory_added(a, b, path@, r),
        SettingsMessage::RemoveModDirectory(index) => directory_removed(a, b, index, r),
        SettingsMessage::ModDirectoryRemoved(paths) => local_mods_forgotten(
            a,
            b,
            string_views(paths@),
        ) && r.len() == 0,
        SettingsMessage::Nothing => a == b && r.len() == 0,
    }
}

impl App {
    fn save_settings(&mut self) -> (r: Vec<Action>)
        ensures
            settings_saved(*old(self), *final(self), r@),
    {
        let ghost start = *self;
        let mut out = nothing();
        if !same_text(
            self.settings.download_directory.as_str(),
            self.settings_editing.download_directory.as_str(),
        ) {
            out.push(Action::ScanDownloads);
        }
        if !same_text(
            self.settings.steam_webapi_api_key.as_str(),
            self.settings_editing.steam_webapi_api_key.as_str(),
        ) {
            self.api_key = self.settings_editing.steam_webapi_api_key.clone();
        }
        self.settings = self.settings_editing.copy();
        if !self.login.shared {
            out.push(Action::ApplySessionSettings);
        } else {
            self.modal_stack.push(
                AppModal::ErrorMessage(
                    "Warning".to_owned(),
                    "Was unable to apply settings for steamcmd.\nPlease report this issue to the devs.".to_owned(),
                ),
            );
            assert(self.modal_stack@.drop_last() =~= start.modal_stack@);
        }
        out.push(Action::SaveSettings);
        assert(out@ =~= save_actions(start));
        out
    }

    fn forget_local_mods(&mut self, paths: &Vec<String>)
        ensures
            local_mods_forgotten(*old(self), *final(self), string_views(paths@)),
    {
        let ghost start = *self;
        let ghost all = string_views(paths@);
        let mut i: usize = 0;
        assert(self.library.items@ =~= start.library.items@.remove_keys(local_ids(all.take(0))));
        assert(self.local@ =~= start.local@.remove_keys(local_ids(all.take(0))));
        assert(self.index.details@ =~= start.index.details@.remove_keys(local_ids(all.take(0))));
        assert(self.index.metadata@ =~= start.index.metadata@.remove_keys(local_ids(all.take(0))));
        while i < paths.len()
            invariant
                0 <= i <= paths@.len(),
                all == string_views(paths@),
                start == *old(self),
                *self == (App {
                    library: Library { items: self.library.items, ..start.library },
                    local: self.local,
                    index: self.index,
                    ..start
                }),
                self.library.items@ == start.library.items@.remove_keys(
                    local_ids(all.take(i as int)),
                ),
                self.local@ == start.local@.remove_keys(local_ids(all.take(i as int))),
                self.index.details@ == start.index.details@.remove_keys(
                    local_ids(all.take(i as int)),
                ),
                self.index.metadata@ == start.index.metadata@.remove_keys(
                    local_ids(all.take(i as int)),
                ),
            decreases paths@.len() - i,
        {
            let id = ModId::Local(paths[i].clone());
            let ghost key = id@;
            let ghost short = local_ids(all.take(i as int));
            let ghost long = local_ids(all.take(i + 1));
            proof {
                let a = all.take(i as int);
                let b = all.take(i + 1);
                assert(b =~= a.push(all[i as int]));
                assert forall|x: ModIdModel| long.contains(x) <==> short.contains(x) || x
                    == key by {
                    if x is Local {
                        let path = x->Local_0;
                        if a.contains(path) {
                            let k = choose|k: int| 0 <= k < a.len() && a[k] == path;
                            assert(b[k] == path);
                        }
                        if x == key {
                            assert(b[i as int] == path);
                        }
                        if b.contains(path) {
                            let k = choose|k: int| 0 <= k < b.len() && b[k] == path;
                            if k < i {
                                assert(a[k] == path);
                            } else {
                                assert(path == paths@[i as int]@);
                            }
                        }
                    }
                }
            }
            let item = self.library.items.remove(&id);
            let known = self.local.remove(&id);
            let details = self.index.details.remove(&id);
            let data = self.index.metadata.remove(&id);
            assert(self.library.items@ =~= start.library.items@.remove_keys(long));
            assert(self.local@ =~= start.local@.remove_keys(long));
            assert(self.index.details@ =~= start.index.details@.remove_keys(long));
            assert(self.index.metadata@ =~= start.index.metadata@.remove_keys(long));
            i += 1;
        }
        assert(all.take(i as int) =~= all);
    }

    /// Changes the settings.
    pub fn update_settings(&mut self, message: SettingsMessage) -> (r: Vec<Action>)
        requires
            message matches SettingsMessage::Edit(edit) ==> is_setting(edit),
        ensures
            settings_step(*old(self), *final(self), message, r@),
    {
        match message {
            SettingsMessage::Edit(edit) => {
                self.settings_editing.edit(edit);
                nothing()
            },
            SettingsMessage::ResetToDefault => {
                let mut fresh = AppSettings::defaults(self.data_dir.as_str());
                fresh.steam_webapi_api_key = self.settings_editing.steam_webapi_api_key.clone();
                self.settings_editing = fresh;
                nothing()
            },
            SettingsMessage::ResetToSaved => {
                self.settings_editing = self.settings.copy();
                nothing()
            },
            SettingsMessage::Save => self.save_settings(),
            SettingsMessage::AddModDirectory => vec![
                Action::Send(Message::SetBusy(true)),
                Action::PickModDirectory,
                Action::Send(Message::SetBusy(false)),
            ],
            SettingsMessage::AddModDirectoryConfirmed(path) => {
                if add_mod_directory(&mut self.save.local_mod_dirs, path.clone()) {
                    only(Action::ScanMods(path))
                } else {
                    nothing()
                }
            },
            SettingsMessage::RemoveModDirectory(index) => {
                match remove_mod_directory(&mut self.save.local_mod_dirs, index) {
                    Some(path) => only(Action::ListMods(path)),
                    None => nothing(),
                }
            },
            SettingsMessage::ModDirectoryRemoved(paths) => {
                self.forget_local_mods(&paths);
                nothing()
            },
            SettingsMessage::Nothing => nothing(),
        }
    }
}

/// Settings are not applied before they are saved, and nothing is left to save
/// afterwards.
pub proof fn settings_apply_once_saved(a: App, b: App, message: SettingsMessage, r: Seq<Action>)
    requires
        settings_step(a, b, message, r),
    ensures
        !(message is Save) ==> b.settings == a.settings,
        message is Save ==> b.settings@ == b.settings_editing@,
{
}

/// Settings that are reset to the saved ones are the saved ones, and resetting to
/// the defaults keeps the key for the web interface of Steam.
pub proof fn resetting_keeps_the_key(a: App, b: App, r: Seq<Action>)
    ensures
        settings_step(a, b, SettingsMessage::ResetToDefault, r)
            ==> b.settings_editing@.steam_webapi_api_key
            == a.settings_editing@.steam_webapi_api_key,
        settings_step(a, b, SettingsMessage::ResetToSaved, r) ==> b.settings_editing@
            == b.settings@,
{
}

} // verus!
