//! The settings of the program, as they are saved and as they are edited.
use std::collections::hash_map::RandomState;

use indexmap::IndexSet;
use vstd::prelude::*;

use crate::files::SizeDisplay;
use crate::paths::{join, path_components};
use crate::text::{same_chars, same_text};
#[allow(unused_imports)]
use crate::paths::{components_of, joined};
#[allow(unused_imports)]
use crate::text::texts;

verus! {

#[verifier::external_type_specification]
#[verifier::external_body]
#[verifier::reject_recursive_types(T)]
#[verifier::reject_recursive_types(S)]
pub struct ExIndexSet<T, S>(IndexSet<T, S>);

/// The directories of a set, in order.
pub uninterp spec fn dir_rows(dirs: IndexSet<String, RandomState>) -> Seq<Seq<char>>;

/// `new` of [`IndexSet`] makes an empty set.
#[verifier::external_body]
pub(crate) fn new_dirs() -> (r: IndexSet<String, RandomState>)
    ensures
        dir_rows(r) == Seq::<Seq<char>>::empty(),
{
    IndexSet::new()
}

/// `insert` of [`IndexSet`] puts a value at the end of the set, unless it is
/// there already.
#[verifier::external_body]
fn insert_dir(dirs: &mut IndexSet<String, RandomState>, dir: String) -> (r: bool)
    ensures
        r == !dir_rows(*old(dirs)).contains(dir@),
        dir_rows(*final(dirs)) == if r {
            dir_rows(*old(dirs)).push(dir@)
        } else {
            dir_rows(*old(dirs))
        },
{
    dirs.insert(dir)
}

/// `shift_remove_index` of [`IndexSet`] takes out the value at a place, if there
/// is one, and leaves the others in their order.
#[verifier::external_body]
fn remove_dir(dirs: &mut IndexSet<String, RandomState>, index: usize) -> (r: Option<String>)
    ensures
        match r {
            Some(dir) => index < dir_rows(*old(dirs)).len() && dir@ == dir_rows(
                *old(dirs),
            )[index as int] && dir_rows(*final(dirs)) == dir_rows(*old(dirs)).remove(index as int),
            None => index >= dir_rows(*old(dirs)).len() && dir_rows(*final(dirs)) == dir_rows(
                *old(dirs),
            ),
        },
{
    dirs.shift_remove_index(index)
}

/// `get_index` of [`IndexSet`] gives the value at a place, if there is one.
#[verifier::external_body]
pub(crate) fn dir_at(dirs: &IndexSet<String, RandomState>, index: usize) -> (r: Option<&String>)
    ensures
        match r {
            Some(dir) => index < dir_rows(*dirs).len() && dir@ == dir_rows(*dirs)[index as int],
            None => index >= dir_rows(*dirs).len(),
        },
{
    dirs.get_index(index)
}

/// `len` of [`IndexSet`] gives the number of values.
#[verifier::external_body]
pub(crate) fn count_dirs(dirs: &IndexSet<String, RandomState>) -> (r: usize)
    ensures
        r == dir_rows(*dirs).len(),
{
    dirs.len()
}

/// The text of a duration of so many seconds.
pub uninterp spec fn duration_text(seconds: u64) -> Seq<char>;

/// [`humantime::format_duration`] writes out a duration in units from years to
/// nanoseconds. How it divides the duration is left unsaid.
#[verifier::external_body]
fn format_duration(seconds: u64) -> (r: String)
    ensures
        r@ == duration_text(seconds),
{
    humantime::format_duration(std::time::Duration::from_secs(seconds)).to_string()
}

/// Whether a path leads to one of the directories.
pub open spec fn holds_path(dirs: Seq<Seq<char>>, path: Seq<char>) -> bool {
    exists|i: int|
        0 <= i < dirs.len() && components_of(#[trigger] dirs[i]) == components_of(path)
}

fn same_components(a: &Vec<Vec<char>>, b: &Vec<Vec<char>>) -> (r: bool)
    ensures
        r == (texts(a@) == texts(b@)),
{
    if a.len() != b.len() {
        assert(texts(a@).len() != texts(b@).len());
        return false;
    }
    let mut i: usize = 0;
    while i < a.len()
        invariant
            0 <= i <= a@.len(),
            a@.len() == b@.len(),
            forall|j: int| 0 <= j < i ==> (#[trigger] a@[j])@ == b@[j]@,
        decreases a@.len() - i,
    {
        if !same_chars(a[i].as_slice(), b[i].as_slice()) {
            assert(texts(a@)[i as int] != texts(b@)[i as int]);
            return false;
        }
        i += 1;
    }
    assert(texts(a@) =~= texts(b@));
    true
}

/// Adds a directory, unless one of the directories is the same.
pub fn add_mod_directory(dirs: &mut IndexSet<String, RandomState>, path: String) -> (r: bool)
    ensures
        r == !holds_path(dir_rows(*old(dirs)), path@),
        dir_rows(*final(dirs)) == if r {
            dir_rows(*old(dirs)).push(path@)
        } else {
            dir_rows(*old(dirs))
        },
{
    let wanted = path_components(path.as_str());
    let ghost rows = dir_rows(*dirs);
    let n = count_dirs(dirs);
    let mut i: usize = 0;
    while i < n
        invariant
            rows == dir_rows(*dirs),
            *dirs == *old(dirs),
            texts(wanted@) == components_of(path@),
            n == rows.len(),
            i <= n,
            forall|j: int|
                0 <= j < i ==> components_of(#[trigger] rows[j]) != components_of(path@),
        decreases n - i,
    {
        if let Some(dir) = dir_at(dirs, i) {
            let known = path_components(dir.as_str());
            if same_components(&known, &wanted) {
                assert(components_of(rows[i as int]) == components_of(path@));
                return false;
            }
        }
        i += 1;
    }
    proof {
        if rows.contains(path@) {
            let k = choose|k: int| 0 <= k < rows.len() && rows[k] == path@;
            assert(components_of(rows[k]) == components_of(path@));
        }
    }
    insert_dir(dirs, path)
}

/// Takes a directory out.
pub fn remove_mod_directory(dirs: &mut IndexSet<String, RandomState>, index: usize) -> (r: Option<
    String,
>)
    ensures
        match r {
            Some(dir) => index < dir_rows(*old(dirs)).len() && dir@ == dir_rows(
                *old(dirs),
            )[index as int] && dir_rows(*final(dirs)) == dir_rows(*old(dirs)).remove(index as int),
            None => index >= dir_rows(*old(dirs)).len() && dir_rows(*final(dirs)) == dir_rows(
                *old(dirs),
            ),
        },
{
    remove_dir(dirs, index)
}

/// No directory is listed twice.
pub proof fn directories_stay_apart(dirs: Seq<Seq<char>>, path: Seq<char>)
    requires
        forall|i: int, j: int|
            0 <= i < j < dirs.len() ==> components_of(#[trigger] dirs[i]) != components_of(
                #[trigger] dirs[j],
            ),
        !holds_path(dirs, path),
    ensures
        forall|i: int, j: int|
            0 <= i < j < dirs.push(path).len() ==> components_of(#[trigger] dirs.push(path)[i])
                != components_of(#[trigger] dirs.push(path)[j]),
{
    assert forall|i: int, j: int| 0 <= i < j < dirs.push(path).len() implies components_of(
        #[trigger] dirs.push(path)[i],
    ) != components_of(#[trigger] dirs.push(path)[j]) by {
        assert(dirs.push(path)[i] == dirs[i]);
        if j < dirs.len() {
            assert(dirs.push(path)[j] == dirs[j]);
        }
    }
}

/// The settings of the program.
#[derive(Debug)]
pub struct AppSettings {
    pub download_directory: String,
    pub automatic_download_retries: u32,
    pub check_updates_on_startup: bool,
    pub notify_on_download_complete: bool,
    pub notify_with_sound: bool,
    pub notify_progress: bool,
    pub reload_profile_on_launch: bool,
    pub steamcmd_command_path: String,
    pub steamcmd_login_on_startup: bool,
    pub steamcmd_logout_on_exit: bool,
    pub steamcmd_save_password: bool,
    pub steam_webapi_save_api_key: bool,
    pub steam_webapi_cache_lifetime: u32,
    pub steam_webapi_api_key: String,
}

#[verifier::ext_equal]
pub struct SettingsModel {
    pub download_directory: Seq<char>,
    pub automatic_download_retries: u32,
    pub check_updates_on_startup: bool,
    pub notify_on_download_complete: bool,
    pub notify_with_sound: bool,
    pub notify_progress: bool,
    pub reload_profile_on_launch: bool,
    pub steamcmd_command_path: Seq<char>,
    pub steamcmd_login_on_startup: bool,
    pub steamcmd_logout_on_exit: bool,
    pub steamcmd_save_password: bool,
    pub steam_webapi_save_api_key: bool,
    pub steam_webapi_cache_lifetime: u32,
    pub steam_webapi_api_key: Seq<char>,
}

impl View for AppSettings {
    type V = SettingsModel;

    open spec fn view(&self) -> SettingsModel {
        SettingsModel {
            download_directory: self.download_directory@,
            automatic_download_retries: self.automatic_download_retries,
            check_updates_on_startup: self.check_updates_on_startup,
            notify_on_download_complete: self.notify_on_download_complete,
            notify_with_sound: self.notify_with_sound,
            notify_progress: self.notify_progress,
            reload_profile_on_launch: self.reload_profile_on_launch,
            steamcmd_command_path: self.steamcmd_command_path@,
            steamcmd_login_on_startup: self.steamcmd_login_on_startup,
            steamcmd_logout_on_exit: self.steamcmd_logout_on_exit,
            steamcmd_save_password: self.steamcmd_save_password,
            steam_webapi_save_api_key: self.steam_webapi_save_api_key,
            steam_webapi_cache_lifetime: self.steam_webapi_cache_lifetime,
            steam_webapi_api_key: self.steam_webapi_api_key@,
        }
    }
}

/// The settings that the program begins with, with its files under `data_dir`.
pub open spec fn default_settings(data_dir: Seq<char>) -> SettingsModel {
    SettingsModel {
        download_directory: joined(data_dir, "downloads"@),
        automatic_download_retries: 1,
        check_updates_on_startup: true,
        notify_on_download_complete: true,
        notify_with_sound: false,
        notify_progress: false,
        reload_profile_on_launch: true,
        steamcmd_login_on_startup: false,
        steamcmd_command_path: Seq::empty(),
        steamcmd_logout_on_exit: false,
        steamcmd_save_password: false,
        steam_webapi_save_api_key: false,
        steam_webapi_cache_lifetime: 86400,
        steam_webapi_api_key: Seq::empty(),
    }
}

/// A change of a setting, by its name.
#[derive(Debug)]
pub enum AppSettingEdit {
    String(&'static str, String),
    Number(&'static str, u32),
    Bool(&'static str, bool),
}

/// Whether a setting of this name is a text.
pub open spec fn is_text_setting(name: Seq<char>) -> bool {
    ||| name == "download_directory"@
    ||| name == "steamcmd_command_path"@
    ||| name == "steam_webapi_api_key"@
}

/// Whether a setting of this name is a number.
pub open spec fn is_number_setting(name: Seq<char>) -> bool {
    ||| name == "automatic_download_retries"@
    ||| name == "steam_webapi_cache_lifetime"@
}

/// Whether a setting of this name is on or off.
pub open spec fn is_bool_setting(name: Seq<char>) -> bool {
    ||| name == "check_updates_on_startup"@
    ||| name == "notify_on_download_complete"@
    ||| name == "notify_with_sound"@
    ||| name == "notify_progress"@
    ||| name == "reload_profile_on_launch"@
    ||| name == "steamcmd_login_on_startup"@
    ||| name == "steamcmd_logout_on_exit"@
    ||| name == "steamcmd_save_password"@
    ||| name == "steam_webapi_save_api_key"@
}

/// Whether there is a setting of the name and kind that an edit speaks of.
pub open spec fn is_setting(edit: AppSettingEdit) -> bool {
    match edit {
        AppSettingEdit::String(name, _) => is_text_setting(name@),
        AppSettingEdit::Number(name, _) => is_number_setting(name@),
        AppSettingEdit::Bool(name, _) => is_bool_setting(name@),
    }
}

/// The settings with one of them changed.
pub open spec fn edited_settings(m: SettingsModel, edit: AppSettingEdit) -> SettingsModel {
    match edit {
        AppSettingEdit::String(name, new) => if name@ == "download_directory"@ {
            SettingsModel { download_directory: new@, ..m }
        } else if name@ == "steamcmd_command_path"@ {
            SettingsModel { steamcmd_command_path: new@, ..m }
        } else {
            SettingsModel { steam_webapi_api_key: new@, ..m }
        },
        AppSettingEdit::Number(name, new) => if name@ == "automatic_download_retries"@ {
            SettingsModel { automatic_download_retries: new, ..m }
        } else {
            SettingsModel { steam_webapi_cache_lifetime: new, ..m }
        },
        AppSettingEdit::Bool(name, new) => if name@ == "check_updates_on_startup"@ {
            SettingsModel { check_updates_on_startup: new, ..m }
        } else if name@ == "notify_on_download_complete"@ {
            SettingsModel { notify_on_download_complete: new, ..m }
        } else if name@ == "notify_with_sound"@ {
            SettingsModel { notify_with_sound: new, ..m }
        } else if name@ == "notify_progress"@ {
            SettingsModel { notify_progress: new, ..m }
        } else if name@ == "reload_profile_on_launch"@ {
            SettingsModel { reload_profile_on_launch: new, ..m }
        } else if name@ == "steamcmd_login_on_startup"@ {
            SettingsModel { steamcmd_login_on_startup: new, ..m }
        } else if name@ == "steamcmd_logout_on_exit"@ {
            SettingsModel { steamcmd_logout_on_exit: new, ..m }
        } else if name@ == "steamcmd_save_password"@ {
            SettingsModel { steamcmd_save_password: new, ..m }
        } else {
            SettingsModel { steam_webapi_save_api_key: new, ..m }
        },
    }
}

impl AppSettings {
    /// The settings that the program begins with, with its files under
    /// `data_dir`.
    pub fn defaults(data_dir: &str) -> (r: Self)
        ensures
            r@ == default_settings(data_dir@),
    {
        let r = AppSettings {
            download_directory: join(data_dir, "downloads"),
            automatic_download_retries: 1,
            check_updates_on_startup: true,
            notify_on_download_complete: true,
            notify_with_sound: false,
            notify_progress: false,
            reload_profile_on_launch: true,
            steamcmd_login_on_startup: false,
            steamcmd_command_path: String::new(),
            steamcmd_logout_on_exit: false,
            steamcmd_save_password: false,
            steam_webapi_save_api_key: false,
            steam_webapi_cache_lifetime: 86400,
            steam_webapi_api_key: String::new(),
        };
        assert(r@.steamcmd_command_path =~= Seq::empty());
        assert(r@.steam_webapi_api_key =~= Seq::empty());
        r
    }

    pub fn copy(&self) -> (r: Self)
        ensures
            r@ == self@,
    {
        AppSettings {
            download_directory: self.download_directory.clone(),
            automatic_download_retries: self.automatic_download_retries,
            check_updates_on_startup: self.check_updates_on_startup,
            notify_on_download_complete: self.notify_on_download_complete,
            notify_with_sound: self.notify_with_sound,
            notify_progress: self.notify_progress,
            reload_profile_on_launch: self.reload_profile_on_launch,
            steamcmd_login_on_startup: self.steamcmd_login_on_startup,
            steamcmd_command_path: self.steamcmd_command_path.clone(),
            steamcmd_logout_on_exit: self.steamcmd_logout_on_exit,
            steamcmd_save_password: self.steamcmd_save_password,
            steam_webapi_save_api_key: self.steam_webapi_save_api_key,
            steam_webapi_cache_lifetime: self.steam_webapi_cache_lifetime,
            steam_webapi_api_key: self.steam_webapi_api_key.clone(),
        }
    }

    /// Whether both are the same settings.
    pub fn is(&self, other: &AppSettings) -> (r: bool)
        ensures
            r == (self@ == other@),
    {
        same_text(self.download_directory.as_str(), other.download_directory.as_str())
            && self.automatic_download_retries == other.automatic_download_retries
            && self.check_updates_on_startup == other.check_updates_on_startup
            && self.notify_on_download_complete == other.notify_on_download_complete
            && self.notify_with_sound == other.notify_with_sound && self.notify_progress
            == other.notify_progress && self.reload_profile_on_launch
            == other.reload_profile_on_launch && self.steamcmd_login_on_startup
            == other.steamcmd_login_on_startup && same_text(
            self.steamcmd_command_path.as_str(),
            other.steamcmd_command_path.as_str(),
        ) && self.steamcmd_logout_on_exit == other.steamcmd_logout_on_exit
            && self.steamcmd_save_password == other.steamcmd_save_password
            && self.steam_webapi_save_api_key == other.steam_webapi_save_api_key
            && self.steam_webapi_cache_lifetime == other.steam_webapi_cache_lifetime && same_text(
            self.steam_webapi_api_key.as_str(),
            other.steam_webapi_api_key.as_str(),
        )
    }

    /// Changes a setting.
    pub fn edit(&mut self, edit: AppSettingEdit)
        requires
            is_setting(edit),
        ensures
            final(self)@ == edited_settings(old(self)@, edit),
    {
        match edit {
            AppSettingEdit::String(name, new) => if same_text(name, "download_directory") {
                self.download_directory = new;
            } else if same_text(name, "steamcmd_command_path") {
                self.steamcmd_command_path = new;
            } else {
                self.steam_webapi_api_key = new;
            },
            AppSettingEdit::Number(name, new) => if same_text(
                name,
                "automatic_download_retries",
            ) {
                self.automatic_download_retries = new;
            } else {
                self.steam_webapi_cache_lifetime = new;
            },
            AppSettingEdit::Bool(name, new) => if same_text(name, "check_updates_on_startup") {
                self.check_updates_on_startup = new;
            } else if same_text(name, "notify_on_download_complete") {
                self.notify_on_download_complete = new;
            } else if same_text(name, "notify_with_sound") {
                self.notify_with_sound = new;
            } else if same_text(name, "notify_progress") {
                self.notify_progress = new;
            } else if same_text(name, "reload_profile_on_launch") {
                self.reload_profile_on_launch = new;
            } else if same_text(name, "steamcmd_login_on_startup") {
                self.steamcmd_login_on_startup = new;
            } else if same_text(name, "steamcmd_logout_on_exit") {
                self.steamcmd_logout_on_exit = new;
            } else if same_text(name, "steamcmd_save_password") {
                self.steamcmd_save_password = new;
            } else {
                self.steam_webapi_save_api_key = new;
            },
        }
    }

    /// Where the command of the Steam session is, if that is set.
    pub fn command_path(&self) -> (r: Option<String>)
        ensures
            match r {
                Some(path) => self@.steamcmd_command_path.len() > 0 && path@
                    == self@.steamcmd_command_path,
                None => self@.steamcmd_command_path.len() == 0,
            },
    {
        if self.steamcmd_command_path.as_str().unicode_len() > 0 {
            Some(self.steamcmd_command_path.clone())
        } else {
            None
        }
    }
}

/// How a setting is edited.
#[derive(Debug, Clone, Copy, PartialEq, Eq, Structural)]
pub enum AppSettingEditor {
    StringInput,
    SecretInput,
    /// A number from the first to the second.
    NumberInput(u32, u32),
    BoolToggle,
}

/// How a number is shown beside its editor.
#[derive(Debug, Clone, Copy, PartialEq, Eq, Structural)]
pub enum AppSettingsNumberPreview {
    HumanTime,
    FileSize,
}

/// What is shown beside the editor of a number.
#[derive(Debug)]
pub enum Preview {
    Text(String),
    Size(SizeDisplay),
}

impl AppSettingsNumberPreview {
    /// What is shown beside the editor of a number.
    pub fn generate_preview(&self, value: u32) -> (r: Preview)
        ensures
            match self {
                AppSettingsNumberPreview::HumanTime => r matches Preview::Text(text) && text@
                    == duration_text(value as u64),
                AppSettingsNumberPreview::FileSize => r == Preview::Size(
                    SizeDisplay::in_unit_of(value as u64, value as u64),
                ),
            },
    {
        match self {
            AppSettingsNumberPreview::HumanTime => Preview::Text(format_duration(value as u64)),
            AppSettingsNumberPreview::FileSize => Preview::Size(
                SizeDisplay::automatic(value as u64),
            ),
        }
    }
}

/// The kind of value that a setting has.
#[derive(Debug, Clone, Copy, PartialEq, Eq, Structural)]
pub enum SettingType {
    String,
    Bool,
    Number,
}

impl AppSettingEditor {
    /// The editor of a setting that asks for no other one.
    pub fn get_default_for(kind: SettingType) -> (r: AppSettingEditor)
        ensures
            r == match kind {
                SettingType::String => AppSettingEditor::StringInput,
                SettingType::Bool => AppSettingEditor::BoolToggle,
                SettingType::Number => AppSettingEditor::NumberInput(0, u32::MAX),
            },
    {
        match kind {
            SettingType::String => AppSettingEditor::StringInput,
            SettingType::Bool => AppSettingEditor::BoolToggle,
            SettingType::Number => AppSettingEditor::NumberInput(0, u32::MAX),
        }
    }
}

/// A setting as it is shown.
#[derive(Debug, Clone, Copy)]
pub struct SettingField {
    pub name: &'static str,
    pub label: &'static str,
    pub editor: AppSettingEditor,
    /// Whether the setting cannot be changed where the program is locked down.
    pub locked: bool,
    pub preview: Option<AppSettingsNumberPreview>,
}

/// Whether a setting can be changed.
pub fn can_edit(field: &SettingField, flatpak: bool) -> (r: bool)
    ensures
        r == !(flatpak && field.locked),
{
    !(flatpak && field.locked)
}

/// The setting of a name has the kind that its editor edits.
pub open spec fn fits(field: SettingField) -> bool {
    match field.editor {
        AppSettingEditor::StringInput | AppSettingEditor::SecretInput => is_text_setting(
            field.name@,
        ),
        AppSettingEditor::NumberInput(from, to) => from <= to && is_number_setting(field.name@),
        AppSettingEditor::BoolToggle => is_bool_setting(field.name@),
    }
}

fn plain_field(name: &'static str, label: &'static str, kind: SettingType, locked: bool) -> (r:
    SettingField)
    ensures
        r.name == name,
        r.label == label,
        r.locked == locked,
        r.preview is None,
        r.editor == match kind {
            SettingType::String => AppSettingEditor::StringInput,
            SettingType::Bool => AppSettingEditor::BoolToggle,
            SettingType::Number => AppSettingEditor::NumberInput(0, u32::MAX),
        },
{
    SettingField {
        name,
        label,
        editor: AppSettingEditor::get_default_for(kind),
        locked,
        preview: None,
    }
}

pub open spec fn field_names(fields: Seq<SettingField>) -> Seq<Seq<char>> {
    Seq::new(fields.len(), |i: int| fields[i].name@)
}

/// The settings in the order in which they are shown.
pub fn settings_fields() -> (r: Vec<SettingField>)
    ensures
        field_names(r@) == seq![
            "download_directory"@,
            "automatic_download_retries"@,
            "check_updates_on_startup"@,
            "notify_on_download_complete"@,
            "notify_with_sound"@,
            "notify_progress"@,
            "reload_profile_on_launch"@,
            "steamcmd_command_path"@,
            "steamcmd_login_on_startup"@,
            "steamcmd_logout_on_exit"@,
            "steamcmd_save_password"@,
            "steam_webapi_save_api_key"@,
            "steam_webapi_cache_lifetime"@,
            "steam_webapi_api_key"@,
        ],
        forall|i: int| 0 <= i < r@.len() ==> fits(#[trigger] r@[i]),
        forall|i: int| 0 <= i < r@.len() ==> (#[trigger] r@[i]).locked == (i == 0 || i == 7),
        r@[1].editor == AppSettingEditor::NumberInput(0, 20),
        r@[12].editor == AppSettingEditor::NumberInput(0, 604800),
        r@[13].editor == AppSettingEditor::SecretInput,
        forall|i: int|
            0 <= i < r@.len() ==> (#[trigger] r@[i]).preview == if i == 12 {
                Some(AppSettingsNumberPreview::HumanTime)
            } else {
                None
            },
{
    let mut r: Vec<SettingField> = Vec::new();
    r.push(plain_field("download_directory", "Download Directory", SettingType::String, true));
    r.push(
        SettingField {
            name: "automatic_download_retries",
            label: "Automatic Download Retries",
            editor: AppSettingEditor::NumberInput(0, 20),
            locked: false,
            preview: None,
        },
    );
    r.push(
        plain_field(
            "check_updates_on_startup",
            "Check Updates on Startup",
            SettingType::Bool,
            false,
        ),
    );
    r.push(
        plain_field(
            "notify_on_download_complete",
            "Notify on Download Complete",
            SettingType::Bool,
            false,
        ),
    );
    r.push(plain_field("notify_with_sound", "Notify with Sound", SettingType::Bool, false));
    r.push(
        plain_field(
            "notify_progress",
            "Show Download Progress Notification",
            SettingType::Bool,
            false,
        ),
    );
    r.push(
        plain_field(
            "reload_profile_on_launch",
            "Reload Profile on Launch",
            SettingType::Bool,
            false,
        ),
    );
    r.push(
        plain_field("steamcmd_command_path", "steamcmd: Command Path", SettingType::String, true),
    );
    r.push(
        plain_field(
            "steamcmd_login_on_startup",
            "steamcmd: Login On Startup",
            SettingType::Bool,
            false,
        ),
    );
    r.push(
        plain_field(
            "steamcmd_logout_on_exit",
            "steamcmd: Logout On Exit",
            SettingType::Bool,
            false,
        ),
    );
    r.push(
        plain_field("steamcmd_save_password", "steamcmd: Save Password", SettingType::Bool, false),
    );
    r.push(
        plain_field(
            "steam_webapi_save_api_key",
            "Steam Web API: Save API Key",
            SettingType::Bool,
            false,
        ),
    );
    r.push(
        SettingField {
            name: "steam_webapi_cache_lifetime",
            label: "Steam Web API: Query Cache Lifetime (seconds)",
            editor: AppSettingEditor::NumberInput(0, 604800),
            locked: false,
            preview: Some(AppSettingsNumberPreview::HumanTime),
        },
    );
    r.push(
        SettingField {
            name: "steam_webapi_api_key",
            label: "Steam Web API: API Key",
            editor: AppSettingEditor::SecretInput,
            locked: false,
            preview: None,
        },
    );
    assert(field_names(r@) =~= seq![
        "download_directory"@,
        "automatic_download_retries"@,
        "check_updates_on_startup"@,
        "notify_on_download_complete"@,
        "notify_with_sound"@,
        "notify_progress"@,
        "reload_profile_on_launch"@,
        "steamcmd_command_path"@,
        "steamcmd_login_on_startup"@,
        "steamcmd_logout_on_exit"@,
        "steamcmd_save_password"@,
        "steam_webapi_save_api_key"@,
        "steam_webapi_cache_lifetime"@,
        "steam_webapi_api_key"@,
    ]);
    r
}

} // verus!
