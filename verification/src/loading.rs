//! What is linked where when a profile is loaded into the game.
use vstd::prelude::*;

use crate::library::Profile;
use crate::numbers::decimal;
use crate::paths::{equal_ignoring_case, file_name, has_extension, join, with_extension};
use crate::table::Table;
use crate::text::{chars_of, join_two, same_text};
use crate::xcom_mod::{ModId, ModMetadata};
#[allow(unused_imports)]
use crate::library::row_keys;
#[allow(unused_imports)]
use crate::numbers::decimal_text;
#[allow(unused_imports)]
use crate::paths::{extension_is, extension_set, file_name_of, joined, same_ignoring_case};
#[allow(unused_imports)]
use crate::xcom_mod::ModIdModel;

pub mod choice;
pub mod laws;
pub mod plan;

verus! {

/// The name of the folder of a profile's characters.
pub const CHARACTER_POOL: &'static str = "CharacterPool";

/// The name of the folder of a profile's configuration.
pub const CONFIG: &'static str = "Config";

/// The name of the folder of a profile's photos.
pub const PHOTOBOOTH: &'static str = "Photobooth";

/// The name of the folder of a profile's saved games.
pub const SAVE_DATA: &'static str = "SaveData";

/// Why a profile cannot be loaded.
#[derive(Debug)]
pub enum LoadingError {
    /// Nothing is known of a mod.
    ItemMissing(String),
    /// Nothing is known of a mod that is to be listed.
    MetadataMissing,
    /// Two mods have the same name.
    DefinedTwice(String),
    /// Neither a file nor a directory.
    Unprocessable,
    NoActiveMods,
    NoActiveConfig,
    NotSaveFolder(String),
    NoConfigFolder(String),
    NoLogsFolder(String),
    Unreadable(String),
    NoProfileFolder,
}

pub open spec fn error_text(error: LoadingError) -> Seq<char> {
    match error {
        LoadingError::ItemMissing(id) => "item informatin missing for id "@ + id@,
        LoadingError::MetadataMissing => "mod metadata was missing"@,
        LoadingError::DefinedTwice(name) => "Mod with DLCName "@ + name@ + " is defined twice"@,
        LoadingError::Unprocessable => "unable to process file"@,
        LoadingError::NoActiveMods => "active mods directory not found"@,
        LoadingError::NoActiveConfig => "active config directory not found"@,
        LoadingError::NotSaveFolder(path) => path@
            + " does not end with 'XComGame', this does not appear to be to be the save folder"@,
        LoadingError::NoConfigFolder(path) => "cannot find 'Config' folder in "@ + path@
            + ", please launch the game at least once if this is the correct folder"@,
        LoadingError::NoLogsFolder(path) => "cannot find 'Logs' folder in "@ + path@
            + ", please launch the game at least once if this is the correct folder"@,
        LoadingError::Unreadable(path) => "could not find or read "@ + path@,
        LoadingError::NoProfileFolder => "profile folder does not exist"@,
    }
}

fn around(front: &str, middle: &str, back: &str) -> (r: String)
    ensures
        r@ == front@ + middle@ + back@,
{
    let a = join_two(front, middle);
    join_two(a.as_str(), back)
}

impl LoadingError {
    /// What the user is told.
    pub fn message(&self) -> (r: String)
        ensures
            r@ == error_text(*self),
    {
        match self {
            LoadingError::ItemMissing(id) => join_two(
                "item informatin missing for id ",
                id.as_str(),
            ),
            LoadingError::MetadataMissing => "mod metadata was missing".to_owned(),
            LoadingError::DefinedTwice(name) => around(
                "Mod with DLCName ",
                name.as_str(),
                " is defined twice",
            ),
            LoadingError::Unprocessable => "unable to process file".to_owned(),
            LoadingError::NoActiveMods => "active mods directory not found".to_owned(),
            LoadingError::NoActiveConfig => "active config directory not found".to_owned(),
            LoadingError::NotSaveFolder(path) => join_two(
                path.as_str(),
                " does not end with 'XComGame', this does not appear to be to be the save folder",
            ),
            LoadingError::NoConfigFolder(path) => around(
                "cannot find 'Config' folder in ",
                path.as_str(),
                ", please launch the game at least once if this is the correct folder",
            ),
            LoadingError::NoLogsFolder(path) => around(
                "cannot find 'Logs' folder in ",
                path.as_str(),
                ", please launch the game at least once if this is the correct folder",
            ),
            LoadingError::Unreadable(path) => join_two("could not find or read ", path.as_str()),
            LoadingError::NoProfileFolder => "profile folder does not exist".to_owned(),
        }
    }
}

/// Where the files of a profile are kept.
pub fn profile_directory(profiles_dir: &str, id: usize) -> (r: String)
    ensures
        r@ == joined(profiles_dir@, decimal_text(id as nat)),
{
    let name = decimal(id as u64);
    join(profiles_dir, name.as_str())
}

pub open spec fn enabled_keys(
    rows: Seq<(ModIdModel, crate::library::LibraryItemSettings)>,
) -> Seq<ModIdModel>
    decreases rows.len(),
{
    if rows.len() == 0 {
        Seq::empty()
    } else {
        let front = enabled_keys(rows.drop_last());
        if rows.last().1.enabled {
            front.push(rows.last().0)
        } else {
            front
        }
    }
}

pub open spec fn id_views(ids: Seq<&ModId>) -> Seq<ModIdModel> {
    Seq::new(ids.len(), |i: int| ids[i]@)
}

/// The mods of a profile whose configuration is active, in order.
pub fn enabled_items(profile: &Profile) -> (r: Vec<&ModId>)
    ensures
        id_views(r@) == enabled_keys(profile.items.rows()),
{
    let n = profile.items.len();
    let ghost rows = profile.items.rows();
    let mut out: Vec<&ModId> = Vec::new();
    let mut i: usize = 0;
    assert(id_views(out@) =~= enabled_keys(rows.take(0)));
    while i < n
        invariant
            0 <= i <= n,
            rows == profile.items.rows(),
            n == rows.len(),
            id_views(out@) == enabled_keys(rows.take(i as int)),
        decreases n - i,
    {
        proof {
            assert(rows.take(i + 1).drop_last() =~= rows.take(i as int));
            assert(rows.take(i + 1).last() == rows[i as int]);
        }
        let ghost before = id_views(out@);
        if profile.items.value_at(i).enabled {
            let id = profile.items.key_at(i);
            out.push(id);
            assert(id_views(out@) =~= before.push(id@));
        }
        i += 1;
    }
    assert(rows.take(i as int) =~= rows);
    out
}

/// An entry of a directory of configuration files.
#[derive(Debug)]
pub struct ConfigEntry {
    pub path: String,
    pub name: String,
    /// Where the entry leads, with every link followed, and the name there.
    pub canonical: String,
    pub canonical_name: String,
    pub is_dir: bool,
}

#[verifier::ext_equal]
pub struct ConfigModel {
    pub path: Seq<char>,
    pub name: Seq<char>,
    pub canonical: Seq<char>,
    pub canonical_name: Seq<char>,
    pub is_dir: bool,
}

impl View for ConfigEntry {
    type V = ConfigModel;

    open spec fn view(&self) -> ConfigModel {
        ConfigModel {
            path: self.path@,
            name: self.name@,
            canonical: self.canonical@,
            canonical_name: self.canonical_name@,
            is_dir: self.is_dir,
        }
    }
}

pub open spec fn config_models(entries: Seq<ConfigEntry>) -> Seq<ConfigModel> {
    Seq::new(entries.len(), |i: int| entries[i]@)
}

/// A link to be made: from where, and under which name.
#[derive(Debug)]
pub enum ConfigLink {
    File(String, String),
    Directory(String, String),
}

#[verifier::ext_equal]
pub enum LinkModel {
    File(Seq<char>, Seq<char>),
    Directory(Seq<char>, Seq<char>),
}

impl View for ConfigLink {
    type V = LinkModel;

    open spec fn view(&self) -> LinkModel {
        match self {
            ConfigLink::File(from, name) => LinkModel::File(from@, name@),
            ConfigLink::Directory(from, name) => LinkModel::Directory(from@, name@),
        }
    }
}

pub open spec fn link_models(links: Seq<ConfigLink>) -> Seq<LinkModel> {
    Seq::new(links.len(), |i: int| links[i]@)
}

/// The links to the configuration files that the user made.
pub open spec fn custom_links(entries: Seq<ConfigModel>) -> Seq<LinkModel>
    decreases entries.len(),
{
    if entries.len() == 0 {
        Seq::empty()
    } else {
        let front = custom_links(entries.drop_last());
        let e = entries.last();
        if extension_is(e.path, "ini"@) {
            front.push(LinkModel::File(e.canonical, e.canonical_name))
        } else {
            front
        }
    }
}

/// Whether the user made a configuration file of this name.
pub open spec fn is_custom(entries: Seq<ConfigModel>, name: Seq<char>) -> bool {
    exists|i: int|
        0 <= i < entries.len() && extension_is((#[trigger] entries[i]).path, "ini"@)
            && entries[i].canonical_name == name
}

/// The links to what came with the mod, but for files that the user replaced.
pub open spec fn original_links(
    custom: Seq<ConfigModel>,
    entries: Seq<ConfigModel>,
) -> Seq<LinkModel>
    decreases entries.len(),
{
    if entries.len() == 0 {
        Seq::empty()
    } else {
        let front = original_links(custom, entries.drop_last());
        let e = entries.last();
        if extension_is(e.path, "ini"@) {
            if is_custom(custom, e.canonical_name) {
                front
            } else {
                front.push(LinkModel::File(e.canonical, e.canonical_name))
            }
        } else if e.is_dir {
            front.push(LinkModel::Directory(e.canonical, e.name))
        } else {
            front
        }
    }
}

fn find_custom(entries: &Vec<ConfigEntry>, name: &str) -> (r: bool)
    ensures
        r == is_custom(config_models(entries@), name@),
{
    let ghost all = config_models(entries@);
    let mut i: usize = 0;
    while i < entries.len()
        invariant
            0 <= i <= entries@.len(),
            all == config_models(entries@),
            forall|j: int|
                0 <= j < i ==> !(extension_is((#[trigger] all[j]).path, "ini"@)
                    && all[j].canonical_name == name@),
        decreases entries@.len() - i,
    {
        assert(all[i as int] == entries@[i as int]@);
        if has_extension(entries[i].path.as_str(), "ini") && same_text(
            entries[i].canonical_name.as_str(),
            name,
        ) {
            return true;
        }
        i += 1;
    }
    false
}

/// The links that make up the active configuration of a mod: the files that the
/// user made, and what came with the mod but for files of the same names.
pub fn config_links(custom: &Vec<ConfigEntry>, original: &Vec<ConfigEntry>) -> (r: Vec<ConfigLink>)
    ensures
        link_models(r@) == custom_links(config_models(custom@)) + original_links(
            config_models(custom@),
            config_models(original@),
        ),
{
    let ghost c = config_models(custom@);
    let ghost o = config_models(original@);
    let mut out: Vec<ConfigLink> = Vec::new();
    let mut i: usize = 0;
    assert(link_models(out@) =~= custom_links(c.take(0)));
    while i < custom.len()
        invariant
            0 <= i <= custom@.len(),
            c == config_models(custom@),
            link_models(out@) == custom_links(c.take(i as int)),
        decreases custom@.len() - i,
    {
        let entry = &custom[i];
        let ghost before = link_models(out@);
        proof {
            assert(c.take(i + 1).drop_last() =~= c.take(i as int));
            assert(c.take(i + 1).last() == entry@);
        }
        if has_extension(entry.path.as_str(), "ini") {
            let link = ConfigLink::File(entry.canonical.clone(), entry.canonical_name.clone());
            let ghost view = link@;
            out.push(link);
            assert(link_models(out@) =~= before.push(view));
        }
        i += 1;
    }
    assert(c.take(i as int) =~= c);
    let mut k: usize = 0;
    assert(link_models(out@) =~= custom_links(c) + original_links(c, o.take(0)));
    while k < original.len()
        invariant
            0 <= k <= original@.len(),
            c == config_models(custom@),
            o == config_models(original@),
            link_models(out@) == custom_links(c) + original_links(c, o.take(k as int)),
        decreases original@.len() - k,
    {
        let entry = &original[k];
        let ghost before = link_models(out@);
        let ghost front = original_links(c, o.take(k as int));
        proof {
            assert(o.take(k + 1).drop_last() =~= o.take(k as int));
            assert(o.take(k + 1).last() == entry@);
        }
        if has_extension(entry.path.as_str(), "ini") {
            if !find_custom(custom, entry.canonical_name.as_str()) {
                let link = ConfigLink::File(entry.canonical.clone(), entry.canonical_name.clone());
                let ghost view = link@;
                out.push(link);
                assert(link_models(out@) =~= before.push(view));
                assert(custom_links(c) + front.push(view) =~= before.push(view));
            }
        } else if entry.is_dir {
            let link = ConfigLink::Directory(entry.canonical.clone(), entry.name.clone());
            let ghost view = link@;
            out.push(link);
            assert(link_models(out@) =~= before.push(view));
            assert(custom_links(c) + front.push(view) =~= before.push(view));
        }
        k += 1;
    }
    assert(o.take(k as int) =~= o);
    out
}

/// A file of the mod is not linked where the user made one of the same name.
pub proof fn custom_files_replace_original_ones(
    custom: Seq<ConfigModel>,
    original: Seq<ConfigModel>,
    i: int,
)
    requires
        0 <= i < original_links(custom, original).len(),
        original_links(custom, original)[i] is File,
    ensures
        !is_custom(custom, original_links(custom, original)[i]->File_1),
    decreases original.len(),
{
    let front = original_links(custom, original.drop_last());
    if i < front.len() {
        custom_files_replace_original_ones(custom, original.drop_last(), i);
    }
}

/// Where a mod is put among the active ones.
pub fn mod_destination(
    active_mods_dir: &str,
    id: &ModId,
    metadata: &Table<ModId, ModMetadata>,
) -> (r: Result<String, LoadingError>)
    ensures
        if metadata@.dom().contains(id@) {
            r matches Ok(path) && path@ == joined(active_mods_dir@, metadata@[id@].dlc_name@)
        } else {
            r matches Err(LoadingError::ItemMissing(text)) && text@ == id@.text()
        },
{
    match metadata.get(id) {
        Some(data) => Ok(join(active_mods_dir, data.dlc_name.as_str())),
        None => Err(LoadingError::ItemMissing(id.text())),
    }
}

/// Whether a mod can be put at its place, where something may be already.
pub fn check_destination(name: &str, taken: bool) -> (r: Result<(), LoadingError>)
    ensures
        if taken {
            r matches Err(LoadingError::DefinedTwice(text)) && text@ == name@
        } else {
            r is Ok
        },
{
    if taken {
        Err(LoadingError::DefinedTwice(name.to_owned()))
    } else {
        Ok(())
    }
}

/// Whether a name is that of source files, which are left out.
pub open spec fn is_source(name: Seq<char>) -> bool {
    same_ignoring_case(name, "source"@) || same_ignoring_case(name, "src"@)
}

/// What an entry of a mod's directory is taken from: source files are left out,
/// and the active configuration, where there is one, takes the place of the
/// mod's own.
pub open spec fn source_of(path: Seq<char>, name: Seq<char>, config: Option<Seq<char>>) -> Option<
    Seq<char>,
> {
    if is_source(name) {
        None
    } else if same_ignoring_case(name, "config"@) && config is Some {
        config
    } else {
        Some(path)
    }
}

pub(crate) fn is_name(name: &str, other: &str) -> (r: bool)
    ensures
        r == same_ignoring_case(name@, other@),
{
    let a = chars_of(name);
    let b = chars_of(other);
    equal_ignoring_case(a.as_slice(), b.as_slice())
}

/// What an entry of a mod's directory is taken from.
pub fn entry_source(path: &str, name: &str, config: &Option<String>) -> (r: Option<String>)
    ensures
        crate::mod_edit::option_text(r) == source_of(
            path@,
            name@,
            crate::mod_edit::option_text(*config),
        ),
{
    if is_name(name, "source") || is_name(name, "src") {
        return None;
    }
    if is_name(name, "config") {
        if let Some(config) = config {
            return Some(config.clone());
        }
    }
    Some(path.to_owned())
}

/// What kind of link an entry calls for.
#[derive(Debug, Clone, Copy, PartialEq, Eq, Structural)]
pub enum LinkKind {
    Directory,
    File,
}

/// What kind of link an entry calls for.
pub fn link_kind(is_dir: bool, is_file: bool) -> (r: Result<LinkKind, LoadingError>)
    ensures
        if is_dir {
            r == Ok::<LinkKind, LoadingError>(LinkKind::Directory)
        } else if is_file {
            r == Ok::<LinkKind, LoadingError>(LinkKind::File)
        } else {
            r matches Err(LoadingError::Unprocessable)
        },
{
    if is_dir {
        Ok(LinkKind::Directory)
    } else if is_file {
        Ok(LinkKind::File)
    } else {
        Err(LoadingError::Unprocessable)
    }
}

/// The line of an active mod.
pub open spec fn mod_line(name: Seq<char>) -> Seq<char> {
    "ActiveMods=\""@ + name + "\"\n"@
}

/// The lines of the active mods, as far as something is known of them, and
/// whether something is known of all.
pub open spec fn mod_lines(
    ids: Seq<ModIdModel>,
    metadata: Map<ModIdModel, ModMetadata>,
) -> (Seq<char>, bool)
    decreases ids.len(),
{
    if ids.len() == 0 {
        (Seq::empty(), true)
    } else {
        let (text, complete) = mod_lines(ids.drop_last(), metadata);
        if complete && metadata.dom().contains(ids.last()) {
            (text + mod_line(metadata[ids.last()].dlc_name@), true)
        } else {
            (text, false)
        }
    }
}

pub open spec fn list_header() -> Seq<char> {
    "[Engine.XComModOptions]\n"@
}

proof fn lemma_mod_lines_stop(
    ids: Seq<ModIdModel>,
    metadata: Map<ModIdModel, ModMetadata>,
    n: int,
)
    requires
        0 <= n <= ids.len(),
        !mod_lines(ids.take(n), metadata).1,
    ensures
        mod_lines(ids, metadata) == mod_lines(ids.take(n), metadata),
    decreases ids.len(),
{
    if n < ids.len() {
        assert(ids.drop_last().take(n) =~= ids.take(n));
        lemma_mod_lines_stop(ids.drop_last(), metadata, n);
    } else {
        assert(ids.take(n) =~= ids);
    }
}

/// Writes the list of active mods to the end of `out`. Where nothing is known of
/// a mod, the list ends before it.
pub fn write_mod_list(
    profile: &Profile,
    metadata: &Table<ModId, ModMetadata>,
    out: &mut String,
) -> (r: Result<(), LoadingError>)
    ensures
        final(out)@ == old(out)@ + list_header() + mod_lines(
            row_keys(profile.items.rows()),
            metadata@,
        ).0,
        match r {
            Ok(_) => mod_lines(row_keys(profile.items.rows()), metadata@).1,
            Err(e) => e is MetadataMissing && !mod_lines(
                row_keys(profile.items.rows()),
                metadata@,
            ).1,
        },
{
    let ghost start = out@;
    let mut text = join_two(out.as_str(), "[Engine.XComModOptions]\n");
    let n = profile.items.len();
    let ghost ids = row_keys(profile.items.rows());
    let mut i: usize = 0;
    assert(mod_lines(ids.take(0), metadata@).0 =~= Seq::empty());
    assert(text@ =~= start + list_header() + mod_lines(ids.take(0), metadata@).0);
    while i < n
        invariant
            0 <= i <= n,
            ids == row_keys(profile.items.rows()),
            n == ids.len(),
            start == old(out)@,
            text@ == start + list_header() + mod_lines(ids.take(i as int), metadata@).0,
            mod_lines(ids.take(i as int), metadata@).1,
        decreases n - i,
    {
        let id = profile.items.key_at(i);
        proof {
            assert(ids.take(i + 1).drop_last() =~= ids.take(i as int));
            assert(ids.take(i + 1).last() == id@);
        }
        match metadata.get(id) {
            None => {
                proof {
                    lemma_mod_lines_stop(ids, metadata@, i + 1);
                }
                *out = text;
                return Err(LoadingError::MetadataMissing);
            },
            Some(data) => {
                let line = around("ActiveMods=\"", data.dlc_name.as_str(), "\"\n");
                let ghost before = text@;
                text = join_two(text.as_str(), line.as_str());
                assert(text@ =~= start + list_header() + mod_lines(ids.take(i + 1), metadata@).0);
            },
        }
        i += 1;
    }
    assert(ids.take(i as int) =~= ids);
    *out = text;
    Ok(())
}

/// The list of active mods.
pub fn mod_list(profile: &Profile, metadata: &Table<ModId, ModMetadata>) -> (r: Result<
    String,
    LoadingError,
>)
    ensures
        ({
            let (lines, complete) = mod_lines(row_keys(profile.items.rows()), metadata@);
            if complete {
                r matches Ok(text) && text@ == list_header() + lines
            } else {
                r matches Err(LoadingError::MetadataMissing)
            }
        }),
{
    let mut text = String::new();
    match write_mod_list(profile, metadata, &mut text) {
        Ok(_) => {
            assert(text@ =~= list_header() + mod_lines(
                row_keys(profile.items.rows()),
                metadata@,
            ).0);
            Ok(text)
        },
        Err(e) => Err(e),
    }
}

/// The list of active mods can be written if and only if something is known of
/// every mod.
pub proof fn list_is_complete_when_all_is_known(
    ids: Seq<ModIdModel>,
    metadata: Map<ModIdModel, ModMetadata>,
)
    ensures
        mod_lines(ids, metadata).1 <==> forall|i: int|
            0 <= i < ids.len() ==> metadata.dom().contains(#[trigger] ids[i]),
    decreases ids.len(),
{
    if ids.len() > 0 {
        let front = ids.drop_last();
        list_is_complete_when_all_is_known(front, metadata);
        assert forall|i: int| 0 <= i < ids.len() && mod_lines(ids, metadata).1 implies metadata.dom()
            .contains(#[trigger] ids[i]) by {
            if i < front.len() {
                assert(front[i] == ids[i]);
            }
        }
        if forall|i: int| 0 <= i < ids.len() ==> metadata.dom().contains(#[trigger] ids[i]) {
            assert forall|i: int| 0 <= i < front.len() implies metadata.dom().contains(
                #[trigger] front[i],
            ) by {
                assert(front[i] == ids[i]);
            }
            assert(metadata.dom().contains(ids[ids.len() - 1]));
        }
    }
}

/// What was found of the places that the active mods are linked at.
#[derive(Debug, Clone, Copy)]
pub struct GameFacts {
    pub active_mods: bool,
    pub active_config: bool,
    pub mods: bool,
    pub mods_is_link: bool,
    pub mods_backup: bool,
    pub config: bool,
    pub options: bool,
    pub options_backup: bool,
}

/// A step of linking a profile into the game.
#[derive(Debug)]
pub enum LoadStep {
    Rename(String, String),
    RemoveDir(String),
    CreateDir(String),
    Copy(String, String),
    /// The list of active mods is written here.
    WriteModList(String),
    LinkDir(String, String),
}

#[verifier::ext_equal]
pub enum LoadStepModel {
    Rename(Seq<char>, Seq<char>),
    RemoveDir(Seq<char>),
    CreateDir(Seq<char>),
    Copy(Seq<char>, Seq<char>),
    WriteModList(Seq<char>),
    LinkDir(Seq<char>, Seq<char>),
}

impl View for LoadStep {
    type V = LoadStepModel;

    open spec fn view(&self) -> LoadStepModel {
        match self {
            LoadStep::Rename(a, b) => LoadStepModel::Rename(a@, b@),
            LoadStep::RemoveDir(a) => LoadStepModel::RemoveDir(a@),
            LoadStep::CreateDir(a) => LoadStepModel::CreateDir(a@),
            LoadStep::Copy(a, b) => LoadStepModel::Copy(a@, b@),
            LoadStep::WriteModList(a) => LoadStepModel::WriteModList(a@),
            LoadStep::LinkDir(a, b) => LoadStepModel::LinkDir(a@, b@),
        }
    }
}

pub open spec fn load_models(steps: Seq<LoadStep>) -> Seq<LoadStepModel> {
    Seq::new(steps.len(), |i: int| steps[i]@)
}

fn push_step(out: &mut Vec<LoadStep>, step: LoadStep)
    ensures
        load_models(final(out)@) == load_models(old(out)@).push(step@),
{
    let ghost before = load_models(out@);
    let ghost view = step@;
    out.push(step);
    assert(load_models(out@) =~= before.push(view));
}

/// The steps of linking the active mods into the game.
pub open spec fn environment_steps(
    active_mods_dir: Seq<char>,
    destination: Seq<char>,
    facts: GameFacts,
) -> Seq<LoadStepModel> {
    let game = joined(destination, "XComGame"@);
    let mods = joined(game, "Mods"@);
    let config = joined(game, "Config"@);
    let options = joined(config, "DefaultModOptions.ini"@);
    let kept = if facts.mods && !facts.mods_backup {
        seq![LoadStepModel::Rename(mods, mods + ".bak"@)]
    } else {
        Seq::empty()
    };
    let cleared = if facts.mods || facts.mods_is_link {
        seq![LoadStepModel::RemoveDir(mods)]
    } else {
        Seq::empty()
    };
    let made = if facts.config {
        Seq::empty()
    } else {
        seq![LoadStepModel::CreateDir(config)]
    };
    let saved = if facts.options && !facts.options_backup {
        seq![LoadStepModel::Copy(options, options + ".bak"@)]
    } else {
        Seq::empty()
    };
    kept + cleared + made + saved + seq![
        LoadStepModel::WriteModList(options),
        LoadStepModel::LinkDir(active_mods_dir, mods),
    ]
}

/// The steps of linking the active mods into the game.
pub fn link_mod_environment(active_mods_dir: &str, destination: &str, facts: GameFacts) -> (r:
    Result<Vec<LoadStep>, LoadingError>)
    ensures
        if !facts.active_mods {
            r matches Err(LoadingError::NoActiveMods)
        } else if !facts.active_config {
            r matches Err(LoadingError::NoActiveConfig)
        } else {
            r matches Ok(steps) && load_models(steps@) == environment_steps(
                active_mods_dir@,
                destination@,
                facts,
            )
        },
{
    if !facts.active_mods {
        return Err(LoadingError::NoActiveMods);
    }
    if !facts.active_config {
        return Err(LoadingError::NoActiveConfig);
    }
    let game = join(destination, "XComGame");
    let mods = join(game.as_str(), "Mods");
    let config = join(game.as_str(), "Config");
    let options = join(config.as_str(), "DefaultModOptions.ini");
    let mut out: Vec<LoadStep> = Vec::new();
    assert(load_models(out@) =~= Seq::empty());
    if facts.mods && !facts.mods_backup {
        let backup = join_two(mods.as_str(), ".bak");
        push_step(&mut out, LoadStep::Rename(mods.clone(), backup));
    }
    if facts.mods || facts.mods_is_link {
        push_step(&mut out, LoadStep::RemoveDir(mods.clone()));
    }
    if !facts.config {
        push_step(&mut out, LoadStep::CreateDir(config.clone()));
    }
    if facts.options && !facts.options_backup {
        let backup = join_two(options.as_str(), ".bak");
        push_step(&mut out, LoadStep::Copy(options.clone(), backup));
    }
    push_step(&mut out, LoadStep::WriteModList(options));
    push_step(&mut out, LoadStep::LinkDir(active_mods_dir.to_owned(), mods));
    assert(load_models(out@) =~= environment_steps(active_mods_dir@, destination@, facts));
    Ok(out)
}

/// What was found of the game's folder for a user's files.
#[derive(Debug, Clone, Copy)]
pub struct LocalFacts {
    pub config: bool,
    pub logs: bool,
    pub exists: bool,
    pub profile: bool,
}

/// Whether the game's folder for a user's files can be used.
pub fn check_local_files(local_path: &str, facts: LocalFacts) -> (r: Result<(), LoadingError>)
    ensures
        if file_name_of(local_path@) != Some("XComGame"@) {
            r matches Err(LoadingError::NotSaveFolder(path)) && path@ == local_path@
        } else if !facts.config {
            r matches Err(LoadingError::NoConfigFolder(path)) && path@ == local_path@
        } else if !facts.logs {
            r matches Err(LoadingError::NoLogsFolder(path)) && path@ == local_path@
        } else if !facts.exists {
            r matches Err(LoadingError::Unreadable(path)) && path@ == local_path@
        } else if !facts.profile {
            r matches Err(LoadingError::NoProfileFolder)
        } else {
            r is Ok
        },
{
    let named = match file_name(local_path) {
        Some(name) => same_text(name.as_str(), "XComGame"),
        None => false,
    };
    if !named {
        return Err(LoadingError::NotSaveFolder(local_path.to_owned()));
    }
    if !facts.config {
        return Err(LoadingError::NoConfigFolder(local_path.to_owned()));
    }
    if !facts.logs {
        return Err(LoadingError::NoLogsFolder(local_path.to_owned()));
    }
    if !facts.exists {
        return Err(LoadingError::Unreadable(local_path.to_owned()));
    }
    if !facts.profile {
        return Err(LoadingError::NoProfileFolder);
    }
    Ok(())
}

/// What was found of a folder of the game and of the profile's folder that takes
/// its place.
#[derive(Debug, Clone, Copy)]
pub struct FolderFacts {
    pub exists: bool,
    pub is_link: bool,
    pub is_dir: bool,
    pub backup: bool,
    pub source: bool,
}

/// The steps of linking a folder of a profile into the game's.
pub open spec fn folder_steps(
    local_path: Seq<char>,
    profile_path: Seq<char>,
    name: Seq<char>,
    facts: FolderFacts,
) -> Seq<LoadStepModel> {
    let destination = joined(local_path, name);
    let source = joined(profile_path, name);
    let kept = if facts.exists && !facts.is_link && facts.is_dir && !facts.backup {
        seq![LoadStepModel::Rename(destination, extension_set(destination, "bak"@))]
    } else {
        Seq::empty()
    };
    let made = if facts.source {
        Seq::empty()
    } else {
        seq![LoadStepModel::CreateDir(source)]
    };
    kept + seq![LoadStepModel::RemoveDir(destination)] + made + seq![
        LoadStepModel::LinkDir(source, destination),
    ]
}

/// The steps of linking a folder of a profile into the game's.
pub fn link_profile_folder(
    local_path: &str,
    profile_path: &str,
    name: &str,
    facts: FolderFacts,
) -> (r: Vec<LoadStep>)
    ensures
        load_models(r@) == folder_steps(local_path@, profile_path@, name@, facts),
{
    let destination = join(local_path, name);
    let source = join(profile_path, name);
    let mut out: Vec<LoadStep> = Vec::new();
    assert(load_models(out@) =~= Seq::empty());
    if facts.exists && !facts.is_link && facts.is_dir && !facts.backup {
        let backup = with_extension(destination.as_str(), "bak");
        push_step(&mut out, LoadStep::Rename(destination.clone(), backup));
    }
    push_step(&mut out, LoadStep::RemoveDir(destination.clone()));
    if !facts.source {
        push_step(&mut out, LoadStep::CreateDir(source.clone()));
    }
    push_step(&mut out, LoadStep::LinkDir(source, destination));
    assert(load_models(out@) =~= folder_steps(local_path@, profile_path@, name@, facts));
    out
}

/// The folders of a profile that are linked into the game's, in order.
pub fn profile_folders() -> (r: Vec<String>)
    ensures
        crate::extensions::string_views(r@) == seq![
            CHARACTER_POOL@,
            CONFIG@,
            PHOTOBOOTH@,
            SAVE_DATA@,
        ],
{
    let r = vec![
        CHARACTER_POOL.to_owned(),
        CONFIG.to_owned(),
        PHOTOBOOTH.to_owned(),
        SAVE_DATA.to_owned(),
    ];
    assert(crate::extensions::string_views(r@) =~= seq![
        CHARACTER_POOL@,
        CONFIG@,
        PHOTOBOOTH@,
        SAVE_DATA@,
    ]);
    r
}

} // verus!
