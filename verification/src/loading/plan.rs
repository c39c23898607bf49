//! The links that put a mod and its configuration among the active ones, and those
//! that put a profile's folders in the place of the game's.
use vstd::prelude::*;

use super::{
    check_destination, check_local_files, config_links, entry_source, link_kind,
    link_profile_folder, mod_destination, ConfigEntry, ConfigLink, FolderFacts, LinkKind,
    LoadStep, LoadingError, LocalFacts, CHARACTER_POOL, CONFIG, PHOTOBOOTH, SAVE_DATA,
};
use crate::paths::join;
use crate::table::Table;
use crate::xcom_mod::{ModId, ModMetadata};
#[allow(unused_imports)]
use super::{
    config_models, custom_links, folder_steps, is_source, link_models, load_models,
    original_links, source_of, ConfigModel, LinkModel, LoadStepModel,
};
#[allow(unused_imports)]
use crate::mod_edit::option_text;
#[allow(unused_imports)]
use crate::paths::{file_name_of, joined, same_ignoring_case};
#[allow(unused_imports)]
use crate::xcom_mod::ModIdModel;

verus! {

/// A step that puts something among what is active.
#[derive(Debug)]
pub enum PlaceStep {
    CreateDir(String),
    /// From where, and to where.
    LinkFile(String, String),
    LinkDir(String, String),
}

#[verifier::ext_equal]
pub enum PlaceModel {
    CreateDir(Seq<char>),
    LinkFile(Seq<char>, Seq<char>),
    LinkDir(Seq<char>, Seq<char>),
}

impl View for PlaceStep {
    type V = PlaceModel;

    open spec fn view(&self) -> PlaceModel {
        match self {
            PlaceStep::CreateDir(path) => PlaceModel::CreateDir(path@),
            PlaceStep::LinkFile(from, to) => PlaceModel::LinkFile(from@, to@),
            PlaceStep::LinkDir(from, to) => PlaceModel::LinkDir(from@, to@),
        }
    }
}

pub open spec fn place_models(steps: Seq<PlaceStep>) -> Seq<PlaceModel> {
    Seq::new(steps.len(), |i: int| steps[i]@)
}

fn push_place(out: &mut Vec<PlaceStep>, step: PlaceStep)
    ensures
        place_models(final(out)@) == place_models(old(out)@).push(step@),
{
    out.push(step);
    assert(place_models(out@) =~= place_models(old(out)@).push(step@));
}

/// A link below a directory.
pub open spec fn placed(directory: Seq<char>, link: LinkModel) -> PlaceModel {
    match link {
        LinkModel::File(from, name) => PlaceModel::LinkFile(from, joined(directory, name)),
        LinkModel::Directory(from, name) => PlaceModel::LinkDir(from, joined(directory, name)),
    }
}

/// The steps that make the active configuration of a mod.
pub open spec fn config_steps(
    directory: Seq<char>,
    custom: Seq<ConfigModel>,
    original: Seq<ConfigModel>,
) -> Seq<PlaceModel> {
    let links = custom_links(custom) + original_links(custom, original);
    seq![PlaceModel::CreateDir(directory)] + Seq::new(
        links.len(),
        |i: int| placed(directory, links[i]),
    )
}

/// The steps that make the active configuration of a mod in the folder of a name:
/// the files that the user made, and what came with the mod but for files of the
/// same names.
pub fn build_active_config(
    active_config_dir: &str,
    folder: &str,
    custom: &Vec<ConfigEntry>,
    original: &Vec<ConfigEntry>,
) -> (r: Vec<PlaceStep>)
    ensures
        place_models(r@) == config_steps(
            joined(active_config_dir@, folder@),
            config_models(custom@),
            config_models(original@),
        ),
{
    let directory = join(active_config_dir, folder);
    let links = config_links(custom, original);
    let ghost all = link_models(links@);
    let ghost start = seq![PlaceModel::CreateDir(directory@)];
    let mut out: Vec<PlaceStep> = Vec::new();
    assert(place_models(out@) =~= Seq::empty());
    push_place(&mut out, PlaceStep::CreateDir(directory.clone()));
    let mut i: usize = 0;
    assert(place_models(out@) =~= start + Seq::new(0, |j: int| placed(directory@, all[j])));
    while i < links.len()
        invariant
            0 <= i <= links@.len(),
            all == link_models(links@),
            place_models(out@) == start + Seq::new(
                i as nat,
                |j: int| placed(directory@, all[j]),
            ),
        decreases links@.len() - i,
    {
        assert(all[i as int] == links@[i as int]@);
        let step = match &links[i] {
            ConfigLink::File(from, name) => PlaceStep::LinkFile(
                from.clone(),
                join(directory.as_str(), name.as_str()),
            ),
            ConfigLink::Directory(from, name) => PlaceStep::LinkDir(
                from.clone(),
                join(directory.as_str(), name.as_str()),
            ),
        };
        assert(step@ == placed(directory@, all[i as int]));
        push_place(&mut out, step);
        assert(place_models(out@) =~= start + Seq::new(
            (i + 1) as nat,
            |j: int| placed(directory@, all[j]),
        ));
        i += 1;
    }
    assert(place_models(out@) =~= config_steps(
        directory@,
        config_models(custom@),
        config_models(original@),
    ));
    out
}

/// An entry of a mod's directory.
#[derive(Debug)]
pub struct ModEntry {
    pub path: String,
    pub name: String,
    pub is_dir: bool,
    pub is_file: bool,
}

#[verifier::ext_equal]
pub struct ModEntryModel {
    pub path: Seq<char>,
    pub name: Seq<char>,
    pub is_dir: bool,
    pub is_file: bool,
}

impl View for ModEntry {
    type V = ModEntryModel;

    open spec fn view(&self) -> ModEntryModel {
        ModEntryModel {
            path: self.path@,
            name: self.name@,
            is_dir: self.is_dir,
            is_file: self.is_file,
        }
    }
}

pub open spec fn mod_entries(entries: Seq<ModEntry>) -> Seq<ModEntryModel> {
    Seq::new(entries.len(), |i: int| entries[i]@)
}

/// Whether the active configuration takes the place of an entry.
pub open spec fn is_replaced(entry: ModEntryModel, config: Option<Seq<char>>) -> bool {
    !is_source(entry.name) && same_ignoring_case(entry.name, "config"@) && config is Some
}

/// The links to the entries of a mod's directory, up to the first that is neither a
/// directory nor a file, and whether there is none such.
pub open spec fn entry_steps(
    directory: Seq<char>,
    entries: Seq<ModEntryModel>,
    config: Option<Seq<char>>,
) -> (Seq<PlaceModel>, bool)
    decreases entries.len(),
{
    if entries.len() == 0 {
        (Seq::empty(), true)
    } else {
        let (front, whole) = entry_steps(directory, entries.drop_last(), config);
        let e = entries.last();
        if !whole {
            (front, false)
        } else {
            match source_of(e.path, e.name, config) {
                None => (front, true),
                Some(from) => {
                    let to = joined(directory, e.name);
                    if is_replaced(e, config) || e.is_dir {
                        (front.push(PlaceModel::LinkDir(from, to)), true)
                    } else if e.is_file {
                        (front.push(PlaceModel::LinkFile(from, to)), true)
                    } else {
                        (front, false)
                    }
                },
            }
        }
    }
}

proof fn lemma_entries_stop(
    directory: Seq<char>,
    entries: Seq<ModEntryModel>,
    config: Option<Seq<char>>,
    k: int,
)
    requires
        0 <= k <= entries.len(),
        !entry_steps(directory, entries.take(k), config).1,
    ensures
        entry_steps(directory, entries, config) == entry_steps(directory, entries.take(k), config),
    decreases entries.len() - k,
{
    if k < entries.len() {
        assert(entries.take(k + 1).drop_last() =~= entries.take(k));
        lemma_entries_stop(directory, entries, config, k + 1);
    } else {
        assert(entries.take(k) =~= entries);
    }
}

/// The steps that put a mod among the active ones, and why that ends early if it does.
pub open spec fn mod_placed(
    active_mods_dir: Seq<char>,
    id: ModIdModel,
    metadata: Map<ModIdModel, ModMetadata>,
    taken: bool,
    config: Option<Seq<char>>,
    entries: Seq<ModEntryModel>,
    r: (Vec<PlaceStep>, Option<LoadingError>),
) -> bool {
    if !metadata.dom().contains(id) {
        &&& r.0@.len() == 0
        &&& r.1 matches Some(LoadingError::ItemMissing(text)) && text@ == id.text()
    } else {
        let name = metadata[id].dlc_name@;
        let directory = joined(active_mods_dir, name);
        if taken {
            &&& r.0@.len() == 0
            &&& r.1 matches Some(LoadingError::DefinedTwice(text)) && text@ == name
        } else {
            let (links, whole) = entry_steps(directory, entries, config);
            &&& place_models(r.0@) == seq![PlaceModel::CreateDir(directory)] + links
            &&& if whole {
                r.1 is None
            } else {
                r.1 matches Some(LoadingError::Unprocessable)
            }
        }
    }
}

/// The steps that put a mod among the active ones, and why that ends early if it does.
/// `taken` says whether something is at its place, `config` where the active
/// configuration of the mod is, where it has one.
pub fn build_mod_environment(
    active_mods_dir: &str,
    id: &ModId,
    metadata: &Table<ModId, ModMetadata>,
    taken: bool,
    config: &Option<String>,
    entries: &Vec<ModEntry>,
) -> (r: (Vec<PlaceStep>, Option<LoadingError>))
    ensures
        mod_placed(
            active_mods_dir@,
            id@,
            metadata@,
            taken,
            option_text(*config),
            mod_entries(entries@),
            r,
        ),
{
    let mut out: Vec<PlaceStep> = Vec::new();
    let name = match metadata.get(id) {
        Some(data) => data.dlc_name.clone(),
        None => String::new(),
    };
    let directory = match mod_destination(active_mods_dir, id, metadata) {
        Ok(directory) => directory,
        Err(error) => return (out, Some(error)),
    };
    if let Err(error) = check_destination(name.as_str(), taken) {
        return (out, Some(error));
    }
    let ghost all = mod_entries(entries@);
    let ghost own = option_text(*config);
    let ghost start = seq![PlaceModel::CreateDir(directory@)];
    assert(place_models(out@) =~= Seq::empty());
    push_place(&mut out, PlaceStep::CreateDir(directory.clone()));
    let mut i: usize = 0;
    assert(place_models(out@) =~= start + entry_steps(directory@, all.take(0), own).0);
    while i < entries.len()
        invariant
            0 <= i <= entries@.len(),
            all == mod_entries(entries@),
            own == option_text(*config),
            entry_steps(directory@, all.take(i as int), own).1,
            place_models(out@) == start + entry_steps(directory@, all.take(i as int), own).0,
            metadata@.dom().contains(id@),
            !taken,
            directory@ == joined(active_mods_dir@, metadata@[id@].dlc_name@),
            start == seq![PlaceModel::CreateDir(directory@)],
        decreases entries@.len() - i,
    {
        let entry = &entries[i];
        proof {
            assert(all.take(i + 1).drop_last() =~= all.take(i as int));
            assert(all.take(i + 1).last() == entry@);
        }
        match entry_source(entry.path.as_str(), entry.name.as_str(), config) {
            None => {},
            Some(from) => {
                let replaced = super::is_name(entry.name.as_str(), "config") && config.is_some();
                let to = join(directory.as_str(), entry.name.as_str());
                match link_kind(replaced || entry.is_dir, entry.is_file) {
                    Ok(LinkKind::Directory) => {
                        push_place(&mut out, PlaceStep::LinkDir(from, to));
                        assert(place_models(out@) =~= start + entry_steps(
                            directory@,
                            all.take(i + 1),
                            own,
                        ).0);
                    },
                    Ok(LinkKind::File) => {
                        push_place(&mut out, PlaceStep::LinkFile(from, to));
                        assert(place_models(out@) =~= start + entry_steps(
                            directory@,
                            all.take(i + 1),
                            own,
                        ).0);
                    },
                    Err(error) => {
                        proof {
                            lemma_entries_stop(directory@, all, own, i + 1);
                        }
                        return (out, Some(error));
                    },
                }
            },
        }
        i += 1;
    }
    assert(all.take(i as int) =~= all);
    (out, None)
}

/// What was found of the folders that a profile's take the place of.
#[derive(Debug, Clone, Copy)]
pub struct LocalFolders {
    pub character_pool: FolderFacts,
    pub config: FolderFacts,
    pub photobooth: FolderFacts,
    pub save_data: FolderFacts,
}

/// The steps that put all folders of a profile in the place of the game's.
pub open spec fn local_steps(
    local_path: Seq<char>,
    profile_path: Seq<char>,
    folders: LocalFolders,
) -> Seq<LoadStepModel> {
    folder_steps(local_path, profile_path, CHARACTER_POOL@, folders.character_pool) + folder_steps(
        local_path,
        profile_path,
        CONFIG@,
        folders.config,
    ) + folder_steps(local_path, profile_path, PHOTOBOOTH@, folders.photobooth) + folder_steps(
        local_path,
        profile_path,
        SAVE_DATA@,
        folders.save_data,
    )
}

fn append_steps(out: &mut Vec<LoadStep>, more: Vec<LoadStep>)
    ensures
        load_models(final(out)@) == load_models(old(out)@) + load_models(more@),
{
    let mut rest = more;
    out.append(&mut rest);
    assert(load_models(out@) =~= load_models(old(out)@) + load_models(more@));
}

/// The steps that put the folders of a profile in the place of the game's, where the
/// game's folder for a user's files can be used.
pub fn link_profile_local_files(
    local_path: &str,
    profile_path: &str,
    facts: LocalFacts,
    folders: LocalFolders,
) -> (r: Result<Vec<LoadStep>, LoadingError>)
    ensures
        if file_name_of(local_path@) != Some("XComGame"@) {
            r matches Err(LoadingError::NotSaveFolder(path)) && path@ == local_path@
        } else if !facts.config {
            r matches Err(LoadingError::NoConfigFolder(path)) && path@ == local_path@
        } else if !facts.logs {
            r matches Err(LoadingError::NoLogsFolder(path)) && path@ == local_path@
        } else if !facts.exists {
            r matches Err(LoadingError::Unreadable(path)) && path@ == local_path@
        } else if !facts.profile {
            r matches Err(LoadingError::NoProfileFolder)
        } else {
            r matches Ok(steps) && load_models(steps@) == local_steps(
                local_path@,
                profile_path@,
                folders,
            )
        },
{
    match check_local_files(local_path, facts) {
        Ok(()) => {},
        Err(error) => return Err(error),
    }
    let mut out = link_profile_folder(
        local_path,
        profile_path,
        CHARACTER_POOL,
        folders.character_pool,
    );
    append_steps(&mut out, link_profile_folder(local_path, profile_path, CONFIG, folders.config));
    append_steps(
        &mut out,
        link_profile_folder(local_path, profile_path, PHOTOBOOTH, folders.photobooth),
    );
    append_steps(
        &mut out,
        link_profile_folder(local_path, profile_path, SAVE_DATA, folders.save_data),
    );
    Ok(out)
}

/// What is linked for a mod comes from its directory or is the active configuration,
/// and no source file is linked.
pub proof fn source_files_are_not_linked(
    directory: Seq<char>,
    entries: Seq<ModEntryModel>,
    config: Option<Seq<char>>,
    i: int,
)
    requires
        0 <= i < entry_steps(directory, entries, config).0.len(),
    ensures
        exists|k: int|
            0 <= k < entries.len() && !is_source((#[trigger] entries[k]).name) && match entry_steps(
                directory,
                entries,
                config,
            ).0[i] {
                PlaceModel::LinkFile(from, to) => from == entries[k].path && to == joined(
                    directory,
                    entries[k].name,
                ),
                PlaceModel::LinkDir(from, to) => (from == entries[k].path || Some(from) == config)
                    && to == joined(directory, entries[k].name),
                PlaceModel::CreateDir(_) => false,
            },
    decreases entries.len(),
{
    let front = entries.drop_last();
    let n = entry_steps(directory, front, config).0.len();
    if i < n {
        source_files_are_not_linked(directory, front, config, i);
        let k = choose|k: int|
            0 <= k < front.len() && !is_source((#[trigger] front[k]).name) && match entry_steps(
                directory,
                front,
                config,
            ).0[i] {
                PlaceModel::LinkFile(from, to) => from == front[k].path && to == joined(
                    directory,
                    front[k].name,
                ),
                PlaceModel::LinkDir(from, to) => (from == front[k].path || Some(from) == config)
                    && to == joined(directory, front[k].name),
                PlaceModel::CreateDir(_) => false,
            };
        assert(entries[k] == front[k]);
        assert(entry_steps(directory, entries, config).0[i] == entry_steps(
            directory,
            front,
            config,
        ).0[i]);
    } else {
        assert(entries[entries.len() - 1] == entries.last());
    }
}

} // verus!
