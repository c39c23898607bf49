//! What is found in the directories of mods.
use vstd::prelude::*;

use super::state::{Action, App};
use crate::files::ModDetails;
use crate::library::{Library, LibraryItem};
use crate::numbers::{decimal, parse_unsigned_text};
use crate::paths::{file_name, has_extension, path_starts_with, with_extension};
use crate::table::{Table, TableKey};
use crate::text::{chars_of, lines, same_text, trim};
use crate::xcom_mod::{ModCompatibility, ModId, ModMetadata};
#[allow(unused_imports)]
use crate::extensions::string_views;
#[allow(unused_imports)]
use crate::library::ItemModel;
#[allow(unused_imports)]
use crate::mod_edit::option_text;
#[allow(unused_imports)]
use crate::numbers::{decimal_text, unsigned_value};
#[allow(unused_imports)]
use crate::paths::{extension_is, extension_set, file_name_of, lies_in};
#[allow(unused_imports)]
use crate::text::{lines_of, texts, trimmed};
#[allow(unused_imports)]
use crate::xcom_mod::ModIdModel;
#[allow(unused_imports)]
use vstd::utf8::encode_utf8;

verus! {

/// The first file that describes a mod.
pub open spec fn description_file(paths: Seq<Seq<char>>) -> Option<int>
    decreases paths.len(),
{
    if paths.len() == 0 {
        None
    } else {
        match description_file(paths.drop_last()) {
            Some(i) => Some(i),
            None => if extension_is(paths.last(), "XComMod"@) {
                Some(paths.len() - 1)
            } else {
                None
            },
        }
    }
}

proof fn lemma_description_stays(paths: Seq<Seq<char>>, n: int)
    requires
        0 <= n <= paths.len(),
        description_file(paths.take(n)) is Some,
    ensures
        description_file(paths) == description_file(paths.take(n)),
    decreases paths.len(),
{
    if n < paths.len() {
        assert(paths.drop_last().take(n) =~= paths.take(n));
        lemma_description_stays(paths.drop_last(), n);
    } else {
        assert(paths.take(n) =~= paths);
    }
}

/// The first file that describes a mod, among those of its directory.
pub fn find_description_file(paths: &Vec<String>) -> (r: Option<usize>)
    ensures
        match r {
            Some(i) => description_file(string_views(paths@)) == Some(i as int) && i < paths@.len(),
            None => description_file(string_views(paths@)) is None,
        },
{
    let ghost all = string_views(paths@);
    let mut i: usize = 0;
    while i < paths.len()
        invariant
            0 <= i <= paths@.len(),
            all == string_views(paths@),
            description_file(all.take(i as int)) is None,
        decreases paths@.len() - i,
    {
        proof {
            assert(all.take(i + 1).drop_last() =~= all.take(i as int));
            assert(all.take(i + 1).last() == paths@[i as int]@);
        }
        if has_extension(paths[i].as_str(), "XComMod") {
            proof {
                lemma_description_stays(all, i + 1);
            }
            return Some(i);
        }
        i += 1;
    }
    assert(all.take(i as int) =~= all);
    None
}

/// The name by which the game knows the mod that a file describes.
pub fn described_name(path: &str) -> (r: Option<String>)
    ensures
        option_text(r) == file_name_of(extension_set(path@, ""@)),
{
    let bare = with_extension(path, "");
    file_name(bare.as_str())
}

/// A mod that was found.
#[derive(Debug)]
pub struct FoundMod {
    /// Its directory, and the name of that.
    pub path: String,
    pub folder: String,
    /// What its own description says.
    pub data: ModMetadata,
    /// What the file says that holds its number in the workshop.
    pub id_file: Option<String>,
    pub readme: Option<String>,
}

/// The number that a text says.
pub open spec fn number_in(text: Seq<char>) -> Option<nat> {
    unsigned_value(encode_utf8(text), u32::MAX as nat)
}

/// The number that a mod says it has in the workshop.
pub open spec fn said_number(found: FoundMod) -> u32 {
    match found.id_file {
        Some(text) => match number_in(trimmed(text@)) {
            Some(n) => n as u32,
            None => found.data.published_file_id,
        },
        None => found.data.published_file_id,
    }
}

/// Whether a mod of the workshop lies in a directory named by a number.
pub open spec fn lies_in_number(found: FoundMod) -> bool {
    found.folder@ == decimal_text(said_number(found) as nat) || number_in(found.folder@) is Some
}

/// The number of a mod in the workshop: the one that its directory is named by.
pub open spec fn number_of(found: FoundMod, is_workshop: bool) -> u32 {
    if is_workshop && found.folder@ != decimal_text(said_number(found) as nat) {
        number_in(found.folder@)->Some_0 as u32
    } else {
        said_number(found)
    }
}

/// What is known of a mod that was found. A local mod is described by its readme,
/// where that has more than one line.
pub open spec fn data_of(found: FoundMod, is_workshop: bool) -> ModMetadata {
    ModMetadata {
        published_file_id: number_of(found, is_workshop),
        description: if !is_workshop && found.readme is Some && lines_of(
            found.readme->Some_0@,
        ).len() > 1 {
            found.readme->Some_0
        } else {
            found.data.description
        },
        ..found.data
    }
}

pub open spec fn id_of(found: FoundMod, is_workshop: bool) -> ModId {
    if is_workshop {
        ModId::Workshop(number_of(found, is_workshop))
    } else {
        ModId::Local(found.path)
    }
}

fn parse_number(text: &str) -> (r: Option<u32>)
    ensures
        match r {
            Some(n) => number_in(text@) == Some(n as nat),
            None => number_in(text@) is None,
        },
{
    match parse_unsigned_text(text, u32::MAX as u64) {
        Some(n) => Some(n as u32),
        None => None,
    }
}

/// What is known of a mod that was found.
pub fn read_found(found: FoundMod, is_workshop: bool) -> (r: (ModId, String, ModMetadata))
    requires
        is_workshop ==> lies_in_number(found),
    ensures
        r.0 == id_of(found, is_workshop),
        r.1 == found.path,
        r.2 == data_of(found, is_workshop),
{
    let ghost start = found;
    let mut data = found.data;
    if let Some(text) = &found.id_file {
        let bare = trim(text.as_str());
        if let Some(n) = parse_number(bare.as_str()) {
            data.published_file_id = n;
        }
    }
    if is_workshop {
        let said = decimal(data.published_file_id as u64);
        if !same_text(found.folder.as_str(), said.as_str()) {
            if let Some(n) = parse_number(found.folder.as_str()) {
                data.published_file_id = n;
            }
        }
    } else if let Some(text) = &found.readme {
        let s = chars_of(text.as_str());
        let parts = lines(s.as_slice());
        assert(texts(parts@).len() == parts@.len());
        if parts.len() > 1 {
            data.description = text.clone();
        }
    }
    let id = if is_workshop {
        ModId::Workshop(data.published_file_id)
    } else {
        ModId::Local(found.path.clone())
    };
    (id, found.path, data)
}

fn copy_metadata(data: &ModMetadata) -> (r: ModMetadata)
    ensures
        r == *data,
{
    ModMetadata {
        published_file_id: data.published_file_id,
        title: data.title.clone(),
        description: data.description.clone(),
        dlc_name: data.dlc_name.clone(),
    }
}

pub open spec fn mod_registered(
    a: App,
    b: App,
    found: FoundMod,
    compatibility: ModCompatibility,
    is_workshop: bool,
) -> bool {
    let id = id_of(found, is_workshop);
    let data = data_of(found, is_workshop);
    &&& b == (App {
        library: Library { compatibility: b.library.compatibility, ..a.library },
        downloaded: b.downloaded,
        local: b.local,
        index: b.index,
        ..a
    })
    &&& b.library.compatibility@ == a.library.compatibility@.insert(
        id@,
        b.library.compatibility@[id@],
    )
    &&& b.library.compatibility@[id@]@ == if a.library.compatibility@.dom().contains(id@) {
        a.library.compatibility@[id@]@.with(compatibility@)
    } else {
        compatibility@
    }
    &&& b.index.metadata@ == a.index.metadata@.insert(id@, data)
    &&& if is_workshop {
        &&& b.downloaded@ == a.downloaded@.insert(data.published_file_id, found.path)
        &&& b.local@ == a.local@
        &&& b.index.details@ == a.index.details@
    } else {
        &&& b.downloaded@ == a.downloaded@
        &&& b.local@ == a.local@.insert(id@, ())
        &&& b.index.details@ == a.index.details@.insert(id@, ModDetails::Local(data))
    }
}

/// The mods of a library by what they say.
pub open spec fn item_map(items: Map<ModIdModel, LibraryItem>) -> Map<ModIdModel, ItemModel> {
    Map::new(|k: ModIdModel| items.dom().contains(k), |k: ModIdModel| items[k]@)
}

/// The library after mods were found at paths: those that it has are where they
/// were found, and those that something is known of are put in.
pub open spec fn with_found(
    items: Map<ModIdModel, ItemModel>,
    details: Map<ModIdModel, ModDetails>,
    found: Seq<(ModIdModel, Seq<char>)>,
) -> Map<ModIdModel, ItemModel>
    decreases found.len(),
{
    if found.len() == 0 {
        items
    } else {
        let front = with_found(items, details, found.drop_last());
        let (id, path) = found.last();
        if front.dom().contains(id) {
            front.insert(id, ItemModel { path, ..front[id] })
        } else if details.dom().contains(id) {
            front.insert(
                id,
                ItemModel {
                    id,
                    title: details[id].title_text(),
                    path,
                    needs_update: false,
                    selected: false,
                },
            )
        } else {
            front
        }
    }
}

pub open spec fn found_models(found: Seq<(ModId, String)>) -> Seq<(ModIdModel, Seq<char>)> {
    Seq::new(found.len(), |i: int| (found[i].0@, found[i].1@))
}

/// The items of the workshop that are there, with their directories.
pub open spec fn downloaded_pairs(rows: Seq<(u32, String)>) -> Seq<(ModIdModel, Seq<char>)> {
    Seq::new(rows.len(), |i: int| (ModIdModel::Workshop(rows[i].0), rows[i].1@))
}

/// The local mods below a directory.
pub open spec fn local_pairs(rows: Seq<(ModIdModel, ())>, directory: Seq<char>) -> Seq<
    (ModIdModel, Seq<char>),
>
    decreases rows.len(),
{
    if rows.len() == 0 {
        Seq::empty()
    } else {
        let front = local_pairs(rows.drop_last(), directory);
        match rows.last().0 {
            ModIdModel::Local(path) => if lies_in(path, directory) {
                front.push((rows.last().0, path))
            } else {
                front
            },
            ModIdModel::Workshop(_) => front,
        }
    }
}

pub open spec fn scanned_pairs(a: App, directory: Seq<char>, is_workshop: bool) -> Seq<
    (ModIdModel, Seq<char>),
> {
    if is_workshop {
        downloaded_pairs(a.downloaded.rows())
    } else {
        local_pairs(a.local.rows(), directory)
    }
}

/// The mods of which something is known, in order.
pub open spec fn known_pairs(
    found: Seq<(ModIdModel, Seq<char>)>,
    details: Map<ModIdModel, ModDetails>,
) -> Seq<(ModIdModel, Seq<char>)>
    decreases found.len(),
{
    if found.len() == 0 {
        Seq::empty()
    } else {
        let front = known_pairs(found.drop_last(), details);
        if details.dom().contains(found.last().0) {
            front.push(found.last())
        } else {
            front
        }
    }
}

pub open spec fn is_note(action: Action, mod_at: (ModIdModel, Seq<char>)) -> bool {
    action matches Action::NoteTags(id, path) && id@ == mod_at.0 && path@ == mod_at.1
}

pub open spec fn are_notes(r: Seq<Action>, known: Seq<(ModIdModel, Seq<char>)>) -> bool {
    &&& r.len() == known.len()
    &&& forall|i: int| 0 <= i < r.len() ==> is_note(#[trigger] r[i], known[i])
}

pub open spec fn are_finds(r: Seq<Action>, names: Seq<Seq<char>>) -> bool {
    &&& r.len() == names.len()
    &&& forall|i: int| 0 <= i < r.len() ==> is_find(#[trigger] r[i], names[i])
}

/// What follows from a scan: the tags of the mods are noted, and it is found out
/// what the mods of the library and of each profile stand for.
pub open spec fn scan_actions(
    r: Seq<Action>,
    known: Seq<(ModIdModel, Seq<char>)>,
    names: Seq<Seq<char>>,
) -> bool {
    &&& r.len() == known.len() + 1 + names.len()
    &&& are_notes(r.take(known.len() as int), known)
    &&& r[known.len() as int] is FindLibraryProvided
    &&& are_finds(r.skip(known.len() as int + 1), names)
}

pub open spec fn is_find(action: Action, name: Seq<char>) -> bool {
    action matches Action::FindProvided(n) && n@ == name
}

pub open spec fn scan_finished(
    a: App,
    b: App,
    directory: Seq<char>,
    is_workshop: bool,
    r: Seq<Action>,
) -> bool {
    &&& b == (App { library: Library { items: b.library.items, ..a.library }, ..a })
    &&& item_map(b.library.items@) == with_found(
        item_map(a.library.items@),
        a.index.details@,
        scanned_pairs(a, directory, is_workshop),
    )
    &&& scan_actions(
        r,
        known_pairs(scanned_pairs(a, directory, is_workshop), a.index.details@),
        crate::library::row_keys(a.profiles.rows()),
    )
}

fn note_found(
    items: &mut Table<ModId, LibraryItem>,
    details: &Table<ModId, ModDetails>,
    found: &Vec<(ModId, String)>,
)
    ensures
        item_map(final(items)@) == with_found(
            item_map(old(items)@),
            details@,
            found_models(found@),
        ),
{
    let ghost all = found_models(found@);
    let mut i: usize = 0;
    while i < found.len()
        invariant
            0 <= i <= found@.len(),
            all == found_models(found@),
            item_map(items@) == with_found(item_map(old(items)@), details@, all.take(i as int)),
        decreases found@.len() - i,
    {
        proof {
            assert(all.take(i + 1).drop_last() =~= all.take(i as int));
            assert(all.take(i + 1).last() == all[i as int]);
        }
        let id = &found[i].0;
        let path = &found[i].1;
        let ghost before = item_map(items@);
        match items.remove(id) {
            Some(item) => {
                let mut item = item;
                item.path = path.clone();
                let ghost changed = item@;
                items.insert(id.copy_key(), item);
                assert(item_map(items@) =~= before.insert(id@, changed));
            },
            None => {
                assert(item_map(items@) =~= before);
                if let Some(known) = details.get(id) {
                    let item = LibraryItem {
                        id: id.copy_key(),
                        title: known.title().to_owned(),
                        path: path.clone(),
                        needs_update: false,
                        selected: false,
                    };
                    let ghost changed = item@;
                    items.insert(id.copy_key(), item);
                    assert(item_map(items@) =~= before.insert(id@, changed));
                }
            },
        }
        i += 1;
    }
    assert(all.take(i as int) =~= all);
}

fn note_tags(details: &Table<ModId, ModDetails>, found: &Vec<(ModId, String)>) -> (r: Vec<Action>)
    ensures
        are_notes(r@, known_pairs(found_models(found@), details@)),
{
    let ghost all = found_models(found@);
    let mut out: Vec<Action> = Vec::new();
    let mut i: usize = 0;
    while i < found.len()
        invariant
            0 <= i <= found@.len(),
            all == found_models(found@),
            are_notes(out@, known_pairs(all.take(i as int), details@)),
        decreases found@.len() - i,
    {
        proof {
            assert(all.take(i + 1).drop_last() =~= all.take(i as int));
            assert(all.take(i + 1).last() == all[i as int]);
        }
        let id = &found[i].0;
        if details.contains(id) {
            let ghost before = out@;
            out.push(Action::NoteTags(id.copy_key(), found[i].1.clone()));
            assert forall|j: int| 0 <= j < out@.len() implies is_note(
                #[trigger] out@[j],
                known_pairs(all.take(i + 1), details@)[j],
            ) by {
                if j < before.len() {
                    assert(out@[j] == before[j]);
                }
            }
        }
        i += 1;
    }
    assert(all.take(i as int) =~= all);
    out
}

impl App {
    /// Notes a mod that was found, with what its configuration says of others.
    pub fn register_mod(
        &mut self,
        found: FoundMod,
        compatibility: ModCompatibility,
        is_workshop: bool,
    )
        requires
            is_workshop ==> lies_in_number(found),
        ensures
            mod_registered(*old(self), *final(self), found, compatibility, is_workshop),
    {
        let (id, path, data) = read_found(found, is_workshop);
        let ghost known = self.library.compatibility@;
        let mut all = match self.library.compatibility.remove(&id) {
            Some(before) => before,
            None => ModCompatibility::new(),
        };
        let ghost before = all@;
        all.extend_with(&compatibility);
        assert(all@ =~= if known.dom().contains(id@) {
            known[id@]@.with(compatibility@)
        } else {
            compatibility@
        });
        let ghost said = all;
        self.library.compatibility.insert(id.copy_key(), all);
        assert(self.library.compatibility@ =~= known.insert(id@, said));
        if is_workshop {
            self.downloaded.insert(data.published_file_id, path);
        } else {
            self.local.insert(id.copy_key(), ());
            self.index.details.insert(id.copy_key(), ModDetails::Local(copy_metadata(&data)));
        }
        self.index.metadata.insert(id, data);
    }

    fn list_scanned(&self, directory: &str, is_workshop: bool) -> (r: Vec<(ModId, String)>)
        ensures
            found_models(r@) == scanned_pairs(*self, directory@, is_workshop),
    {
        let mut out: Vec<(ModId, String)> = Vec::new();
        let mut i: usize = 0;
        if is_workshop {
            let n = self.downloaded.len();
            let ghost rows = self.downloaded.rows();
            while i < n
                invariant
                    0 <= i <= n,
                    rows == self.downloaded.rows(),
                    n == rows.len(),
                    out@.len() == i,
                    forall|j: int|
                        0 <= j < i ==> (#[trigger] out@[j]).0@ == ModIdModel::Workshop(rows[j].0)
                            && out@[j].1@ == rows[j].1@,
                decreases n - i,
            {
                let id: u32 = *self.downloaded.key_at(i);
                out.push((ModId::Workshop(id), self.downloaded.value_at(i).clone()));
                i += 1;
            }
            assert(found_models(out@) =~= downloaded_pairs(rows));
        } else {
            let n = self.local.len();
            let ghost rows = self.local.rows();
            assert(found_models(out@) =~= local_pairs(rows.take(0), directory@));
            while i < n
                invariant
                    0 <= i <= n,
                    rows == self.local.rows(),
                    n == rows.len(),
                    found_models(out@) == local_pairs(rows.take(i as int), directory@),
                decreases n - i,
            {
                let id = self.local.key_at(i);
                proof {
                    assert(rows.take(i + 1).drop_last() =~= rows.take(i as int));
                    assert(rows.take(i + 1).last() == rows[i as int]);
                }
                let ghost before = found_models(out@);
                if let ModId::Local(path) = id {
                    if path_starts_with(path.as_str(), directory) {
                        out.push((ModId::Local(path.clone()), path.clone()));
                        assert(found_models(out@) =~= before.push((id@, path@)));
                    }
                }
                i += 1;
            }
            assert(rows.take(i as int) =~= rows);
        }
        out
    }

    /// The library takes up the mods that were found.
    pub fn finish_scan(&mut self, directory: &str, is_workshop: bool) -> (r: Vec<Action>)
        ensures
            scan_finished(*old(self), *final(self), directory@, is_workshop, r@),
    {
        let found = self.list_scanned(directory, is_workshop);
        note_found(&mut self.library.items, &self.index.details, &found);
        let mut out = note_tags(&self.index.details, &found);
        let ghost known = known_pairs(found_models(found@), self.index.details@);
        let ghost notes = out@;
        out.push(Action::FindLibraryProvided);
        let n = self.profiles.len();
        let ghost names = crate::library::row_keys(self.profiles.rows());
        let ghost start = out@;
        assert(start.skip(start.len() as int) =~= Seq::empty());
        let mut i: usize = 0;
        while i < n
            invariant
                0 <= i <= n,
                n == self.profiles.rows().len(),
                names == crate::library::row_keys(self.profiles.rows()),
                out@.len() == start.len() + i,
                out@.take(start.len() as int) == start,
                forall|j: int| 0 <= j < i ==> is_find(#[trigger] out@[start.len() + j], names[j]),
            decreases n - i,
        {
            let ghost before = out@;
            out.push(Action::FindProvided(self.profiles.key_at(i).clone()));
            assert(out@.take(start.len() as int) =~= before.take(start.len() as int));
            assert forall|j: int| 0 <= j < i + 1 implies is_find(
                #[trigger] out@[start.len() + j],
                names[j],
            ) by {
                if j < i {
                    assert(out@[start.len() + j] == before[start.len() + j]);
                }
            }
            i += 1;
        }
        proof {
            let m = known.len() as int;
            assert(start.take(m) =~= notes);
            assert(out@.take(m) =~= out@.take(start.len() as int).take(m));
            assert(out@[m] == out@.take(start.len() as int)[m]);
            let rest = out@.skip(m + 1);
            assert forall|j: int| 0 <= j < rest.len() implies is_find(#[trigger] rest[j], names[j]) by {
                assert(rest[j] == out@[start.len() + j]);
            }
        }
        out
    }
}

/// Mods that the library has stay in it when others are found.
pub proof fn scans_forget_nothing(
    items: Map<ModIdModel, ItemModel>,
    details: Map<ModIdModel, ModDetails>,
    found: Seq<(ModIdModel, Seq<char>)>,
    id: ModIdModel,
)
    requires
        items.dom().contains(id),
    ensures
        with_found(items, details, found).dom().contains(id),
        with_found(items, details, found)[id].selected == items[id].selected,
        with_found(items, details, found)[id].title == items[id].title,
    decreases found.len(),
{
    if found.len() > 0 {
        scans_forget_nothing(items, details, found.drop_last(), id);
    }
}

} // verus!
