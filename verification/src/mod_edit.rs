//! The editor for the configuration files of a mod.
use vstd::prelude::*;

use crate::paths::{has_extension, join, with_extension};
use crate::table::{sort_keys, Table};
use crate::text::{join_two, same_text, same_trimmed, text_contains, trim_end_matches};
#[allow(unused_imports)]
use crate::library::row_keys;
#[allow(unused_imports)]
use crate::paths::{extension_is, extension_set, joined};
#[allow(unused_imports)]
use crate::table::{in_order, models};
#[allow(unused_imports)]
use crate::text::{find_from, trimmed_end, without_ends};

pub mod laws;

verus! {

/// What deleting a configuration file means.
#[derive(Debug, Clone, Copy, PartialEq, Eq, Structural)]
pub enum DeleteAction {
    /// Reset state to the original mod config
    Reset,
    /// Remove custom config file
    Delete,
}

/// What of a configuration file is shown.
#[derive(Debug, Clone, Copy, PartialEq, Eq, Structural)]
pub enum EditorPage {
    IniEditor,
    Diff,
}

impl Default for EditorPage {
    fn default() -> (r: Self)
        ensures
            r == EditorPage::IniEditor,
    {
        EditorPage::IniEditor
    }
}

/// A file that a directory was found to hold.
#[derive(Debug)]
pub struct ListedFile {
    pub name: String,
    pub path: String,
}

#[verifier::ext_equal]
pub struct ListedModel {
    pub name: Seq<char>,
    pub path: Seq<char>,
}

pub open spec fn listed_models(files: Seq<ListedFile>) -> Seq<ListedModel> {
    Seq::new(files.len(), |i: int| ListedModel { name: files[i].name@, path: files[i].path@ })
}

/// What a directory was found to hold, and why the rest of it is not known, if it is not.
#[derive(Debug)]
pub struct Listing {
    pub path: String,
    pub files: Vec<ListedFile>,
    pub failure: Option<String>,
}

/// What the user is told when a directory could not be listed.
pub open spec fn listing_error(what: Seq<char>, path: Seq<char>, error: Seq<char>) -> Seq<char> {
    what + "\nLXCOMM might be lacking proper file permissions for some reason.\nPath: "@ + path
        + "\nOriginal error: "@ + error + "\n"@
}

/// What the editor is asked to do.
#[derive(Debug)]
pub enum EditorMessage {
    NewConfigEdit(String),
    Select(String),
    /// What the directories of the original files and of the profile's own hold.
    Load(Listing, Listing),
    Delete(String, DeleteAction),
    Save(String),
    SaveAll,
    Create,
    /// The text that a file has after it was edited.
    BufferEdit(String, String),
    SetPage(EditorPage),
    Nothing,
}

impl Default for EditorMessage {
    fn default() -> (r: Self)
        ensures
            r == EditorMessage::Nothing,
    {
        EditorMessage::Nothing
    }
}

/// What is to be done for the editor.
#[derive(Debug)]
pub enum EditorStep {
    ShowError(String, String),
    /// If there is a file at the first path, the one at the second is to be
    /// removed.
    RemoveFile(String, String),
    /// The text is to be written, and the editor told where the file is now.
    WriteFile(String, String, String),
    /// The file is to be removed, if it is there, and the editor told where it
    /// was.
    ClearFile(String, String),
}

#[verifier::ext_equal]
pub enum StepModel {
    ShowError(Seq<char>, Seq<char>),
    RemoveFile(Seq<char>, Seq<char>),
    WriteFile(Seq<char>, Seq<char>, Seq<char>),
    ClearFile(Seq<char>, Seq<char>),
}

impl View for EditorStep {
    type V = StepModel;

    open spec fn view(&self) -> StepModel {
        match self {
            EditorStep::ShowError(a, b) => StepModel::ShowError(a@, b@),
            EditorStep::RemoveFile(a, b) => StepModel::RemoveFile(a@, b@),
            EditorStep::WriteFile(a, b, c) => StepModel::WriteFile(a@, b@, c@),
            EditorStep::ClearFile(a, b) => StepModel::ClearFile(a@, b@),
        }
    }
}

pub open spec fn step_models(steps: Seq<EditorStep>) -> Seq<StepModel> {
    Seq::new(steps.len(), |i: int| steps[i]@)
}

/// A table of texts, by what it says.
pub open spec fn text_map(table: Map<Seq<char>, String>) -> Map<Seq<char>, Seq<char>> {
    Map::new(|k: Seq<char>| table.dom().contains(k), |k: Seq<char>| table[k]@)
}

pub open spec fn option_text(s: Option<String>) -> Option<Seq<char>> {
    match s {
        Some(s) => Some(s@),
        None => None,
    }
}

/// The state of the editor.
pub struct Editor {
    pub new_config_name: String,
    pub current_root: Option<String>,
    pub current_file: Option<String>,
    /// Settings that came as part of the original file
    pub original_buffers: Table<String, String>,
    /// Settings created by users
    pub custom_buffers: Table<String, ()>,
    /// The currently used setting
    pub saved_buffers: Table<String, String>,
    /// The transient state of the settings being edited
    pub edit_buffers: Table<String, String>,
    pub page: EditorPage,
}

#[verifier::ext_equal]
pub struct EditorModel {
    pub new_config_name: Seq<char>,
    pub current_root: Option<Seq<char>>,
    pub current_file: Option<Seq<char>>,
    pub originals: Map<Seq<char>, Seq<char>>,
    pub customs: Set<Seq<char>>,
    pub saved: Map<Seq<char>, Seq<char>>,
    pub edits: Map<Seq<char>, Seq<char>>,
    pub page: EditorPage,
}

impl View for Editor {
    type V = EditorModel;

    open spec fn view(&self) -> EditorModel {
        EditorModel {
            new_config_name: self.new_config_name@,
            current_root: option_text(self.current_root),
            current_file: option_text(self.current_file),
            originals: text_map(self.original_buffers@),
            customs: self.custom_buffers@.dom(),
            saved: text_map(self.saved_buffers@),
            edits: text_map(self.edit_buffers@),
            page: self.page,
        }
    }
}

/// The text of a file, if it can be read.
pub open spec fn read_text(texts: Map<Seq<char>, Seq<char>>, path: Seq<char>) -> Option<Seq<char>> {
    if texts.dom().contains(path) {
        Some(texts[path])
    } else {
        None
    }
}

impl EditorModel {
    /// The text that a configuration file had originally.
    pub open spec fn original(
        self,
        name: Seq<char>,
        texts: Map<Seq<char>, Seq<char>>,
    ) -> Option<Seq<char>> {
        if self.originals.dom().contains(name) {
            read_text(texts, self.originals[name])
        } else {
            None
        }
    }

    /// The text that is in use: the saved one, else the original one.
    pub open spec fn in_use(
        self,
        name: Seq<char>,
        texts: Map<Seq<char>, Seq<char>>,
    ) -> Option<Seq<char>> {
        let saved = if self.saved.dom().contains(name) {
            read_text(texts, self.saved[name])
        } else {
            None
        };
        match saved {
            Some(text) => Some(text),
            None => self.original(name, texts),
        }
    }

    /// Whether the edited text is the one in use, but for white space at the end.
    pub open spec fn is_saved(self, name: Seq<char>, texts: Map<Seq<char>, Seq<char>>) -> bool {
        if self.edits.dom().contains(name) {
            match self.in_use(name, texts) {
                Some(text) => trimmed_end(self.edits[name]) == trimmed_end(text),
                None => false,
            }
        } else {
            true
        }
    }

    pub open spec fn delete_action(self, name: Seq<char>) -> DeleteAction {
        if self.customs.contains(name) {
            DeleteAction::Delete
        } else {
            DeleteAction::Reset
        }
    }

    /// Opens a file for editing.
    pub open spec fn selected(
        self,
        name: Seq<char>,
        texts: Map<Seq<char>, Seq<char>>,
    ) -> EditorModel {
        if self.current_file == Some(name) {
            self
        } else {
            EditorModel {
                edits: if self.edits.dom().contains(name) {
                    self.edits
                } else {
                    self.edits.insert(
                        name,
                        match self.in_use(name, texts) {
                            Some(text) => text,
                            None => Seq::empty(),
                        },
                    )
                },
                current_file: Some(name),
                page: EditorPage::IniEditor,
                ..self
            }
        }
    }

    /// Deletes or resets a file.
    pub open spec fn deleted(
        self,
        name: Seq<char>,
        action: DeleteAction,
        texts: Map<Seq<char>, Seq<char>>,
    ) -> EditorModel {
        let changed = match action {
            DeleteAction::Delete => EditorModel {
                edits: self.edits.remove(name),
                customs: self.customs.remove(name),
                current_file: if self.current_file == Some(name) {
                    None
                } else {
                    self.current_file
                },
                ..self
            },
            DeleteAction::Reset => EditorModel {
                edits: self.edits.insert(
                    name,
                    match self.original(name, texts) {
                        Some(text) => text,
                        None => Seq::empty(),
                    },
                ),
                ..self
            },
        };
        EditorModel { saved: changed.saved.remove(name), ..changed }
    }

    /// Where a configuration file is kept.
    pub open spec fn path_of(self, root: Seq<char>, name: Seq<char>) -> Seq<char> {
        extension_set(joined(root, name), "ini"@)
    }

    /// What saving a file calls for, if it can be saved.
    pub open spec fn save_step(
        self,
        name: Seq<char>,
        texts: Map<Seq<char>, Seq<char>>,
    ) -> Option<StepModel> {
        match self.current_root {
            None => None,
            Some(root) => if !self.edits.dom().contains(name) {
                None
            } else {
                let path = self.path_of(root, name);
                if self.original(name, texts) == Some(self.edits[name]) {
                    Some(StepModel::ClearFile(name, path))
                } else {
                    Some(StepModel::WriteFile(name, path, self.edits[name]))
                }
            },
        }
    }
}

/// The part of a name that no configuration file may have, if it has one.
pub open spec fn forbidden_part(name: Seq<char>) -> Option<Seq<char>> {
    if find_from(name, "/"@, 0) is Some {
        Some("/"@)
    } else if find_from(name, "\\"@, 0) is Some {
        Some("\\"@)
    } else if find_from(name, ".."@, 0) is Some {
        Some(".."@)
    } else {
        None
    }
}

/// The name of a configuration file without its extension.
pub open spec fn config_name(name: Seq<char>) -> Seq<char> {
    without_ends(name, ".ini"@)
}

/// Creates a configuration file under the entered name.
pub open spec fn created(m: EditorModel) -> (EditorModel, Seq<StepModel>) {
    match m.current_root {
        None => (m, Seq::empty()),
        Some(root) => {
            let name = config_name(m.new_config_name);
            match forbidden_part(name) {
                Some(part) => (
                    m,
                    seq![
                        StepModel::ShowError(
                            "Invalid Name"@,
                            "Names cannot contain '"@ + part + "'"@,
                        ),
                    ],
                ),
                None => {
                    let cleared = EditorModel { new_config_name: Seq::empty(), ..m };
                    if m.originals.dom().contains(name) || m.customs.contains(name) {
                        (
                            cleared,
                            seq![
                                StepModel::ShowError(
                                    "Already exists"@,
                                    "Config file with name '"@ + name + "' already exists."@,
                                ),
                            ],
                        )
                    } else {
                        (
                            EditorModel {
                                customs: m.customs.insert(name),
                                saved: m.saved.insert(name, extension_set(root, "ini"@)),
                                edits: m.edits.insert(name, Seq::empty()),
                                ..cleared
                            },
                            Seq::empty(),
                        )
                    }
                },
            }
        },
    }
}

/// The listed files with the extension of configuration files, by their names
/// without it, where later ones replace earlier ones.
pub open spec fn ini_files(files: Seq<ListedModel>) -> Map<Seq<char>, Seq<char>>
    decreases files.len(),
{
    if files.len() == 0 {
        Map::empty()
    } else {
        let front = ini_files(files.drop_last());
        let file = files.last();
        if extension_is(file.path, "ini"@) {
            front.insert(config_name(file.name), file.path)
        } else {
            front
        }
    }
}

/// The state in which nothing is loaded.
pub open spec fn unloaded(m: EditorModel) -> EditorModel {
    EditorModel {
        current_root: None,
        current_file: None,
        originals: Map::empty(),
        customs: Set::empty(),
        saved: Map::empty(),
        edits: Map::empty(),
        page: EditorPage::IniEditor,
        ..m
    }
}

/// The editor with the files of a mod and a profile. Where a directory could not be
/// listed to its end, what was listed of it is there all the same, and nothing after it.
pub open spec fn loaded(m: EditorModel, originals: Listing, saved: Listing) -> EditorModel {
    let first = ini_files(listed_models(originals.files@));
    let second = ini_files(listed_models(saved.files@));
    if originals.failure is Some {
        EditorModel { originals: first, ..unloaded(m) }
    } else {
        EditorModel {
            current_root: if saved.failure is Some {
                None
            } else {
                Some(saved.path@)
            },
            originals: first,
            saved: second,
            customs: second.dom().difference(first.dom()),
            ..unloaded(m)
        }
    }
}

/// What the user is told when files are loaded: what went wrong, if something did.
pub open spec fn load_steps(originals: Listing, saved: Listing) -> Seq<StepModel> {
    match (originals.failure, saved.failure) {
        (Some(error), _) => seq![
            StepModel::ShowError(
                "Error"@,
                listing_error(
                    "Something went wrong when trying to load the mod's original config files."@,
                    originals.path@,
                    error@,
                ),
            ),
        ],
        (None, Some(error)) => seq![
            StepModel::ShowError(
                "Error"@,
                listing_error(
                    "Something went wrong when trying to load profile information."@,
                    saved.path@,
                    error@,
                ),
            ),
        ],
        (None, None) => Seq::empty(),
    }
}

fn tell_listing(what: &str, path: &str, error: &str) -> (r: Vec<EditorStep>)
    ensures
        step_models(r@) == seq![
            StepModel::ShowError("Error"@, listing_error(what@, path@, error@)),
        ],
{
    let a = join_two(
        what,
        "\nLXCOMM might be lacking proper file permissions for some reason.\nPath: ",
    );
    let b = join_two(a.as_str(), path);
    let c = join_two(b.as_str(), "\nOriginal error: ");
    let d = join_two(c.as_str(), error);
    one_step(EditorStep::ShowError("Error".to_owned(), join_two(d.as_str(), "\n")))
}

fn one_step(step: EditorStep) -> (r: Vec<EditorStep>)
    ensures
        step_models(r@) == seq![step@],
{
    let r = vec![step];
    assert(step_models(r@) =~= seq![step@]);
    r
}

fn no_steps() -> (r: Vec<EditorStep>)
    ensures
        r@.len() == 0,
        step_models(r@) == Seq::<StepModel>::empty(),
{
    let r: Vec<EditorStep> = Vec::new();
    assert(step_models(r@) =~= Seq::empty());
    r
}

impl Default for Editor {
    fn default() -> (r: Self)
        ensures
            r@ == (EditorModel {
                new_config_name: Seq::empty(),
                current_root: None,
                current_file: None,
                originals: Map::empty(),
                customs: Set::empty(),
                saved: Map::empty(),
                edits: Map::empty(),
                page: EditorPage::IniEditor,
            }),
    {
        let r = Editor {
            new_config_name: String::new(),
            current_root: None,
            current_file: None,
            original_buffers: Table::new(),
            custom_buffers: Table::new(),
            saved_buffers: Table::new(),
            edit_buffers: Table::new(),
            page: EditorPage::IniEditor,
        };
        assert(r@.originals =~= Map::empty());
        assert(r@.saved =~= Map::empty());
        assert(r@.edits =~= Map::empty());
        assert(r@.customs =~= Set::empty());
        r
    }
}

impl Editor {
    /// The text that a configuration file had originally.
    pub fn get_original(&self, name: &String, texts: &Table<String, String>) -> (r: Option<String>)
        ensures
            option_text(r) == self@.original(name@, text_map(texts@)),
    {
        match self.original_buffers.get(name) {
            None => None,
            Some(path) => match texts.get(path) {
                Some(text) => Some(text.clone()),
                None => None,
            },
        }
    }

    /// The text that is in use.
    pub fn get_saved(&self, name: &String, texts: &Table<String, String>) -> (r: Option<String>)
        ensures
            option_text(r) == self@.in_use(name@, text_map(texts@)),
    {
        if let Some(path) = self.saved_buffers.get(name) {
            if let Some(text) = texts.get(path) {
                return Some(text.clone());
            }
        }
        self.get_original(name, texts)
    }

    /// Whether the edited text is the one in use.
    pub fn is_saved(&self, name: &String, texts: &Table<String, String>) -> (r: bool)
        ensures
            r == self@.is_saved(name@, text_map(texts@)),
    {
        match self.edit_buffers.get(name) {
            None => true,
            Some(edit) => match self.get_saved(name, texts) {
                Some(saved) => same_trimmed(edit.as_str(), saved.as_str()),
                None => false,
            },
        }
    }

    /// Whether anything was edited and not saved.
    pub fn has_unsaved(&self, texts: &Table<String, String>) -> (r: bool)
        ensures
            r == exists|name: Seq<char>| #[trigger]
                self@.edits.dom().contains(name) && !self@.is_saved(name, text_map(texts@)),
    {
        let n = self.edit_buffers.len();
        let ghost rows = self.edit_buffers.rows();
        let mut i: usize = 0;
        while i < n
            invariant
                0 <= i <= n,
                rows == self.edit_buffers.rows(),
                n == rows.len(),
                forall|k: int|
                    0 <= k < i ==> self@.is_saved((#[trigger] rows[k]).0, text_map(texts@)),
            decreases n - i,
        {
            let name = self.edit_buffers.key_at(i);
            assert(rows[i as int].0 == name@);
            if !self.is_saved(name, texts) {
                assert(self@.edits.dom().contains(name@));
                return true;
            }
            i += 1;
        }
        proof {
            assert forall|name: Seq<char>| #[trigger]
                self@.edits.dom().contains(name) implies self@.is_saved(name, text_map(texts@)) by {
                let k = choose|k: int| 0 <= k < rows.len() && (#[trigger] rows[k]).0 == name;
                assert(rows[k].0 == name);
            }
        }
        false
    }

    pub fn get_delete_action(&self, name: &String) -> (r: DeleteAction)
        ensures
            r == self@.delete_action(name@),
    {
        if self.custom_buffers.contains(name) {
            DeleteAction::Delete
        } else {
            DeleteAction::Reset
        }
    }

    /// Whether the file can be deleted or reset: one that has its original text
    /// cannot.
    pub fn can_delete(&self, name: &String, texts: &Table<String, String>) -> (r: bool)
        ensures
            r == match self@.delete_action(name@) {
                DeleteAction::Delete => true,
                DeleteAction::Reset => match self@.original(name@, text_map(texts@)) {
                    Some(text) => !self@.edits.dom().contains(name@) || trimmed_end(
                        self@.edits[name@],
                    ) != trimmed_end(text),
                    None => false,
                },
            },
    {
        match self.get_delete_action(name) {
            DeleteAction::Delete => true,
            DeleteAction::Reset => match self.get_original(name, texts) {
                Some(text) => match self.edit_buffers.get(name) {
                    Some(edit) => !same_trimmed(edit.as_str(), text.as_str()),
                    None => true,
                },
                None => false,
            },
        }
    }

    /// Opens a file for editing.
    fn select(&mut self, name: String, texts: &Table<String, String>)
        ensures
            final(self)@ == old(self)@.selected(name@, text_map(texts@)),
    {
        let ghost start = self@;
        let ghost key = name@;
        let same = match &self.current_file {
            Some(current) => same_text(current.as_str(), name.as_str()),
            None => false,
        };
        if same {
            return ;
        }
        if !self.edit_buffers.contains(&name) {
            let text = match self.get_saved(&name, texts) {
                Some(text) => text,
                None => String::new(),
            };
            let ghost view = text@;
            assert(view == match start.in_use(key, text_map(texts@)) {
                Some(text) => text,
                None => Seq::empty(),
            });
            self.edit_buffers.insert(name.clone(), text);
            assert(self@.edits =~= start.edits.insert(key, view));
        }
        self.current_file = Some(name);
        self.page = EditorPage::IniEditor;
    }

    /// Takes the text that a file has after it was edited.
    fn edit(&mut self, name: String, text: String)
        ensures
            final(self)@ == if old(self)@.edits.dom().contains(name@) {
                EditorModel { edits: old(self)@.edits.insert(name@, text@), ..old(self)@ }
            } else {
                old(self)@
            },
    {
        let ghost start = self@;
        let ghost key = name@;
        let ghost view = text@;
        if self.edit_buffers.contains(&name) {
            self.edit_buffers.insert(name, text);
            assert(self@.edits =~= start.edits.insert(key, view));
        }
    }

    /// Creates a configuration file under the entered name.
    fn create(&mut self) -> (r: Vec<EditorStep>)
        ensures
            (final(self)@, step_models(r@)) == created(old(self)@),
    {
        let ghost start = self@;
        proof {
            reveal_strlit(".ini");
        }
        let root: String = match &self.current_root {
            None => return no_steps(),
            Some(root) => root.clone(),
        };
        let name = trim_end_matches(self.new_config_name.as_str(), ".ini");
        let part: Option<&str> = if text_contains(name.as_str(), "/") {
            Some("/")
        } else if text_contains(name.as_str(), "\\") {
            Some("\\")
        } else if text_contains(name.as_str(), "..") {
            Some("..")
        } else {
            None
        };
        if let Some(part) = part {
            let a = join_two("Names cannot contain '", part);
            let text = join_two(a.as_str(), "'");
            return one_step(EditorStep::ShowError("Invalid Name".to_owned(), text));
        }
        self.new_config_name = String::new();
        assert(self@.new_config_name =~= Seq::empty());
        if self.original_buffers.contains(&name) || self.custom_buffers.contains(&name) {
            let a = join_two("Config file with name '", name.as_str());
            let text = join_two(a.as_str(), "' already exists.");
            return one_step(EditorStep::ShowError("Already exists".to_owned(), text));
        }
        let path = with_extension(root.as_str(), "ini");
        let ghost key = name@;
        let ghost place = path@;
        self.custom_buffers.insert(name.clone(), ());
        assert(self@.customs =~= start.customs.insert(key));
        self.saved_buffers.insert(name.clone(), path);
        assert(self@.saved =~= start.saved.insert(key, place));
        let blank = String::new();
        assert(blank@ =~= Seq::empty());
        self.edit_buffers.insert(name, blank);
        assert(self@.edits =~= start.edits.insert(key, Seq::empty()));
        no_steps()
    }

    /// Deletes or resets a file.
    fn delete(&mut self, name: String, action: DeleteAction, texts: &Table<String, String>) -> (r:
        Vec<EditorStep>)
        ensures
            match old(self)@.current_root {
                None => final(self)@ == old(self)@ && r@.len() == 0,
                Some(root) => {
                    &&& final(self)@ == old(self)@.deleted(name@, action, text_map(texts@))
                    &&& step_models(r@) == if old(self)@.saved.dom().contains(name@) {
                        seq![
                            StepModel::RemoveFile(
                                old(self)@.saved[name@],
                                old(self)@.path_of(root, name@),
                            ),
                        ]
                    } else {
                        Seq::empty()
                    }
                },
            },
    {
        let ghost start = self@;
        let root: String = match &self.current_root {
            None => return no_steps(),
            Some(root) => root.clone(),
        };
        match action {
            DeleteAction::Delete => {
                let gone = self.edit_buffers.remove(&name);
                assert(self@.edits =~= start.edits.remove(name@));
                let known = self.custom_buffers.remove(&name);
                assert(self@.customs =~= start.customs.remove(name@));
                let same = match &self.current_file {
                    Some(current) => same_text(current.as_str(), name.as_str()),
                    None => false,
                };
                if same {
                    self.current_file = None;
                }
            },
            DeleteAction::Reset => {
                let text = match self.get_original(&name, texts) {
                    Some(text) => text,
                    None => String::new(),
                };
                let ghost view = text@;
                assert(view == match start.original(name@, text_map(texts@)) {
                    Some(text) => text,
                    None => Seq::empty(),
                });
                self.edit_buffers.insert(name.clone(), text);
                assert(self@.edits =~= start.edits.insert(name@, view));
            },
        }
        let removed = self.saved_buffers.remove(&name);
        assert(self@.saved =~= start.saved.remove(name@));
        match removed {
            Some(kept) => {
                let below = join(root.as_str(), name.as_str());
                let path = with_extension(below.as_str(), "ini");
                one_step(EditorStep::RemoveFile(kept, path))
            },
            None => no_steps(),
        }
    }

    /// What saving a file calls for, if it can be saved: a file that has its
    /// original text again is not kept.
    pub fn save_buffer(&self, name: &String, texts: &Table<String, String>) -> (r: Option<
        EditorStep,
    >)
        ensures
            match r {
                Some(step) => self@.save_step(name@, text_map(texts@)) == Some(step@),
                None => self@.save_step(name@, text_map(texts@)) is None,
            },
    {
        let root: &String = match &self.current_root {
            None => return None,
            Some(root) => root,
        };
        let edit: &String = match self.edit_buffers.get(name) {
            None => return None,
            Some(edit) => edit,
        };
        let below = join(root.as_str(), name.as_str());
        let path = with_extension(below.as_str(), "ini");
        let unchanged = match self.get_original(name, texts) {
            Some(original) => same_text(original.as_str(), edit.as_str()),
            None => false,
        };
        if unchanged {
            Some(EditorStep::ClearFile(name.clone(), path))
        } else {
            Some(EditorStep::WriteFile(name.clone(), path, edit.clone()))
        }
    }

    /// A file was saved.
    pub fn saved(&mut self, name: String, path: String)
        ensures
            final(self)@ == (EditorModel {
                saved: old(self)@.saved.insert(name@, path@),
                ..old(self)@
            }),
    {
        let ghost start = self@;
        let ghost key = name@;
        let ghost place = path@;
        self.saved_buffers.insert(name, path);
        assert(self@.saved =~= start.saved.insert(key, place));
    }

    /// What saving every edited file calls for.
    fn save_all(&self, texts: &Table<String, String>) -> (r: Vec<EditorStep>)
        ensures
            step_models(r@) == save_steps(
                self@,
                row_keys(self.edit_buffers.rows()),
                text_map(texts@),
            ),
    {
        let mut out = no_steps();
        let n = self.edit_buffers.len();
        let ghost keys = row_keys(self.edit_buffers.rows());
        let mut i: usize = 0;
        while i < n
            invariant
                0 <= i <= n,
                n == self.edit_buffers.rows().len(),
                keys == row_keys(self.edit_buffers.rows()),
                step_models(out@) == save_steps(self@, keys.take(i as int), text_map(texts@)),
            decreases n - i,
        {
            let name = self.edit_buffers.key_at(i);
            let ghost before = step_models(out@);
            proof {
                assert(keys.take(i + 1).drop_last() =~= keys.take(i as int));
                assert(keys.take(i + 1).last() == name@);
            }
            if let Some(step) = self.save_buffer(name, texts) {
                let ghost view = step@;
                out.push(step);
                assert(step_models(out@) =~= before.push(view));
            }
            i += 1;
        }
        assert(keys.take(i as int) =~= keys);
        out
    }

    /// Forgets what is loaded.
    fn unload(&mut self)
        ensures
            final(self)@ == unloaded(old(self)@),
    {
        self.current_root = None;
        self.current_file = None;
        self.original_buffers = Table::new();
        self.custom_buffers = Table::new();
        self.saved_buffers = Table::new();
        self.edit_buffers = Table::new();
        self.page = EditorPage::IniEditor;
        assert(self@.originals =~= Map::empty());
        assert(self@.saved =~= Map::empty());
        assert(self@.edits =~= Map::empty());
        assert(self@.customs =~= Set::empty());
    }

    /// Loads the files of a mod and a profile.
    fn load(&mut self, originals: Listing, saved: Listing) -> (r: Vec<EditorStep>)
        ensures
            final(self)@ == loaded(old(self)@, originals, saved),
            step_models(r@) == load_steps(originals, saved),
    {
        self.unload();
        self.original_buffers = collect_ini(&originals.files);
        if let Some(error) = &originals.failure {
            return tell_listing(
                "Something went wrong when trying to load the mod's original config files.",
                originals.path.as_str(),
                error.as_str(),
            );
        }
        self.saved_buffers = collect_ini(&saved.files);
        self.custom_buffers = keys_not_in(&self.saved_buffers, &self.original_buffers);
        proof {
            assert(self@.customs =~= self@.saved.dom().difference(self@.originals.dom()));
        }
        if let Some(error) = &saved.failure {
            return tell_listing(
                "Something went wrong when trying to load profile information.",
                saved.path.as_str(),
                error.as_str(),
            );
        }
        self.current_root = Some(saved.path);
        no_steps()
    }

    /// Does what the editor is asked to do, and gives what is to be done for it.
    /// `texts` holds the files that can be read, by their paths.
    pub fn update(&mut self, message: EditorMessage, texts: &Table<String, String>) -> (r: Vec<
        EditorStep,
    >)
        ensures
            editor_step(
                old(self)@,
                final(self)@,
                message,
                row_keys(old(self).edit_buffers.rows()),
                text_map(texts@),
                step_models(r@),
            ),
    {
        match message {
            EditorMessage::NewConfigEdit(name) => {
                self.new_config_name = name;
                no_steps()
            },
            EditorMessage::Select(name) => {
                self.select(name, texts);
                no_steps()
            },
            EditorMessage::BufferEdit(name, text) => {
                self.edit(name, text);
                no_steps()
            },
            EditorMessage::Create => self.create(),
            EditorMessage::Delete(name, action) => self.delete(name, action, texts),
            EditorMessage::Save(name) => match self.save_buffer(&name, texts) {
                Some(step) => one_step(step),
                None => no_steps(),
            },
            EditorMessage::SaveAll => self.save_all(texts),
            EditorMessage::Load(originals, saved) => self.load(originals, saved),
            EditorMessage::SetPage(page) => {
                self.page = page;
                no_steps()
            },
            EditorMessage::Nothing => no_steps(),
        }
    }
}

/// What the editor does when it is asked for something, and what is to be done for it.
/// `names` are the files that are being edited.
pub open spec fn editor_step(
    before: EditorModel,
    after: EditorModel,
    message: EditorMessage,
    names: Seq<Seq<char>>,
    files: Map<Seq<char>, Seq<char>>,
    steps: Seq<StepModel>,
) -> bool {
    match message {
        EditorMessage::NewConfigEdit(name) => {
            &&& after == (EditorModel { new_config_name: name@, ..before })
            &&& steps.len() == 0
        },
        EditorMessage::Select(name) => {
            &&& after == before.selected(name@, files)
            &&& steps.len() == 0
        },
        EditorMessage::BufferEdit(name, text) => {
            &&& after == if before.edits.dom().contains(name@) {
                EditorModel { edits: before.edits.insert(name@, text@), ..before }
            } else {
                before
            }
            &&& steps.len() == 0
        },
        EditorMessage::Create => (after, steps) == created(before),
        EditorMessage::Delete(name, action) => match before.current_root {
            None => after == before && steps.len() == 0,
            Some(root) => {
                &&& after == before.deleted(name@, action, files)
                &&& steps == if before.saved.dom().contains(name@) {
                    seq![StepModel::RemoveFile(before.saved[name@], before.path_of(root, name@))]
                } else {
                    Seq::empty()
                }
            },
        },
        EditorMessage::Save(name) => {
            &&& after == before
            &&& steps == match before.save_step(name@, files) {
                Some(step) => seq![step],
                None => Seq::empty(),
            }
        },
        EditorMessage::SaveAll => {
            &&& after == before
            &&& steps == save_steps(before, names, files)
        },
        EditorMessage::Load(originals, saved) => {
            &&& after == loaded(before, originals, saved)
            &&& steps == load_steps(originals, saved)
        },
        EditorMessage::SetPage(page) => {
            &&& after == (EditorModel { page, ..before })
            &&& steps.len() == 0
        },
        EditorMessage::Nothing => after == before && steps.len() == 0,
    }
}

/// What saving files calls for, in order, as far as they can be saved.
pub open spec fn save_steps(
    m: EditorModel,
    names: Seq<Seq<char>>,
    texts: Map<Seq<char>, Seq<char>>,
) -> Seq<StepModel>
    decreases names.len(),
{
    if names.len() == 0 {
        Seq::empty()
    } else {
        let front = save_steps(m, names.drop_last(), texts);
        match m.save_step(names.last(), texts) {
            Some(step) => front.push(step),
            None => front,
        }
    }
}

fn collect_ini(files: &Vec<ListedFile>) -> (r: Table<String, String>)
    ensures
        text_map(r@) == ini_files(listed_models(files@)),
{
    proof {
        reveal_strlit(".ini");
    }
    let ghost all = listed_models(files@);
    let mut out: Table<String, String> = Table::new();
    let mut i: usize = 0;
    assert(text_map(out@) =~= Map::empty());
    while i < files.len()
        invariant
            0 <= i <= files@.len(),
            all == listed_models(files@),
            ".ini"@.len() > 0,
            text_map(out@) == ini_files(all.take(i as int)),
        decreases files@.len() - i,
    {
        let file = &files[i];
        let ghost before = text_map(out@);
        proof {
            assert(all.take(i + 1).drop_last() =~= all.take(i as int));
            assert(all.take(i + 1).last() == all[i as int]);
        }
        if has_extension(file.path.as_str(), "ini") {
            let name = trim_end_matches(file.name.as_str(), ".ini");
            let ghost key = name@;
            out.insert(name, file.path.clone());
            assert(text_map(out@) =~= before.insert(key, file.path@));
        }
        i += 1;
    }
    assert(all.take(i as int) =~= all);
    out
}

fn keys_not_in(table: &Table<String, String>, other: &Table<String, String>) -> (r: Table<
    String,
    (),
>)
    ensures
        r@.dom() == table@.dom().difference(other@.dom()),
{
    let mut out: Table<String, ()> = Table::new();
    let n = table.len();
    let ghost rows = table.rows();
    let mut i: usize = 0;
    while i < n
        invariant
            0 <= i <= n,
            rows == table.rows(),
            n == rows.len(),
            forall|k: Seq<char>|
                #![trigger out@.dom().contains(k)]
                out@.dom().contains(k) <==> !other@.dom().contains(k) && exists|j: int|
                    0 <= j < i && (#[trigger] rows[j]).0 == k,
        decreases n - i,
    {
        let key = table.key_at(i);
        let ghost before = out@;
        if !other.contains(key) {
            out.insert(key.clone(), ());
        }
        proof {
            assert forall|k: Seq<char>|
                #![trigger out@.dom().contains(k)]
                out@.dom().contains(k) <==> !other@.dom().contains(k) && exists|j: int|
                    0 <= j < i + 1 && (#[trigger] rows[j]).0 == k by {
                assert(before.dom().contains(k) <==> !other@.dom().contains(k) && exists|j: int|
                    0 <= j < i && (#[trigger] rows[j]).0 == k);
                assert(rows[i as int].0 == key@);
                if exists|j: int| 0 <= j < i + 1 && (#[trigger] rows[j]).0 == k {
                    let j = choose|j: int| 0 <= j < i + 1 && (#[trigger] rows[j]).0 == k;
                    if j == i {
                        assert(k == key@);
                    }
                }
            }
        }
        i += 1;
    }
    assert(out@.dom() =~= table@.dom().difference(other@.dom()));
    out
}

/// How a line of a changed text stands to the original one.
#[derive(Debug, Clone, Copy, PartialEq, Eq, Structural)]
pub enum LineTag {
    Equal,
    Delete,
    Insert,
}

/// The lines of two texts, with how they stand to each other.
pub uninterp spec fn changed_lines(original: Seq<char>, new: Seq<char>) -> Seq<
    (LineTag, Seq<char>),
>;

pub open spec fn line_models(lines: Seq<(LineTag, String)>) -> Seq<(LineTag, Seq<char>)> {
    Seq::new(lines.len(), |i: int| (lines[i].0, lines[i].1@))
}

/// [`similar::TextDiff::from_lines`] compares two texts by their lines, and
/// `iter_all_changes` gives the lines of both with their tags, each written out
/// with a line break at its end. Which lines are taken for the same is left
/// unsaid.
#[verifier::external_body]
fn compare_lines(original: &str, new: &str) -> (r: Vec<(LineTag, String)>)
    ensures
        line_models(r@) == changed_lines(original@, new@),
{
    similar::TextDiff::from_lines(original, new)
        .iter_all_changes()
        .map(|change| match change.tag() {
            similar::ChangeTag::Equal => (LineTag::Equal, change.to_string()),
            similar::ChangeTag::Delete => (LineTag::Delete, change.to_string()),
            similar::ChangeTag::Insert => (LineTag::Insert, change.to_string()),
        })
        .collect()
}

/// How a line is set off.
#[derive(Debug, Clone, Copy, PartialEq, Eq, Structural)]
pub enum RowStyle {
    Bordered,
    Danger,
    Success,
}

pub open spec fn style_of(tag: LineTag) -> RowStyle {
    match tag {
        LineTag::Equal => RowStyle::Bordered,
        LineTag::Delete => RowStyle::Danger,
        LineTag::Insert => RowStyle::Success,
    }
}

pub open spec fn rows_of(lines: Seq<(LineTag, Seq<char>)>) -> Seq<(RowStyle, Seq<char>)> {
    Seq::new(lines.len(), |i: int| (style_of(lines[i].0), lines[i].1))
}

pub open spec fn row_models(rows: Seq<(RowStyle, String)>) -> Seq<(RowStyle, Seq<char>)> {
    Seq::new(rows.len(), |i: int| (rows[i].0, rows[i].1@))
}

/// The rows that compared lines are shown in.
pub fn diff_rows(lines: Vec<(LineTag, String)>) -> (r: Vec<(RowStyle, String)>)
    ensures
        row_models(r@) == rows_of(line_models(lines@)),
{
    let mut out: Vec<(RowStyle, String)> = Vec::new();
    let mut i: usize = 0;
    while i < lines.len()
        invariant
            0 <= i <= lines@.len(),
            out@.len() == i,
            forall|j: int|
                0 <= j < i ==> (#[trigger] out@[j]).0 == style_of(lines@[j].0) && out@[j].1@
                    == lines@[j].1@,
        decreases lines@.len() - i,
    {
        let style = match lines[i].0 {
            LineTag::Equal => RowStyle::Bordered,
            LineTag::Delete => RowStyle::Danger,
            LineTag::Insert => RowStyle::Success,
        };
        out.push((style, lines[i].1.clone()));
        i += 1;
    }
    assert(row_models(out@) =~= rows_of(line_models(lines@)));
    out
}

/// A button that opens a file.
#[derive(Debug)]
pub struct FileButton {
    pub name: String,
    pub label: String,
    pub selected: bool,
}

/// What the button of a file says.
pub open spec fn button_label(name: Seq<char>, saved: bool) -> Seq<char> {
    name + ".ini"@ + if saved {
        ""@
    } else {
        " (*)"@
    }
}

pub open spec fn button_names(buttons: Seq<FileButton>) -> Seq<Seq<char>> {
    Seq::new(buttons.len(), |i: int| buttons[i].name@)
}

/// What is shown of the opened file.
#[derive(Debug)]
pub enum PaneBody {
    /// The text to edit.
    Text(String),
    /// How it differs from the original one.
    Diff(Vec<(RowStyle, String)>),
    /// There is no original text to compare it with.
    NoOriginal,
}

/// The opened file and what can be done with it.
#[derive(Debug)]
pub struct Pane {
    pub name: String,
    pub delete: DeleteAction,
    pub can_delete: bool,
    pub can_diff: bool,
    pub body: PaneBody,
}

impl EditorModel {
    /// The file that is shown.
    pub open spec fn shown_file(self) -> Option<Seq<char>> {
        match self.current_file {
            Some(name) => if self.edits.dom().contains(name) {
                Some(name)
            } else {
                None
            },
            None => None,
        }
    }
}

impl Editor {
    /// The buttons of the files, in the order of their names.
    pub fn file_buttons(&self, texts: &Table<String, String>) -> (r: Vec<FileButton>)
        ensures
            in_order::<String>(button_names(r@)),
            button_names(r@).to_multiset() == (row_keys(self.original_buffers.rows()) + row_keys(
                self.custom_buffers.rows(),
            )).to_multiset(),
            forall|i: int|
                0 <= i < r@.len() ==> {
                    &&& (#[trigger] r@[i]).label@ == button_label(
                        r@[i].name@,
                        self@.is_saved(r@[i].name@, text_map(texts@)),
                    )
                    &&& r@[i].selected == (self@.current_file == Some(r@[i].name@))
                },
    {
        let mut names: Vec<String> = Vec::new();
        let ghost first = row_keys(self.original_buffers.rows());
        let ghost second = row_keys(self.custom_buffers.rows());
        let n = self.original_buffers.len();
        let mut i: usize = 0;
        assert(models(names@) =~= first.take(0));
        while i < n
            invariant
                0 <= i <= n,
                n == first.len(),
                first == row_keys(self.original_buffers.rows()),
                models(names@) == first.take(i as int),
            decreases n - i,
        {
            let ghost before = models(names@);
            let name = self.original_buffers.key_at(i).clone();
            let ghost key = name@;
            names.push(name);
            assert(models(names@) =~= before.push(key));
            assert(first.take(i + 1) =~= first.take(i as int).push(first[i as int]));
            i += 1;
        }
        assert(first.take(i as int) =~= first);
        let m = self.custom_buffers.len();
        let mut k: usize = 0;
        assert(models(names@) =~= first + second.take(0));
        while k < m
            invariant
                0 <= k <= m,
                m == second.len(),
                second == row_keys(self.custom_buffers.rows()),
                models(names@) == first + second.take(k as int),
            decreases m - k,
        {
            let ghost before = models(names@);
            let name = self.custom_buffers.key_at(k).clone();
            let ghost key = name@;
            names.push(name);
            assert(models(names@) =~= before.push(key));
            assert(first + second.take(k + 1) =~= (first + second.take(k as int)).push(
                second[k as int],
            ));
            k += 1;
        }
        assert(second.take(k as int) =~= second);
        let sorted = sort_keys(names);
        let mut out: Vec<FileButton> = Vec::new();
        let mut j: usize = 0;
        while j < sorted.len()
            invariant
                0 <= j <= sorted@.len(),
                out@.len() == j,
                forall|i: int|
                    0 <= i < j ==> {
                        &&& (#[trigger] out@[i]).name@ == sorted@[i]@
                        &&& out@[i].label@ == button_label(
                            out@[i].name@,
                            self@.is_saved(out@[i].name@, text_map(texts@)),
                        )
                        &&& out@[i].selected == (self@.current_file == Some(out@[i].name@))
                    },
            decreases sorted@.len() - j,
        {
            let name = &sorted[j];
            let selected = match &self.current_file {
                Some(current) => same_text(current.as_str(), name.as_str()),
                None => false,
            };
            let marker = if self.is_saved(name, texts) {
                ""
            } else {
                " (*)"
            };
            let file = join_two(name.as_str(), ".ini");
            let label = join_two(file.as_str(), marker);
            out.push(FileButton { name: name.clone(), label, selected });
            j += 1;
        }
        assert(button_names(out@) =~= models(sorted@));
        out
    }

    /// The opened file and what can be done with it.
    pub fn pane(&self, texts: &Table<String, String>) -> (r: Option<Pane>)
        ensures
            match self@.shown_file() {
                None => r is None,
                Some(name) => {
                    let original = self@.original(name, text_map(texts@));
                    let pane = r->Some_0;
                    &&& r is Some
                    &&& pane.name@ == name
                    &&& pane.delete == self@.delete_action(name)
                    &&& pane.can_delete == match pane.delete {
                        DeleteAction::Delete => true,
                        DeleteAction::Reset => match original {
                            Some(text) => trimmed_end(self@.edits[name]) != trimmed_end(text),
                            None => false,
                        },
                    }
                    &&& pane.can_diff == (original is Some || self@.page == EditorPage::Diff)
                    &&& match (self@.page, original) {
                        (EditorPage::IniEditor, _) => pane.body matches PaneBody::Text(text)
                            && text@ == self@.edits[name],
                        (EditorPage::Diff, Some(text)) => pane.body matches PaneBody::Diff(rows)
                            && row_models(rows@) == rows_of(changed_lines(text, self@.edits[name])),
                        (EditorPage::Diff, None) => pane.body is NoOriginal,
                    }
                },
            },
    {
        let name: &String = match &self.current_file {
            None => return None,
            Some(name) => name,
        };
        let edit: &String = match self.edit_buffers.get(name) {
            None => return None,
            Some(edit) => edit,
        };
        let original = self.get_original(name, texts);
        let delete = self.get_delete_action(name);
        let can_delete = self.can_delete(name, texts);
        let can_diff = match self.page {
            EditorPage::IniEditor => original.is_some(),
            EditorPage::Diff => true,
        };
        let body = match self.page {
            EditorPage::IniEditor => PaneBody::Text(edit.clone()),
            EditorPage::Diff => match &original {
                Some(text) => {
                    let lines = compare_lines(text.as_str(), edit.as_str());
                    PaneBody::Diff(diff_rows(lines))
                },
                None => PaneBody::NoOriginal,
            },
        };
        Some(Pane { name: name.clone(), delete, can_delete, can_diff, body })
    }
}

/// A file that was reset has the text that it had originally, and nothing of it
/// is left to save.
pub proof fn a_reset_file_is_saved(
    m: EditorModel,
    name: Seq<char>,
    texts: Map<Seq<char>, Seq<char>>,
)
    requires
        m.original(name, texts) is Some,
    ensures
        m.deleted(name, DeleteAction::Reset, texts).edits[name] == m.original(name, texts)->Some_0,
        m.deleted(name, DeleteAction::Reset, texts).is_saved(name, texts),
{
}

/// A file is saved once what saving it calls for was done: its text was written
/// where the editor then looks for it.
pub proof fn a_written_file_is_saved(
    m: EditorModel,
    name: Seq<char>,
    texts: Map<Seq<char>, Seq<char>>,
)
    requires
        m.save_step(name, texts) is Some,
    ensures
        match m.save_step(name, texts)->Some_0 {
            StepModel::WriteFile(n, path, text) => {
                &&& n == name
                &&& text == m.edits[name]
                &&& (EditorModel { saved: m.saved.insert(n, path), ..m }).is_saved(
                    name,
                    texts.insert(path, text),
                )
            },
            StepModel::ClearFile(n, path) => {
                &&& n == name
                &&& (m.originals[name] != path ==> (EditorModel {
                    saved: m.saved.insert(n, path),
                    ..m
                }).is_saved(name, texts.remove(path)))
            },
            _ => false,
        },
{
}

/// No file that came with the mod is taken for one that the user made.
pub proof fn custom_files_are_not_original(
    m: EditorModel,
    originals: Listing,
    saved: Listing,
)
    ensures
        loaded(m, originals, saved).customs.disjoint(
            loaded(m, originals, saved).originals.dom(),
        ),
{
}

/// Creating a file keeps those that came with the mod apart from those that the
/// user made.
pub proof fn created_files_are_not_original(m: EditorModel)
    requires
        m.customs.disjoint(m.originals.dom()),
    ensures
        created(m).0.customs.disjoint(created(m).0.originals.dom()),
{
}

} // verus!
