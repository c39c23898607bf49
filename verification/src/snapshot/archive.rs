//! Archives that hold snapshots: what goes into one, and how a profile comes out of
//! it again.
use vstd::prelude::*;

use super::codec::{decode_ops, encode_ops, DecodeError};
use super::tree::{apply_ops, generate_ops_dir, FileTree, TreeEntry, TreeError, WorkingCache};
use crate::files::gen_hash;
use crate::numbers::{parse_signed_text, signed_decimal};
use crate::paths::{file_name, join, path_starts_with};
use crate::table::Table;
use crate::text::{bytes_of, chars_of, join_two, same_text};
#[allow(unused_imports)]
use super::basic::basic_load;
#[allow(unused_imports)]
use super::codec::{decoded, encoded_all, readable};
#[allow(unused_imports)]
use super::diff::{diff_spans, lemma_equal_spans_change_nothing};
#[allow(unused_imports)]
use super::laws::{cache_agrees, is_tree, is_walk, sizes_fit, written_changes_lead_to_new};
#[allow(unused_imports)]
use super::ops::{op_models, OpModel};
#[allow(unused_imports)]
use super::tree::{
    applied, blocked, bytes_map, diff_leads, diffs_lead, distinct_paths, entry_models,
    generated_dir, is_under, lemma_entry_in_tree, new_parts, node_map, source_parts, tree_of,
    EntryModel, NodeModel, TreeModel,
};
#[allow(unused_imports)]
use crate::files::{blake3_hex, hash_prefix};
#[allow(unused_imports)]
use crate::numbers::{signed_text, signed_value};
#[allow(unused_imports)]
use crate::paths::{file_name_of, joined, lies_in};
#[allow(unused_imports)]
use vstd::utf8::encode_utf8;

verus! {

/// How an archive holds a snapshot.
#[derive(Debug, Clone, Copy, PartialEq, Eq, Structural)]
pub enum SnapshotType {
    /// The directory as it was.
    Basic,
    /// The directory as it was at first, and what changed since.
    Incremental,
    /// The archive holds no snapshot.
    Invalid,
}

impl SnapshotType {
    pub open spec fn named(text: Seq<char>) -> SnapshotType {
        if text == "Basic"@ {
            SnapshotType::Basic
        } else if text == "Incremental"@ {
            SnapshotType::Incremental
        } else {
            SnapshotType::Invalid
        }
    }

    /// The type that goes by a name.
    pub fn from_text(text: &str) -> (r: Self)
        ensures
            r == SnapshotType::named(text@),
    {
        if same_text(text, "Basic") {
            SnapshotType::Basic
        } else if same_text(text, "Incremental") {
            SnapshotType::Incremental
        } else {
            SnapshotType::Invalid
        }
    }

    /// What the type is called.
    pub fn text(self) -> (r: &'static str)
        ensures
            r@ == match self {
                SnapshotType::Basic => "Basic"@,
                SnapshotType::Incremental => "Incremental"@,
                SnapshotType::Invalid => "Invalid"@,
            },
    {
        match self {
            SnapshotType::Basic => "Basic",
            SnapshotType::Incremental => "Incremental",
            SnapshotType::Invalid => "Invalid",
        }
    }
}

/// The type that is written down under its name is read back from it.
pub proof fn types_read_back(kind: SnapshotType, name: Seq<char>)
    requires
        name == match kind {
            SnapshotType::Basic => "Basic"@,
            SnapshotType::Incremental => "Incremental"@,
            SnapshotType::Invalid => "Invalid"@,
        },
    ensures
        SnapshotType::named(name) == kind,
{
    reveal_strlit("Basic");
    reveal_strlit("Incremental");
    reveal_strlit("Invalid");
    if kind == SnapshotType::Incremental {
        assert("Basic"@[0] != "Incremental"@[0]);
    }
    if kind == SnapshotType::Invalid {
        assert("Basic"@[0] != "Invalid"@[0]);
        assert("Incremental"@[2] != "Invalid"@[2]);
    }
}

/// What an archive says of the snapshot that it holds.
#[derive(Debug)]
pub struct SnapshotMetadata {
    /// When the snapshot was made, as RFC 3339 writes it.
    pub original_date: String,
    pub snapshot_type: SnapshotType,
    pub comment: Option<String>,
    pub app_version: String,
}

impl SnapshotMetadata {
    /// What is said of a snapshot that is made now, by this version of the program.
    pub fn new(snapshot_type: SnapshotType, now: String, version: String) -> (r: Self)
        ensures
            r == (SnapshotMetadata {
                original_date: now,
                snapshot_type,
                comment: None,
                app_version: version,
            }),
    {
        SnapshotMetadata { original_date: now, snapshot_type, comment: None, app_version: version }
    }
}

/// What may hold a snapshot.
pub trait SnapshotContainer {
    spec fn holds(&self) -> SnapshotType;

    fn snapshot_type(&self) -> (r: SnapshotType)
        ensures
            r == self.holds(),
    ;
}

/// An archive, as far as it says what it holds.
#[derive(Debug)]
pub struct ArchiveFacts {
    /// What its comment says, where that is about a snapshot.
    pub metadata: Option<SnapshotMetadata>,
    /// The names of its entries.
    pub names: Vec<String>,
}

impl SnapshotContainer for ArchiveFacts {
    open spec fn holds(&self) -> SnapshotType {
        match self.metadata {
            Some(metadata) => metadata.snapshot_type,
            None => SnapshotType::Invalid,
        }
    }

    fn snapshot_type(&self) -> (r: SnapshotType) {
        match &self.metadata {
            Some(metadata) => metadata.snapshot_type,
            None => SnapshotType::Invalid,
        }
    }
}

/// Why a snapshot cannot be made or read.
#[derive(Debug, Clone, Copy, PartialEq, Eq, Structural)]
pub enum ArchiveError {
    /// The archive would have no name.
    NoName,
    /// A path is no text.
    NotText,
    /// A link stands among what is to be kept.
    Link,
    NotBasic,
    NotIncremental,
    /// The name of a set of changes is not the time of it.
    BadTimestamp,
    /// A set of changes cannot be read.
    BadChanges(DecodeError),
    /// A set of changes cannot be applied.
    CannotApply(TreeError),
}

impl ArchiveError {
    /// What is said of the error, where it is always the same.
    pub fn message(&self) -> (r: Option<&'static str>)
        ensures
            match r {
                Some(text) => self.fixed_text() == Some(text@),
                None => self.fixed_text() is None,
            },
    {
        match self {
            ArchiveError::NoName => Some("file name cannot be '..'"),
            ArchiveError::NotText => Some("file paths must be valid UTF-8"),
            ArchiveError::Link => Some("symlink directories are unsupported in snapshots"),
            ArchiveError::NotBasic => Some("inputted archive was not a basic snapshot"),
            ArchiveError::NotIncremental => Some("inputted archive is not an incremental archive"),
            ArchiveError::BadTimestamp => None,
            ArchiveError::BadChanges(_) => None,
            ArchiveError::CannotApply(_) => None,
        }
    }

    pub open spec fn fixed_text(&self) -> Option<Seq<char>> {
        match self {
            ArchiveError::NoName => Some("file name cannot be '..'"@),
            ArchiveError::NotText => Some("file paths must be valid UTF-8"@),
            ArchiveError::Link => Some("symlink directories are unsupported in snapshots"@),
            ArchiveError::NotBasic => Some("inputted archive was not a basic snapshot"@),
            ArchiveError::NotIncremental => Some("inputted archive is not an incremental archive"@),
            ArchiveError::BadTimestamp => None,
            ArchiveError::BadChanges(_) => None,
            ArchiveError::CannotApply(_) => None,
        }
    }
}

/// What a path leads to.
#[derive(Debug, Clone, Copy, PartialEq, Eq, Structural)]
pub enum EntryKind {
    Link,
    File,
    Dir,
}

/// One path that a walk over the directory came by.
#[derive(Debug)]
pub struct ArchiveEntry {
    /// The path below the directory, where it is text. That of the directory itself
    /// is empty.
    pub path: Option<String>,
    pub kind: EntryKind,
}

/// What is put into an archive.
#[derive(Debug)]
pub enum ArchiveStep {
    AddDirectory(String),
    /// The name of the file in the archive, and the entry that it is.
    AddFile(String, usize),
}

#[verifier::ext_equal]
pub enum StepModel {
    AddDirectory(Seq<char>),
    AddFile(Seq<char>, usize),
}

impl View for ArchiveStep {
    type V = StepModel;

    open spec fn view(&self) -> StepModel {
        match self {
            ArchiveStep::AddDirectory(name) => StepModel::AddDirectory(name@),
            ArchiveStep::AddFile(name, i) => StepModel::AddFile(name@, *i),
        }
    }
}

pub open spec fn step_models(steps: Seq<ArchiveStep>) -> Seq<StepModel> {
    Seq::new(steps.len(), |i: int| steps[i]@)
}

/// What an entry calls for. The directory itself is in the archive already.
pub open spec fn entry_step(prefix: Seq<char>, entry: ArchiveEntry, i: int) -> Result<
    Option<StepModel>,
    ArchiveError,
> {
    if entry.kind == EntryKind::Link {
        Err(ArchiveError::Link)
    } else if entry.path is None {
        Err(ArchiveError::NotText)
    } else {
        let name = joined(prefix, entry.path->Some_0@);
        if entry.kind == EntryKind::File {
            Ok(Some(StepModel::AddFile(name, i as usize)))
        } else if entry.path->Some_0@.len() > 0 {
            Ok(Some(StepModel::AddDirectory(name)))
        } else {
            Ok(None)
        }
    }
}

/// What is put into an archive below `prefix`, and the error that ends it.
pub open spec fn archived(prefix: Seq<char>, entries: Seq<ArchiveEntry>) -> (
    Seq<StepModel>,
    Option<ArchiveError>,
)
    decreases entries.len(),
{
    if entries.len() == 0 {
        (
            if prefix.len() > 0 {
                seq![StepModel::AddDirectory(prefix)]
            } else {
                Seq::empty()
            },
            None,
        )
    } else {
        let (steps, error) = archived(prefix, entries.drop_last());
        if error is Some {
            (steps, error)
        } else {
            match entry_step(prefix, entries.last(), entries.len() - 1) {
                Err(e) => (steps, Some(e)),
                Ok(None) => (steps, None),
                Ok(Some(step)) => (steps.push(step), None),
            }
        }
    }
}

proof fn lemma_archived_error_stays(prefix: Seq<char>, entries: Seq<ArchiveEntry>, n: int)
    requires
        0 <= n <= entries.len(),
        archived(prefix, entries.take(n)).1 is Some,
    ensures
        archived(prefix, entries) == archived(prefix, entries.take(n)),
    decreases entries.len(),
{
    if n < entries.len() {
        assert(entries.drop_last().take(n) =~= entries.take(n));
        lemma_archived_error_stays(prefix, entries.drop_last(), n);
    } else {
        assert(entries.take(n) =~= entries);
    }
}

/// What is put into an archive below `prefix`, and the error that ends it. The
/// entries are those that a walk comes by, from the directory itself on.
pub fn archive_write_dir(prefix: &str, entries: &Vec<ArchiveEntry>) -> (r: (
    Vec<ArchiveStep>,
    Option<ArchiveError>,
))
    ensures
        archived(prefix@, entries@) == (step_models(r.0@), r.1),
{
    let mut steps: Vec<ArchiveStep> = Vec::new();
    if !prefix.is_empty() {
        steps.push(ArchiveStep::AddDirectory(prefix.to_owned()));
    }
    assert(step_models(steps@) =~= archived(prefix@, entries@.take(0)).0);
    let mut i: usize = 0;
    while i < entries.len()
        invariant
            0 <= i <= entries@.len(),
            archived(prefix@, entries@.take(i as int)) == (
                step_models(steps@),
                None::<ArchiveError>,
            ),
        decreases entries@.len() - i,
    {
        let entry = &entries[i];
        let ghost front = entries@.take(i + 1);
        assert(front.drop_last() =~= entries@.take(i as int));
        assert(front.last() == *entry);
        let ghost before = step_models(steps@);
        if entry.kind == EntryKind::Link {
            proof {
                lemma_archived_error_stays(prefix@, entries@, i + 1);
            }
            return (steps, Some(ArchiveError::Link));
        }
        match &entry.path {
            None => {
                proof {
                    lemma_archived_error_stays(prefix@, entries@, i + 1);
                }
                return (steps, Some(ArchiveError::NotText));
            },
            Some(path) => {
                let name = join(prefix, path.as_str());
                let ghost text = name@;
                if entry.kind == EntryKind::File {
                    steps.push(ArchiveStep::AddFile(name, i));
                    assert(step_models(steps@) =~= before.push(StepModel::AddFile(text, i)));
                } else if !path.as_str().is_empty() {
                    steps.push(ArchiveStep::AddDirectory(name));
                    assert(step_models(steps@) =~= before.push(StepModel::AddDirectory(text)));
                }
            },
        }
        i += 1;
    }
    assert(entries@.take(i as int) =~= entries@);
    (steps, None)
}

/// Whether two paths are the same, part for part.
pub open spec fn same_path(a: Seq<char>, b: Seq<char>) -> bool {
    lies_in(a, b) && lies_in(b, a)
}

/// Whether a path is one of those to be left out.
pub open spec fn is_left_out(ignored: Seq<String>, path: Seq<char>) -> bool {
    exists|i: int| 0 <= i < ignored.len() && same_path(path, (#[trigger] ignored[i])@)
}

fn left_out(ignored: &Vec<String>, path: &str) -> (r: bool)
    ensures
        r == is_left_out(ignored@, path@),
{
    let mut i: usize = 0;
    while i < ignored.len()
        invariant
            0 <= i <= ignored@.len(),
            forall|j: int| 0 <= j < i ==> !same_path(path@, (#[trigger] ignored@[j])@),
        decreases ignored@.len() - i,
    {
        if path_starts_with(path, ignored[i].as_str()) && path_starts_with(
            ignored[i].as_str(),
            path,
        ) {
            assert(same_path(path@, ignored@[i as int]@));
            return true;
        }
        i += 1;
    }
    false
}

/// A snapshot to be made.
#[derive(Debug)]
pub struct NewSnapshot {
    /// The name of the archive.
    pub name: String,
    pub metadata: SnapshotMetadata,
    /// Where in the archive the directory goes.
    pub prefix: &'static str,
}

pub open spec fn is_new_snapshot(
    destination: Seq<char>,
    comment: Option<String>,
    kind: SnapshotType,
    prefix: Seq<char>,
    now: String,
    version: String,
    r: Result<NewSnapshot, ArchiveError>,
) -> bool {
    match file_name_of(destination) {
        None => r == Err::<NewSnapshot, ArchiveError>(ArchiveError::NoName),
        Some(name) => r matches Ok(snapshot) && snapshot.name@ == name && snapshot.prefix@ == prefix
            && snapshot.metadata == (SnapshotMetadata {
            original_date: now,
            snapshot_type: kind,
            comment,
            app_version: version,
        }),
    }
}

fn copy_comment(comment: &Option<String>) -> (r: Option<String>)
    ensures
        r == *comment,
{
    match comment {
        Some(text) => Some(text.clone()),
        None => None,
    }
}

/// A snapshot that keeps a directory as it is.
#[derive(Debug)]
pub struct BasicSnapshotBuilder {
    pub root: String,
    pub destination: String,
    pub ignored: Vec<String>,
    pub comment: Option<String>,
}

impl BasicSnapshotBuilder {
    /// A snapshot of a directory, in an archive at `destination`.
    pub fn new(root: String, destination: String) -> (r: Self)
        ensures
            r.root == root,
            r.destination == destination,
            r.ignored@.len() == 0,
            r.comment is None,
    {
        BasicSnapshotBuilder { root, destination, ignored: Vec::new(), comment: None }
    }

    /// Leaves out what is at these paths.
    pub fn ignore(self, ignored: Vec<String>) -> (r: Self)
        ensures
            r == (BasicSnapshotBuilder { ignored: r.ignored, ..self }),
            r.ignored@ == self.ignored@ + ignored@,
    {
        let mut all = self.ignored;
        let mut more = ignored;
        all.append(&mut more);
        BasicSnapshotBuilder {
            root: self.root,
            destination: self.destination,
            ignored: all,
            comment: self.comment,
        }
    }

    pub fn comment(self, comment: String) -> (r: Self)
        ensures
            r == (BasicSnapshotBuilder { comment: Some(comment), ..self }),
    {
        BasicSnapshotBuilder {
            root: self.root,
            destination: self.destination,
            ignored: self.ignored,
            comment: Some(comment),
        }
    }

    /// Whether what is at a path is left out.
    pub fn is_ignored(&self, path: &str) -> (r: bool)
        ensures
            r == is_left_out(self.ignored@, path@),
    {
        left_out(&self.ignored, path)
    }

    /// What is to be made.
    pub fn finalize(&self, now: String, version: String) -> (r: Result<NewSnapshot, ArchiveError>)
        ensures
            is_new_snapshot(
                self.destination@,
                self.comment,
                SnapshotType::Basic,
                ""@,
                now,
                version,
                r,
            ),
    {
        match file_name(self.destination.as_str()) {
            None => Err(ArchiveError::NoName),
            Some(name) => {
                let mut metadata = SnapshotMetadata::new(SnapshotType::Basic, now, version);
                metadata.comment = copy_comment(&self.comment);
                Ok(NewSnapshot { name, metadata, prefix: "" })
            },
        }
    }
}

/// A snapshot that keeps a directory as it was at first, and what changed since.
#[derive(Debug)]
pub struct IncrementalSnapshotBuilder {
    pub root: String,
    pub destination: String,
    pub ignored: Vec<String>,
    pub comment: Option<String>,
}

/// How an incremental snapshot is made.
#[derive(Debug)]
pub enum IncrementalSnapshot {
    /// In an archive of its own.
    Create(NewSnapshot),
    /// In the archive that is there, of this name.
    Extend(String),
}

/// A name for a directory to work in that is used for nothing else.
pub open spec fn working_path(
    cache_dir: Seq<char>,
    prefix: Seq<char>,
    directory: Seq<char>,
) -> Seq<char> {
    joined(cache_dir, prefix + blake3_hex(hash_prefix() + encode_utf8(directory)))
}

fn working_directory(cache_dir: &str, prefix: &str, directory: &str) -> (r: String)
    ensures
        r@ == working_path(cache_dir@, prefix@, directory@),
{
    let bytes = bytes_of(directory);
    let hash = gen_hash(bytes.as_slice());
    let name = join_two(prefix, hash.as_str());
    join(cache_dir, name.as_str())
}

impl IncrementalSnapshotBuilder {
    /// A snapshot of a directory, in an archive at `destination`.
    pub fn new(root: String, destination: String) -> (r: Self)
        ensures
            r.root == root,
            r.destination == destination,
            r.ignored@.len() == 0,
            r.comment is None,
    {
        IncrementalSnapshotBuilder { root, destination, ignored: Vec::new(), comment: None }
    }

    /// Leaves out what is at these paths.
    pub fn ignore(self, ignored: Vec<String>) -> (r: Self)
        ensures
            r == (IncrementalSnapshotBuilder { ignored: r.ignored, ..self }),
            r.ignored@ == self.ignored@ + ignored@,
    {
        let mut all = self.ignored;
        let mut more = ignored;
        all.append(&mut more);
        IncrementalSnapshotBuilder {
            root: self.root,
            destination: self.destination,
            ignored: all,
            comment: self.comment,
        }
    }

    pub fn comment(self, comment: String) -> (r: Self)
        ensures
            r == (IncrementalSnapshotBuilder { comment: Some(comment), ..self }),
    {
        IncrementalSnapshotBuilder {
            root: self.root,
            destination: self.destination,
            ignored: self.ignored,
            comment: Some(comment),
        }
    }

    /// Whether what is at a path is left out of a new archive.
    pub fn is_ignored(&self, path: &str) -> (r: bool)
        ensures
            r == is_left_out(self.ignored@, path@),
    {
        left_out(&self.ignored, path)
    }

    /// What is to be made where there is no archive yet.
    pub fn create_new(&self, now: String, version: String) -> (r: Result<
        NewSnapshot,
        ArchiveError,
    >)
        ensures
            is_new_snapshot(
                self.destination@,
                self.comment,
                SnapshotType::Incremental,
                "root"@,
                now,
                version,
                r,
            ),
    {
        match file_name(self.destination.as_str()) {
            None => Err(ArchiveError::NoName),
            Some(name) => {
                let mut metadata = SnapshotMetadata::new(SnapshotType::Incremental, now, version);
                metadata.comment = copy_comment(&self.comment);
                Ok(NewSnapshot { name, metadata, prefix: "root" })
            },
        }
    }

    /// What is to be made: an archive that is there is extended.
    pub fn finalize(&self, there: bool, now: String, version: String) -> (r: Result<
        IncrementalSnapshot,
        ArchiveError,
    >)
        ensures
            if there {
                match file_name_of(self.destination@) {
                    None => r == Err::<IncrementalSnapshot, ArchiveError>(ArchiveError::NoName),
                    Some(name) => r matches Ok(IncrementalSnapshot::Extend(n)) && n@ == name,
                }
            } else {
                match r {
                    Ok(IncrementalSnapshot::Create(new)) => is_new_snapshot(
                        self.destination@,
                        self.comment,
                        SnapshotType::Incremental,
                        "root"@,
                        now,
                        version,
                        Ok(new),
                    ),
                    Ok(IncrementalSnapshot::Extend(_)) => false,
                    Err(e) => is_new_snapshot(
                        self.destination@,
                        self.comment,
                        SnapshotType::Incremental,
                        "root"@,
                        now,
                        version,
                        Err(e),
                    ),
                }
            },
    {
        if there {
            match file_name(self.destination.as_str()) {
                None => Err(ArchiveError::NoName),
                Some(name) => Ok(IncrementalSnapshot::Extend(name)),
            }
        } else {
            match self.create_new(now, version) {
                Err(e) => Err(e),
                Ok(new) => Ok(IncrementalSnapshot::Create(new)),
            }
        }
    }

    /// What an archive says after it was extended: its comment is the new one. Only
    /// one that holds what changed can be.
    pub fn extend_metadata(&self, metadata: SnapshotMetadata) -> (r: Result<
        SnapshotMetadata,
        ArchiveError,
    >)
        ensures
            r == if metadata.snapshot_type != SnapshotType::Incremental {
                Err(ArchiveError::NotIncremental)
            } else {
                Ok(SnapshotMetadata { comment: self.comment, ..metadata })
            },
    {
        if metadata.snapshot_type != SnapshotType::Incremental {
            return Err(ArchiveError::NotIncremental);
        }
        Ok(
            SnapshotMetadata {
                original_date: metadata.original_date,
                snapshot_type: metadata.snapshot_type,
                comment: copy_comment(&self.comment),
                app_version: metadata.app_version,
            },
        )
    }

    /// Where an archive is unpacked to be extended, and under which name the
    /// directory is found there.
    pub fn extend_directory(&self, cache_dir: &str) -> (r: (String, String))
        requires
            file_name_of(self.root@) is Some,
        ensures
            r.0@ == working_path(cache_dir@, "LXCOMM_TEMP_EXTEND_INCR_"@, self.root@),
            file_name_of(self.root@) == Some(r.1@),
    {
        let working = working_directory(
            cache_dir,
            "LXCOMM_TEMP_EXTEND_INCR_",
            self.root.as_str(),
        );
        let name = match file_name(self.root.as_str()) {
            Some(name) => name,
            None => String::new(),
        };
        (working, name)
    }
}

/// The set of changes that an archive is extended with: its name is the time, and
/// there is none where nothing changed.
pub open spec fn extension(
    source: Seq<EntryModel>,
    new: Seq<EntryModel>,
    timestamp: i64,
) -> Result<Option<(Seq<char>, Seq<u8>)>, TreeError> {
    match generated_dir(source, new) {
        Err(e) => Err(e),
        Ok(ops) => if ops.len() == 0 {
            Ok(None)
        } else {
            Ok(Some((signed_text(timestamp as int), encoded_all(ops))))
        },
    }
}

/// The set of changes that an archive is extended with, where something changed.
pub fn extend_existing(source: &Vec<TreeEntry>, new: &Vec<TreeEntry>, timestamp: i64) -> (r: Result<
    Option<(String, Vec<u8>)>,
    TreeError,
>)
    requires
        distinct_paths(entry_models(source@)),
        distinct_paths(entry_models(new@)),
    ensures
        match r {
            Err(e) => extension(entry_models(source@), entry_models(new@), timestamp) == Err::<
                Option<(Seq<char>, Seq<u8>)>,
                TreeError,
            >(e),
            Ok(None) => extension(entry_models(source@), entry_models(new@), timestamp) == Ok::<
                Option<(Seq<char>, Seq<u8>)>,
                TreeError,
            >(None),
            Ok(Some((name, bytes))) => extension(
                entry_models(source@),
                entry_models(new@),
                timestamp,
            ) == Ok::<Option<(Seq<char>, Seq<u8>)>, TreeError>(Some((name@, bytes@))),
        },
        is_tree(tree_of(entry_models(new@))) && tree_of(entry_models(source@)) == tree_of(
            entry_models(new@),
        ) ==> r == Ok::<Option<(String, Vec<u8>)>, TreeError>(None),
{
    proof {
        let (s, n) = (entry_models(source@), entry_models(new@));
        if is_tree(tree_of(n)) && tree_of(s) == tree_of(n) {
            lemma_unchanged_is_no_error(s, n);
        }
    }
    let changes = generate_ops_dir(source, new);
    proof {
        let (s, n) = (entry_models(source@), entry_models(new@));
        if is_tree(tree_of(n)) && tree_of(s) == tree_of(n) {
            unchanged_directories_add_nothing(s, n, timestamp);
        }
    }
    match changes {
        Err(e) => Err(e),
        Ok(ops) => {
            assert(op_models(ops@).len() == ops@.len());
            if ops.len() == 0 {
                Ok(None)
            } else {
                Ok(Some((signed_decimal(timestamp), encode_ops(&ops))))
            }
        },
    }
}

/// Whether an entry of an archive is a set of changes: it is neither the directory
/// as it was at first nor something in a directory.
pub open spec fn is_record(name: Seq<char>) -> bool {
    name != "root"@ && !name.contains('/') && !name.contains('\\')
}

/// The time that a set of changes is named after.
pub open spec fn record_time(name: Seq<char>) -> Option<int> {
    signed_value(encode_utf8(name))
}

/// Whether an archive holds a set of changes of a time.
pub open spec fn has_record(names: Seq<String>, time: i64) -> bool {
    exists|i: int|
        0 <= i < names.len() && is_record((#[trigger] names[i])@) && record_time(names[i]@)
            == Some(time as int)
}

fn check_record(name: &str) -> (r: bool)
    ensures
        r == is_record(name@),
{
    if same_text(name, "root") {
        return false;
    }
    let s = chars_of(name);
    let mut i: usize = 0;
    while i < s.len()
        invariant
            0 <= i <= s@.len(),
            s@ == name@,
            forall|j: int| 0 <= j < i ==> #[trigger] s@[j] != '/' && s@[j] != '\\',
        decreases s@.len() - i,
    {
        if s[i] == '/' || s[i] == '\\' {
            assert(name@[i as int] == s@[i as int]);
            return false;
        }
        i += 1;
    }
    true
}

/// The times of the sets of changes that an archive holds, where each is named
/// after one.
pub fn list_incremental_snapshots(names: &Vec<String>) -> (r: Result<Table<i64, ()>, ArchiveError>)
    ensures
        match r {
            Ok(times) => {
                &&& forall|i: int|
                    0 <= i < names@.len() && is_record((#[trigger] names@[i])@) ==> record_time(
                        names@[i]@,
                    ) is Some
                &&& forall|time: i64|
                    #[trigger] times@.dom().contains(time) <==> has_record(names@, time)
            },
            Err(e) => e == ArchiveError::BadTimestamp && exists|i: int|
                0 <= i < names@.len() && is_record((#[trigger] names@[i])@) && record_time(
                    names@[i]@,
                ) is None,
        },
{
    let mut times: Table<i64, ()> = Table::new();
    let mut i: usize = 0;
    while i < names.len()
        invariant
            0 <= i <= names@.len(),
            forall|j: int|
                0 <= j < i && is_record((#[trigger] names@[j])@) ==> record_time(
                    names@[j]@,
                ) is Some,
            forall|time: i64|
                #[trigger] times@.dom().contains(time) <==> exists|j: int|
                    0 <= j < i && is_record((#[trigger] names@[j])@) && record_time(names@[j]@)
                        == Some(time as int),
        decreases names@.len() - i,
    {
        if check_record(names[i].as_str()) {
            match parse_signed_text(names[i].as_str()) {
                None => return Err(ArchiveError::BadTimestamp),
                Some(time) => {
                    let ghost before = times@;
                    times.insert(time, ());
                    assert forall|t: i64| #[trigger] times@.dom().contains(t) <==> exists|j: int|
                        0 <= j < i + 1 && is_record((#[trigger] names@[j])@) && record_time(
                            names@[j]@,
                        ) == Some(t as int) by {
                        assert(times@.dom().contains(t) <==> before.dom().contains(t) || t == time);
                        if t == time {
                            assert(is_record(names@[i as int]@));
                        }
                        if before.dom().contains(t) {
                            let j = choose|j: int|
                                0 <= j < i && is_record((#[trigger] names@[j])@) && record_time(
                                    names@[j]@,
                                ) == Some(t as int);
                            assert(0 <= j < i + 1);
                        }
                    }
                },
            }
        }
        i += 1;
    }
    assert forall|time: i64| #[trigger] times@.dom().contains(time) <==> has_record(
        names@,
        time,
    ) by {
        assert(times@.dom().contains(time) <==> exists|j: int|
            0 <= j < i && is_record((#[trigger] names@[j])@) && record_time(names@[j]@) == Some(
                time as int,
            ));
    }
    Ok(times)
}

/// Whether times rise, each once.
pub open spec fn rising_times(times: Seq<i64>) -> bool {
    forall|i: int, j: int| 0 <= i < j < times.len() ==> #[trigger] times[i] < #[trigger] times[j]
}

/// The times up to and at which changes are applied, in their order.
pub fn times_until(times: &Table<i64, ()>, stop_at: Option<i64>) -> (r: Vec<i64>)
    ensures
        rising_times(r@),
        forall|time: i64|
            #[trigger] r@.contains(time) <==> times@.dom().contains(time) && (stop_at is None
                || time <= stop_at->Some_0),
{
    let mut out: Vec<i64> = Vec::new();
    let n = times.len();
    let ghost rows = times.rows();
    let mut i: usize = 0;
    while i < n
        invariant_except_break
            i <= n,
            out@.len() == i,
        invariant
            n == rows.len(),
            rows == times.rows(),
            crate::table::rising::<i64, ()>(rows),
            out@.len() <= n,
            forall|j: int| 0 <= j < out@.len() ==> #[trigger] out@[j] == rows[j].0,
            forall|j: int|
                0 <= j < out@.len() ==> stop_at is None || (#[trigger] rows[j]).0
                    <= stop_at->Some_0,
        ensures
            forall|j: int|
                out@.len() <= j < n ==> !(stop_at is None || (#[trigger] rows[j]).0
                    <= stop_at->Some_0),
        decreases n - i,
    {
        let time: i64 = *times.key_at(i);
        assert(rows[i as int].0 == time);
        if let Some(stop) = stop_at {
            if time > stop {
                assert forall|j: int| out@.len() <= j < n implies !(stop_at is None || (
                #[trigger] rows[j]).0 <= stop_at->Some_0) by {
                    if j > i {
                        assert(<i64 as crate::table::TableKey>::before(
                            rows[i as int].0,
                            rows[j].0,
                        ));
                    }
                }
                break;
            }
        }
        out.push(time);
        i += 1;
    }
    assert forall|a: int, b: int| 0 <= a < b < out@.len() implies #[trigger] out@[a]
        < #[trigger] out@[b] by {
        assert(<i64 as crate::table::TableKey>::before(rows[a].0, rows[b].0));
    }
    assert forall|time: i64| #[trigger] out@.contains(time) <==> times@.dom().contains(time) && (
    stop_at is None || time <= stop_at->Some_0) by {
        if out@.contains(time) {
            let j = choose|j: int| 0 <= j < out@.len() && out@[j] == time;
            assert(rows[j].0 == time);
        }
        if times@.dom().contains(time) && (stop_at is None || time <= stop_at->Some_0) {
            let j = choose|j: int| 0 <= j < rows.len() && (#[trigger] rows[j]).0 == time;
            assert(out@[j] == time);
        }
    }
    out
}

/// What a directory becomes when a set of changes is read and applied to it.
#[verifier::opaque]
pub open spec fn changed_by(
    tree: TreeModel,
    cache: Map<Seq<char>, Seq<u8>>,
    record: Seq<u8>,
) -> Result<(TreeModel, Map<Seq<char>, Seq<u8>>), ArchiveError> {
    match decoded(record, 0) {
        Err(e) => Err(ArchiveError::BadChanges(e)),
        Ok(ops) => match applied(tree, cache, ops) {
            Err(e) => Err(ArchiveError::CannotApply(e)),
            Ok(next) => Ok(next),
        },
    }
}

fn apply_record(tree: FileTree, cache: WorkingCache, record: &Vec<u8>) -> (r: Result<
    (FileTree, WorkingCache),
    ArchiveError,
>)
    ensures
        match (r, changed_by(node_map(tree@), bytes_map(cache@), record@)) {
            (Ok((t, c)), Ok((tm, cm))) => node_map(t@) == tm && bytes_map(c@) == cm,
            (Err(e), Err(f)) => e == f,
            _ => false,
        },
{
    proof {
        reveal(changed_by);
    }
    let ops = match decode_ops(record.as_slice()) {
        Err(e) => return Err(ArchiveError::BadChanges(e)),
        Ok(ops) => ops,
    };
    match apply_ops(tree, &ops, cache) {
        Err(e) => Err(ArchiveError::CannotApply(e)),
        Ok(next) => Ok(next),
    }
}

/// What the first state of a directory becomes when sets of changes are applied to
/// it, one after the other.
pub open spec fn restored(
    tree: TreeModel,
    cache: Map<Seq<char>, Seq<u8>>,
    records: Seq<Seq<u8>>,
) -> Result<(TreeModel, Map<Seq<char>, Seq<u8>>), ArchiveError>
    decreases records.len(),
{
    if records.len() == 0 {
        Ok((tree, cache))
    } else {
        match restored(tree, cache, records.drop_last()) {
            Err(e) => Err(e),
            Ok((t, c)) => changed_by(t, c, records.last()),
        }
    }
}

proof fn lemma_restore_error_stays(
    tree: TreeModel,
    cache: Map<Seq<char>, Seq<u8>>,
    records: Seq<Seq<u8>>,
    n: int,
)
    requires
        0 <= n <= records.len(),
        restored(tree, cache, records.take(n)) is Err,
    ensures
        restored(tree, cache, records) == restored(tree, cache, records.take(n)),
    decreases records.len(),
{
    if n < records.len() {
        assert(records.drop_last().take(n) =~= records.take(n));
        lemma_restore_error_stays(tree, cache, records.drop_last(), n);
    } else {
        assert(records.take(n) =~= records);
    }
}

pub open spec fn record_views(records: Seq<Vec<u8>>) -> Seq<Seq<u8>> {
    Seq::new(records.len(), |i: int| records[i]@)
}

/// What the first state of a directory becomes when sets of changes are applied to
/// it, one after the other.
pub fn restore(tree: FileTree, records: &Vec<Vec<u8>>) -> (r: Result<FileTree, ArchiveError>)
    ensures
        match (r, restored(node_map(tree@), Map::empty(), record_views(records@))) {
            (Ok(t), Ok((model, _))) => node_map(t@) == model,
            (Err(e), Err(f)) => e == f,
            _ => false,
        },
{
    let ghost start = node_map(tree@);
    let ghost views = record_views(records@);
    let ghost none: Map<Seq<char>, Seq<u8>> = Map::empty();
    let mut now = tree;
    let mut cache: WorkingCache = Table::new();
    assert(bytes_map(cache@) =~= none);
    let mut i: usize = 0;
    while i < records.len()
        invariant
            0 <= i <= records@.len(),
            start == node_map(tree@),
            none == Map::<Seq<char>, Seq<u8>>::empty(),
            views == record_views(records@),
            restored(start, none, views.take(i as int)) == Ok::<
                (TreeModel, Map<Seq<char>, Seq<u8>>),
                ArchiveError,
            >((node_map(now@), bytes_map(cache@))),
        decreases records@.len() - i,
    {
        let ghost front = views.take(i + 1);
        assert(front.drop_last() =~= views.take(i as int));
        assert(front.last() == records@[i as int]@);
        match apply_record(now, cache, &records[i]) {
            Err(e) => {
                proof {
                    lemma_restore_error_stays(start, none, views, i + 1);
                }
                return Err(e);
            },
            Ok((next_tree, next_cache)) => {
                now = next_tree;
                cache = next_cache;
            },
        }
        i += 1;
    }
    assert(views.take(i as int) =~= views);
    Ok(now)
}

/// An archive that is extended with what changed gives the directory as it is then.
/// `records` are the sets of changes that it held before, which give the directory
/// as it was, and what is cached meanwhile are contents of files as they were.
pub proof fn extended_archive_gives_new(
    first: TreeModel,
    records: Seq<Seq<u8>>,
    source: Seq<EntryModel>,
    new: Seq<EntryModel>,
    cache: Map<Seq<char>, Seq<u8>>,
)
    requires
        is_walk(source),
        is_walk(new),
        restored(first, Map::empty(), records) == Ok::<
            (TreeModel, Map<Seq<char>, Seq<u8>>),
            ArchiveError,
        >((tree_of(source), cache)),
        cache_agrees(cache, tree_of(source)),
        diffs_lead(tree_of(source), tree_of(new)),
        sizes_fit(tree_of(source), tree_of(new)),
        generated_dir(source, new) is Ok,
        forall|i: int|
            0 <= i < generated_dir(source, new)->Ok_0.len() ==> readable(
                #[trigger] generated_dir(source, new)->Ok_0[i],
            ),
    ensures
        match restored(
            first,
            Map::empty(),
            records.push(encoded_all(generated_dir(source, new)->Ok_0)),
        ) {
            Ok((tree, kept)) => tree == tree_of(new) && cache_agrees(kept, tree_of(new)),
            Err(_) => false,
        },
{
    let record = encoded_all(generated_dir(source, new)->Ok_0);
    assert(records.push(record).drop_last() =~= records);
    reveal(changed_by);
    written_changes_lead_to_new(source, new, cache);
}

proof fn lemma_unchanged_is_no_error(source: Seq<EntryModel>, new: Seq<EntryModel>)
    requires
        distinct_paths(source),
        distinct_paths(new),
        is_tree(tree_of(new)),
        tree_of(source) == tree_of(new),
    ensures
        generated_dir(source, new) is Ok,
{
    let tree = tree_of(new);
    assert forall|i: int| 0 <= i <= source.len() implies #[trigger] source_parts(
        source.take(i),
        tree,
    ) is Ok by {
        lemma_source_parts_of_tree(source, tree, i);
    }
    assert(source.take(source.len() as int) =~= source);
    assert(source_parts(source.take(source.len() as int), tree) is Ok);
    lemma_new_parts_of_tree(new, tree, new.len() as int);
    assert(new.take(new.len() as int) =~= new);
}

proof fn lemma_source_parts_of_tree(entries: Seq<EntryModel>, tree: TreeModel, i: int)
    requires
        distinct_paths(entries),
        tree_of(entries) == tree,
        is_tree(tree),
        0 <= i <= entries.len(),
    ensures
        source_parts(entries.take(i), tree) is Ok,
        diffs_lead(tree, tree) ==> source_parts(entries.take(i), tree)->Ok_0 == Seq::<
            OpModel,
        >::empty(),
    decreases i,
{
    if i > 0 {
        lemma_source_parts_of_tree(entries, tree, i - 1);
        assert(entries.take(i).drop_last() =~= entries.take(i - 1));
        let entry = entries[i - 1];
        lemma_entry_in_tree(entries, i - 1);
        lemma_nothing_is_blocked(tree, entry.path);
        if diffs_lead(tree, tree) {
            assert(diff_leads(tree[entry.path], tree[entry.path]));
            if let NodeModel::File(s) = entry.node {
                lemma_equal_spans_change_nothing(entry.path, diff_spans(s, s), s);
            }
            assert(Seq::<OpModel>::empty() + Seq::<OpModel>::empty() =~= Seq::empty());
        }
    }
}

proof fn lemma_new_parts_of_tree(entries: Seq<EntryModel>, tree: TreeModel, i: int)
    requires
        distinct_paths(entries),
        tree_of(entries) == tree,
        is_tree(tree),
        0 <= i <= entries.len(),
    ensures
        new_parts(entries.take(i), tree) == Ok::<Seq<OpModel>, TreeError>(Seq::empty()),
    decreases i,
{
    if i > 0 {
        lemma_new_parts_of_tree(entries, tree, i - 1);
        assert(entries.take(i).drop_last() =~= entries.take(i - 1));
        lemma_entry_in_tree(entries, i - 1);
        lemma_nothing_is_blocked(tree, entries[i - 1].path);
        assert(Seq::<OpModel>::empty() + Seq::<OpModel>::empty() =~= Seq::empty());
    }
}

proof fn lemma_nothing_is_blocked(tree: TreeModel, path: Seq<char>)
    requires
        is_tree(tree),
        tree.dom().contains(path),
    ensures
        !blocked(tree, path),
{
    if blocked(tree, path) {
        let dir = choose|dir: Seq<char>|
            #[trigger] is_under(path, dir) && tree.dom().contains(dir) && tree[dir] is File;
        assert(tree[dir] is Dir);
    }
}

/// A directory in which nothing changed adds nothing to an archive.
pub proof fn unchanged_directories_add_nothing(
    source: Seq<EntryModel>,
    new: Seq<EntryModel>,
    timestamp: i64,
)
    requires
        distinct_paths(source),
        distinct_paths(new),
        is_tree(tree_of(new)),
        tree_of(source) == tree_of(new),
        diffs_lead(tree_of(source), tree_of(new)),
    ensures
        generated_dir(source, new) == Ok::<Seq<OpModel>, TreeError>(Seq::empty()),
        extension(source, new, timestamp) == Ok::<Option<(Seq<char>, Seq<u8>)>, TreeError>(None),
{
    let tree = tree_of(new);
    lemma_source_parts_of_tree(source, tree, source.len() as int);
    lemma_new_parts_of_tree(new, tree, new.len() as int);
    assert(source.take(source.len() as int) =~= source);
    assert(new.take(new.len() as int) =~= new);
    assert(Seq::<OpModel>::empty() + Seq::<OpModel>::empty() =~= Seq::empty());
}

/// Whether the changes between two states can be written down so that they are read
/// back: see [`extended_archive_gives_new`].
pub open spec fn can_extend(source: Seq<EntryModel>, new: Seq<EntryModel>) -> bool {
    &&& is_walk(source)
    &&& is_walk(new)
    &&& diffs_lead(tree_of(source), tree_of(new))
    &&& sizes_fit(tree_of(source), tree_of(new))
    &&& generated_dir(source, new) is Ok
    &&& forall|i: int|
        0 <= i < generated_dir(source, new)->Ok_0.len() ==> readable(
            #[trigger] generated_dir(source, new)->Ok_0[i],
        )
}

/// The sets of changes in an archive that was made of the first of several states
/// and extended with each of the others. A state in which nothing changed adds none.
pub open spec fn records_of(states: Seq<Seq<EntryModel>>) -> Seq<Seq<u8>>
    decreases states.len(),
{
    if states.len() <= 1 {
        Seq::empty()
    } else {
        let front = records_of(states.drop_last());
        match extension(states[states.len() - 2], states.last(), 0) {
            Ok(Some((_, record))) => front.push(record),
            _ => front,
        }
    }
}

proof fn lemma_no_changes_no_difference(
    source: Seq<EntryModel>,
    new: Seq<EntryModel>,
    cache: Map<Seq<char>, Seq<u8>>,
)
    requires
        can_extend(source, new),
        cache_agrees(cache, tree_of(source)),
        generated_dir(source, new)->Ok_0.len() == 0,
    ensures
        tree_of(source) == tree_of(new),
{
    super::laws::generated_changes_lead_to_new(source, new, cache);
    let ops = generated_dir(source, new)->Ok_0;
    assert(ops =~= Seq::empty());
    let gone = applied(tree_of(source), cache, ops);
    assert(gone->Ok_0.0 =~= tree_of(source));
}

/// The last of the states that an archive was made of comes back out of it, however
/// often it was extended.
pub proof fn every_state_comes_back(states: Seq<Seq<EntryModel>>)
    requires
        states.len() > 0,
        forall|i: int|
            0 < i < states.len() ==> can_extend(states[i - 1], #[trigger] states[i]),
    ensures
        match restored(tree_of(states[0]), Map::empty(), records_of(states)) {
            Ok((tree, kept)) => tree == tree_of(states.last()) && cache_agrees(
                kept,
                tree_of(states.last()),
            ),
            Err(_) => false,
        },
    decreases states.len(),
{
    if states.len() > 1 {
        let front = states.drop_last();
        assert forall|i: int| 0 < i < front.len() implies can_extend(
            front[i - 1],
            #[trigger] front[i],
        ) by {
            assert(can_extend(states[i - 1], states[i]));
        }
        every_state_comes_back(front);
        let source = front.last();
        let new = states.last();
        assert(source == states[states.len() - 2]);
        assert(can_extend(states[states.len() - 2], states[states.len() - 1]));
        let before = restored(tree_of(states[0]), Map::empty(), records_of(front));
        let cache = before->Ok_0.1;
        if generated_dir(source, new)->Ok_0.len() == 0 {
            lemma_no_changes_no_difference(source, new, cache);
        } else {
            extended_archive_gives_new(
                tree_of(states[0]),
                records_of(front),
                source,
                new,
                cache,
            );
        }
    }
}

/// What is done to bring a profile out of an archive, in this order.
#[derive(Debug)]
pub enum LoadStep {
    /// Removes a directory if it is there.
    Clear(String),
    /// Unpacks the archive into a directory.
    Extract(String),
    /// Applies the sets of changes of these times, which lie in the first directory,
    /// to the second one.
    Restore(String, String, Vec<i64>),
    /// Gives the profile in a file another name.
    Rename(String, String),
    /// Moves a directory.
    Move(String, String),
    /// Removes a directory that must be there.
    Remove(String),
    /// Removes a directory if it is there, and goes on if that fails.
    Discard(String),
    /// Ends with an error.
    Fail(ArchiveError),
}

#[verifier::ext_equal]
pub enum LoadModel {
    Clear(Seq<char>),
    Extract(Seq<char>),
    Restore(Seq<char>, Seq<char>, Seq<i64>),
    Rename(Seq<char>, Seq<char>),
    Move(Seq<char>, Seq<char>),
    Remove(Seq<char>),
    Discard(Seq<char>),
    Fail(ArchiveError),
}

impl View for LoadStep {
    type V = LoadModel;

    open spec fn view(&self) -> LoadModel {
        match self {
            LoadStep::Clear(path) => LoadModel::Clear(path@),
            LoadStep::Extract(path) => LoadModel::Extract(path@),
            LoadStep::Restore(from, to, times) => LoadModel::Restore(from@, to@, times@),
            LoadStep::Rename(path, name) => LoadModel::Rename(path@, name@),
            LoadStep::Move(from, to) => LoadModel::Move(from@, to@),
            LoadStep::Remove(path) => LoadModel::Remove(path@),
            LoadStep::Discard(path) => LoadModel::Discard(path@),
            LoadStep::Fail(error) => LoadModel::Fail(*error),
        }
    }
}

pub open spec fn load_models(steps: Seq<LoadStep>) -> Seq<LoadModel> {
    Seq::new(steps.len(), |i: int| steps[i]@)
}

/// Brings a profile out of an archive that keeps its directory as it was, under
/// another name. `data_name` is the file that a profile is kept in.
pub fn load_basic_snapshot(
    rename: &str,
    destination: &str,
    cache_dir: &str,
    data_name: &str,
    kind: SnapshotType,
) -> (r: Vec<LoadStep>)
    ensures
        load_models(r@) == basic_load(
            kind,
            working_path(cache_dir@, "LXCOMM_TEMP_"@, joined(destination@, rename@)),
            joined(destination@, rename@),
            data_name@,
            rename@,
        ),
{
    if kind != SnapshotType::Basic {
        let r = vec![LoadStep::Fail(ArchiveError::NotBasic)];
        assert(load_models(r@) =~= seq![LoadModel::Fail(ArchiveError::NotBasic)]);
        return r;
    }
    let target = join(destination, rename);
    let working = working_directory(cache_dir, "LXCOMM_TEMP_", target.as_str());
    let data = join(working.as_str(), data_name);
    let ghost t = target@;
    let ghost w = working@;
    let r = vec![
        LoadStep::Clear(working.clone()),
        LoadStep::Extract(working.clone()),
        LoadStep::Rename(data, rename.to_owned()),
        LoadStep::Clear(target.clone()),
        LoadStep::Move(working.clone(), target),
        LoadStep::Discard(working),
    ];
    assert(load_models(r@) =~= seq![
        LoadModel::Clear(w),
        LoadModel::Extract(w),
        LoadModel::Rename(joined(w, data_name@), rename@),
        LoadModel::Clear(t),
        LoadModel::Move(w, t),
        LoadModel::Discard(w),
    ]);
    r
}

/// Whether times are those of the sets of changes in an archive up to and at one, in
/// their order.
pub open spec fn are_times_until(names: Seq<String>, stop_at: Option<i64>, times: Seq<i64>) -> bool {
    &&& rising_times(times)
    &&& forall|time: i64| #[trigger]
        times.contains(time) <==> has_record(names, time) && (stop_at is None || time
            <= stop_at->Some_0)
}

/// The steps that bring a profile out of an archive with sets of changes into a directory, by
/// way of another one. Those of these times are applied.
pub open spec fn incremental_load(
    working: Seq<char>,
    target: Seq<char>,
    data_name: Seq<char>,
    rename: Seq<char>,
    times: Seq<i64>,
) -> Seq<LoadModel> {
    let root = joined(working, "root"@);
    seq![
        LoadModel::Clear(working),
        LoadModel::Extract(working),
        LoadModel::Restore(working, root, times),
        LoadModel::Rename(joined(root, data_name), rename),
        LoadModel::Clear(target),
        LoadModel::Move(root, target),
        LoadModel::Remove(working),
    ]
}

/// Brings a profile out of an archive with sets of changes, as it was at a time,
/// under another name.
pub fn load_incremental_snapshot(
    rename: &str,
    destination: &str,
    cache_dir: &str,
    data_name: &str,
    names: &Vec<String>,
    stop_at: Option<i64>,
) -> (r: Vec<LoadStep>)
    ensures
        ({
            let target = joined(destination@, rename@);
            let working = working_path(cache_dir@, "LXCOMM_TEMP_"@, target);
            let bad = exists|i: int|
                0 <= i < names@.len() && is_record((#[trigger] names@[i])@) && record_time(
                    names@[i]@,
                ) is None;
            if bad {
                load_models(r@) == seq![
                    LoadModel::Clear(working),
                    LoadModel::Fail(ArchiveError::BadTimestamp),
                ]
            } else {
                exists|times: Seq<i64>|
                    {
                        &&& #[trigger] are_times_until(names@, stop_at, times)
                        &&& load_models(r@) == incremental_load(
                            working,
                            target,
                            data_name@,
                            rename@,
                            times,
                        )
                    }
            }
        }),
{
    let target = join(destination, rename);
    let working = working_directory(cache_dir, "LXCOMM_TEMP_", target.as_str());
    let ghost t = target@;
    let ghost w = working@;
    let listed = match list_incremental_snapshots(names) {
        Err(e) => {
            let r = vec![LoadStep::Clear(working), LoadStep::Fail(e)];
            assert(load_models(r@) =~= seq![
                LoadModel::Clear(w),
                LoadModel::Fail(ArchiveError::BadTimestamp),
            ]);
            return r;
        },
        Ok(listed) => listed,
    };
    let times = times_until(&listed, stop_at);
    let ghost wanted = times@;
    assert forall|time: i64| #[trigger] wanted.contains(time) <==> has_record(names@, time) && (
    stop_at is None || time <= stop_at->Some_0) by {
        assert(listed@.dom().contains(time) <==> has_record(names@, time));
    }
    assert(are_times_until(names@, stop_at, wanted));
    let root = join(working.as_str(), "root");
    let data = join(root.as_str(), data_name);
    let ghost o = root@;
    let r = vec![
        LoadStep::Clear(working.clone()),
        LoadStep::Extract(working.clone()),
        LoadStep::Restore(working.clone(), root.clone(), times),
        LoadStep::Rename(data, rename.to_owned()),
        LoadStep::Clear(target.clone()),
        LoadStep::Move(root, target),
        LoadStep::Remove(working),
    ];
    assert(load_models(r@) =~= seq![
        LoadModel::Clear(w),
        LoadModel::Extract(w),
        LoadModel::Restore(w, o, wanted),
        LoadModel::Rename(joined(o, data_name@), rename@),
        LoadModel::Clear(t),
        LoadModel::Move(o, t),
        LoadModel::Remove(w),
    ]);
    r
}

} // verus!
