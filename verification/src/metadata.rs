//! What the program notes of a mod beside what the mod says of itself.
use vstd::prelude::*;

use crate::files::get_item_directory;
use crate::paths::join;
use crate::table::{chars_before, Table, TableKey};
use crate::text::{chars_of, join_two, same_text, trim_start_matches};
#[allow(unused_imports)]
use crate::extensions::string_views;
#[allow(unused_imports)]
use crate::files::item_path;
#[allow(unused_imports)]
use crate::paths::joined;
#[allow(unused_imports)]
use crate::table::{text_before, text_order_is_total};
#[allow(unused_imports)]
use crate::text::{occurs_at, without_starts};

verus! {

/// The name of the file that the program's notes of a mod are kept in.
pub const DEFAULT_FILE_NAME: &'static str = ".lxcomm";

/// A tag of a mod.
#[derive(Debug)]
pub enum Tag {
    /// Official tags used by the workshop store page
    Workshop(String),
    /// Tags that have been applied by the mod author
    Custom(String),
    /// Tags that the user has defined themselves
    User(String),
}

#[verifier::ext_equal]
pub enum TagModel {
    Workshop(Seq<char>),
    Custom(Seq<char>),
    User(Seq<char>),
}

impl View for Tag {
    type V = TagModel;

    open spec fn view(&self) -> TagModel {
        match self {
            Tag::Workshop(tag) => TagModel::Workshop(tag@),
            Tag::Custom(tag) => TagModel::Custom(tag@),
            Tag::User(tag) => TagModel::User(tag@),
        }
    }
}

impl TagModel {
    pub open spec fn text(self) -> Seq<char> {
        match self {
            TagModel::Workshop(tag) => tag,
            TagModel::Custom(tag) => tag,
            TagModel::User(tag) => tag,
        }
    }

    pub open spec fn rank(self) -> int {
        match self {
            TagModel::Workshop(_) => 0,
            TagModel::Custom(_) => 1,
            TagModel::User(_) => 2,
        }
    }

    /// How the tag is written down.
    pub open spec fn written(self) -> Seq<char> {
        match self {
            TagModel::User(tag) => "USER:"@ + tag,
            _ => self.text(),
        }
    }
}

/// Official tags come first, then those of the author, then those of the user;
/// each by their texts.
impl TableKey for Tag {
    type Model = TagModel;

    open spec fn model(&self) -> TagModel {
        self@
    }

    open spec fn before(a: TagModel, b: TagModel) -> bool {
        a.rank() < b.rank() || (a.rank() == b.rank() && text_before(a.text(), b.text()))
    }

    proof fn order_is_total(a: TagModel, b: TagModel, c: TagModel) {
        text_order_is_total(a.text(), b.text(), c.text());
    }

    fn comes_before(&self, other: &Self) -> (r: bool) {
        let x = self.place();
        let y = other.place();
        if x != y {
            return x < y;
        }
        let a = chars_of(self.as_text());
        let b = chars_of(other.as_text());
        chars_before(a.as_slice(), b.as_slice())
    }

    fn copy_key(&self) -> (r: Self) {
        match self {
            Tag::Workshop(tag) => Tag::Workshop(tag.clone()),
            Tag::Custom(tag) => Tag::Custom(tag.clone()),
            Tag::User(tag) => Tag::User(tag.clone()),
        }
    }
}

/// The tag that a text stands for: an official one, where it is one of `known`.
pub open spec fn tag_of(text: Seq<char>, known: Seq<Seq<char>>) -> TagModel {
    if known.contains(text) {
        TagModel::Workshop(text)
    } else {
        TagModel::Custom(text)
    }
}

/// The tag that was written down as a text.
pub open spec fn read_tag(text: Seq<char>, known: Seq<Seq<char>>) -> TagModel {
    let rest = without_starts(text, "USER:"@);
    if rest != text {
        TagModel::User(rest)
    } else {
        tag_of(text, known)
    }
}

fn is_known(text: &str, known: &Vec<String>) -> (r: bool)
    ensures
        r == string_views(known@).contains(text@),
{
    let mut i: usize = 0;
    while i < known.len()
        invariant
            0 <= i <= known@.len(),
            forall|j: int| 0 <= j < i ==> (#[trigger] known@[j])@ != text@,
        decreases known@.len() - i,
    {
        if same_text(known[i].as_str(), text) {
            assert(string_views(known@)[i as int] == text@);
            return true;
        }
        i += 1;
    }
    proof {
        if string_views(known@).contains(text@) {
            let k = choose|k: int|
                0 <= k < string_views(known@).len() && string_views(known@)[k] == text@;
            assert(known@[k]@ == text@);
        }
    }
    false
}

impl Tag {
    fn place(&self) -> (r: u8)
        ensures
            r == self@.rank(),
    {
        match self {
            Tag::Workshop(_) => 0,
            Tag::Custom(_) => 1,
            Tag::User(_) => 2,
        }
    }

    /// What the tag says.
    pub fn as_text(&self) -> (r: &str)
        ensures
            r@ == self@.text(),
    {
        match self {
            Tag::Workshop(tag) => tag.as_str(),
            Tag::Custom(tag) => tag.as_str(),
            Tag::User(tag) => tag.as_str(),
        }
    }

    /// The tag that a text stands for: an official one, where it is one of
    /// `known`.
    pub fn from_text(text: &str, known: &Vec<String>) -> (r: Tag)
        ensures
            r@ == tag_of(text@, string_views(known@)),
    {
        if is_known(text, known) {
            Tag::Workshop(text.to_owned())
        } else {
            Tag::Custom(text.to_owned())
        }
    }

    /// How the tag is written down.
    pub fn serialize(&self) -> (r: String)
        ensures
            r@ == self@.written(),
    {
        match self {
            Tag::User(tag) => join_two("USER:", tag.as_str()),
            Tag::Workshop(tag) => tag.clone(),
            Tag::Custom(tag) => tag.clone(),
        }
    }

    /// The tag that was written down as a text.
    pub fn deserialize(text: &str, known: &Vec<String>) -> (r: Tag)
        ensures
            r@ == read_tag(text@, string_views(known@)),
    {
        proof {
            reveal_strlit("USER:");
        }
        let rest = trim_start_matches(text, "USER:");
        if same_text(rest.as_str(), text) {
            Tag::from_text(text, known)
        } else {
            Tag::User(rest)
        }
    }
}

/// Whether a tag is told from others by how it is written down: its text does not
/// begin as that of a user's tag is written, and is official if the tag is.
pub open spec fn is_told_apart(tag: TagModel, known: Seq<Seq<char>>) -> bool {
    &&& !occurs_at(tag.text(), "USER:"@, 0)
    &&& tag is Workshop ==> known.contains(tag.text())
    &&& tag is Custom ==> !known.contains(tag.text())
}

/// A tag is read back as it was written, unless its text begins as that of a
/// user's tag is written, or says something else with these official tags.
pub proof fn tags_read_back(tag: TagModel, known: Seq<Seq<char>>)
    requires
        is_told_apart(tag, known),
    ensures
        read_tag(tag.written(), known) == tag,
{
    reveal_strlit("USER:");
    let start = "USER:"@;
    match tag {
        TagModel::User(text) => {
            let written = start + text;
            assert(written.subrange(0, start.len() as int) =~= start);
            assert(occurs_at(written, start, 0));
            assert(written.skip(start.len() as int) =~= text);
            assert(without_starts(written, start) == without_starts(text, start));
            assert(without_starts(text, start) == text);
            assert(written.len() != text.len());
        },
        _ => {},
    }
}

/// What the program notes of a mod.
pub struct ProgramMetadata {
    pub time_downloaded: u64,
    pub tags: Table<Tag, ()>,
}

impl Default for ProgramMetadata {
    fn default() -> (r: Self)
        ensures
            r.time_downloaded == 0,
            r.tags@ == Map::<TagModel, ()>::empty(),
    {
        ProgramMetadata { time_downloaded: 0, tags: Table::new() }
    }
}

/// The notes of a mod as they are written down.
#[derive(Debug)]
pub struct MetadataRecord {
    pub time_downloaded: u64,
    pub tags: Vec<String>,
}

/// The notes of a mod as they are written down.
#[verifier::ext_equal]
pub struct RecordModel {
    pub time_downloaded: u64,
    pub tags: Seq<Seq<char>>,
}

impl View for MetadataRecord {
    type V = RecordModel;

    open spec fn view(&self) -> RecordModel {
        RecordModel { time_downloaded: self.time_downloaded, tags: string_views(self.tags@) }
    }
}

/// The notes of a mod.
#[verifier::ext_equal]
pub struct MetadataModel {
    pub time_downloaded: u64,
    pub tags: Set<TagModel>,
}

impl View for ProgramMetadata {
    type V = MetadataModel;

    open spec fn view(&self) -> MetadataModel {
        MetadataModel { time_downloaded: self.time_downloaded, tags: self.tags@.dom() }
    }
}

/// The tags that were written down as texts.
pub open spec fn read_tags(texts: Seq<Seq<char>>, known: Seq<Seq<char>>) -> Set<TagModel> {
    Set::new(
        |tag: TagModel|
            exists|i: int| 0 <= i < texts.len() && read_tag(#[trigger] texts[i], known) == tag,
    )
}

impl RecordModel {
    /// The notes that were written down.
    pub open spec fn read(self, known: Seq<Seq<char>>) -> MetadataModel {
        MetadataModel {
            time_downloaded: self.time_downloaded,
            tags: read_tags(self.tags, known),
        }
    }
}

impl MetadataRecord {
    /// The notes that were written down.
    pub fn restore(&self, known: &Vec<String>) -> (r: ProgramMetadata)
        ensures
            r@ == self@.read(string_views(known@)),
    {
        let ghost all = string_views(self.tags@);
        let ghost names = string_views(known@);
        let mut tags: Table<Tag, ()> = Table::new();
        let mut i: usize = 0;
        assert(tags@.dom() =~= read_tags(all.take(0), names));
        while i < self.tags.len()
            invariant
                0 <= i <= self.tags@.len(),
                all == string_views(self.tags@),
                names == string_views(known@),
                tags@.dom() == read_tags(all.take(i as int), names),
            decreases self.tags@.len() - i,
        {
            let ghost before = tags@.dom();
            let tag = Tag::deserialize(self.tags[i].as_str(), known);
            let ghost model = tag@;
            tags.insert(tag, ());
            proof {
                let short = all.take(i as int);
                let long = all.take(i + 1);
                assert(tags@.dom() =~= before.insert(model));
                assert(long =~= short.push(all[i as int]));
                assert forall|x: TagModel| read_tags(long, names).contains(x)
                    <==> read_tags(short, names).contains(x) || x == model by {
                    if read_tags(short, names).contains(x) {
                        let k = choose|k: int|
                            0 <= k < short.len() && read_tag(#[trigger] short[k], names) == x;
                        assert(read_tag(long[k], names) == x);
                    }
                    if x == model {
                        assert(read_tag(long[i as int], names) == x);
                    }
                    if read_tags(long, names).contains(x) && x != model {
                        let k = choose|k: int|
                            0 <= k < long.len() && read_tag(#[trigger] long[k], names) == x;
                        assert(read_tag(short[k], names) == x);
                    }
                }
                assert(tags@.dom() =~= read_tags(long, names));
            }
            i += 1;
        }
        assert(all.take(i as int) =~= all);
        ProgramMetadata { time_downloaded: self.time_downloaded, tags }
    }
}

/// How tags are written down, in their order.
pub open spec fn written_tags(rows: Seq<(TagModel, ())>) -> Seq<Seq<char>> {
    Seq::new(rows.len(), |i: int| rows[i].0.written())
}

/// How the notes of a mod are written down.
pub open spec fn record_of(metadata: ProgramMetadata) -> RecordModel {
    RecordModel {
        time_downloaded: metadata.time_downloaded,
        tags: written_tags(metadata.tags.rows()),
    }
}

/// The notes of a mod read back as they were written, where each tag is told from
/// others by how it is written down.
pub proof fn metadata_reads_back(metadata: ProgramMetadata, known: Seq<Seq<char>>)
    requires
        forall|tag: TagModel| #[trigger]
            metadata@.tags.contains(tag) ==> is_told_apart(tag, known),
    ensures
        record_of(metadata).read(known) == metadata@,
{
    let rows = metadata.tags.rows();
    let texts = written_tags(rows);
    assert forall|i: int| 0 <= i < rows.len() implies read_tag(#[trigger] texts[i], known)
        == rows[i].0 by {
        assert(metadata.tags@.dom().contains(rows[i].0));
        assert(metadata@.tags.contains(rows[i].0));
        tags_read_back(rows[i].0, known);
    }
    assert forall|tag: TagModel| read_tags(texts, known).contains(tag)
        <==> metadata@.tags.contains(tag) by {
        if read_tags(texts, known).contains(tag) {
            let i = choose|i: int|
                0 <= i < texts.len() && read_tag(#[trigger] texts[i], known) == tag;
            assert(rows[i].0 == tag);
        }
        if metadata@.tags.contains(tag) {
            let i = choose|i: int| 0 <= i < rows.len() && (#[trigger] rows[i]).0 == tag;
            assert(read_tag(texts[i], known) == tag);
        }
    }
    assert(read_tags(texts, known) =~= metadata@.tags);
}

/// The notes in the file at a path, if there is one.
pub open spec fn notes_at(
    files: Map<Seq<char>, RecordModel>,
    path: Seq<char>,
    known: Seq<Seq<char>>,
) -> Option<MetadataModel> {
    if files.dom().contains(path) {
        Some(files[path].read(known))
    } else {
        None
    }
}

/// The notes that were saved in the directory of an item are those that are read of the
/// item, until something else is written there. Where nothing was saved, none are read.
pub proof fn saved_metadata_is_read(
    files: Map<Seq<char>, RecordModel>,
    metadata: ProgramMetadata,
    id: u32,
    download_dir: Seq<char>,
    known: Seq<Seq<char>>,
)
    requires
        forall|tag: TagModel| #[trigger]
            metadata@.tags.contains(tag) ==> is_told_apart(tag, known),
    ensures
        notes_at(
            files.insert(notes_path(item_path(download_dir, id)), record_of(metadata)),
            notes_path(item_path(download_dir, id)),
            known,
        ) == Some(metadata@),
        !files.dom().contains(notes_path(item_path(download_dir, id))) ==> notes_at(
            files,
            notes_path(item_path(download_dir, id)),
            known,
        ) is None,
{
    metadata_reads_back(metadata, known);
}

/// Where the notes of the mod in a directory are.
pub open spec fn notes_path(directory: Seq<char>) -> Seq<char> {
    joined(directory, DEFAULT_FILE_NAME@)
}

/// The tags with those that texts stand for.
pub open spec fn tags_with(tags: Set<TagModel>, texts: Seq<Seq<char>>, known: Seq<Seq<char>>) -> Set<
    TagModel,
>
    decreases texts.len(),
{
    if texts.len() == 0 {
        tags
    } else {
        tags_with(tags, texts.drop_last(), known).insert(tag_of(texts.last(), known))
    }
}

impl ProgramMetadata {
    /// Adds the tags of a mod's page.
    pub fn extend_tags(&mut self, texts: &[String], known: &Vec<String>)
        ensures
            final(self).time_downloaded == old(self).time_downloaded,
            final(self).tags@.dom() == tags_with(
                old(self).tags@.dom(),
                string_views(texts@),
                string_views(known@),
            ),
    {
        let ghost all = string_views(texts@);
        let mut i: usize = 0;
        while i < texts.len()
            invariant
                0 <= i <= texts@.len(),
                all == string_views(texts@),
                self.time_downloaded == old(self).time_downloaded,
                self.tags@.dom() == tags_with(
                    old(self).tags@.dom(),
                    all.take(i as int),
                    string_views(known@),
                ),
            decreases texts@.len() - i,
        {
            proof {
                assert(all.take(i + 1).drop_last() =~= all.take(i as int));
                assert(all.take(i + 1).last() == texts@[i as int]@);
            }
            let ghost before = self.tags@;
            let tag = Tag::from_text(texts[i].as_str(), known);
            let ghost model = tag@;
            self.tags.insert(tag, ());
            assert(self.tags@.dom() =~= before.dom().insert(model));
            i += 1;
        }
        assert(all.take(i as int) =~= all);
    }

    /// How the notes are written down.
    pub fn save(&self) -> (r: MetadataRecord)
        ensures
            r@ == record_of(*self),
    {
        let mut tags: Vec<String> = Vec::new();
        let n = self.tags.len();
        let mut i: usize = 0;
        while i < n
            invariant
                0 <= i <= n,
                n == self.tags.rows().len(),
                tags@.len() == i,
                forall|j: int|
                    0 <= j < i ==> (#[trigger] tags@[j])@ == self.tags.rows()[j].0.written(),
            decreases n - i,
        {
            tags.push(self.tags.key_at(i).serialize());
            i += 1;
        }
        assert(string_views(tags@) =~= written_tags(self.tags.rows()));
        MetadataRecord { time_downloaded: self.time_downloaded, tags }
    }

    /// Where the notes of the mod in a directory are written, and how.
    pub fn save_in(&self, path: &str) -> (r: (String, MetadataRecord))
        ensures
            r.0@ == notes_path(path@),
            r.1@ == record_of(*self),
    {
        (join(path, DEFAULT_FILE_NAME), self.save())
    }
}

/// Where the notes of the mod in a directory are read.
pub fn read_in(path: &str) -> (r: String)
    ensures
        r@ == notes_path(path@),
{
    join(path, DEFAULT_FILE_NAME)
}

/// Where the notes of an item of the workshop are read.
pub fn read_metadata(id: u32, download_dir: &str) -> (r: String)
    ensures
        r@ == notes_path(item_path(download_dir@, id)),
{
    let directory = get_item_directory(download_dir, id);
    read_in(directory.as_str())
}

} // verus!
