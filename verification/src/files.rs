//! Where the files of mods are, what they hold and how they change.
use vstd::prelude::*;
use vstd::utf8::{decode_utf8, valid_utf8};

use crate::numbers::decimal;
use crate::paths::{
    equal_ignoring_case, file_name, join, path_components, path_is_absolute,
};
use crate::text::{chars_of, push_bytes, same_text};
use crate::xcom_mod::{ModId, ModMetadata};
#[allow(unused_imports)]
use crate::numbers::decimal_text;
#[allow(unused_imports)]
use crate::paths::{
    components_of, file_name_of, is_absolute, joined, lemma_relative_components,
    same_ignoring_case,
};
#[allow(unused_imports)]
use crate::text::texts;
#[allow(unused_imports)]
use crate::xcom_mod::ModIdModel;

pub mod laws;

verus! {

/// The number by which Steam knows the game.
pub const XCOM_APPID: u32 = 268500;

pub const KILO: u64 = 1024;

pub const MEGA: u64 = 1048576;

pub const GIGA: u64 = 1073741824;

/// The directory of all downloaded items.
pub open spec fn all_items_path(download_dir: Seq<char>) -> Seq<char> {
    joined(
        joined(joined(joined(download_dir, "steamapps"@), "workshop"@), "content"@),
        decimal_text(268500),
    )
}

/// The directory of a downloaded item.
pub open spec fn item_path(download_dir: Seq<char>, id: u32) -> Seq<char> {
    joined(all_items_path(download_dir), decimal_text(id as nat))
}

/// The directory of a mod.
pub open spec fn mod_path(download_dir: Seq<char>, id: ModIdModel) -> Seq<char> {
    match id {
        ModIdModel::Workshop(id) => item_path(download_dir, id),
        ModIdModel::Local(path) => path,
    }
}

pub fn get_all_items_directory(download_dir: &str) -> (r: String)
    ensures
        r@ == all_items_path(download_dir@),
{
    let a = join(download_dir, "steamapps");
    let b = join(a.as_str(), "workshop");
    let c = join(b.as_str(), "content");
    let id = decimal(XCOM_APPID as u64);
    join(c.as_str(), id.as_str())
}

pub fn get_item_directory(download_dir: &str, id: u32) -> (r: String)
    ensures
        r@ == item_path(download_dir@, id),
{
    let all = get_all_items_directory(download_dir);
    let number = decimal(id as u64);
    join(all.as_str(), number.as_str())
}

pub fn get_item_config_directory(download_dir: &str, id: u32) -> (r: String)
    ensures
        r@ == joined(item_path(download_dir@, id), "Config"@),
{
    let dir = get_item_directory(download_dir, id);
    join(dir.as_str(), "Config")
}

pub fn get_mod_directory(download_dir: &str, id: &ModId) -> (r: String)
    ensures
        r@ == mod_path(download_dir@, id@),
{
    match id {
        ModId::Workshop(id) => get_item_directory(download_dir, *id),
        ModId::Local(path) => path.clone(),
    }
}

pub fn get_mod_config_directory(download_dir: &str, id: &ModId) -> (r: String)
    ensures
        r@ == joined(mod_path(download_dir@, id@), "Config"@),
{
    let dir = get_mod_directory(download_dir, id);
    join(dir.as_str(), "Config")
}

/// The file in which Steam keeps what it knows of the downloaded items.
pub open spec fn manifest_path(download_dir: Seq<char>) -> Seq<char> {
    joined(download_dir, "steamapps/workshop/appworkshop_"@ + decimal_text(268500) + ".acf"@)
}

pub fn get_workshop_manifest_path(download_dir: &str) -> (r: String)
    ensures
        r@ == manifest_path(download_dir@),
{
    let id = decimal(XCOM_APPID as u64);
    let head = crate::text::join_two("steamapps/workshop/appworkshop_", id.as_str());
    let name = crate::text::join_two(head.as_str(), ".acf");
    join(download_dir, name.as_str())
}

/// Where an item lies while it is downloaded.
pub open spec fn downloading_path(download_dir: Seq<char>, id: u32) -> Seq<char> {
    joined(
        joined(
            joined(joined(joined(download_dir, "steamapps"@), "workshop"@), "downloads"@),
            decimal_text(268500),
        ),
        decimal_text(id as nat),
    )
}

pub fn get_item_downloading_directory(download_dir: &str, id: u32) -> (r: String)
    ensures
        r@ == downloading_path(download_dir@, id),
{
    let a = join(download_dir, "steamapps");
    let b = join(a.as_str(), "workshop");
    let c = join(b.as_str(), "downloads");
    let app = decimal(XCOM_APPID as u64);
    let d = join(c.as_str(), app.as_str());
    let number = decimal(id as u64);
    join(d.as_str(), number.as_str())
}

/// A size together with the unit in which it is shown.
#[derive(Debug, Clone, Copy, PartialEq, Eq, PartialOrd, Ord, Structural)]
pub enum SizeDisplay {
    Bytes(u64),
    Kibibytes(u64),
    Mebibytes(u64),
    Gibibytes(u64),
}

impl SizeDisplay {
    /// `size` in the greatest unit in which `reference` is at least one.
    pub open spec fn in_unit_of(size: u64, reference: u64) -> SizeDisplay {
        if reference >= GIGA {
            SizeDisplay::Gibibytes(size)
        } else if reference >= MEGA {
            SizeDisplay::Mebibytes(size)
        } else if reference >= KILO {
            SizeDisplay::Kibibytes(size)
        } else {
            SizeDisplay::Bytes(size)
        }
    }

    /// Automatically chooses the greatest unit that still
    /// displays as a whole number.
    pub fn automatic(size: u64) -> (r: Self)
        ensures
            r == SizeDisplay::in_unit_of(size, size),
    {
        SizeDisplay::automatic_from(size, size)
    }

    /// Automatically chooses the next greatest unit based on the given reference.
    pub fn automatic_from(size: u64, reference: u64) -> (r: Self)
        ensures
            r == SizeDisplay::in_unit_of(size, reference),
    {
        if reference < KILO {
            SizeDisplay::Bytes(size)
        } else if reference < MEGA {
            SizeDisplay::Kibibytes(size)
        } else if reference < GIGA {
            SizeDisplay::Mebibytes(size)
        } else {
            SizeDisplay::Gibibytes(size)
        }
    }

    pub fn suffix_short(&self) -> (r: &'static str)
        ensures
            r@ == match self {
                SizeDisplay::Bytes(_) => "B"@,
                SizeDisplay::Kibibytes(_) => "KiB"@,
                SizeDisplay::Mebibytes(_) => "MiB"@,
                SizeDisplay::Gibibytes(_) => "GiB"@,
            },
    {
        match self {
            SizeDisplay::Bytes(_) => "B",
            SizeDisplay::Kibibytes(_) => "KiB",
            SizeDisplay::Mebibytes(_) => "MiB",
            SizeDisplay::Gibibytes(_) => "GiB",
        }
    }
}

/// A size that is shown in the unit it picked for itself is at least one of that
/// unit, and less than one of the next.
pub proof fn automatic_unit_fits(size: u64)
    ensures
        match SizeDisplay::in_unit_of(size, size) {
            SizeDisplay::Bytes(n) => n == size && size < KILO,
            SizeDisplay::Kibibytes(n) => n == size && KILO <= size < MEGA,
            SizeDisplay::Mebibytes(n) => n == size && MEGA <= size < GIGA,
            SizeDisplay::Gibibytes(n) => n == size && GIGA <= size,
        },
{
}

/// An item that another one of the workshop asks for.
#[derive(Debug)]
pub struct ChildFile {
    pub published_file_id: String,
}

/// What the workshop says of an item.
#[derive(Debug)]
pub struct WorkshopDetails {
    pub published_file_id: String,
    pub title: String,
    /// Who made it.
    pub creator: u64,
    pub file_description: Option<String>,
    pub short_description: Option<String>,
    pub file_size: String,
    pub hcontent_file: Option<String>,
    pub preview_url: String,
    pub time_updated: u64,
    pub children: Vec<ChildFile>,
    pub tags: Vec<String>,
}

/// Whether the workshop says the same twice.
pub open spec fn same_details(a: WorkshopDetails, b: WorkshopDetails) -> bool {
    &&& a == (WorkshopDetails { children: a.children, tags: a.tags, ..b })
    &&& a.children@ == b.children@
    &&& a.tags@ == b.tags@
}

impl WorkshopDetails {
    /// The same once more.
    pub fn copy(&self) -> (r: Self)
        ensures
            same_details(r, *self),
    {
        let mut children: Vec<ChildFile> = Vec::new();
        let mut i: usize = 0;
        while i < self.children.len()
            invariant
                0 <= i <= self.children@.len(),
                children@ == self.children@.take(i as int),
            decreases self.children@.len() - i,
        {
            let published_file_id = self.children[i].published_file_id.clone();
            children.push(ChildFile { published_file_id });
            assert(children@ =~= self.children@.take(i + 1));
            i += 1;
        }
        assert(children@ =~= self.children@);
        let mut tags: Vec<String> = Vec::new();
        let mut k: usize = 0;
        while k < self.tags.len()
            invariant
                0 <= k <= self.tags@.len(),
                tags@ == self.tags@.take(k as int),
            decreases self.tags@.len() - k,
        {
            tags.push(self.tags[k].clone());
            assert(tags@ =~= self.tags@.take(k + 1));
            k += 1;
        }
        assert(tags@ =~= self.tags@);
        WorkshopDetails {
            published_file_id: self.published_file_id.clone(),
            title: self.title.clone(),
            creator: self.creator,
            file_description: copy_option(&self.file_description),
            short_description: copy_option(&self.short_description),
            file_size: self.file_size.clone(),
            hcontent_file: copy_option(&self.hcontent_file),
            preview_url: self.preview_url.clone(),
            time_updated: self.time_updated,
            children,
            tags,
        }
    }
}

fn copy_option(text: &Option<String>) -> (r: Option<String>)
    ensures
        r == *text,
{
    match text {
        Some(text) => Some(text.clone()),
        None => None,
    }
}

/// What is known of a mod.
#[derive(Debug)]
pub enum ModDetails {
    Workshop(WorkshopDetails),
    Local(ModMetadata),
}

impl ModDetails {
    pub open spec fn title_text(&self) -> Seq<char> {
        match self {
            ModDetails::Workshop(details) => details.title@,
            ModDetails::Local(details) => details.title@,
        }
    }

    pub fn title(&self) -> (r: &str)
        ensures
            r@ == self.title_text(),
    {
        match self {
            ModDetails::Workshop(details) => details.title.as_str(),
            ModDetails::Local(details) => details.title.as_str(),
        }
    }

    /// The items that the mod asks for. A local mod asks for none.
    pub fn children(&self) -> (r: &[ChildFile])
        ensures
            r@ == match self {
                ModDetails::Workshop(details) => details.children@,
                ModDetails::Local(_) => Seq::empty(),
            },
    {
        match self {
            ModDetails::Workshop(details) => details.children.as_slice(),
            ModDetails::Local(_) => &[],
        }
    }

    /// The tags of the mod. A local mod has none.
    pub fn tags(&self) -> (r: &[String])
        ensures
            r@ == match self {
                ModDetails::Workshop(details) => details.tags@,
                ModDetails::Local(_) => Seq::empty(),
            },
    {
        match self {
            ModDetails::Workshop(details) => details.tags.as_slice(),
            ModDetails::Local(_) => &[],
        }
    }

    pub fn maybe_workshop(self) -> (r: Option<WorkshopDetails>)
        ensures
            r == match self {
                ModDetails::Workshop(details) => Some(details),
                ModDetails::Local(_) => None,
            },
    {
        match self {
            ModDetails::Workshop(details) => Some(details),
            ModDetails::Local(_) => None,
        }
    }

    /// The longest description that is known.
    pub open spec fn description_text(&self) -> Seq<char> {
        match self {
            ModDetails::Workshop(details) => match details.file_description {
                Some(text) => text@,
                None => match details.short_description {
                    Some(text) => text@,
                    None => Seq::empty(),
                },
            },
            ModDetails::Local(details) => details.description@,
        }
    }

    pub fn get_description(&self) -> (r: String)
        ensures
            r@ == self.description_text(),
    {
        match self {
            ModDetails::Workshop(details) => match &details.file_description {
                Some(text) => text.clone(),
                None => match &details.short_description {
                    Some(text) => text.clone(),
                    None => String::new(),
                },
            },
            ModDetails::Local(details) => details.description.clone(),
        }
    }
}

/// The text that bytes stand for, with a replacement for what is no UTF-8.
pub uninterp spec fn lossy_text(bytes: Seq<u8>) -> Seq<char>;

/// `to_str_lossy` of [`bstr::ByteSlice`] gives the text that well-formed bytes
/// encode, and puts a replacement character in the place of each part that is not
/// well-formed. How it divides what is not well-formed is left unsaid.
#[verifier::external_body]
pub(crate) fn to_lossy_text(bytes: &[u8]) -> (r: String)
    ensures
        r@ == lossy_text(bytes@),
        valid_utf8(bytes@) ==> r@ == decode_utf8(bytes@),
{
    bstr::ByteSlice::to_str_lossy(bytes).into_owned()
}

/// What was seen to happen to a file.
#[derive(Debug)]
pub enum MonitorFileChange {
    /// The file has these contents from its beginning.
    Create(String),
    /// These contents came behind those that were seen before.
    Append(String),
}

#[verifier::ext_equal]
pub enum MonitorModel {
    Create(Seq<char>),
    Append(Seq<char>),
}

impl View for MonitorFileChange {
    type V = MonitorModel;

    open spec fn view(&self) -> MonitorModel {
        match self {
            MonitorFileChange::Create(text) => MonitorModel::Create(text@),
            MonitorFileChange::Append(text) => MonitorModel::Append(text@),
        }
    }
}

/// What a watch over a file that grows has seen of it.
pub struct FileMonitor {
    /// How many bytes were passed on.
    pub position: usize,
}

impl FileMonitor {
    /// The file was created and holds `contents`.
    pub fn created(&self, contents: &[u8]) -> (r: MonitorFileChange)
        ensures
            r@ == MonitorModel::Create(lossy_text(contents@)),
    {
        MonitorFileChange::Create(to_lossy_text(contents))
    }

    /// The file was written to, and holds `contents` behind the position.
    pub fn modified(&self, contents: &[u8]) -> (r: MonitorFileChange)
        ensures
            r@ == if self.position == 0 {
                MonitorModel::Create(lossy_text(contents@))
            } else {
                MonitorModel::Append(lossy_text(contents@))
            },
    {
        let text = to_lossy_text(contents);
        if self.position == 0 {
            MonitorFileChange::Create(text)
        } else {
            MonitorFileChange::Append(text)
        }
    }

    /// A change of `len` bytes was passed on, if it could be.
    pub fn passed_on(&mut self, sent: bool, len: usize)
        requires
            old(self).position + len <= usize::MAX,
        ensures
            final(self).position == if sent {
                old(self).position + len
            } else {
                old(self).position as int
            },
    {
        if sent {
            self.position = self.position + len;
        }
    }
}

/// A watch over the file at a path.
#[derive(Debug)]
pub struct WatcherRecipe(pub String);

/// The first component that is `name` but for the case of ASCII letters.
pub open spec fn first_match(components: Seq<Seq<char>>, name: Seq<char>, from: int) -> Option<int>
    decreases components.len() - from,
{
    if from < 0 || from >= components.len() {
        None
    } else if same_ignoring_case(components[from], name) {
        Some(from)
    } else {
        first_match(components, name, from + 1)
    }
}

/// What of a path lies behind the first component that is `name`. Where no
/// component is, nothing does.
pub open spec fn behind_match(components: Seq<Seq<char>>, name: Seq<char>) -> Seq<Seq<char>> {
    match first_match(components, name, 0) {
        Some(i) => components.skip(i + 1),
        None => Seq::empty(),
    }
}

/// Whether a path ends in `names` from the first component on that is the first
/// name.
pub open spec fn ends_in_names(components: Seq<Seq<char>>, names: Seq<Seq<char>>) -> bool {
    let rest = behind_match(components, names[0]);
    &&& rest.len() + 1 == names.len()
    &&& forall|k: int|
        0 <= k < rest.len() ==> same_ignoring_case(#[trigger] rest[k], names[k + 1])
}

/// Whether directories can be looked for under `names`: they are those of a relative
/// path whose last component names something.
pub open spec fn can_be_searched(names: Seq<Seq<char>>) -> bool {
    &&& names.len() > 0
    &&& names[0] != seq!['/']
    &&& names.last() != seq!['.']
    &&& names.last() != seq!['.', '.']
}

/// Whether a path is one that directories can be looked for under: it is not absolute,
/// and names something.
pub open spec fn is_searchable(names: Seq<char>) -> bool {
    !is_absolute(names) && file_name_of(names) is Some
}

/// Whether a path is one that directories can be looked for under.
pub fn names_directories(names: &str) -> (r: bool)
    ensures
        r == is_searchable(names@),
{
    !path_is_absolute(names) && file_name(names).is_some()
}

/// The names that directories are looked for under.
pub fn find_directories_matching(names: &str) -> (r: Vec<Vec<char>>)
    requires
        is_searchable(names@),
    ensures
        texts(r@) == components_of(names@),
        can_be_searched(texts(r@)),
{
    proof {
        lemma_relative_components(names@);
    }
    path_components(names)
}

/// Whether the directory with these components is one that is looked for under
/// `names`.
pub fn directory_matches(components: &Vec<Vec<char>>, names: &Vec<Vec<char>>) -> (r: bool)
    requires
        can_be_searched(texts(names@)),
    ensures
        r == ends_in_names(texts(components@), texts(names@)),
{
    let ghost comps = texts(components@);
    let ghost wanted = texts(names@);
    let total: usize = components.len();
    let mut at: usize = 0;
    while at < total && !equal_ignoring_case(components[at].as_slice(), names[0].as_slice())
        invariant
            0 <= at <= total,
            total == components@.len(),
            names@.len() > 0,
            comps == texts(components@),
            wanted == texts(names@),
            first_match(comps, wanted[0], 0) == first_match(comps, wanted[0], at as int),
        decreases total - at,
    {
        at += 1;
    }
    let start: usize = if at < total {
        at + 1
    } else {
        total
    };
    let ghost rest = behind_match(comps, wanted[0]);
    proof {
        if at < total {
            assert(comps[at as int] == components@[at as int]@);
            assert(wanted[0] == names@[0]@);
            assert(rest =~= comps.skip(start as int));
        } else {
            assert(rest =~= comps.skip(start as int));
        }
    }
    if total - start != names.len() - 1 {
        return false;
    }
    let mut k: usize = 0;
    while k < total - start
        invariant
            0 <= k <= total - start,
            start <= total,
            total == components@.len(),
            total - start == names@.len() - 1,
            comps == texts(components@),
            wanted == texts(names@),
            names@.len() > 0,
            rest == comps.skip(start as int),
            rest == behind_match(comps, wanted[0]),
            forall|j: int| 0 <= j < k ==> same_ignoring_case(#[trigger] rest[j], wanted[j + 1]),
        decreases total - start - k,
    {
        assert(rest[k as int] == components@[start + k]@);
        assert(wanted[k + 1] == names@[k + 1]@);
        if !equal_ignoring_case(components[start + k].as_slice(), names[k + 1].as_slice()) {
            assert(!same_ignoring_case(rest[k as int], wanted[k + 1]));
            return false;
        }
        k += 1;
    }
    true
}

/// Whether a directory is passed over in the search, with all below it.
pub fn is_hidden(name: &str) -> (r: bool)
    ensures
        r == (name@.len() > 0 && name@[0] == '.'),
{
    let s = chars_of(name);
    s.len() > 0 && s[0] == '.'
}

/// The BLAKE3 hash of bytes in lower case hexadecimal.
pub uninterp spec fn blake3_hex(bytes: Seq<u8>) -> Seq<char>;

/// [`blake3::hash`] and `to_hex` of what it returns: 64 digits of lower case
/// hexadecimal. Which digits is left unsaid.
#[verifier::external_body]
fn hash_hex(bytes: &[u8]) -> (r: String)
    ensures
        r@ == blake3_hex(bytes@),
        r@.len() == 64,
        forall|i: int|
            0 <= i < r@.len() ==> ('0' <= #[trigger] r@[i] <= '9' || 'a' <= r@[i] <= 'f'),
{
    blake3::hash(bytes).to_hex().as_str().to_owned()
}

/// What is hashed before anything else.
pub open spec fn hash_prefix() -> Seq<u8> {
    seq![76, 88, 67, 79, 77, 77]
}

/// A hash of `source` that is this program's own.
pub fn gen_hash(source: &[u8]) -> (r: String)
    ensures
        r@ == blake3_hex(hash_prefix() + source@),
        r@.len() == 64,
{
    let mut all: Vec<u8> = vec![76, 88, 67, 79, 77, 77];
    assert(all@ =~= hash_prefix());
    push_bytes(&mut all, source);
    hash_hex(all.as_slice())
}

/// The first `len` bytes, with zeros where there are fewer.
pub open spec fn padded_front(bytes: Seq<u8>, len: nat) -> Seq<u8> {
    Seq::new(
        len,
        |i: int|
            if i < bytes.len() {
                bytes[i]
            } else {
                0
            },
    )
}

/// A hash of the first `up_to` bytes of a file.
pub fn gen_partial_hash(contents: &[u8], up_to: usize) -> (r: String)
    ensures
        r@ == blake3_hex(hash_prefix() + padded_front(contents@, up_to as nat)),
{
    let mut buffer: Vec<u8> = Vec::new();
    let mut i: usize = 0;
    while i < up_to
        invariant
            0 <= i <= up_to,
            buffer@ == padded_front(contents@, i as nat),
        decreases up_to - i,
    {
        if i < contents.len() {
            buffer.push(contents[i]);
        } else {
            buffer.push(0);
        }
        i += 1;
        assert(buffer@ =~= padded_front(contents@, i as nat));
    }
    gen_hash(buffer.as_slice())
}

/// A file as it is compared with another one.
#[derive(Debug)]
pub struct FileFacts {
    pub name: String,
    pub len: u64,
    pub is_file: bool,
    pub contents: Vec<u8>,
}

/// Whether two files have the same name, size and kind, and contents of the same
/// hash.
pub open spec fn same_file(a: FileFacts, b: FileFacts) -> bool {
    &&& a.name@ == b.name@
    &&& a.len == b.len
    &&& a.is_file == b.is_file
    &&& blake3_hex(a.contents@) == blake3_hex(b.contents@)
}

/// Checks if two files have the filename and contents.
pub fn file_exact_eq(a: &FileFacts, b: &FileFacts) -> (r: bool)
    ensures
        r == same_file(*a, *b),
{
    if !same_text(a.name.as_str(), b.name.as_str()) {
        return false;
    }
    if a.len != b.len {
        return false;
    }
    if a.is_file != b.is_file {
        return false;
    }
    let x = hash_hex(a.contents.as_slice());
    let y = hash_hex(b.contents.as_slice());
    same_text(x.as_str(), y.as_str())
}

/// What a walk over a directory came by, in the order of names.
#[derive(Debug)]
pub struct WalkFacts {
    pub depth: usize,
    /// The path below the directory.
    pub path: String,
    pub file: FileFacts,
}

pub open spec fn same_walk_entry(a: WalkFacts, b: WalkFacts) -> bool {
    &&& a.depth == b.depth
    &&& a.file.name@ == b.file.name@
    &&& a.path@ == b.path@
    &&& a.file.is_file == b.file.is_file
    &&& a.file.is_file ==> same_file(a.file, b.file)
}

/// Whether two directories hold the same files and directories. Each is given as
/// what a walk over it came by, without the directory itself.
pub fn dir_exact_eq(a: &Vec<WalkFacts>, b: &Vec<WalkFacts>) -> (r: bool)
    ensures
        r == (a@.len() == b@.len() && forall|i: int|
            0 <= i < a@.len() ==> same_walk_entry(#[trigger] a@[i], b@[i])),
{
    let n: usize = if a.len() < b.len() {
        a.len()
    } else {
        b.len()
    };
    let mut i: usize = 0;
    while i < n
        invariant
            0 <= i <= n,
            n <= a@.len(),
            n <= b@.len(),
            forall|k: int| 0 <= k < i ==> same_walk_entry(#[trigger] a@[k], b@[k]),
        decreases n - i,
    {
        let x = &a[i];
        let y = &b[i];
        let same = x.depth == y.depth && same_text(x.file.name.as_str(), y.file.name.as_str())
            && same_text(x.path.as_str(), y.path.as_str()) && x.file.is_file == y.file.is_file && (
        !x.file.is_file || file_exact_eq(&x.file, &y.file));
        if !same {
            assert(!same_walk_entry(a@[i as int], b@[i as int]));
            return false;
        }
        i += 1;
    }
    a.len() == b.len()
}

/// Why files or directories cannot be linked or moved.
#[derive(Debug, Clone, Copy, PartialEq, Eq, Structural)]
pub enum LinkError {
    /// What is to be linked as a file is none.
    NotAFile,
    /// What is to be linked as a directory is none.
    NotADirectory,
    /// What is to be moved is not a directory.
    FromNotADirectory,
    /// What is moved to is there and not a directory.
    ToNotADirectory,
}

/// Errors if `from` is not a file.
pub fn link_files(from_is_file: bool) -> (r: Result<(), LinkError>)
    ensures
        r == if from_is_file {
            Ok::<(), LinkError>(())
        } else {
            Err(LinkError::NotAFile)
        },
{
    if from_is_file {
        Ok(())
    } else {
        Err(LinkError::NotAFile)
    }
}

/// Errors if `from` is not a directory.
pub fn link_dirs(from_is_dir: bool) -> (r: Result<(), LinkError>)
    ensures
        r == if from_is_dir {
            Ok::<(), LinkError>(())
        } else {
            Err(LinkError::NotADirectory)
        },
{
    if from_is_dir {
        Ok(())
    } else {
        Err(LinkError::NotADirectory)
    }
}

/// Errors if `from` is not a directory or `to` exists and is not a directory.
pub fn move_dirs(from_is_dir: bool, to_exists: bool, to_is_dir: bool) -> (r: Result<(), LinkError>)
    ensures
        r == if !from_is_dir {
            Err::<(), LinkError>(LinkError::FromNotADirectory)
        } else if to_exists && !to_is_dir {
            Err(LinkError::ToNotADirectory)
        } else {
            Ok(())
        },
{
    if !from_is_dir {
        return Err(LinkError::FromNotADirectory);
    }
    if to_exists && !to_is_dir {
        return Err(LinkError::ToNotADirectory);
    }
    Ok(())
}

/// Files that hold the same bytes under the same name compare as equal.
pub proof fn same_contents_compare_equal(a: FileFacts, b: FileFacts)
    requires
        a.name@ == b.name@,
        a.len == b.len,
        a.is_file == b.is_file,
        a.contents@ == b.contents@,
    ensures
        same_file(a, b),
{
}

} // verus!
