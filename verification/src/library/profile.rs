//! Profiles: selections of mods that are played together.
use vstd::prelude::*;

use super::missing::{parse_child, push_not_provided, put_in_brackets, ModIndex};
use super::{Library, LibraryItemSettings};
use crate::files::ChildFile;
use crate::numbers::decimal;
use crate::table::{chars_before, sort_keys, Table, TableKey};
use crate::text::{chars_of, same_text};
use crate::xcom_mod::{ModCompatibility, ModId, ModMetadata};
#[allow(unused_imports)]
use super::missing::{child_number, not_provided, with_brackets};
#[allow(unused_imports)]
use super::row_keys;
#[allow(unused_imports)]
use crate::extensions::string_views;
#[allow(unused_imports)]
use crate::numbers::decimal_text;
#[allow(unused_imports)]
use crate::table::{in_order, models, text_before, text_order_is_total};
#[allow(unused_imports)]
use crate::xcom_mod::ModIdModel;

verus! {

/// Why a mod of a profile may not work.
#[derive(Debug)]
pub enum CompatibilityIssue {
    /// Missing an item listed as a requirement by the Workshop page
    MissingWorkshop(u32, String),
    /// Missing an item listed as a requirement by their XComGame.ini
    MissingRequired(String),
    /// Conflicts with a mod listed by their XComGame.ini
    Incompatible(String),
    /// Provides the same DLCName(s)
    Overlapping(String, Vec<String>),
    /// The mod is missing its data
    Unknown,
}

#[verifier::ext_equal]
pub enum IssueModel {
    MissingWorkshop(u32, Seq<char>),
    MissingRequired(Seq<char>),
    Incompatible(Seq<char>),
    Overlapping(Seq<char>, Seq<Seq<char>>),
    Unknown,
}

impl View for CompatibilityIssue {
    type V = IssueModel;

    open spec fn view(&self) -> IssueModel {
        match self {
            CompatibilityIssue::MissingWorkshop(id, text) => IssueModel::MissingWorkshop(
                *id,
                text@,
            ),
            CompatibilityIssue::MissingRequired(name) => IssueModel::MissingRequired(name@),
            CompatibilityIssue::Incompatible(name) => IssueModel::Incompatible(name@),
            CompatibilityIssue::Overlapping(name, names) => IssueModel::Overlapping(
                name@,
                string_views(names@),
            ),
            CompatibilityIssue::Unknown => IssueModel::Unknown,
        }
    }
}

/// Whether a row of texts comes before another one.
pub open spec fn texts_before(a: Seq<Seq<char>>, b: Seq<Seq<char>>) -> bool
    decreases a.len(),
{
    if b.len() == 0 {
        false
    } else if a.len() == 0 {
        true
    } else if a[0] != b[0] {
        text_before(a[0], b[0])
    } else {
        texts_before(a.skip(1), b.skip(1))
    }
}

pub proof fn texts_order_is_total(a: Seq<Seq<char>>, b: Seq<Seq<char>>, c: Seq<Seq<char>>)
    ensures
        !texts_before(a, a),
        texts_before(a, b) && texts_before(b, c) ==> texts_before(a, c),
        a != b ==> texts_before(a, b) || texts_before(b, a),
    decreases a.len() + b.len() + c.len(),
{
    if a.len() > 0 {
        if b.len() > 0 && c.len() > 0 {
            texts_order_is_total(a.skip(1), b.skip(1), c.skip(1));
            text_order_is_total(a[0], b[0], c[0]);
            text_order_is_total(b[0], a[0], b[0]);
            if a[0] == b[0] && a.skip(1) == b.skip(1) {
                assert(a =~= seq![a[0]] + a.skip(1));
                assert(b =~= seq![b[0]] + b.skip(1));
            }
        } else if b.len() > 0 {
            texts_order_is_total(a.skip(1), b.skip(1), c);
            text_order_is_total(a[0], b[0], a[0]);
            if a[0] == b[0] && a.skip(1) == b.skip(1) {
                assert(a =~= seq![a[0]] + a.skip(1));
                assert(b =~= seq![b[0]] + b.skip(1));
            }
        } else {
            texts_order_is_total(a.skip(1), b, c);
        }
    } else if b.len() == 0 {
        assert(a =~= b);
    }
}

fn strings_before(a: &Vec<String>, b: &Vec<String>) -> (r: bool)
    ensures
        r == texts_before(string_views(a@), string_views(b@)),
{
    let ghost x = string_views(a@);
    let ghost y = string_views(b@);
    let mut i: usize = 0;
    assert(x.skip(0) =~= x && y.skip(0) =~= y);
    loop
        invariant
            i <= a@.len(),
            i <= b@.len(),
            x == string_views(a@),
            y == string_views(b@),
            texts_before(x, y) == texts_before(x.skip(i as int), y.skip(i as int)),
        decreases a@.len() - i,
    {
        if i >= b.len() {
            return false;
        }
        if i >= a.len() {
            return true;
        }
        assert(x.skip(i as int)[0] == a@[i as int]@);
        assert(y.skip(i as int)[0] == b@[i as int]@);
        if !same_text(a[i].as_str(), b[i].as_str()) {
            return string_before(a[i].as_str(), b[i].as_str());
        }
        assert(x.skip(i as int).skip(1) =~= x.skip(i + 1));
        assert(y.skip(i as int).skip(1) =~= y.skip(i + 1));
        i += 1;
    }
}

fn string_before(a: &str, b: &str) -> (r: bool)
    ensures
        r == text_before(a@, b@),
{
    let x = chars_of(a);
    let y = chars_of(b);
    chars_before(x.as_slice(), y.as_slice())
}

/// The place of an issue's kind among all kinds.
pub open spec fn issue_rank(issue: IssueModel) -> int {
    match issue {
        IssueModel::MissingWorkshop(_, _) => 0,
        IssueModel::MissingRequired(_) => 1,
        IssueModel::Incompatible(_) => 2,
        IssueModel::Overlapping(_, _) => 3,
        IssueModel::Unknown => 4,
    }
}

/// Whether an issue comes before another one: by its kind, then by what it says.
pub open spec fn issue_before(a: IssueModel, b: IssueModel) -> bool {
    if issue_rank(a) != issue_rank(b) {
        issue_rank(a) < issue_rank(b)
    } else {
        match (a, b) {
            (IssueModel::MissingWorkshop(i, x), IssueModel::MissingWorkshop(j, y)) => i < j || (i
                == j && text_before(x, y)),
            (IssueModel::MissingRequired(x), IssueModel::MissingRequired(y)) => text_before(x, y),
            (IssueModel::Incompatible(x), IssueModel::Incompatible(y)) => text_before(x, y),
            (IssueModel::Overlapping(x, p), IssueModel::Overlapping(y, q)) => text_before(x, y) || (
            x == y && texts_before(p, q)),
            _ => false,
        }
    }
}

spec fn issue_text(issue: IssueModel) -> Seq<char> {
    match issue {
        IssueModel::MissingWorkshop(_, x) => x,
        IssueModel::MissingRequired(x) => x,
        IssueModel::Incompatible(x) => x,
        IssueModel::Overlapping(x, _) => x,
        IssueModel::Unknown => Seq::empty(),
    }
}

spec fn issue_list(issue: IssueModel) -> Seq<Seq<char>> {
    match issue {
        IssueModel::Overlapping(_, p) => p,
        _ => Seq::empty(),
    }
}

fn rank_of(issue: &CompatibilityIssue) -> (r: u8)
    ensures
        r == issue_rank(issue@),
{
    match issue {
        CompatibilityIssue::MissingWorkshop(_, _) => 0,
        CompatibilityIssue::MissingRequired(_) => 1,
        CompatibilityIssue::Incompatible(_) => 2,
        CompatibilityIssue::Overlapping(_, _) => 3,
        CompatibilityIssue::Unknown => 4,
    }
}

fn copy_strings(s: &Vec<String>) -> (r: Vec<String>)
    ensures
        string_views(r@) == string_views(s@),
{
    let mut out: Vec<String> = Vec::new();
    let mut i: usize = 0;
    while i < s.len()
        invariant
            0 <= i <= s@.len(),
            out@.len() == i,
            forall|k: int| 0 <= k < i ==> (#[trigger] out@[k])@ == s@[k]@,
        decreases s@.len() - i,
    {
        out.push(s[i].clone());
        i += 1;
    }
    assert(string_views(out@) =~= string_views(s@));
    out
}

impl TableKey for CompatibilityIssue {
    type Model = IssueModel;

    open spec fn model(&self) -> IssueModel {
        self@
    }

    open spec fn before(a: IssueModel, b: IssueModel) -> bool {
        issue_before(a, b)
    }

    proof fn order_is_total(a: IssueModel, b: IssueModel, c: IssueModel) {
        text_order_is_total(issue_text(a), issue_text(b), issue_text(c));
        text_order_is_total(issue_text(b), issue_text(a), issue_text(b));
        text_order_is_total(issue_text(a), issue_text(c), issue_text(a));
        texts_order_is_total(issue_list(a), issue_list(b), issue_list(c));
    }

    fn comes_before(&self, other: &Self) -> (r: bool) {
        let i = rank_of(self);
        let j = rank_of(other);
        if i != j {
            return i < j;
        }
        match (self, other) {
            (
                CompatibilityIssue::MissingWorkshop(m, x),
                CompatibilityIssue::MissingWorkshop(n, y),
            ) => *m < *n || (*m == *n && string_before(x.as_str(), y.as_str())),
            (CompatibilityIssue::MissingRequired(x), CompatibilityIssue::MissingRequired(y)) => {
                string_before(x.as_str(), y.as_str())
            },
            (CompatibilityIssue::Incompatible(x), CompatibilityIssue::Incompatible(y)) => {
                string_before(x.as_str(), y.as_str())
            },
            (CompatibilityIssue::Overlapping(x, p), CompatibilityIssue::Overlapping(y, q)) => {
                string_before(x.as_str(), y.as_str()) || (same_text(x.as_str(), y.as_str())
                    && strings_before(p, q))
            },
            _ => false,
        }
    }

    fn copy_key(&self) -> (r: Self) {
        match self {
            CompatibilityIssue::MissingWorkshop(id, text) => CompatibilityIssue::MissingWorkshop(
                *id,
                text.clone(),
            ),
            CompatibilityIssue::MissingRequired(name) => CompatibilityIssue::MissingRequired(
                name.clone(),
            ),
            CompatibilityIssue::Incompatible(name) => CompatibilityIssue::Incompatible(
                name.clone(),
            ),
            CompatibilityIssue::Overlapping(name, names) => CompatibilityIssue::Overlapping(
                name.clone(),
                copy_strings(names),
            ),
            CompatibilityIssue::Unknown => CompatibilityIssue::Unknown,
        }
    }
}

/// When snapshots of a profile are made without being asked for, and how many are
/// kept.
#[derive(Debug, Clone, Copy, PartialEq, Eq, Structural)]
pub struct ProfileSettings {
    pub automatic_snapshot_on_apply: bool,
    pub automatic_snapshot_on_launch: bool,
    /// Whether a snapshot holds what changed since the one before it.
    pub automatic_snapshot_incremental: bool,
    /// How many snapshots are kept. Zero stands for any number.
    pub automatic_snapshot_number_limit: u32,
    /// How many bytes of snapshots are kept. Zero stands for any number.
    pub automatic_snapshot_size_limit: u32,
}

/// A selection of mods that are played together.
pub struct Profile {
    pub id: usize,
    pub name: String,
    pub items: Table<ModId, LibraryItemSettings>,
    pub compatibility_issues: Table<ModId, Vec<CompatibilityIssue>>,
    pub add_selected: bool,
    pub view_selected_item: Option<ModId>,
    pub settings: ProfileSettings,
    pub settings_editing: ProfileSettings,
}

/// What mods say, in order.
pub open spec fn id_models(ids: Seq<ModId>) -> Seq<ModIdModel> {
    Seq::new(ids.len(), |i: int| ids[i]@)
}

/// The keys that are not in a set, in order.
pub open spec fn keys_outside(keys: Seq<ModIdModel>, known: Set<ModIdModel>) -> Seq<ModIdModel>
    decreases keys.len(),
{
    if keys.len() == 0 {
        Seq::empty()
    } else {
        let front = keys_outside(keys.drop_last(), known);
        if known.contains(keys.last()) {
            front
        } else {
            front.push(keys.last())
        }
    }
}

/// The names that are provided, in order.
pub open spec fn also_provided(names: Seq<Seq<char>>, provided: Set<Seq<char>>) -> Seq<Seq<char>>
    decreases names.len(),
{
    if names.len() == 0 {
        Seq::empty()
    } else {
        let front = also_provided(names.drop_last(), provided);
        if provided.contains(names.last()) {
            front.push(names.last())
        } else {
            front
        }
    }
}

/// How a mod is named in an issue: by the title and the number in its own file.
pub open spec fn metadata_text(data: ModMetadata) -> Seq<char> {
    with_brackets(data.title@, decimal_text(data.published_file_id as nat))
}

/// The issue that a mod has with another one of its profile, if any.
pub open spec fn overlap_with(
    library: Library,
    index: ModIndex,
    id: ModIdModel,
    other: ModIdModel,
) -> Option<IssueModel> {
    let metadata = index.metadata@;
    let compat = library.compatibility@;
    if id == other {
        None
    } else if metadata.dom().contains(other) && metadata[id].dlc_name@
        == metadata[other].dlc_name@ {
        Some(
            IssueModel::Overlapping(
                metadata_text(metadata[other]),
                seq![metadata[other].dlc_name@],
            ),
        )
    } else if compat.dom().contains(other) {
        let common = also_provided(
            row_keys(compat[other].ignore_required.rows()),
            compat[id].ignore_required@.dom(),
        );
        if common.len() == 0 {
            None
        } else {
            Some(
                IssueModel::Overlapping(
                    if metadata.dom().contains(other) {
                        metadata_text(metadata[other])
                    } else {
                        with_brackets("UNKNOWN"@, other.text())
                    },
                    common,
                ),
            )
        }
    } else {
        None
    }
}

/// The issues that a mod has with others of its profile, in order.
pub open spec fn overlaps(
    library: Library,
    index: ModIndex,
    id: ModIdModel,
    others: Seq<ModIdModel>,
) -> Seq<IssueModel>
    decreases others.len(),
{
    if others.len() == 0 {
        Seq::empty()
    } else {
        let front = overlaps(library, index, id, others.drop_last());
        match overlap_with(library, index, id, others.last()) {
            Some(issue) => front.push(issue),
            None => front,
        }
    }
}

/// The issues of items that a page asks for and that are neither in the profile
/// nor provided, in order.
pub open spec fn missing_items_of(
    index: ModIndex,
    children: Seq<ChildFile>,
    items: Set<ModIdModel>,
    provided: Set<Seq<char>>,
) -> Seq<IssueModel>
    decreases children.len(),
{
    if children.len() == 0 {
        Seq::empty()
    } else {
        let front = missing_items_of(index, children.drop_last(), items, provided);
        let child = children.last();
        match child_number(child) {
            Some(n) => {
                let id = ModIdModel::Workshop(n as u32);
                if items.contains(id) || index.is_provided(id, provided) {
                    front
                } else {
                    front.push(
                        IssueModel::MissingWorkshop(
                            n as u32,
                            with_brackets(child.published_file_id@, index.title_or_unknown(id)),
                        ),
                    )
                }
            },
            None => front,
        }
    }
}

/// The issues that a mod of a profile has, before they are sorted.
pub open spec fn issues_for(
    library: Library,
    index: ModIndex,
    items: Seq<ModIdModel>,
    id: ModIdModel,
    provided: Set<Seq<char>>,
) -> Seq<IssueModel> {
    if library.compatibility@.dom().contains(id) {
        let compat = library.compatibility@[id];
        let required = not_provided(row_keys(compat.required.rows()), provided);
        let clashing = also_provided(row_keys(compat.incompatible.rows()), provided);
        let a = Seq::new(required.len(), |i: int| IssueModel::MissingRequired(required[i]));
        let b = Seq::new(clashing.len(), |i: int| IssueModel::Incompatible(clashing[i]));
        let c = if index.metadata@.dom().contains(id) {
            overlaps(library, index, id, items)
        } else {
            Seq::empty()
        };
        let d = missing_items_of(index, index.children_of(id), items.to_set(), provided);
        a + b + c + d
    } else {
        seq![IssueModel::Unknown]
    }
}

/// What the issues say.
pub open spec fn issue_models(issues: Seq<CompatibilityIssue>) -> Seq<IssueModel> {
    Seq::new(issues.len(), |i: int| issues[i]@)
}

/// Whether `sorted` holds the issues of `all` in order.
pub open spec fn is_sorted_issues(sorted: Seq<IssueModel>, all: Seq<IssueModel>) -> bool {
    &&& in_order::<CompatibilityIssue>(sorted)
    &&& sorted.to_multiset() == all.to_multiset()
}

fn push_also_provided(
    out: &mut Vec<String>,
    names: &Table<String, ()>,
    provided: &Table<String, ()>,
)
    ensures
        string_views(final(out)@) == string_views(old(out)@) + also_provided(
            row_keys(names.rows()),
            provided@.dom(),
        ),
{
    let ghost start = string_views(out@);
    let ghost keys = row_keys(names.rows());
    let n = names.len();
    let mut i: usize = 0;
    assert(start + also_provided(keys.take(0), provided@.dom()) =~= start);
    while i < n
        invariant
            0 <= i <= n,
            n == names.rows().len(),
            keys == row_keys(names.rows()),
            string_views(out@) == start + also_provided(keys.take(i as int), provided@.dom()),
        decreases n - i,
    {
        let name = names.key_at(i);
        let ghost before = string_views(out@);
        proof {
            assert(keys.take(i + 1).drop_last() =~= keys.take(i as int));
            assert(keys.take(i + 1).last() == name@);
        }
        if provided.contains(name) {
            out.push(name.clone());
            proof {
                assert(string_views(out@) =~= before.push(name@));
                assert(start + also_provided(keys.take(i as int), provided@.dom()).push(name@)
                    =~= before.push(name@));
            }
        }
        i += 1;
    }
    assert(keys.take(i as int) =~= keys);
}

fn name_of_metadata(data: &ModMetadata) -> (r: String)
    ensures
        r@ == metadata_text(*data),
{
    let digits = decimal(data.published_file_id as u64);
    put_in_brackets(data.title.as_str(), digits.as_str())
}

/// The issue that a mod has with another one, if any.
fn find_overlap(
    library: &Library,
    index: &ModIndex,
    id: &ModId,
    data: &ModMetadata,
    compat: &ModCompatibility,
    other: &ModId,
) -> (r: Option<CompatibilityIssue>)
    requires
        index.metadata@.dom().contains(id@),
        *data == index.metadata@[id@],
        library.compatibility@.dom().contains(id@),
        *compat == library.compatibility@[id@],
    ensures
        match r {
            Some(issue) => overlap_with(*library, *index, id@, other@) == Some(issue@),
            None => overlap_with(*library, *index, id@, other@) is None,
        },
{
    if id.is(other) {
        return None;
    }
    let name: String = match index.metadata.get(other) {
        Some(theirs) => {
            let text = name_of_metadata(theirs);
            if same_text(data.dlc_name.as_str(), theirs.dlc_name.as_str()) {
                let names = vec![theirs.dlc_name.clone()];
                assert(string_views(names@) =~= seq![theirs.dlc_name@]);
                return Some(CompatibilityIssue::Overlapping(text, names));
            }
            text
        },
        None => {
            let text = other.text();
            put_in_brackets("UNKNOWN", text.as_str())
        },
    };
    match library.compatibility.get(other) {
        Some(theirs) => {
            let mut common: Vec<String> = Vec::new();
            push_also_provided(&mut common, &theirs.ignore_required, &compat.ignore_required);
            assert(string_views(common@) =~= also_provided(
                row_keys(theirs.ignore_required.rows()),
                compat.ignore_required@.dom(),
            ));
            if common.len() == 0 {
                None
            } else {
                Some(CompatibilityIssue::Overlapping(name, common))
            }
        },
        None => None,
    }
}

fn push_missing_items(
    out: &mut Vec<CompatibilityIssue>,
    index: &ModIndex,
    children: &[ChildFile],
    items: &Table<ModId, LibraryItemSettings>,
    provided: &Table<String, ()>,
)
    ensures
        issue_models(final(out)@) == issue_models(old(out)@) + missing_items_of(
            *index,
            children@,
            items@.dom(),
            provided@.dom(),
        ),
{
    let ghost start = issue_models(out@);
    let ghost names = provided@.dom();
    let ghost known = items@.dom();
    let mut i: usize = 0;
    assert(start + missing_items_of(*index, children@.take(0), known, names) =~= start);
    while i < children.len()
        invariant
            0 <= i <= children@.len(),
            names == provided@.dom(),
            known == items@.dom(),
            issue_models(out@) == start + missing_items_of(
                *index,
                children@.take(i as int),
                known,
                names,
            ),
        decreases children@.len() - i,
    {
        let child = &children[i];
        let ghost before = issue_models(out@);
        let ghost front = missing_items_of(*index, children@.take(i as int), known, names);
        proof {
            assert(children@.take(i + 1).drop_last() =~= children@.take(i as int));
            assert(children@.take(i + 1).last() == *child);
        }
        if let Some(number) = parse_child(child) {
            let id = ModId::Workshop(number);
            if !items.contains(&id) && !index.check_provided(&id, provided) {
                let title: String = match index.details.get(&id) {
                    Some(details) => details.title().to_owned(),
                    None => "UNKNOWN".to_owned(),
                };
                let text = put_in_brackets(child.published_file_id.as_str(), title.as_str());
                let issue = CompatibilityIssue::MissingWorkshop(number, text);
                let ghost view = issue@;
                out.push(issue);
                proof {
                    assert(issue_models(out@) =~= before.push(view));
                    assert(start + front.push(view) =~= before.push(view));
                }
            }
        }
        i += 1;
    }
    assert(children@.take(i as int) =~= children@);
}

fn push_overlaps(
    out: &mut Vec<CompatibilityIssue>,
    library: &Library,
    index: &ModIndex,
    id: &ModId,
    items: &Table<ModId, LibraryItemSettings>,
)
    requires
        library.compatibility@.dom().contains(id@),
    ensures
        issue_models(final(out)@) == issue_models(old(out)@) + if index.metadata@.dom().contains(
            id@,
        ) {
            overlaps(*library, *index, id@, row_keys(items.rows()))
        } else {
            Seq::empty()
        },
{
    let ghost start = issue_models(out@);
    let data = match index.metadata.get(id) {
        None => {
            assert(start + Seq::<IssueModel>::empty() =~= start);
            return ;
        },
        Some(data) => data,
    };
    let compat = library.compatibility.get(id).unwrap();
    let ghost keys = row_keys(items.rows());
    let n = items.len();
    let mut i: usize = 0;
    assert(start + overlaps(*library, *index, id@, keys.take(0)) =~= start);
    while i < n
        invariant
            0 <= i <= n,
            n == items.rows().len(),
            keys == row_keys(items.rows()),
            index.metadata@.dom().contains(id@),
            *data == index.metadata@[id@],
            library.compatibility@.dom().contains(id@),
            *compat == library.compatibility@[id@],
            issue_models(out@) == start + overlaps(*library, *index, id@, keys.take(i as int)),
        decreases n - i,
    {
        let other = items.key_at(i);
        let ghost before = issue_models(out@);
        let ghost front = overlaps(*library, *index, id@, keys.take(i as int));
        proof {
            assert(keys.take(i + 1).drop_last() =~= keys.take(i as int));
            assert(keys.take(i + 1).last() == other@);
        }
        if let Some(issue) = find_overlap(library, index, id, data, compat, other) {
            let ghost view = issue@;
            out.push(issue);
            proof {
                assert(issue_models(out@) =~= before.push(view));
                assert(start + front.push(view) =~= before.push(view));
            }
        }
        i += 1;
    }
    assert(keys.take(i as int) =~= keys);
}

fn push_named_issues(out: &mut Vec<CompatibilityIssue>, names: Vec<String>, required: bool)
    ensures
        issue_models(final(out)@) == issue_models(old(out)@) + Seq::new(
            names@.len(),
            |i: int|
                if required {
                    IssueModel::MissingRequired(string_views(names@)[i])
                } else {
                    IssueModel::Incompatible(string_views(names@)[i])
                },
        ),
{
    let ghost start = issue_models(out@);
    let ghost all = Seq::new(
        names@.len(),
        |i: int|
            if required {
                IssueModel::MissingRequired(string_views(names@)[i])
            } else {
                IssueModel::Incompatible(string_views(names@)[i])
            },
    );
    let mut i: usize = 0;
    assert(start + all.take(0) =~= start);
    while i < names.len()
        invariant
            0 <= i <= names@.len(),
            all.len() == names@.len(),
            forall|k: int|
                0 <= k < names@.len() ==> #[trigger] all[k] == if required {
                    IssueModel::MissingRequired(names@[k]@)
                } else {
                    IssueModel::Incompatible(names@[k]@)
                },
            issue_models(out@) == start + all.take(i as int),
        decreases names@.len() - i,
    {
        let ghost before = issue_models(out@);
        let issue = if required {
            CompatibilityIssue::MissingRequired(names[i].clone())
        } else {
            CompatibilityIssue::Incompatible(names[i].clone())
        };
        let ghost view = issue@;
        out.push(issue);
        proof {
            assert(view == all[i as int]);
            assert(issue_models(out@) =~= before.push(view));
            assert(start + all.take(i + 1) =~= before.push(view));
        }
        i += 1;
    }
    assert(all.take(i as int) =~= all);
}

/// Whether it is noted for each mod of the profile why it may not work, and
/// nothing else changed.
pub open spec fn issues_noted(
    a: Profile,
    b: Profile,
    library: Library,
    index: ModIndex,
    provided: Set<Seq<char>>,
) -> bool {
    let keys = row_keys(a.items.rows());
    &&& b == (Profile { compatibility_issues: b.compatibility_issues, ..a })
    &&& forall|id: ModIdModel| #[trigger]
        b.compatibility_issues@.dom().contains(id) <==> a.items@.dom().contains(id) && issues_for(
            library,
            index,
            keys,
            id,
            provided,
        ).len() > 0
    &&& forall|id: ModIdModel|
        #![trigger b.compatibility_issues@[id]]
        b.compatibility_issues@.dom().contains(id) ==> is_sorted_issues(
            issue_models(b.compatibility_issues@[id]@),
            issues_for(library, index, keys, id, provided),
        )
}

impl Profile {
    /// A profile without any mods.
    pub fn new(name: String, settings: ProfileSettings) -> (r: Profile)
        ensures
            r.id == 0,
            r.name == name,
            r.items.rows().len() == 0,
            r.items@ == Map::<ModIdModel, LibraryItemSettings>::empty(),
            r.compatibility_issues@ == Map::<ModIdModel, Vec<CompatibilityIssue>>::empty(),
            !r.add_selected,
            r.view_selected_item is None,
            r.settings == settings,
            r.settings_editing == settings,
    {
        Profile {
            id: 0,
            name,
            items: Table::new(),
            compatibility_issues: Table::new(),
            add_selected: false,
            view_selected_item: None,
            settings,
            settings_editing: settings,
        }
    }

    /// The mods of the profile that are not in the library.
    pub fn missing_items(&self, library: &Library) -> (r: Vec<ModId>)
        ensures
            id_models(r@) == keys_outside(row_keys(self.items.rows()), library.items@.dom()),
    {
        let mut missing: Vec<ModId> = Vec::new();
        let ghost keys = row_keys(self.items.rows());
        let ghost known = library.items@.dom();
        let n = self.items.len();
        let mut i: usize = 0;
        assert(id_models(missing@) =~= Seq::empty());
        while i < n
            invariant
                0 <= i <= n,
                n == self.items.rows().len(),
                keys == row_keys(self.items.rows()),
                known == library.items@.dom(),
                id_models(missing@) == keys_outside(keys.take(i as int), known),
            decreases n - i,
        {
            let item = self.items.key_at(i);
            let ghost before = id_models(missing@);
            proof {
                assert(keys.take(i + 1).drop_last() =~= keys.take(i as int));
                assert(keys.take(i + 1).last() == item@);
            }
            if !library.items.contains(item) {
                missing.push(item.copy_key());
                assert(id_models(missing@) =~= before.push(item@));
            }
            i += 1;
        }
        assert(keys.take(i as int) =~= keys);
        missing
    }

    /// The issues of one mod of the profile, before they are sorted.
    fn find_issues(
        &self,
        library: &Library,
        index: &ModIndex,
        id: &ModId,
        provided: &Table<String, ()>,
    ) -> (r: Vec<CompatibilityIssue>)
        ensures
            issue_models(r@) == issues_for(
                *library,
                *index,
                row_keys(self.items.rows()),
                id@,
                provided@.dom(),
            ),
    {
        let mut issues: Vec<CompatibilityIssue> = Vec::new();
        let ghost keys = row_keys(self.items.rows());
        let ghost names = provided@.dom();
        assert(issue_models(issues@) =~= Seq::empty());
        let compat = match library.compatibility.get(id) {
            None => {
                issues.push(CompatibilityIssue::Unknown);
                assert(issue_models(issues@) =~= seq![IssueModel::Unknown]);
                return issues;
            },
            Some(compat) => compat,
        };
        let mut required: Vec<String> = Vec::new();
        push_not_provided(&mut required, &compat.required, provided);
        let mut clashing: Vec<String> = Vec::new();
        push_also_provided(&mut clashing, &compat.incompatible, provided);
        let ghost rs = not_provided(row_keys(compat.required.rows()), names);
        let ghost cs = also_provided(row_keys(compat.incompatible.rows()), names);
        let ghost a = Seq::new(rs.len(), |i: int| IssueModel::MissingRequired(rs[i]));
        let ghost b = Seq::new(cs.len(), |i: int| IssueModel::Incompatible(cs[i]));
        proof {
            assert(string_views(required@) =~= rs);
            assert(string_views(clashing@) =~= cs);
        }
        push_named_issues(&mut issues, required, true);
        assert(issue_models(issues@) =~= a);
        push_named_issues(&mut issues, clashing, false);
        assert(issue_models(issues@) =~= a + b);
        push_overlaps(&mut issues, library, index, id, &self.items);
        let none: Vec<ChildFile> = Vec::new();
        let children: &[ChildFile] = match index.details.get(id) {
            Some(details) => details.children(),
            None => none.as_slice(),
        };
        assert(children@ =~= index.children_of(id@));
        push_missing_items(&mut issues, index, children, &self.items, provided);
        proof {
            assert forall|k: ModIdModel| keys.to_set().contains(k) == self.items@.dom().contains(
                k,
            ) by {
                if self.items@.dom().contains(k) {
                    let j = choose|j: int|
                        0 <= j < self.items.rows().len() && (#[trigger] self.items.rows()[j]).0
                            == k;
                    assert(keys[j] == k);
                }
                if keys.to_set().contains(k) {
                    let j = choose|j: int| 0 <= j < keys.len() && keys[j] == k;
                    assert(self.items.rows()[j].0 == k);
                }
            }
            assert(keys.to_set() =~= self.items@.dom());
        }
        issues
    }

    /// Notes for each mod of the profile why it may not work.
    pub fn update_compatibility_issues(
        &mut self,
        library: &Library,
        index: &ModIndex,
        provided: &Table<String, ()>,
    )
        ensures
            issues_noted(*old(self), *final(self), *library, *index, provided@.dom()),
    {
        let mut all: Table<ModId, Vec<CompatibilityIssue>> = Table::new();
        let n = self.items.len();
        let ghost rows = self.items.rows();
        let ghost keys = row_keys(rows);
        let ghost names = provided@.dom();
        let mut i: usize = 0;
        while i < n
            invariant
                0 <= i <= n,
                *self == *old(self),
                rows == self.items.rows(),
                keys == row_keys(rows),
                n == rows.len(),
                names == provided@.dom(),
                forall|id: ModIdModel|
                    #![trigger all@.dom().contains(id)]
                    all@.dom().contains(id) <==> (exists|k: int|
                        0 <= k < i && (#[trigger] rows[k]).0 == id) && issues_for(
                        *library,
                        *index,
                        keys,
                        id,
                        names,
                    ).len() > 0,
                forall|id: ModIdModel|
                    #![trigger all@[id]]
                    all@.dom().contains(id) ==> is_sorted_issues(
                        issue_models(all@[id]@),
                        issues_for(*library, *index, keys, id, names),
                    ),
            decreases n - i,
        {
            let id = self.items.key_at(i);
            let ghost key = id@;
            let ghost before = all@;
            let issues = self.find_issues(library, index, id, provided);
            if issues.len() > 0 {
                let ghost raw = issues@;
                let sorted = sort_keys(issues);
                assert(models(sorted@) =~= issue_models(sorted@));
                assert(models(raw) =~= issue_models(raw));
                all.insert(id.copy_key(), sorted);
            }
            proof {
                assert forall|x: ModIdModel|
                    #![trigger all@.dom().contains(x)]
                    all@.dom().contains(x) <==> (exists|k: int|
                        0 <= k < i + 1 && (#[trigger] rows[k]).0 == x) && issues_for(
                        *library,
                        *index,
                        keys,
                        x,
                        names,
                    ).len() > 0 by {
                    assert(before.dom().contains(x) <==> (exists|k: int|
                        0 <= k < i && (#[trigger] rows[k]).0 == x) && issues_for(
                        *library,
                        *index,
                        keys,
                        x,
                        names,
                    ).len() > 0);
                    assert(rows[i as int].0 == key);
                    if exists|k: int| 0 <= k < i + 1 && (#[trigger] rows[k]).0 == x {
                        let k = choose|k: int| 0 <= k < i + 1 && (#[trigger] rows[k]).0 == x;
                        if k == i {
                            assert(x == key);
                        }
                    }
                }
            }
            i += 1;
        }
        self.compatibility_issues = all;
    }
}

} // verus!
