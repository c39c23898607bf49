//! What the mods of the library ask for and do not get.
use vstd::prelude::*;
#[allow(unused_imports)]
use vstd::utf8::encode_utf8;

use super::Library;
use crate::files::{ChildFile, ModDetails};
use crate::numbers::{decimal, parse_unsigned_text};
use crate::table::{sort_keys, Table, TableKey};
use crate::text::join_two;
use crate::xcom_mod::{ModId, ModMetadata};
#[allow(unused_imports)]
use super::row_keys;
#[allow(unused_imports)]
use crate::extensions::string_views;
#[allow(unused_imports)]
use crate::numbers::{decimal_text, unsigned_value};
#[allow(unused_imports)]
use crate::table::{in_order, models};
#[allow(unused_imports)]
use crate::xcom_mod::ModIdModel;

verus! {

/// What is known of all mods, in the library or not.
pub struct ModIndex {
    /// What the mods' own files say.
    pub metadata: Table<ModId, ModMetadata>,
    /// What is known of them.
    pub details: Table<ModId, ModDetails>,
}

impl ModIndex {
    /// The title of a mod, if it is known.
    pub open spec fn title_or_unknown(&self, id: ModIdModel) -> Seq<char> {
        if self.details@.dom().contains(id) {
            self.details@[id].title_text()
        } else {
            "UNKNOWN"@
        }
    }

    pub fn find_title(&self, id: &ModId) -> (r: String)
        ensures
            r@ == self.title_or_unknown(id@),
    {
        match self.details.get(id) {
            Some(details) => details.title().to_owned(),
            None => "UNKNOWN".to_owned(),
        }
    }

    /// Whether a mod is provided under its name in the game.
    pub open spec fn is_provided(&self, id: ModIdModel, provided: Set<Seq<char>>) -> bool {
        self.metadata@.dom().contains(id) && provided.contains(self.metadata@[id].dlc_name@)
    }

    pub fn check_provided(&self, id: &ModId, provided: &Table<String, ()>) -> (r: bool)
        ensures
            r == self.is_provided(id@, provided@.dom()),
    {
        match self.metadata.get(id) {
            Some(data) => provided.contains(&data.dlc_name),
            None => false,
        }
    }

    /// The items that a mod's page in the workshop asks for.
    pub open spec fn children_of(&self, id: ModIdModel) -> Seq<ChildFile> {
        if self.details@.dom().contains(id) {
            match self.details@[id] {
                ModDetails::Workshop(details) => details.children@,
                ModDetails::Local(_) => Seq::empty(),
            }
        } else {
            Seq::empty()
        }
    }
}

/// The number of an item that a page asks for, if it is one.
pub open spec fn child_number(child: ChildFile) -> Option<nat> {
    unsigned_value(encode_utf8(child.published_file_id@), u32::MAX as nat)
}

pub fn parse_child(child: &ChildFile) -> (r: Option<u32>)
    ensures
        match r {
            Some(id) => child_number(*child) == Some(id as nat),
            None => child_number(*child) is None,
        },
{
    match parse_unsigned_text(child.published_file_id.as_str(), u32::MAX as u64) {
        Some(n) => Some(n as u32),
        None => None,
    }
}

/// A title with something in brackets behind it.
pub open spec fn with_brackets(title: Seq<char>, inner: Seq<char>) -> Seq<char> {
    title + " ("@ + inner + ")"@
}

pub fn put_in_brackets(title: &str, inner: &str) -> (r: String)
    ensures
        r@ == with_brackets(title@, inner@),
{
    let a = join_two(title, " (");
    let b = join_two(a.as_str(), inner);
    join_two(b.as_str(), ")")
}

/// The names that are not provided, in order.
pub open spec fn not_provided(names: Seq<Seq<char>>, provided: Set<Seq<char>>) -> Seq<Seq<char>>
    decreases names.len(),
{
    if names.len() == 0 {
        Seq::empty()
    } else {
        let front = not_provided(names.drop_last(), provided);
        if provided.contains(names.last()) {
            front
        } else {
            front.push(names.last())
        }
    }
}

/// The items that are asked for and not provided, in order, by their titles.
pub open spec fn missing_children(
    index: ModIndex,
    children: Seq<ChildFile>,
    provided: Set<Seq<char>>,
) -> Seq<Seq<char>>
    decreases children.len(),
{
    if children.len() == 0 {
        Seq::empty()
    } else {
        let front = missing_children(index, children.drop_last(), provided);
        match child_number(children.last()) {
            Some(n) => {
                let id = ModIdModel::Workshop(n as u32);
                if index.is_provided(id, provided) {
                    front
                } else {
                    front.push(with_brackets(index.title_or_unknown(id), decimal_text(n)))
                }
            },
            None => front,
        }
    }
}

/// What a mod asks for and does not get.
pub open spec fn missing_for(
    library: Library,
    index: ModIndex,
    id: ModIdModel,
    provided: Set<Seq<char>>,
) -> Seq<Seq<char>> {
    let required = if library.compatibility@.dom().contains(id) {
        not_provided(row_keys(library.compatibility@[id].required.rows()), provided)
    } else {
        Seq::empty()
    };
    required + missing_children(index, index.children_of(id), provided)
}

/// Whether `sorted` holds the texts of `all` in order.
pub open spec fn is_sorted_from(sorted: Seq<Seq<char>>, all: Seq<Seq<char>>) -> bool {
    &&& in_order::<String>(sorted)
    &&& sorted.to_multiset() == all.to_multiset()
}

/// Adds the names that are not provided.
pub fn push_not_provided(
    out: &mut Vec<String>,
    names: &Table<String, ()>,
    provided: &Table<String, ()>,
)
    ensures
        string_views(final(out)@) == string_views(old(out)@) + not_provided(
            row_keys(names.rows()),
            provided@.dom(),
        ),
{
    let ghost start = string_views(out@);
    let ghost keys = row_keys(names.rows());
    let n = names.len();
    let mut i: usize = 0;
    assert(start + not_provided(keys.take(0), provided@.dom()) =~= start);
    while i < n
        invariant
            0 <= i <= n,
            n == names.rows().len(),
            keys == row_keys(names.rows()),
            string_views(out@) == start + not_provided(keys.take(i as int), provided@.dom()),
        decreases n - i,
    {
        let name = names.key_at(i);
        let ghost before = string_views(out@);
        proof {
            assert(keys.take(i + 1).drop_last() =~= keys.take(i as int));
            assert(keys.take(i + 1).last() == name@);
        }
        if !provided.contains(name) {
            out.push(name.clone());
            proof {
                assert(string_views(out@) =~= before.push(name@));
                assert(start + not_provided(keys.take(i as int), provided@.dom()).push(name@)
                    =~= before.push(name@));
            }
        }
        i += 1;
    }
    assert(keys.take(i as int) =~= keys);
}

fn push_missing_children(
    out: &mut Vec<String>,
    index: &ModIndex,
    children: &[ChildFile],
    provided: &Table<String, ()>,
)
    ensures
        string_views(final(out)@) == string_views(old(out)@) + missing_children(
            *index,
            children@,
            provided@.dom(),
        ),
{
    let ghost start = string_views(out@);
    let ghost names = provided@.dom();
    let mut i: usize = 0;
    assert(start + missing_children(*index, children@.take(0), names) =~= start);
    while i < children.len()
        invariant
            0 <= i <= children@.len(),
            names == provided@.dom(),
            string_views(out@) == start + missing_children(*index, children@.take(i as int), names),
        decreases children@.len() - i,
    {
        let child = &children[i];
        let ghost before = string_views(out@);
        let ghost front = missing_children(*index, children@.take(i as int), names);
        proof {
            assert(children@.take(i + 1).drop_last() =~= children@.take(i as int));
            assert(children@.take(i + 1).last() == *child);
        }
        if let Some(number) = parse_child(child) {
            let id = ModId::Workshop(number);
            if !index.check_provided(&id, provided) {
                let title = index.find_title(&id);
                let digits = decimal(number as u64);
                let text = put_in_brackets(title.as_str(), digits.as_str());
                let ghost view = text@;
                out.push(text);
                proof {
                    assert(string_views(out@) =~= before.push(view));
                    assert(start + front.push(view) =~= before.push(view));
                }
            }
        }
        i += 1;
    }
    assert(children@.take(i as int) =~= children@);
}

/// Sorts texts.
pub fn sort_texts(all: Vec<String>) -> (r: Vec<String>)
    ensures
        is_sorted_from(string_views(r@), string_views(all@)),
{
    let ghost before = all@;
    let r = sort_keys(all);
    assert(string_views(r@) =~= models(r@));
    assert(string_views(before) =~= models(before));
    r
}

/// Whether it is noted for each mod in the library what it asks for and does not
/// get, and nothing else changed.
pub open spec fn dependencies_noted(
    a: Library,
    b: Library,
    index: ModIndex,
    provided: Set<Seq<char>>,
) -> bool {
    &&& b == (Library { missing_dependencies: b.missing_dependencies, ..a })
    &&& forall|id: ModIdModel| #[trigger]
        b.missing_dependencies@.dom().contains(id) <==> a.items@.dom().contains(id) && missing_for(
            a,
            index,
            id,
            provided,
        ).len() > 0
    &&& forall|id: ModIdModel|
        #![trigger b.missing_dependencies@[id]]
        b.missing_dependencies@.dom().contains(id) ==> is_sorted_from(
            string_views(b.missing_dependencies@[id]@),
            missing_for(a, index, id, provided),
        )
}

impl Library {
    /// Notes for each mod in the library what it asks for and does not get.
    pub fn update_missing_dependencies(&mut self, index: &ModIndex, provided: &Table<String, ()>)
        ensures
            dependencies_noted(*old(self), *final(self), *index, provided@.dom()),
    {
        let ghost names = provided@.dom();
        let mut all: Table<ModId, Vec<String>> = Table::new();
        let n = self.items.len();
        let ghost rows = self.items.rows();
        let mut i: usize = 0;
        while i < n
            invariant
                0 <= i <= n,
                *self == *old(self),
                rows == self.items.rows(),
                n == rows.len(),
                names == provided@.dom(),
                crate::table::rising::<ModId, super::LibraryItem>(rows),
                forall|id: ModIdModel|
                    #![trigger all@.dom().contains(id)]
                    all@.dom().contains(id) <==> (exists|k: int|
                        0 <= k < i && (#[trigger] rows[k]).0 == id) && missing_for(
                        *self,
                        *index,
                        id,
                        names,
                    ).len() > 0,
                forall|id: ModIdModel|
                    #![trigger all@[id]]
                    all@.dom().contains(id) ==> is_sorted_from(
                        string_views(all@[id]@),
                        missing_for(*self, *index, id, names),
                    ),
            decreases n - i,
        {
            let id = self.items.key_at(i);
            let ghost key = id@;
            let ghost before = all@;
            let mut missing: Vec<String> = Vec::new();
            assert(string_views(missing@) =~= Seq::empty());
            if let Some(compat) = self.compatibility.get(id) {
                push_not_provided(&mut missing, &compat.required, provided);
            }
            let ghost required = string_views(missing@);
            let none: Vec<ChildFile> = Vec::new();
            let children: &[ChildFile] = match index.details.get(id) {
                Some(details) => details.children(),
                None => none.as_slice(),
            };
            assert(children@ =~= index.children_of(key));
            push_missing_children(&mut missing, index, children, provided);
            proof {
                assert(string_views(missing@) =~= missing_for(*self, *index, key, names));
            }
            if missing.len() > 0 {
                let sorted = sort_texts(missing);
                all.insert(id.copy_key(), sorted);
            }
            proof {
                assert forall|x: ModIdModel|
                    #![trigger all@.dom().contains(x)]
                    all@.dom().contains(x) <==> (exists|k: int|
                        0 <= k < i + 1 && (#[trigger] rows[k]).0 == x) && missing_for(
                        *self,
                        *index,
                        x,
                        names,
                    ).len() > 0 by {
                    assert(before.dom().contains(x) <==> (exists|k: int|
                        0 <= k < i && (#[trigger] rows[k]).0 == x) && missing_for(
                        *self,
                        *index,
                        x,
                        names,
                    ).len() > 0);
                    assert(rows[i as int].0 == key);
                    if exists|k: int| 0 <= k < i + 1 && (#[trigger] rows[k]).0 == x {
                        let k = choose|k: int| 0 <= k < i + 1 && (#[trigger] rows[k]).0 == x;
                        if k == i {
                            assert(x == key);
                        }
                    }
                }
            }
            i += 1;
        }
        self.missing_dependencies = all;
        proof {
            assert forall|id: ModIdModel| old(self).items@.dom().contains(id) <==> exists|k: int|
                0 <= k < n && (#[trigger] rows[k]).0 == id by {
            }
        }
    }
}

} // verus!
