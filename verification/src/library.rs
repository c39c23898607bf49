//! The library of mods and the profiles that select from it.
use vstd::prelude::*;
#[allow(unused_imports)]
use vstd::utf8::encode_utf8;

use crate::table::{Table, TableKey};
use crate::text::{chars_of, find_chars, same_text};
use crate::xcom_mod::{ModCompatibility, ModId};
#[allow(unused_imports)]
use crate::table::rising;
#[allow(unused_imports)]
use crate::text::find_from;
#[allow(unused_imports)]
use crate::xcom_mod::ModIdModel;

pub mod laws;
pub mod missing;
pub mod profile;

pub use profile::{CompatibilityIssue, Profile};

verus! {

/// A text in lower case.
pub uninterp spec fn lowercase_text(s: Seq<char>) -> Seq<char>;

/// [`str::to_lowercase`] gives the lower case equivalent of a text as Unicode
/// defines it. What that is for each text is left unsaid.
#[verifier::external_body]
fn to_lowercase(s: &str) -> (r: String)
    ensures
        r@ == lowercase_text(s@),
{
    s.to_lowercase()
}

/// Whether a fuzzy search for `query` in `text` finds anything, at a threshold
/// that is written as a decimal number.
pub uninterp spec fn fuzzy_finds(query: Seq<char>, text: Seq<char>, threshold: Seq<char>) -> bool;

/// Whether the fuzzy search can take a query and a text: it keeps its state in 64
/// bits, one for each byte of the query in lower case, counts positions in 32
/// bits, and fails on the empty list of matches that an empty text has.
pub open spec fn fuzzy_takes(query: Seq<char>, text: Seq<char>) -> bool {
    &&& encode_utf8(lowercase_text(query)).len() <= 64
    &&& 0 < text.len()
    &&& encode_utf8(text).len() <= 0x3fff_ffff
}

/// `search_text_in_string` of [`fuse_rust::Fuse`], case insensitive and without
/// tokens: whether it finds anything. What it finds is left unsaid.
#[verifier::external_body]
fn fuzzy_search(query: &str, text: &str, threshold: &str) -> (r: bool)
    requires
        fuzzy_takes(query@, text@),
    ensures
        r == fuzzy_finds(query@, text@, threshold@),
{
    let matcher = fuse_rust::Fuse {
        threshold: threshold.parse().unwrap_or_default(),
        is_case_sensitive: false,
        tokenize: false,
        ..Default::default()
    };
    matcher.search_text_in_string(query, text).is_some()
}

/// A mod in the library.
#[derive(Debug)]
pub struct LibraryItem {
    pub id: ModId,
    pub title: String,
    pub path: String,
    pub needs_update: bool,
    pub selected: bool,
}

/// What a mod in the library says.
#[verifier::ext_equal]
pub struct ItemModel {
    pub id: ModIdModel,
    pub title: Seq<char>,
    pub path: Seq<char>,
    pub needs_update: bool,
    pub selected: bool,
}

impl View for LibraryItem {
    type V = ItemModel;

    open spec fn view(&self) -> ItemModel {
        ItemModel {
            id: self.id@,
            title: self.title@,
            path: self.path@,
            needs_update: self.needs_update,
            selected: self.selected,
        }
    }
}

/// Whether a title, in lower case, holds the query.
pub open spec fn title_holds(lowered: Seq<char>, query: Seq<char>) -> bool {
    find_from(lowered, query, 0) is Some
}

/// Whether a title, in lower case, holds the query.
pub fn title_contains(lowered: &str, query: &str) -> (r: bool)
    ensures
        r == title_holds(lowered@, query@),
{
    let a = chars_of(lowered);
    let b = chars_of(query);
    find_chars(a.as_slice(), b.as_slice(), 0).is_some()
}

fn copy_item(item: &LibraryItem) -> (r: LibraryItem)
    ensures
        r@ == item@,
{
    LibraryItem {
        id: item.id.copy_key(),
        title: item.title.clone(),
        path: item.path.clone(),
        needs_update: item.needs_update,
        selected: item.selected,
    }
}

/// How the mods to show are picked.
#[derive(Debug)]
pub enum FilterMethod {
    /// All of them.
    All,
    Id(String),
    Title(String),
    TitleFuzzy(String),
    Combined(Vec<FilterMethod>),
}

impl Default for FilterMethod {
    fn default() -> (r: Self)
        ensures
            r == FilterMethod::All,
    {
        FilterMethod::All
    }
}

impl FilterMethod {
    /// Whether the filter can be asked about a title.
    pub open spec fn takes(&self, title: Seq<char>) -> bool
        decreases self,
    {
        match self {
            FilterMethod::TitleFuzzy(query) => fuzzy_takes(query@, title) || query@.len() == 0,
            FilterMethod::Combined(methods) => forall|i: int|
                0 <= i < methods@.len() ==> (#[trigger] methods@[i]).takes(title),
            _ => true,
        }
    }

    /// Whether the filter lets an item through.
    pub open spec fn lets_through(&self, item: ItemModel) -> bool
        decreases self,
    {
        match self {
            FilterMethod::All => true,
            FilterMethod::Id(id) => item.id.text() == id@,
            FilterMethod::Title(query) => title_holds(lowercase_text(item.title), query@),
            FilterMethod::TitleFuzzy(query) => query@.len() > 0 && fuzzy_finds(
                query@,
                item.title,
                "0.5"@,
            ),
            FilterMethod::Combined(methods) => forall|i: int|
                0 <= i < methods@.len() ==> (#[trigger] methods@[i]).lets_through(item),
        }
    }
}

impl FilterMethod {
    /// Whether the filter can be asked about a title.
    pub fn can_match(&self, title: &str) -> (r: bool)
        ensures
            r == self.takes(title@),
        decreases self,
    {
        match self {
            FilterMethod::TitleFuzzy(query) => {
                let lowered = to_lowercase(query.as_str());
                query.as_str().is_empty() || (lowered.as_str().as_bytes().len() <= 64
                    && !title.is_empty() && title.as_bytes().len() <= 0x3fff_ffff)
            },
            FilterMethod::Combined(methods) => {
                let mut i: usize = 0;
                while i < methods.len()
                    invariant
                        0 <= i <= methods@.len(),
                        *self == FilterMethod::Combined(*methods),
                        forall|k: int| 0 <= k < i ==> (#[trigger] methods@[k]).takes(title@),
                    decreases methods@.len() - i,
                {
                    assert(decreases_to!(*self => self->Combined_0));
                    assert(decreases_to!(*methods => methods@));
                    assert(decreases_to!(methods@ => methods@[i as int]));
                    if !methods[i].can_match(title) {
                        assert(!methods@[i as int].takes(title@));
                        return false;
                    }
                    i += 1;
                }
                true
            },
            _ => true,
        }
    }

    /// Whether the filter lets an item through.
    pub fn matches(&self, item: &LibraryItem) -> (r: bool)
        requires
            self.takes(item@.title),
        ensures
            r == self.lets_through(item@),
        decreases self,
    {
        match self {
            FilterMethod::All => true,
            FilterMethod::Id(id) => {
                let text = item.id.text();
                same_text(text.as_str(), id.as_str())
            },
            FilterMethod::Title(query) => {
                let lowered = to_lowercase(item.title.as_str());
                title_contains(lowered.as_str(), query.as_str())
            },
            FilterMethod::TitleFuzzy(query) => !query.as_str().is_empty() && fuzzy_search(
                query.as_str(),
                item.title.as_str(),
                "0.5",
            ),
            FilterMethod::Combined(methods) => {
                let mut i: usize = 0;
                while i < methods.len()
                    invariant
                        0 <= i <= methods@.len(),
                        *self == FilterMethod::Combined(*methods),
                        forall|k: int|
                            0 <= k < methods@.len() ==> (#[trigger] methods@[k]).takes(item@.title),
                        forall|k: int| 0 <= k < i ==> (#[trigger] methods@[k]).lets_through(item@),
                    decreases methods@.len() - i,
                {
                    assert(methods@[i as int].takes(item@.title));
                    assert(decreases_to!(*self => self->Combined_0));
                    assert(decreases_to!(*methods => methods@));
                    assert(decreases_to!(methods@ => methods@[i as int]));
                    if !methods[i].matches(item) {
                        assert(!methods@[i as int].lets_through(item@));
                        return false;
                    }
                    i += 1;
                }
                true
            },
        }
    }

    /// Whether the filter lets an item through, or `None` where it cannot be asked
    /// about the item's title.
    pub fn try_matches(&self, item: &LibraryItem) -> (r: Option<bool>)
        ensures
            r == if self.takes(item@.title) {
                Some(self.lets_through(item@))
            } else {
                None
            },
    {
        if self.can_match(item.title.as_str()) {
            Some(self.matches(item))
        } else {
            None
        }
    }
}

/// How a profile uses one of its mods.
#[derive(Debug, Clone, Copy, PartialEq, Eq, Structural)]
pub struct LibraryItemSettings {
    pub enabled: bool,
}

impl Default for LibraryItemSettings {
    fn default() -> (r: Self)
        ensures
            r.enabled,
    {
        LibraryItemSettings { enabled: true }
    }
}

/// The mods that are there, and what is known of how they fit together.
pub struct Library {
    pub items: Table<ModId, LibraryItem>,
    pub compatibility: Table<ModId, ModCompatibility>,
    pub filter_fuzzy: bool,
    pub filter_query: String,
    pub missing_dependencies: Table<ModId, Vec<String>>,
}

/// The mods of a library, in order.
pub open spec fn item_models(rows: Seq<(ModIdModel, LibraryItem)>) -> Seq<ItemModel> {
    Seq::new(rows.len(), |i: int| rows[i].1@)
}

/// The items that have a property, in order.
pub open spec fn picked(items: Seq<ItemModel>, p: spec_fn(ItemModel) -> bool) -> Seq<ItemModel>
    decreases items.len(),
{
    if items.len() == 0 {
        Seq::empty()
    } else {
        let front = picked(items.drop_last(), p);
        if p(items.last()) {
            front.push(items.last())
        } else {
            front
        }
    }
}

/// The items, each selected where it was and the filter lets it through.
pub open spec fn narrowed(items: Seq<ItemModel>, method: FilterMethod) -> Seq<ItemModel> {
    Seq::new(
        items.len(),
        |i: int|
            ItemModel {
                selected: items[i].selected && method.lets_through(items[i]),
                ..items[i]
            },
    )
}

/// What the items say.
pub open spec fn shown(items: Seq<&LibraryItem>) -> Seq<ItemModel> {
    Seq::new(items.len(), |i: int| items[i]@)
}

/// The numbers of the mods that come from the workshop, in order.
pub open spec fn workshop_ids(ids: Seq<ModIdModel>) -> Seq<u32>
    decreases ids.len(),
{
    if ids.len() == 0 {
        Seq::empty()
    } else {
        let front = workshop_ids(ids.drop_last());
        match ids.last() {
            ModIdModel::Workshop(id) => front.push(id),
            ModIdModel::Local(_) => front,
        }
    }
}

/// The keys of a table, in order.
pub open spec fn row_keys<M, V>(rows: Seq<(M, V)>) -> Seq<M> {
    Seq::new(rows.len(), |i: int| rows[i].0)
}

impl Default for Library {
    fn default() -> (r: Self)
        ensures
            r.items@ == Map::<ModIdModel, LibraryItem>::empty(),
            r.compatibility@ == Map::<ModIdModel, ModCompatibility>::empty(),
            !r.filter_fuzzy,
            r.filter_query@ == Seq::<char>::empty(),
            r.missing_dependencies@ == Map::<ModIdModel, Vec<String>>::empty(),
    {
        Library {
            items: Table::new(),
            compatibility: Table::new(),
            filter_fuzzy: false,
            filter_query: String::new(),
            missing_dependencies: Table::new(),
        }
    }
}

impl Library {
    /// The mods, in order.
    pub open spec fn all(&self) -> Seq<ItemModel> {
        item_models(self.items.rows())
    }

    /// The filter that the entered query stands for.
    pub open spec fn filter(&self) -> FilterMethod {
        if self.filter_query@.len() == 0 {
            FilterMethod::All
        } else if self.filter_fuzzy {
            FilterMethod::TitleFuzzy(self.filter_query)
        } else {
            FilterMethod::Title(self.filter_query)
        }
    }

    /// Whether a filter can be asked about every mod.
    pub open spec fn filter_takes_all(&self, method: FilterMethod) -> bool {
        forall|i: int| 0 <= i < self.all().len() ==> method.takes((#[trigger] self.all()[i]).title)
    }

    /// The selected mods.
    pub fn iter_selected(&self) -> (r: Vec<&LibraryItem>)
        ensures
            shown(r@) == picked(self.all(), |item: ItemModel| item.selected),
    {
        let ghost p = |item: ItemModel| item.selected;
        let mut out: Vec<&LibraryItem> = Vec::new();
        let n = self.items.len();
        let mut i: usize = 0;
        assert(shown(out@) =~= Seq::empty());
        while i < n
            invariant
                0 <= i <= n,
                n == self.items.rows().len(),
                p == (|item: ItemModel| item.selected),
                shown(out@) == picked(self.all().take(i as int), p),
            decreases n - i,
        {
            let item = self.items.value_at(i);
            let ghost before = shown(out@);
            proof {
                assert(self.all().take(i + 1).drop_last() =~= self.all().take(i as int));
                assert(self.all().take(i + 1).last() == item@);
            }
            if item.selected {
                out.push(item);
                assert(shown(out@) =~= before.push(item@));
            }
            i += 1;
        }
        assert(self.all().take(i as int) =~= self.all());
        out
    }

    /// The numbers of the mods that come from the workshop.
    pub fn iter_workshop_id_selected(&self) -> (r: Vec<u32>)
        ensures
            r@ == workshop_ids(row_keys(self.items.rows())),
    {
        let mut out: Vec<u32> = Vec::new();
        let n = self.items.len();
        let ghost keys = row_keys(self.items.rows());
        let mut i: usize = 0;
        while i < n
            invariant
                0 <= i <= n,
                n == self.items.rows().len(),
                keys == row_keys(self.items.rows()),
                out@ == workshop_ids(keys.take(i as int)),
            decreases n - i,
        {
            let id = self.items.key_at(i);
            proof {
                assert(keys.take(i + 1).drop_last() =~= keys.take(i as int));
                assert(keys.take(i + 1).last() == id@);
            }
            if let Some(number) = id.maybe_workshop() {
                out.push(number);
            }
            i += 1;
        }
        assert(keys.take(i as int) =~= keys);
        out
    }

    /// The filter that the entered query stands for.
    pub fn get_filter_method(&self) -> (r: FilterMethod)
        ensures
            r == self.filter(),
    {
        if self.filter_query.as_str().is_empty() {
            FilterMethod::All
        } else if self.filter_fuzzy {
            FilterMethod::TitleFuzzy(self.filter_query.clone())
        } else {
            FilterMethod::Title(self.filter_query.clone())
        }
    }

    /// Whether a filter can be asked about every mod.
    pub fn filter_ready(&self, filter_method: &FilterMethod) -> (r: bool)
        ensures
            r == self.filter_takes_all(*filter_method),
    {
        let n = self.items.len();
        let mut i: usize = 0;
        while i < n
            invariant
                0 <= i <= n,
                n == self.items.rows().len(),
                forall|k: int|
                    0 <= k < i ==> filter_method.takes((#[trigger] self.all()[k]).title),
            decreases n - i,
        {
            let item = self.items.value_at(i);
            assert(self.all()[i as int] == item@);
            if !filter_method.can_match(item.title.as_str()) {
                return false;
            }
            i += 1;
        }
        true
    }

    /// The mods that a filter lets through.
    pub fn iter_with_filter(&self, filter_method: &FilterMethod) -> (r: Vec<&LibraryItem>)
        requires
            self.filter_takes_all(*filter_method),
        ensures
            shown(r@) == picked(
                self.all(),
                |item: ItemModel| filter_method.lets_through(item),
            ),
    {
        let ghost p = |item: ItemModel| filter_method.lets_through(item);
        let mut out: Vec<&LibraryItem> = Vec::new();
        let n = self.items.len();
        let mut i: usize = 0;
        assert(shown(out@) =~= Seq::empty());
        while i < n
            invariant
                0 <= i <= n,
                n == self.items.rows().len(),
                self.filter_takes_all(*filter_method),
                p == (|item: ItemModel| filter_method.lets_through(item)),
                shown(out@) == picked(self.all().take(i as int), p),
            decreases n - i,
        {
            let item = self.items.value_at(i);
            let ghost before = shown(out@);
            proof {
                assert(self.all()[i as int] == item@);
                assert(self.all().take(i + 1).drop_last() =~= self.all().take(i as int));
                assert(self.all().take(i + 1).last() == item@);
            }
            if filter_method.matches(item) {
                out.push(item);
                assert(shown(out@) =~= before.push(item@));
            }
            i += 1;
        }
        assert(self.all().take(i as int) =~= self.all());
        out
    }

    /// The mods that the entered query lets through.
    pub fn iter_filtered(&self) -> (r: Vec<&LibraryItem>)
        requires
            self.filter_takes_all(self.filter()),
        ensures
            shown(r@) == picked(
                self.all(),
                |item: ItemModel| self.filter().lets_through(item),
            ),
    {
        let method = self.get_filter_method();
        let r = self.iter_with_filter(&method);
        assert((|item: ItemModel| method.lets_through(item)) =~= (|item: ItemModel|
            self.filter().lets_through(item)));
        r
    }

    /// The mods that the entered query lets through, or `None` where it cannot be
    /// asked about one of them.
    pub fn try_iter_filtered(&self) -> (r: Option<Vec<&LibraryItem>>)
        ensures
            match r {
                Some(items) => self.filter_takes_all(self.filter()) && shown(items@) == picked(
                    self.all(),
                    |item: ItemModel| self.filter().lets_through(item),
                ),
                None => !self.filter_takes_all(self.filter()),
            },
    {
        let method = self.get_filter_method();
        if self.filter_ready(&method) {
            Some(self.iter_filtered())
        } else {
            None
        }
    }

    /// Sets whether each mod is selected that a filter lets through.
    pub fn iter_with_filter_mut(&mut self, filter_method: &FilterMethod, selected: bool)
        requires
            old(self).filter_takes_all(*filter_method),
        ensures
            final(self).all() == Seq::new(
                old(self).all().len(),
                |i: int|
                    if filter_method.lets_through(old(self).all()[i]) {
                        ItemModel { selected, ..old(self).all()[i] }
                    } else {
                        old(self).all()[i]
                    },
            ),
            row_keys(final(self).items.rows()) == row_keys(old(self).items.rows()),
            final(self).compatibility == old(self).compatibility,
            final(self).filter_fuzzy == old(self).filter_fuzzy,
            final(self).filter_query == old(self).filter_query,
            final(self).missing_dependencies == old(self).missing_dependencies,
    {
        let ghost start = self.all();
        let ghost keys = row_keys(self.items.rows());
        let n = self.items.len();
        let mut i: usize = 0;
        while i < n
            invariant
                0 <= i <= n,
                n == self.items.rows().len(),
                n == start.len(),
                start == old(self).all(),
                keys == row_keys(old(self).items.rows()),
                old(self).filter_takes_all(*filter_method),
                row_keys(self.items.rows()) == keys,
                self.compatibility == old(self).compatibility,
                self.filter_fuzzy == old(self).filter_fuzzy,
                self.filter_query == old(self).filter_query,
                self.missing_dependencies == old(self).missing_dependencies,
                forall|k: int| i <= k < n ==> #[trigger] self.all()[k] == start[k],
                forall|k: int|
                    0 <= k < i ==> #[trigger] self.all()[k] == if filter_method.lets_through(
                        start[k],
                    ) {
                        ItemModel { selected, ..start[k] }
                    } else {
                        start[k]
                    },
            decreases n - i,
        {
            let mut item = copy_item(self.items.value_at(i));
            assert(self.all()[i as int] == start[i as int]);
            assert(item@ == start[i as int]);
            if filter_method.matches(&item) {
                item.selected = selected;
                let ghost rows = self.items.rows();
                let ghost changed = item@;
                let replaced = self.items.set_value_at(i, item);
                proof {
                    assert(row_keys(self.items.rows()) =~= row_keys(rows));
                    assert(self.all() =~= item_models(rows).update(i as int, changed));
                }
            }
            i += 1;
        }
        assert(self.all() =~= Seq::new(
            old(self).all().len(),
            |i: int|
                if filter_method.lets_through(old(self).all()[i]) {
                    ItemModel { selected, ..old(self).all()[i] }
                } else {
                    old(self).all()[i]
                },
        ));
    }

    /// Sets whether a mod is selected, if it is in the library.
    pub fn select_item(&mut self, id: &ModId, selected: bool)
        ensures
            final(self).all() == Seq::new(
                old(self).all().len(),
                |i: int|
                    if row_keys(old(self).items.rows())[i] == id@ {
                        ItemModel { selected, ..old(self).all()[i] }
                    } else {
                        old(self).all()[i]
                    },
            ),
            row_keys(final(self).items.rows()) == row_keys(old(self).items.rows()),
            final(self).compatibility == old(self).compatibility,
            final(self).filter_fuzzy == old(self).filter_fuzzy,
            final(self).filter_query == old(self).filter_query,
            final(self).missing_dependencies == old(self).missing_dependencies,
    {
        let ghost rows = self.items.rows();
        let ghost start = self.all();
        let n = self.items.len();
        assert(rising::<ModId, LibraryItem>(rows));
        match self.items.find(id) {
            Some(i) => {
                let mut item = copy_item(self.items.value_at(i));
                item.selected = selected;
                let ghost changed = item@;
                let replaced = self.items.set_value_at(i, item);
                proof {
                    assert(row_keys(self.items.rows()) =~= row_keys(rows));
                    assert(self.all() =~= start.update(i as int, changed));
                    assert forall|k: int| 0 <= k < rows.len() && k != i implies (
                    #[trigger] rows[k]).0 != id@ by {
                        ModId::order_is_total(id@, id@, id@);
                        if k < i {
                            assert(ModId::before(rows[k].0, rows[i as int].0));
                        } else {
                            assert(ModId::before(rows[i as int].0, rows[k].0));
                        }
                    }
                    assert forall|k: int| 0 <= k < rows.len() && k != i implies row_keys(rows)[k]
                        != id@ by {
                        assert(rows[k].0 != id@);
                    }
                }
            },
            None => {
                assert forall|k: int| 0 <= k < rows.len() implies row_keys(rows)[k] != id@ by {
                    assert(rows[k].0 == row_keys(rows)[k]);
                }
            },
        }
        assert(self.all() =~= Seq::new(
            old(self).all().len(),
            |i: int|
                if row_keys(old(self).items.rows())[i] == id@ {
                    ItemModel { selected, ..old(self).all()[i] }
                } else {
                    old(self).all()[i]
                },
        ));
    }

    /// Sets whether each mod is selected that the entered query lets through.
    pub fn iter_filtered_mut(&mut self, selected: bool)
        requires
            old(self).filter_takes_all(old(self).filter()),
        ensures
            final(self).all() == Seq::new(
                old(self).all().len(),
                |i: int|
                    if old(self).filter().lets_through(old(self).all()[i]) {
                        ItemModel { selected, ..old(self).all()[i] }
                    } else {
                        old(self).all()[i]
                    },
            ),
            row_keys(final(self).items.rows()) == row_keys(old(self).items.rows()),
            final(self).compatibility == old(self).compatibility,
            final(self).filter_fuzzy == old(self).filter_fuzzy,
            final(self).filter_query == old(self).filter_query,
            final(self).missing_dependencies == old(self).missing_dependencies,
    {
        let method = self.get_filter_method();
        self.iter_with_filter_mut(&method, selected);
        assert(self.all() =~= Seq::new(
            old(self).all().len(),
            |i: int|
                if old(self).filter().lets_through(old(self).all()[i]) {
                    ItemModel { selected, ..old(self).all()[i] }
                } else {
                    old(self).all()[i]
                },
        ));
    }

    /// Takes the selection from every mod that the entered query does not let
    /// through.
    pub fn update_selected_filtered(&mut self)
        requires
            old(self).filter_takes_all(old(self).filter()),
        ensures
            final(self).all() == narrowed(old(self).all(), old(self).filter()),
            row_keys(final(self).items.rows()) == row_keys(old(self).items.rows()),
            final(self).compatibility == old(self).compatibility,
            final(self).filter_fuzzy == old(self).filter_fuzzy,
            final(self).filter_query == old(self).filter_query,
            final(self).missing_dependencies == old(self).missing_dependencies,
    {
        let method = self.get_filter_method();
        let ghost start = self.all();
        let ghost keys = row_keys(self.items.rows());
        let n = self.items.len();
        let mut i: usize = 0;
        while i < n
            invariant
                0 <= i <= n,
                n == self.items.rows().len(),
                n == start.len(),
                start == old(self).all(),
                method == old(self).filter(),
                keys == row_keys(old(self).items.rows()),
                old(self).filter_takes_all(method),
                row_keys(self.items.rows()) == keys,
                self.compatibility == old(self).compatibility,
                self.filter_fuzzy == old(self).filter_fuzzy,
                self.filter_query == old(self).filter_query,
                self.missing_dependencies == old(self).missing_dependencies,
                forall|k: int| i <= k < n ==> #[trigger] self.all()[k] == start[k],
                forall|k: int|
                    0 <= k < i ==> #[trigger] self.all()[k] == (ItemModel {
                        selected: start[k].selected && method.lets_through(start[k]),
                        ..start[k]
                    }),
            decreases n - i,
        {
            let mut item = copy_item(self.items.value_at(i));
            assert(self.all()[i as int] == start[i as int]);
            assert(item@ == start[i as int]);
            let keep = item.selected && method.matches(&item);
            item.selected = keep;
            let ghost rows = self.items.rows();
            let ghost changed = item@;
            let replaced = self.items.set_value_at(i, item);
            proof {
                assert(row_keys(self.items.rows()) =~= row_keys(rows));
                assert(self.all() =~= item_models(rows).update(i as int, changed));
            }
            i += 1;
        }
        assert(self.all() =~= narrowed(start, method));
    }
}

proof fn lemma_combined(method: FilterMethod, methods: Seq<FilterMethod>, item: ItemModel)
    requires
        method is Combined,
        methods == method->Combined_0@,
    ensures
        method.lets_through(item) <==> forall|i: int|
            0 <= i < methods.len() ==> (#[trigger] methods[i]).lets_through(item),
{
    if method.lets_through(item) {
        assert forall|i: int| 0 <= i < methods.len() implies (#[trigger] methods[i]).lets_through(
            item,
        ) by {
            assert(method->Combined_0@[i] == methods[i]);
        }
    }
}

/// A combined filter lets through what all of its methods let through. So it does not
/// matter in which order they stand or whether one stands twice, a filter without
/// methods lets everything through, and further methods never let through more.
pub proof fn combined_filters_let_through_what_all_do(
    methods: Vec<FilterMethod>,
    others: Vec<FilterMethod>,
    item: ItemModel,
)
    ensures
        FilterMethod::Combined(methods).lets_through(item) <==> forall|i: int|
            0 <= i < methods@.len() ==> (#[trigger] methods@[i]).lets_through(item),
        methods@.len() == 0 ==> FilterMethod::Combined(methods).lets_through(item),
        FilterMethod::All.lets_through(item),
        methods@.to_set() == others@.to_set() ==> FilterMethod::Combined(methods).lets_through(item)
            == FilterMethod::Combined(others).lets_through(item),
        methods@.to_set().subset_of(others@.to_set()) && FilterMethod::Combined(
            others,
        ).lets_through(item) ==> FilterMethod::Combined(methods).lets_through(item),
{
    let one = FilterMethod::Combined(methods);
    let other = FilterMethod::Combined(others);
    lemma_combined(one, methods@, item);
    lemma_combined(other, others@, item);
    if methods@.to_set().subset_of(others@.to_set()) && other.lets_through(item) {
        assert forall|i: int| 0 <= i < methods@.len() implies (
        #[trigger] methods@[i]).lets_through(item) by {
            assert(methods@.to_set().contains(methods@[i]));
            assert(others@.to_set().contains(methods@[i]));
            let j = choose|j: int| 0 <= j < others@.len() && others@[j] == methods@[i];
            assert(others@[j].lets_through(item));
        }
    }
    if others@.to_set().subset_of(methods@.to_set()) && one.lets_through(item) {
        assert forall|i: int| 0 <= i < others@.len() implies (
        #[trigger] others@[i]).lets_through(item) by {
            assert(others@.to_set().contains(others@[i]));
            assert(methods@.to_set().contains(others@[i]));
            let j = choose|j: int| 0 <= j < methods@.len() && methods@[j] == others@[i];
            assert(methods@[j].lets_through(item));
        }
    }
}

/// A combined filter may as well hold the methods of another one as that one itself:
/// `flat` has all methods of `inner` in place of it.
pub proof fn combined_filters_can_be_nested(
    nested: Vec<FilterMethod>,
    at: int,
    inner: Vec<FilterMethod>,
    flat: Vec<FilterMethod>,
    item: ItemModel,
)
    requires
        0 <= at < nested@.len(),
        nested@[at] == FilterMethod::Combined(inner),
        flat@ == nested@.take(at) + inner@ + nested@.skip(at + 1),
    ensures
        FilterMethod::Combined(nested).lets_through(item) == FilterMethod::Combined(
            flat,
        ).lets_through(item),
{
    let n = inner@.len() as int;
    lemma_combined(FilterMethod::Combined(inner), inner@, item);
    lemma_combined(FilterMethod::Combined(nested), nested@, item);
    lemma_combined(FilterMethod::Combined(flat), flat@, item);
    if FilterMethod::Combined(nested).lets_through(item) {
        assert(nested@[at].lets_through(item));
        assert forall|i: int| 0 <= i < flat@.len() implies (#[trigger] flat@[i]).lets_through(
            item,
        ) by {
            if i < at {
                assert(nested@[i].lets_through(item));
            } else if i < at + n {
                assert(inner@[i - at].lets_through(item));
            } else {
                assert(flat@[i] == nested@[i - n + 1]);
                assert(nested@[i - n + 1].lets_through(item));
            }
        }
    }
    if FilterMethod::Combined(flat).lets_through(item) {
        assert forall|i: int| 0 <= i < inner@.len() implies (#[trigger] inner@[i]).lets_through(
            item,
        ) by {
            assert(flat@[at + i] == inner@[i]);
            assert(flat@[at + i].lets_through(item));
        }
        assert(nested@[at].lets_through(item));
        assert forall|i: int| 0 <= i < nested@.len() implies (#[trigger] nested@[i]).lets_through(
            item,
        ) by {
            if i < at {
                assert(flat@[i] == nested@[i]);
                assert(flat@[i].lets_through(item));
            } else if i > at {
                assert(flat@[i + n - 1] == nested@[i]);
                assert(flat@[i + n - 1].lets_through(item));
            }
        }
    }
}

/// Where the items stand that have a property.
pub open spec fn places(items: Seq<ItemModel>, p: spec_fn(ItemModel) -> bool) -> Seq<int>
    decreases items.len(),
{
    if items.len() == 0 {
        Seq::empty()
    } else {
        let front = places(items.drop_last(), p);
        if p(items.last()) {
            front.push(items.len() - 1)
        } else {
            front
        }
    }
}

proof fn lemma_places(items: Seq<ItemModel>, p: spec_fn(ItemModel) -> bool)
    ensures
        picked(items, p).len() == places(items, p).len(),
        forall|i: int|
            0 <= i < places(items, p).len() ==> {
                &&& 0 <= (#[trigger] places(items, p)[i]) < items.len()
                &&& picked(items, p)[i] == items[places(items, p)[i]]
                &&& p(items[places(items, p)[i]])
            },
        forall|i: int, j: int|
            0 <= i < j < places(items, p).len() ==> #[trigger] places(items, p)[i]
                < #[trigger] places(items, p)[j],
        forall|k: int|
            0 <= k < items.len() && p(#[trigger] items[k]) ==> places(items, p).contains(k),
    decreases items.len(),
{
    if items.len() > 0 {
        let fewer = items.drop_last();
        lemma_places(fewer, p);
        let front = places(fewer, p);
        let all = places(items, p);
        assert forall|k: int| 0 <= k < items.len() && p(#[trigger] items[k]) implies all.contains(
            k,
        ) by {
            if k < fewer.len() {
                assert(fewer[k] == items[k]);
                assert(front.contains(k));
                let i = choose|i: int| 0 <= i < front.len() && front[i] == k;
                assert(all[i] == k);
            } else {
                assert(all[front.len() as int] == k);
            }
        }
        assert forall|i: int| 0 <= i < all.len() implies {
            &&& 0 <= (#[trigger] all[i]) < items.len()
            &&& picked(items, p)[i] == items[all[i]]
            &&& p(items[all[i]])
        } by {
            if i < front.len() {
                assert(all[i] == front[i]);
                assert(fewer[front[i]] == items[front[i]]);
            }
        }
    }
}

/// The mods that the entered query lets through are exactly those that its filter
/// matches, in the order of their keys. Without a query they are all mods, whether the
/// search is fuzzy or not.
pub proof fn filtered_mods_are_those_that_match(library: Library)
    requires
        rising::<ModId, LibraryItem>(library.items.rows()),
    ensures
        ({
            let p = |item: ItemModel| library.filter().lets_through(item);
            let rows = library.items.rows();
            let at = places(library.all(), p);
            let r = picked(library.all(), p);
            &&& r.len() == at.len()
            &&& forall|i: int|
                0 <= i < at.len() ==> 0 <= (#[trigger] at[i]) < rows.len() && r[i]
                    == rows[at[i]].1@ && library.filter().lets_through(rows[at[i]].1@)
            &&& forall|k: int|
                0 <= k < rows.len() && library.filter().lets_through((#[trigger] rows[k]).1@)
                    ==> at.contains(k)
            &&& forall|i: int, j: int|
                0 <= i < j < at.len() ==> ModId::before(
                    rows[#[trigger] at[i]].0,
                    rows[#[trigger] at[j]].0,
                )
            &&& library.filter_query@.len() == 0 ==> r == library.all()
        }),
{
    let p = |item: ItemModel| library.filter().lets_through(item);
    let rows = library.items.rows();
    let all = library.all();
    let at = places(all, p);
    lemma_places(all, p);
    assert forall|k: int| 0 <= k < rows.len() && library.filter().lets_through(
        (#[trigger] rows[k]).1@,
    ) implies at.contains(k) by {
        assert(all[k] == rows[k].1@);
    }
    assert forall|i: int| 0 <= i < at.len() implies 0 <= (#[trigger] at[i]) < rows.len() && picked(
        all,
        p,
    )[i] == rows[at[i]].1@ && library.filter().lets_through(rows[at[i]].1@) by {
        assert(all[at[i]] == rows[at[i]].1@);
    }
    if library.filter_query@.len() == 0 {
        lemma_all_picked(all, p);
    }
}

proof fn lemma_all_picked(items: Seq<ItemModel>, p: spec_fn(ItemModel) -> bool)
    requires
        forall|item: ItemModel| #[trigger] p(item),
    ensures
        picked(items, p) == items,
    decreases items.len(),
{
    if items.len() > 0 {
        lemma_all_picked(items.drop_last(), p);
        assert(p(items.last()));
        assert(items.drop_last().push(items.last()) =~= items);
    } else {
        assert(items =~= Seq::empty());
    }
}

/// Whether a filter lets a mod through does not depend on whether it is selected.
pub proof fn filters_do_not_see_the_selection(
    method: FilterMethod,
    item: ItemModel,
    selected: bool,
)
    ensures
        method.lets_through(ItemModel { selected, ..item }) == method.lets_through(item),
    decreases method,
{
    if let FilterMethod::Combined(methods) = method {
        let other = ItemModel { selected, ..item };
        assert forall|i: int| 0 <= i < methods@.len() implies (
        #[trigger] methods@[i]).lets_through(other) == methods@[i].lets_through(item) by {
            filters_do_not_see_the_selection(methods@[i], item, selected);
        }
        if method.lets_through(item) {
            assert forall|i: int| 0 <= i < methods@.len() implies (
            #[trigger] methods@[i]).lets_through(other) by {
                assert(methods@[i].lets_through(item));
            }
        }
        if method.lets_through(other) {
            assert forall|i: int| 0 <= i < methods@.len() implies (
            #[trigger] methods@[i]).lets_through(item) by {
                assert(methods@[i].lets_through(other));
            }
        }
    }
}

/// Taking the selection from what a filter does not let through selects nothing, leaves
/// only mods selected that the filter lets through, changes nothing else, and need not
/// be done twice.
pub proof fn selections_shrink_to_what_is_shown(items: Seq<ItemModel>, method: FilterMethod)
    ensures
        ({
            let once = narrowed(items, method);
            &&& once.len() == items.len()
            &&& forall|i: int|
                0 <= i < items.len() ==> {
                    &&& (#[trigger] once[i]).selected == (items[i].selected && method.lets_through(
                        items[i],
                    ))
                    &&& once[i] == (ItemModel { selected: once[i].selected, ..items[i] })
                    &&& once[i].selected ==> items[i].selected && method.lets_through(once[i])
                }
            &&& narrowed(once, method) == once
        }),
{
    let once = narrowed(items, method);
    assert forall|i: int| 0 <= i < items.len() implies method.lets_through(#[trigger] once[i])
        == method.lets_through(items[i]) by {
        filters_do_not_see_the_selection(method, items[i], once[i].selected);
    }
    assert(narrowed(once, method) =~= once);
}

} // verus!
