//! Collections of mods.
use vstd::prelude::*;

use crate::files::ModDetails;
use crate::library::missing::{put_in_brackets, ModIndex};
use crate::numbers::decimal;
use crate::table::TableKey;
use crate::web::{WorkshopSort, WorkshopTrendPeriod};
use crate::xcom_mod::ModId;
#[allow(unused_imports)]
use crate::library::missing::with_brackets;
#[allow(unused_imports)]
use crate::numbers::decimal_text;
#[allow(unused_imports)]
use crate::xcom_mod::ModIdModel;

verus! {

/// Where an image comes from.
#[derive(Debug)]
pub enum ImageSource {
    Web(String),
    Path(String),
}

#[verifier::ext_equal]
pub enum ImageModel {
    Web(Seq<char>),
    Path(Seq<char>),
}

impl View for ImageSource {
    type V = ImageModel;

    open spec fn view(&self) -> ImageModel {
        match self {
            ImageSource::Web(url) => ImageModel::Web(url@),
            ImageSource::Path(path) => ImageModel::Path(path@),
        }
    }
}

/// Where a collection comes from.
#[derive(Debug)]
pub enum CollectionSource {
    Workshop(u32),
    Local(String),
}

impl View for CollectionSource {
    type V = ModIdModel;

    open spec fn view(&self) -> ModIdModel {
        match self {
            CollectionSource::Workshop(id) => ModIdModel::Workshop(*id),
            CollectionSource::Local(path) => ModIdModel::Local(path@),
        }
    }
}

impl CollectionSource {
    fn as_id(&self) -> (r: ModId)
        ensures
            r@ == self@,
    {
        match self {
            CollectionSource::Workshop(id) => ModId::Workshop(*id),
            CollectionSource::Local(path) => ModId::Local(path.clone()),
        }
    }

    /// How the source is shown: by its number, or by its path.
    pub fn text(&self) -> (r: String)
        ensures
            r@ == self@.text(),
    {
        match self {
            CollectionSource::Workshop(id) => decimal(*id as u64),
            CollectionSource::Local(path) => path.clone(),
        }
    }

    pub fn copy(&self) -> (r: CollectionSource)
        ensures
            r == *self,
    {
        match self {
            CollectionSource::Workshop(id) => CollectionSource::Workshop(*id),
            CollectionSource::Local(path) => CollectionSource::Local(path.clone()),
        }
    }
}

impl PartialEq for CollectionSource {
    fn eq(&self, other: &Self) -> (r: bool) {
        let a = self.as_id();
        let b = other.as_id();
        a.is(&b)
    }
}

impl vstd::std_specs::cmp::PartialEqSpecImpl for CollectionSource {
    open spec fn obeys_eq_spec() -> bool {
        true
    }

    open spec fn eq_spec(&self, other: &Self) -> bool {
        self@ == other@
    }
}

/// A collection of mods.
#[derive(Debug)]
pub struct Collection {
    pub source: CollectionSource,
    pub title: String,
    pub items: Vec<u32>,
    pub image: ImageSource,
    pub banner: Option<ImageSource>,
    pub description: String,
}

/// Collections are the same when they come from the same source.
impl PartialEq for Collection {
    fn eq(&self, other: &Self) -> (r: bool) {
        let a = self.source.as_id();
        let b = other.source.as_id();
        a.is(&b)
    }
}

impl vstd::std_specs::cmp::PartialEqSpecImpl for Collection {
    open spec fn obeys_eq_spec() -> bool {
        true
    }

    open spec fn eq_spec(&self, other: &Self) -> bool {
        self.source@ == other.source@
    }
}

impl Collection {
    /// Collections come in the order of their sources: those of the workshop by
    /// their numbers, then local ones by their paths.
    pub fn comes_before(&self, other: &Self) -> (r: bool)
        ensures
            r == ModId::before(self.source@, other.source@),
    {
        let a = self.source.as_id();
        let b = other.source.as_id();
        a.comes_before(&b)
    }
}

/// What can be done with the collections of the workshop.
pub enum CollectionsMessage {
    /// How many collections a search found, and those of the page.
    QueryCollectionsLoaded(u32, Vec<Collection>),
    SetBrowsePage(u32),
    BrowseSubmitQuery,
    BrowseUpdateQuery,
    BrowseEditQuery(String),
    BrowseEditSort(WorkshopSort),
    BrowseEditPeriod(WorkshopTrendPeriod),
    BrowseEditTag(String),
    BrowseToggleTagsDropdown(bool),
    /// A collection and, where it is known, its items.
    SetViewingCollection(CollectionSource, Option<Vec<u32>>),
    Nothing,
}

impl Default for CollectionsMessage {
    fn default() -> (r: Self)
        ensures
            r is Nothing,
    {
        CollectionsMessage::Nothing
    }
}

/// How an item of a collection is shown.
#[derive(Debug)]
pub enum CollectionRow {
    /// Its image, its title, its number and its description.
    Known(String, String, String, String),
    Unknown(String),
}

#[verifier::ext_equal]
pub enum RowModel {
    Known(Seq<char>, Seq<char>, Seq<char>, Seq<char>),
    Unknown(Seq<char>),
}

impl View for CollectionRow {
    type V = RowModel;

    open spec fn view(&self) -> RowModel {
        match self {
            CollectionRow::Known(a, b, c, d) => RowModel::Known(a@, b@, c@, d@),
            CollectionRow::Unknown(a) => RowModel::Unknown(a@),
        }
    }
}

/// How an item of a collection is shown.
pub open spec fn row_of(index: ModIndex, id: u32) -> RowModel {
    let key = ModIdModel::Workshop(id);
    let number = decimal_text(id as nat);
    if index.details@.dom().contains(key) && index.details@[key] is Workshop {
        let details = index.details@[key];
        RowModel::Known(
            details->Workshop_0.preview_url@,
            details->Workshop_0.title@,
            number,
            details.description_text(),
        )
    } else {
        RowModel::Unknown(with_brackets("UNKNOWN"@, number))
    }
}

fn make_row(index: &ModIndex, id: u32) -> (r: CollectionRow)
    ensures
        r@ == row_of(*index, id),
{
    let number = decimal(id as u64);
    if let Some(details) = index.details.get(&ModId::Workshop(id)) {
        if let ModDetails::Workshop(file) = details {
            return CollectionRow::Known(
                file.preview_url.clone(),
                file.title.clone(),
                number,
                details.get_description(),
            );
        }
    }
    CollectionRow::Unknown(put_in_brackets("UNKNOWN", number.as_str()))
}

impl Collection {
    /// How the items of the collection are shown, in order.
    pub fn rows(&self, index: &ModIndex) -> (r: Vec<CollectionRow>)
        ensures
            r@.len() == self.items@.len(),
            forall|i: int| 0 <= i < r@.len() ==> (#[trigger] r@[i])@ == row_of(*index, self.items@[i]),
    {
        let mut out: Vec<CollectionRow> = Vec::new();
        let mut i: usize = 0;
        while i < self.items.len()
            invariant
                0 <= i <= self.items@.len(),
                out@.len() == i,
                forall|j: int|
                    0 <= j < i ==> (#[trigger] out@[j])@ == row_of(*index, self.items@[j]),
            decreases self.items@.len() - i,
        {
            out.push(make_row(index, self.items[i]));
            i += 1;
        }
        out
    }

    /// What "Download All" asks for: nothing, where the collection does not come
    /// from the workshop.
    pub fn download_all(&self) -> (r: Option<Vec<u32>>)
        ensures
            match r {
                Some(ids) => self.source is Workshop && ids@ == self.items@,
                None => self.source is Local,
            },
    {
        match self.source {
            CollectionSource::Workshop(_) => Some(self.items.clone()),
            CollectionSource::Local(_) => None,
        }
    }

    /// The mods of the collection.
    pub fn mods(&self) -> (r: Vec<ModId>)
        ensures
            r@.len() == self.items@.len(),
            forall|i: int|
                0 <= i < r@.len() ==> (#[trigger] r@[i]) == ModId::Workshop(self.items@[i]),
    {
        let mut out: Vec<ModId> = Vec::new();
        let mut i: usize = 0;
        while i < self.items.len()
            invariant
                0 <= i <= self.items@.len(),
                out@.len() == i,
                forall|j: int|
                    0 <= j < i ==> (#[trigger] out@[j]) == ModId::Workshop(self.items@[j]),
            decreases self.items@.len() - i,
        {
            out.push(ModId::Workshop(self.items[i]));
            i += 1;
        }
        out
    }
}

} // verus!
