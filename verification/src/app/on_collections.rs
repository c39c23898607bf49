//! What happens when the collections of the workshop are browsed.
use vstd::prelude::*;

use super::modal::AppModal;
use super::state::{nothing, only, Action, App, CollectionsState, Message};
use crate::collections::{Collection, CollectionSource, CollectionsMessage, ImageSource};
use crate::files::ModDetails;
use crate::library::missing::ModIndex;
use crate::xcom_mod::ModId;
#[allow(unused_imports)]
use crate::browser::{at_least_one, toggled, with_period, BrowseModel};
#[allow(unused_imports)]
use crate::web::QueryModel;
#[allow(unused_imports)]
use crate::xcom_mod::ModIdModel;

verus! {

/// Whether nothing but what is browsed of the collections changed.
pub open spec fn only_browsing(a: App, b: App) -> bool {
    b == (App {
        collections: CollectionsState { browse: b.collections.browse, ..a.collections },
        ..a
    })
}

/// Something that showing collections calls for.
#[verifier::ext_equal]
pub enum CollectionWant {
    /// The collection at this place is kept.
    Keep(int),
    Image(Seq<char>),
    Markup(Seq<char>),
}

pub open spec fn is_want(action: Action, want: CollectionWant) -> bool {
    match want {
        CollectionWant::Keep(i) => action matches Action::KeepCollection(k) && k == i,
        CollectionWant::Image(url) => action matches Action::LoadImage(u) && u@ == url,
        CollectionWant::Markup(text) => action matches Action::CacheMarkup(t) && t@ == text,
    }
}

pub open spec fn are_wants(r: Seq<Action>, wants: Seq<CollectionWant>) -> bool {
    &&& r.len() == wants.len()
    &&& forall|i: int| 0 <= i < r.len() ==> is_want(#[trigger] r[i], wants[i])
}

/// What showing a collection calls for.
pub open spec fn wants_of(collection: Collection, i: int, images: Set<Seq<char>>) -> Seq<
    CollectionWant,
> {
    let keep = if collection.source is Workshop {
        seq![CollectionWant::Keep(i)]
    } else {
        Seq::empty()
    };
    let image = match collection.image {
        ImageSource::Web(url) => if url@.len() == 0 || images.contains(url@) {
            Seq::empty()
        } else {
            seq![CollectionWant::Image(url@)]
        },
        ImageSource::Path(_) => Seq::empty(),
    };
    keep + image + seq![CollectionWant::Markup(collection.description@)]
}

pub open spec fn wants_of_all(collections: Seq<Collection>, images: Set<Seq<char>>) -> Seq<
    CollectionWant,
>
    decreases collections.len(),
{
    if collections.len() == 0 {
        Seq::empty()
    } else {
        wants_of_all(collections.drop_last(), images) + wants_of(
            collections.last(),
            collections.len() - 1,
            images,
        )
    }
}

pub open spec fn collections_loaded(
    a: App,
    b: App,
    total: u32,
    collections: Vec<Collection>,
    r: Seq<Action>,
) -> bool {
    &&& b == (App { collections: b.collections, ..a })
    &&& b.collections.loaded_web_collections == collections
    &&& b.collections.browse@ == (BrowseModel {
        page_max: (total as int / a.query_page_size as int + 1) as u32,
        ..a.collections.browse@
    })
    &&& are_wants(r, wants_of_all(collections@, a.images@.dom()))
}

/// The images of items that are not there yet.
pub open spec fn item_images(index: ModIndex, images: Set<Seq<char>>, ids: Seq<u32>) -> Seq<
    CollectionWant,
>
    decreases ids.len(),
{
    if ids.len() == 0 {
        Seq::empty()
    } else {
        let front = item_images(index, images, ids.drop_last());
        let key = ModIdModel::Workshop(ids.last());
        if index.details@.dom().contains(key) && index.details@[key] is Workshop {
            let url = index.details@[key]->Workshop_0.preview_url@;
            if url.len() == 0 || images.contains(url) {
                front
            } else {
                front.push(CollectionWant::Image(url))
            }
        } else {
            front
        }
    }
}

/// The items of which nothing is known.
pub open spec fn unknown_items(index: ModIndex, ids: Seq<u32>) -> Seq<u32>
    decreases ids.len(),
{
    if ids.len() == 0 {
        Seq::empty()
    } else {
        let front = unknown_items(index, ids.drop_last());
        if index.details@.dom().contains(ModIdModel::Workshop(ids.last())) {
            front
        } else {
            front.push(ids.last())
        }
    }
}

pub open spec fn collection_viewed(
    a: App,
    b: App,
    source: CollectionSource,
    items: Option<Vec<u32>>,
    r: Seq<Action>,
) -> bool {
    if source is Workshop && items is Some && a.resolver {
        let ids = items->Some_0@;
        let unknown = unknown_items(a.index, ids);
        let images = item_images(a.index, a.images@.dom(), ids);
        &&& b == (App { modal_stack: b.modal_stack, ..a })
        &&& b.modal_stack@ == a.modal_stack@.push(AppModal::CollectionDetailedView(source))
        &&& if unknown.len() > 0 {
            &&& r.len() > 0
            &&& r[0] matches Action::RequestResolve(n) && n@ == unknown
            &&& are_wants(r.skip(1), images)
        } else {
            are_wants(r, images)
        }
    } else {
        a == b && r.len() == 0
    }
}

/// What browsing the collections does.
pub open spec fn collections_step(
    a: App,
    b: App,
    message: CollectionsMessage,
    r: Seq<Action>,
) -> bool {
    let before = a.collections.browse@;
    let after = b.collections.browse@;
    match message {
        CollectionsMessage::QueryCollectionsLoaded(total, collections) => collections_loaded(
            a,
            b,
            total,
            collections,
            r,
        ),
        CollectionsMessage::SetBrowsePage(page) => {
            &&& only_browsing(a, b)
            &&& after == (BrowseModel { page: at_least_one(page), ..before })
            &&& r == if at_least_one(page) != before.page {
                seq![
                    Action::Send(Message::Collections(CollectionsMessage::BrowseUpdateQuery)),
                ]
            } else {
                Seq::empty()
            }
        },
        CollectionsMessage::BrowseSubmitQuery => {
            &&& only_browsing(a, b)
            &&& after == (BrowseModel { page: 1, ..before })
            &&& r == seq![
                Action::Send(Message::Collections(CollectionsMessage::BrowseUpdateQuery)),
            ]
        },
        CollectionsMessage::BrowseUpdateQuery => {
            &&& a == b
            &&& r.len() == 4
            &&& r[0] == Action::Send(Message::SetBusy(true))
            &&& r[1] matches Action::QueryCollections(key, page, query) && key@ == a.api_key@
                && page == before.page && query@ == before.query
            &&& r[2] == Action::ResetScroll
            &&& r[3] == Action::Send(Message::SetBusy(false))
        },
        CollectionsMessage::BrowseEditQuery(text) => {
            &&& only_browsing(a, b)
            &&& after == (BrowseModel {
                query: QueryModel { query: text@, ..before.query },
                ..before
            })
            &&& r.len() == 0
        },
        CollectionsMessage::BrowseEditSort(sort) => {
            &&& only_browsing(a, b)
            &&& after == (BrowseModel { query: QueryModel { sort, ..before.query }, ..before })
            &&& r.len() == 0
        },
        CollectionsMessage::BrowseEditPeriod(period) => {
            &&& only_browsing(a, b)
            &&& after == (BrowseModel {
                period,
                query: QueryModel {
                    sort: with_period(before.query.sort, period),
                    ..before.query
                },
                ..before
            })
            &&& r.len() == 0
        },
        CollectionsMessage::BrowseEditTag(tag) => {
            &&& only_browsing(a, b)
            &&& after == (BrowseModel {
                query: QueryModel { tags: toggled(before.query.tags, tag@), ..before.query },
                ..before
            })
            &&& r.len() == 0
        },
        CollectionsMessage::BrowseToggleTagsDropdown(open) => {
            &&& only_browsing(a, b)
            &&& after == (BrowseModel { tags_open: open, ..before })
            &&& r.len() == 0
        },
        CollectionsMessage::SetViewingCollection(source, items) => collection_viewed(
            a,
            b,
            source,
            items,
            r,
        ),
        CollectionsMessage::Nothing => a == b && r.len() == 0,
    }
}

fn push_wants(out: &mut Vec<Action>, collection: &Collection, i: usize, app: &App)
    ensures
        final(out)@.len() == old(out)@.len() + wants_of(
            *collection,
            i as int,
            app.images@.dom(),
        ).len(),
        final(out)@.take(old(out)@.len() as int) == old(out)@,
        are_wants(
            final(out)@.skip(old(out)@.len() as int),
            wants_of(*collection, i as int, app.images@.dom()),
        ),
{
    let ghost start = out@;
    let ghost n = start.len() as int;
    if let CollectionSource::Workshop(_) = collection.source {
        out.push(Action::KeepCollection(i));
    }
    if let ImageSource::Web(url) = &collection.image {
        if !url.as_str().is_empty() && !app.images.contains(url) {
            out.push(Action::LoadImage(url.clone()));
        }
    }
    out.push(Action::CacheMarkup(collection.description.clone()));
    proof {
        let wants = wants_of(*collection, i as int, app.images@.dom());
        assert(out@.take(n) =~= start);
        assert(out@.len() == n + wants.len());
        let added = out@.skip(n);
        assert forall|k: int| 0 <= k < added.len() implies is_want(#[trigger] added[k], wants[k]) by {
            assert(added[k] == out@[n + k]);
        }
    }
}

impl App {
    fn collections_loaded(&mut self, total: u32, collections: Vec<Collection>) -> (r: Vec<Action>)
        requires
            old(self).query_page_size > 1,
        ensures
            collections_loaded(*old(self), *final(self), total, collections, r@),
    {
        let ghost images = self.images@.dom();
        let mut out: Vec<Action> = Vec::new();
        let mut i: usize = 0;
        while i < collections.len()
            invariant
                0 <= i <= collections@.len(),
                *self == *old(self),
                images == self.images@.dom(),
                are_wants(out@, wants_of_all(collections@.take(i as int), images)),
            decreases collections@.len() - i,
        {
            let ghost before = out@;
            proof {
                assert(collections@.take(i + 1).drop_last() =~= collections@.take(i as int));
                assert(collections@.take(i + 1).last() == collections@[i as int]);
            }
            push_wants(&mut out, &collections[i], i, self);
            proof {
                let n = before.len() as int;
                let front = wants_of_all(collections@.take(i as int), images);
                let more = wants_of(collections@[i as int], i as int, images);
                let all = front + more;
                assert forall|k: int| 0 <= k < out@.len() implies is_want(#[trigger] out@[k], all[k]) by {
                    if k < n {
                        assert(out@.take(n)[k] == out@[k]);
                        assert(is_want(before[k], front[k]));
                    } else {
                        assert(out@.skip(n)[k - n] == out@[k]);
                        assert(is_want(out@.skip(n)[k - n], more[k - n]));
                    }
                }
            }
            i += 1;
        }
        assert(collections@.take(i as int) =~= collections@);
        self.collections.loaded_web_collections = collections;
        self.collections.browse.loaded(total, self.query_page_size);
        out
    }

    fn view_collection(&mut self, source: CollectionSource, items: Option<Vec<u32>>) -> (r: Vec<
        Action,
    >)
        ensures
            collection_viewed(*old(self), *final(self), source, items, r@),
    {
        if !self.resolver {
            return nothing();
        }
        match source {
            CollectionSource::Local(_) => return nothing(),
            CollectionSource::Workshop(_) => {},
        }
        let ids: Vec<u32> = match items {
            None => return nothing(),
            Some(ids) => ids,
        };
        let ghost images = self.images@.dom();
        let mut unknown: Vec<u32> = Vec::new();
        let mut shown: Vec<Action> = Vec::new();
        let mut i: usize = 0;
        while i < ids.len()
            invariant
                0 <= i <= ids@.len(),
                *self == *old(self),
                images == self.images@.dom(),
                unknown@ == unknown_items(self.index, ids@.take(i as int)),
                are_wants(shown@, item_images(self.index, images, ids@.take(i as int))),
            decreases ids@.len() - i,
        {
            proof {
                assert(ids@.take(i + 1).drop_last() =~= ids@.take(i as int));
                assert(ids@.take(i + 1).last() == ids@[i as int]);
            }
            match self.index.details.get(&ModId::Workshop(ids[i])) {
                Some(details) => {
                    if let ModDetails::Workshop(info) = details {
                        if !info.preview_url.as_str().is_empty() && !self.images.contains(
                            &info.preview_url,
                        ) {
                            shown.push(Action::LoadImage(info.preview_url.clone()));
                        }
                    }
                },
                None => {
                    unknown.push(ids[i]);
                },
            }
            i += 1;
        }
        assert(ids@.take(i as int) =~= ids@);
        self.modal_stack.push(AppModal::CollectionDetailedView(source));
        if unknown.len() > 0 {
            let ghost wanted = shown@;
            let mut out = only(Action::RequestResolve(unknown));
            out.append(&mut shown);
            assert(out@.skip(1) =~= wanted);
            out
        } else {
            shown
        }
    }

    /// Browses the collections.
    pub fn update_collections(&mut self, message: CollectionsMessage) -> (r: Vec<Action>)
        requires
            message is QueryCollectionsLoaded ==> old(self).query_page_size > 1,
        ensures
            collections_step(*old(self), *final(self), message, r@),
    {
        match message {
            CollectionsMessage::QueryCollectionsLoaded(
                total,
                collections,
            ) => self.collections_loaded(total, collections),
            CollectionsMessage::SetBrowsePage(page) => {
                if self.collections.browse.set_page(page) {
                    only(
                        Action::Send(Message::Collections(CollectionsMessage::BrowseUpdateQuery)),
                    )
                } else {
                    nothing()
                }
            },
            CollectionsMessage::BrowseSubmitQuery => {
                self.collections.browse.submit();
                only(Action::Send(Message::Collections(CollectionsMessage::BrowseUpdateQuery)))
            },
            CollectionsMessage::BrowseUpdateQuery => vec![
                Action::Send(Message::SetBusy(true)),
                Action::QueryCollections(
                    self.api_key.clone(),
                    self.collections.browse.browsing_page,
                    self.collections.browse.browsing_query.copy(),
                ),
                Action::ResetScroll,
                Action::Send(Message::SetBusy(false)),
            ],
            CollectionsMessage::BrowseEditQuery(text) => {
                self.collections.browse.edit_query(text);
                nothing()
            },
            CollectionsMessage::BrowseEditSort(sort) => {
                self.collections.browse.edit_sort(sort);
                nothing()
            },
            CollectionsMessage::BrowseEditPeriod(period) => {
                self.collections.browse.edit_period(period);
                nothing()
            },
            CollectionsMessage::BrowseEditTag(tag) => {
                self.collections.browse.edit_tag(tag);
                nothing()
            },
            CollectionsMessage::BrowseToggleTagsDropdown(open) => {
                self.collections.browse.toggle_tags(open);
                nothing()
            },
            CollectionsMessage::SetViewingCollection(source, items) => self.view_collection(
                source,
                items,
            ),
            CollectionsMessage::Nothing => nothing(),
        }
    }
}

/// Whether something is among what is to be done.
pub open spec fn is_done(r: Seq<Action>, want: CollectionWant) -> bool {
    exists|i: int| 0 <= i < r.len() && is_want(#[trigger] r[i], want)
}

proof fn lemma_wants_are_done(r: Seq<Action>, wants: Seq<CollectionWant>, want: CollectionWant)
    requires
        are_wants(r, wants),
        wants.contains(want),
    ensures
        is_done(r, want),
{
    let i = choose|i: int| 0 <= i < wants.len() && wants[i] == want;
    assert(is_want(r[i], want));
}

proof fn lemma_wants_of_each(
    collections: Seq<Collection>,
    images: Set<Seq<char>>,
    k: int,
    want: CollectionWant,
)
    requires
        0 <= k < collections.len(),
        wants_of(collections[k], k, images).contains(want),
    ensures
        wants_of_all(collections, images).contains(want),
    decreases collections.len(),
{
    let front = wants_of_all(collections.drop_last(), images);
    let last = wants_of(collections.last(), collections.len() - 1, images);
    let all = wants_of_all(collections, images);
    if k == collections.len() - 1 {
        let i = choose|i: int| 0 <= i < last.len() && last[i] == want;
        assert(all[front.len() + i] == want);
    } else {
        lemma_wants_of_each(collections.drop_last(), images, k, want);
        let i = choose|i: int| 0 <= i < front.len() && front[i] == want;
        assert(all[i] == want);
    }
}

/// All that is needed to show collections that were loaded is asked for: each is kept that is of
/// the workshop, each image is loaded that is not there yet, and each description is made ready.
/// There are as many pages as hold everything that was found.
#[verifier::spinoff_prover]
pub proof fn loaded_collections_are_shown(
    a: App,
    b: App,
    total: u32,
    collections: Vec<Collection>,
    r: Seq<Action>,
    k: int,
)
    requires
        a.query_page_size > 1,
        collections_step(a, b, CollectionsMessage::QueryCollectionsLoaded(total, collections), r),
        0 <= k < collections@.len(),
    ensures
        b.collections.loaded_web_collections@ == collections@,
        collections@[k].source is Workshop ==> is_done(r, CollectionWant::Keep(k)),
        is_done(r, CollectionWant::Markup(collections@[k].description@)),
        collections@[k].image matches ImageSource::Web(url) ==> url@.len() == 0
            || a.images@.dom().contains(url@) || is_done(r, CollectionWant::Image(url@)),
        b.collections.browse@.page_max * a.query_page_size > total,
        (b.collections.browse@.page_max - 1) * a.query_page_size <= total,
{
    let images = a.images@.dom();
    let one = collections@[k];
    let wants = wants_of(one, k, images);
    let all = wants_of_all(collections@, images);
    let markup = CollectionWant::Markup(one.description@);
    assert(wants[wants.len() - 1] == markup);
    lemma_wants_of_each(collections@, images, k, markup);
    lemma_wants_are_done(r, all, markup);
    if one.source is Workshop {
        assert(wants[0] == CollectionWant::Keep(k));
        lemma_wants_of_each(collections@, images, k, CollectionWant::Keep(k));
        lemma_wants_are_done(r, all, CollectionWant::Keep(k));
    }
    if let ImageSource::Web(url) = one.image {
        if url@.len() > 0 && !images.contains(url@) {
            let image = CollectionWant::Image(url@);
            assert(wants[wants.len() - 2] == image);
            lemma_wants_of_each(collections@, images, k, image);
            lemma_wants_are_done(r, all, image);
        }
    }
    let size = a.query_page_size as int;
    let pages = total as int / size;
    assert(pages * size <= total && total < (pages + 1) * size && pages + 1 <= u32::MAX)
        by (nonlinear_arith)
        requires
            size > 1,
            pages == total as int / size,
    ;
}

proof fn lemma_unknown(index: ModIndex, ids: Seq<u32>, id: u32)
    ensures
        unknown_items(index, ids).contains(id) <==> ids.contains(id)
            && !index.details@.dom().contains(ModIdModel::Workshop(id)),
    decreases ids.len(),
{
    let all = unknown_items(index, ids);
    if ids.len() > 0 {
        let fewer = ids.drop_last();
        lemma_unknown(index, fewer, id);
        let front = unknown_items(index, fewer);
        assert(ids[ids.len() - 1] == ids.last());
        if fewer.contains(id) {
            let i = choose|i: int| 0 <= i < fewer.len() && fewer[i] == id;
            assert(ids[i] == id);
        }
        if ids.contains(id) {
            let i = choose|i: int| 0 <= i < ids.len() && ids[i] == id;
            if i < fewer.len() {
                assert(fewer[i] == id);
            }
        }
        if front.contains(id) {
            let i = choose|i: int| 0 <= i < front.len() && front[i] == id;
            assert(all[i] == id);
        }
        if all.contains(id) {
            let i = choose|i: int| 0 <= i < all.len() && all[i] == id;
            if i < front.len() {
                assert(front[i] == id);
            }
        }
        if all.len() > front.len() {
            assert(all[front.len() as int] == ids.last());
        }
    }
}

/// Viewing a collection of the workshop looks up exactly those of its items that nothing is known
/// of.
pub proof fn unknown_items_are_looked_up(
    a: App,
    b: App,
    source: CollectionSource,
    items: Vec<u32>,
    r: Seq<Action>,
    id: u32,
)
    requires
        collections_step(a, b, CollectionsMessage::SetViewingCollection(source, Some(items)), r),
        source is Workshop,
        a.resolver,
    ensures
        (exists|i: int|
            0 <= i < r.len() && (#[trigger] r[i] matches Action::RequestResolve(n) && n@.contains(
                id,
            ))) <==> items@.contains(id) && !a.index.details@.dom().contains(
            ModIdModel::Workshop(id),
        ),
        b.modal_stack@.len() > 0 && b.modal_stack@.last() == AppModal::CollectionDetailedView(
            source,
        ),
{
    let unknown = unknown_items(a.index, items@);
    let images = item_images(a.index, a.images@.dom(), items@);
    lemma_unknown(a.index, items@, id);
    lemma_only_images(a.index, a.images@.dom(), items@);
    if unknown.len() > 0 {
        let rest = r.skip(1);
        assert forall|i: int| 1 <= i < r.len() implies !(#[trigger] r[i] is RequestResolve) by {
            assert(rest[i - 1] == r[i]);
            assert(is_want(rest[i - 1], images[i - 1]));
        }
        assert(r[0] is RequestResolve);
    } else {
        assert forall|i: int| 0 <= i < r.len() implies !(#[trigger] r[i] is RequestResolve) by {
            assert(is_want(r[i], images[i]));
        }
    }
}

proof fn lemma_only_images(index: ModIndex, images: Set<Seq<char>>, ids: Seq<u32>)
    ensures
        forall|i: int|
            0 <= i < item_images(index, images, ids).len() ==> (#[trigger] item_images(
                index,
                images,
                ids,
            )[i]) is Image,
    decreases ids.len(),
{
    if ids.len() > 0 {
        lemma_only_images(index, images, ids.drop_last());
    }
}

} // verus!
