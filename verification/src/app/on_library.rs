//! What happens to the library.
use vstd::prelude::*;

use super::modal::AppModal;
use super::on_modal::pop_modal;
use super::state::{busy_message, nothing, only, show_error, Action, App, AppPage, Message};
use crate::library::profile::{Profile, ProfileSettings};
use crate::library::{Library, LibraryItemSettings};
use crate::table::{Table, TableKey};
use crate::xcom_mod::ModId;
#[allow(unused_imports)]
use super::on_login::download_action;
#[allow(unused_imports)]
use super::on_modal::popped;
#[allow(unused_imports)]
use super::state::{is_busy_message, only_error};
#[allow(unused_imports)]
use crate::library::profile::id_models;
#[allow(unused_imports)]
use crate::library::{picked, row_keys, workshop_ids, ItemModel};
#[allow(unused_imports)]
use crate::xcom_mod::ModIdModel;

verus! {

/// Whether nothing but the mods of the library changed.
pub open spec fn only_items(a: App, b: App) -> bool {
    &&& b == (App { library: Library { items: b.library.items, ..a.library }, ..a })
    &&& row_keys(b.library.items.rows()) == row_keys(a.library.items.rows())
}

/// Where the entered query cannot be searched for, nothing changes.
pub open spec fn all_toggled(a: App, b: App, selected: bool) -> bool {
    if a.library.filter_takes_all(a.library.filter()) {
        &&& only_items(a, b)
        &&& b.library.all() == Seq::new(
            a.library.all().len(),
            |i: int|
                if a.library.filter().lets_through(a.library.all()[i]) {
                    ItemModel { selected, ..a.library.all()[i] }
                } else {
                    a.library.all()[i]
                },
        )
    } else {
        a == b
    }
}

pub open spec fn item_toggled(a: App, b: App, id: ModIdModel, selected: bool) -> bool {
    &&& only_items(a, b)
    &&& b.library.all() == Seq::new(
        a.library.all().len(),
        |i: int|
            if row_keys(a.library.items.rows())[i] == id {
                ItemModel { selected, ..a.library.all()[i] }
            } else {
                a.library.all()[i]
            },
    )
}

/// The library after its query changed: what the query does not let through is no
/// longer selected. Where the query cannot be searched for, the selection stays.
pub open spec fn filter_changed(a: Library, b: Library) -> bool {
    &&& row_keys(b.items.rows()) == row_keys(a.items.rows())
    &&& if a.filter_takes_all(a.filter()) {
        b.all() == Seq::new(
            a.all().len(),
            |i: int|
                ItemModel {
                    selected: a.all()[i].selected && a.filter().lets_through(a.all()[i]),
                    ..a.all()[i]
                },
        )
    } else {
        b.items == a.items
    }
}

pub open spec fn query_changed(a: App, b: App, query: String) -> bool {
    &&& b == (App {
        library: Library { items: b.library.items, filter_query: query, ..a.library },
        ..a
    })
    &&& filter_changed(Library { filter_query: query, ..a.library }, b.library)
}

pub open spec fn fuzzy_changed(a: App, b: App, fuzzy: bool) -> bool {
    &&& b == (App {
        library: Library { items: b.library.items, filter_fuzzy: fuzzy, ..a.library },
        ..a
    })
    &&& filter_changed(Library { filter_fuzzy: fuzzy, ..a.library }, b.library)
}

/// The numbers of the mods of the library that come from the workshop.
pub open spec fn library_ids(a: App) -> Seq<u32> {
    workshop_ids(row_keys(a.library.items.rows()))
}

pub open spec fn update_requested(a: App, b: App, r: Seq<Action>) -> bool {
    if !a.login.logged_in {
        a == b && only_error(r, "Error"@, "You must log in to steamcmd in order to update!"@)
    } else {
        let m = a.downloads@.appended(library_ids(a));
        &&& b == (App { downloads: b.downloads, ..a })
        &&& b.downloads@ == m.queued(true)
        &&& r == download_action(m.next(true), a.settings.automatic_download_retries)
    }
}

/// The items of which it is asked whether they are outdated: those that are
/// neither being downloaded, nor wait for it, nor were found to be outdated.
pub open spec fn to_check(a: App, ids: Seq<u32>) -> Seq<u32>
    decreases ids.len(),
{
    if ids.len() == 0 {
        Seq::empty()
    } else {
        let front = to_check(a, ids.drop_last());
        if a.downloads@.is_downloading(ids.last()) || a.downloads@.pending.dom().contains(
            ids.last(),
        ) {
            front
        } else {
            front.push(ids.last())
        }
    }
}

pub open spec fn outdated_asked(a: App, ids: Seq<u32>, r: Seq<Action>) -> bool {
    &&& r.len() == 3
    &&& is_busy_message(r[0], "Checking for Outdated Mods..."@)
    &&& r[1] matches Action::CheckOutdated(key, n) && key@ == a.api_key@ && n@ == ids
    &&& r[2] == Action::Send(Message::SetBusy(false))
}

pub open spec fn outdated_found(a: App, b: App, found: Seq<(u32, u64)>, r: Seq<Action>) -> bool {
    if found.len() == 0 {
        a == b && only_error(
            r,
            "No Updates"@,
            "All mods that aren't downloading are up to date!"@,
        )
    } else {
        &&& b == (App { downloads: b.downloads, ..a })
        &&& b.downloads@ == a.downloads@.outdated(found)
        &&& r == seq![Action::Send(Message::SetPage(AppPage::Downloads))]
    }
}

/// Profiles of which each is selected for mods to be added, or none is.
pub open spec fn profiles_selected(
    before: Seq<(Seq<char>, Profile)>,
    after: Seq<(Seq<char>, Profile)>,
    selected: bool,
) -> bool {
    after == Seq::new(
        before.len(),
        |i: int| (before[i].0, Profile { add_selected: selected, ..before[i].1 }),
    )
}

pub open spec fn selected_ids(items: Seq<ItemModel>) -> Seq<ModIdModel>
    decreases items.len(),
{
    if items.len() == 0 {
        Seq::empty()
    } else {
        let front = selected_ids(items.drop_last());
        if items.last().selected {
            front.push(items.last().id)
        } else {
            front
        }
    }
}

pub open spec fn add_requested(a: App, b: App) -> bool {
    &&& b == (App { modal_stack: b.modal_stack, profiles: b.profiles, ..a })
    &&& profiles_selected(a.profiles.rows(), b.profiles.rows(), false)
    &&& b.modal_stack@.len() == a.modal_stack@.len() + 1
    &&& b.modal_stack@.drop_last() == a.modal_stack@
    &&& b.modal_stack@.last() matches AppModal::AddToProfileRequest(ids) && id_models(ids@)
        == selected_ids(a.library.all())
}

pub open spec fn one_selected(a: App, b: App, name: Seq<char>, selected: bool) -> bool {
    &&& b == (App { profiles: b.profiles, ..a })
    &&& b.profiles.rows() == Seq::new(
        a.profiles.rows().len(),
        |i: int|
            if a.profiles.rows()[i].0 == name {
                (
                    a.profiles.rows()[i].0,
                    Profile { add_selected: selected, ..a.profiles.rows()[i].1 },
                )
            } else {
                a.profiles.rows()[i]
            },
    )
}

/// The mods of a profile with others added. One that it has keeps its settings.
pub open spec fn with_mods(
    items: Map<ModIdModel, LibraryItemSettings>,
    ids: Seq<ModIdModel>,
) -> Map<ModIdModel, LibraryItemSettings>
    decreases ids.len(),
{
    if ids.len() == 0 {
        items
    } else {
        let front = with_mods(items, ids.drop_last());
        if front.dom().contains(ids.last()) {
            front
        } else {
            front.insert(ids.last(), LibraryItemSettings { enabled: true })
        }
    }
}

/// A profile with mods added, where it is selected for that.
pub open spec fn mods_added(before: Profile, after: Profile, ids: Seq<ModIdModel>) -> bool {
    if before.add_selected {
        &&& after == (Profile { items: after.items, ..before })
        &&& after.items@ == with_mods(before.items@, ids)
    } else {
        after == before
    }
}

/// What changed profiles call for: it is found out what their mods stand for, and
/// they are written.
pub open spec fn added_actions(rows: Seq<(Seq<char>, Profile)>) -> Seq<(bool, Seq<char>)>
    decreases rows.len(),
{
    if rows.len() == 0 {
        Seq::empty()
    } else {
        let front = added_actions(rows.drop_last());
        if rows.last().1.add_selected {
            front.push((false, rows.last().0)).push((true, rows.last().0))
        } else {
            front
        }
    }
}

/// Whether an action finds out what the mods of a profile stand for, or writes
/// the profile.
pub open spec fn is_profile_action(action: Action, what: (bool, Seq<char>)) -> bool {
    if what.0 {
        action matches Action::SaveProfile(name, added) && name@ == what.1 && added
    } else {
        action matches Action::FindProvided(name) && name@ == what.1
    }
}

pub open spec fn are_profile_actions(r: Seq<Action>, what: Seq<(bool, Seq<char>)>) -> bool {
    &&& r.len() == what.len()
    &&& forall|i: int| 0 <= i < r.len() ==> is_profile_action(#[trigger] r[i], what[i])
}

pub open spec fn add_confirmed(a: App, b: App, ids: Seq<ModIdModel>, r: Seq<Action>) -> bool {
    &&& b == (App { modal_stack: b.modal_stack, profiles: b.profiles, ..a })
    &&& b.modal_stack@ == popped(a.modal_stack@)
    &&& b.profiles.rows().len() == a.profiles.rows().len()
    &&& forall|i: int|
        0 <= i < a.profiles.rows().len() ==> {
            &&& (#[trigger] b.profiles.rows()[i]).0 == a.profiles.rows()[i].0
            &&& mods_added(a.profiles.rows()[i].1, b.profiles.rows()[i].1, ids)
        }
    &&& are_profile_actions(r, added_actions(a.profiles.rows()))
}

pub open spec fn delete_each(ids: Seq<u32>) -> Seq<Action> {
    Seq::new(ids.len(), |i: int| Action::Send(Message::DeleteRequested(ids[i])))
}

pub open spec fn delete_confirmed(a: App, b: App, r: Seq<Action>) -> bool {
    &&& b == (App { modal_stack: b.modal_stack, ..a })
    &&& b.modal_stack@ == popped(a.modal_stack@)
    &&& r == delete_each(library_ids(a))
}

fn no_profile() -> (r: Profile) {
    Profile::new(
        String::new(),
        ProfileSettings {
            automatic_snapshot_on_apply: false,
            automatic_snapshot_on_launch: false,
            automatic_snapshot_incremental: false,
            automatic_snapshot_number_limit: 0,
            automatic_snapshot_size_limit: 0,
        },
    )
}

/// Takes a profile out of its row, which is to be filled again.
pub(crate) fn take_profile(profiles: &mut Table<String, Profile>, i: usize) -> (r: Profile)
    requires
        i < old(profiles).rows().len(),
    ensures
        r == old(profiles).rows()[i as int].1,
        final(profiles).rows() == old(profiles).rows().update(
            i as int,
            (old(profiles).rows()[i as int].0, final(profiles).rows()[i as int].1),
        ),
        final(profiles)@.dom() == old(profiles)@.dom().insert(old(profiles).rows()[i as int].0),
        forall|k: Seq<char>|
            k != old(profiles).rows()[i as int].0 && old(profiles)@.dom().contains(k)
                ==> #[trigger] final(profiles)@[k] == old(profiles)@[k],
{
    profiles.set_value_at(i, no_profile())
}

fn select_profiles(profiles: &mut Table<String, Profile>, selected: bool)
    ensures
        profiles_selected(old(profiles).rows(), final(profiles).rows(), selected),
{
    let n = profiles.len();
    let ghost start = profiles.rows();
    let mut i: usize = 0;
    while i < n
        invariant
            0 <= i <= n,
            start == old(profiles).rows(),
            n == start.len(),
            profiles.rows().len() == n,
            forall|k: int| i <= k < n ==> #[trigger] profiles.rows()[k] == start[k],
            forall|k: int|
                0 <= k < i ==> #[trigger] profiles.rows()[k] == (
                    start[k].0,
                    Profile { add_selected: selected, ..start[k].1 },
                ),
        decreases n - i,
    {
        assert(profiles.rows()[i as int] == start[i as int]);
        let mut profile = take_profile(profiles, i);
        profile.add_selected = selected;
        let hole = profiles.set_value_at(i, profile);
        i += 1;
    }
    assert(profiles.rows() =~= Seq::new(
        start.len(),
        |i: int| (start[i].0, Profile { add_selected: selected, ..start[i].1 }),
    ));
}

fn add_mods(items: &mut Table<ModId, LibraryItemSettings>, ids: &Vec<ModId>)
    ensures
        final(items)@ == with_mods(old(items)@, id_models(ids@)),
{
    let ghost all = id_models(ids@);
    let mut i: usize = 0;
    while i < ids.len()
        invariant
            0 <= i <= ids@.len(),
            all == id_models(ids@),
            items@ == with_mods(old(items)@, all.take(i as int)),
        decreases ids@.len() - i,
    {
        proof {
            assert(all.take(i + 1).drop_last() =~= all.take(i as int));
            assert(all.take(i + 1).last() == ids@[i as int]@);
        }
        if !items.contains(&ids[i]) {
            items.insert(ids[i].copy_key(), LibraryItemSettings { enabled: true });
        }
        i += 1;
    }
    assert(all.take(i as int) =~= all);
}

impl App {
    /// All mods that are shown are selected, or none is.
    pub fn library_toggle_all(&mut self, selected: bool)
        ensures
            all_toggled(*old(self), *final(self), selected),
    {
        let method = self.library.get_filter_method();
        if self.library.filter_ready(&method) {
            self.library.iter_filtered_mut(selected);
        }
    }

    /// A mod is selected, or is not any more.
    pub fn library_toggle_item(&mut self, id: &ModId, selected: bool)
        ensures
            item_toggled(*old(self), *final(self), id@, selected),
    {
        self.library.select_item(id, selected);
    }

    /// The mods that are shown are to be picked by another query.
    pub fn library_filter_update_query(&mut self, query: String)
        ensures
            query_changed(*old(self), *final(self), query),
    {
        self.library.filter_query = query;
        let method = self.library.get_filter_method();
        if self.library.filter_ready(&method) {
            self.library.update_selected_filtered();
        }
    }

    /// The query is to be searched for in another way.
    pub fn library_filter_toggle_fuzzy(&mut self, fuzzy: bool)
        ensures
            fuzzy_changed(*old(self), *final(self), fuzzy),
    {
        self.library.filter_fuzzy = fuzzy;
        let method = self.library.get_filter_method();
        if self.library.filter_ready(&method) {
            self.library.update_selected_filtered();
        }
    }

    /// The mods are to be downloaded again.
    pub fn library_update_request(&mut self) -> (r: Vec<Action>)
        ensures
            update_requested(*old(self), *final(self), r@),
    {
        if !self.login.logged_in {
            return show_error("Error", "You must log in to steamcmd in order to update!");
        }
        let ids = self.library.iter_workshop_id_selected();
        match self.downloads.append(&ids, true) {
            Some(id) => only(Action::Download(id, self.settings.automatic_download_retries)),
            None => nothing(),
        }
    }

    fn ask_outdated(&self, ids: Vec<u32>) -> (r: Vec<Action>)
        ensures
            outdated_asked(*self, ids@, r@),
    {
        vec![
            busy_message("Checking for Outdated Mods..."),
            Action::CheckOutdated(self.api_key.clone(), ids),
            Action::Send(Message::SetBusy(false)),
        ]
    }

    /// It is to be found out which mods are outdated.
    pub fn library_check_outdated_request(&self) -> (r: Vec<Action>)
        ensures
            outdated_asked(*self, to_check(*self, library_ids(*self)), r@),
    {
        let all = self.library.iter_workshop_id_selected();
        let mut ids: Vec<u32> = Vec::new();
        let mut i: usize = 0;
        while i < all.len()
            invariant
                0 <= i <= all@.len(),
                ids@ == to_check(*self, all@.take(i as int)),
            decreases all@.len() - i,
        {
            proof {
                assert(all@.take(i + 1).drop_last() =~= all@.take(i as int));
                assert(all@.take(i + 1).last() == all@[i as int]);
            }
            let id: u32 = all[i];
            if !self.downloads.is_downloading(id) && !self.downloads.pending_queue.contains(&id) {
                ids.push(id);
            }
            i += 1;
        }
        assert(all@.take(i as int) =~= all@);
        self.ask_outdated(ids)
    }

    /// It is to be found out of all mods whether they are outdated.
    pub fn library_force_check_outdated(&self) -> (r: Vec<Action>)
        ensures
            outdated_asked(*self, library_ids(*self), r@),
    {
        let ids = self.library.iter_workshop_id_selected();
        self.ask_outdated(ids)
    }

    /// It is known which mods are outdated, and when they were updated.
    pub fn check_outdated_completed(&mut self, found: &Vec<(u32, u64)>) -> (r: Vec<Action>)
        ensures
            outdated_found(*old(self), *final(self), found@, r@),
    {
        if found.len() == 0 {
            return show_error("No Updates", "All mods that aren't downloading are up to date!");
        }
        self.downloads.note_outdated(found);
        only(Action::Send(Message::SetPage(AppPage::Downloads)))
    }

    /// The selected mods are to be added to profiles.
    pub fn library_add_to_profile_request(&mut self)
        ensures
            add_requested(*old(self), *final(self)),
    {
        let ghost start = self.modal_stack@;
        select_profiles(&mut self.profiles, false);
        let mut ids: Vec<ModId> = Vec::new();
        let n = self.library.items.len();
        let ghost all = self.library.all();
        let mut i: usize = 0;
        assert(id_models(ids@) =~= selected_ids(all.take(0)));
        while i < n
            invariant
                0 <= i <= n,
                n == self.library.items.rows().len(),
                all == self.library.all(),
                id_models(ids@) == selected_ids(all.take(i as int)),
            decreases n - i,
        {
            let item = self.library.items.value_at(i);
            proof {
                assert(all.take(i + 1).drop_last() =~= all.take(i as int));
                assert(all.take(i + 1).last() == item@);
            }
            let ghost before = id_models(ids@);
            if item.selected {
                let id = item.id.copy_key();
                let ghost view = id@;
                ids.push(id);
                assert(id_models(ids@) =~= before.push(view));
            }
            i += 1;
        }
        assert(all.take(i as int) =~= all);
        self.modal_stack.push(AppModal::AddToProfileRequest(ids));
        assert(self.modal_stack@.drop_last() =~= start);
    }

    /// All profiles are selected for mods to be added, or none is.
    pub fn library_add_to_profile_toggle_all(&mut self, selected: bool)
        ensures
            *final(self) == (App { profiles: final(self).profiles, ..*old(self) }),
            profiles_selected(old(self).profiles.rows(), final(self).profiles.rows(), selected),
    {
        select_profiles(&mut self.profiles, selected);
    }

    /// A profile is selected for mods to be added, or is not any more.
    pub fn library_add_to_profile_toggled(&mut self, name: &String, selected: bool)
        ensures
            one_selected(*old(self), *final(self), name@, selected),
    {
        let ghost rows = self.profiles.rows();
        let n = self.profiles.len();
        let found = self.profiles.find(name);
        match found {
            Some(i) => {
                let mut profile = take_profile(&mut self.profiles, i);
                profile.add_selected = selected;
                let hole = self.profiles.set_value_at(i, profile);
                proof {
                    lemma_one_row::<String, Profile>(rows, i as int);
                }
            },
            None => {
                assert forall|k: int| 0 <= k < rows.len() implies (#[trigger] rows[k]).0 != name@ by {
                    crate::table::lemma_row_is_value::<String, Profile>(rows, k);
                }
            },
        }
        assert(self.profiles.rows() =~= Seq::new(
            rows.len(),
            |i: int|
                if rows[i].0 == name@ {
                    (rows[i].0, Profile { add_selected: selected, ..rows[i].1 })
                } else {
                    rows[i]
                },
        ));
    }

    /// The mods are added to the selected profiles.
    pub fn library_add_to_profile_confirm(&mut self, ids: &Vec<ModId>) -> (r: Vec<Action>)
        ensures
            add_confirmed(*old(self), *final(self), id_models(ids@), r@),
    {
        let ghost models = id_models(ids@);
        let n = self.profiles.len();
        let ghost start = self.profiles.rows();
        let mut out: Vec<Action> = Vec::new();
        let mut i: usize = 0;
        while i < n
            invariant
                0 <= i <= n,
                *self == (App { profiles: self.profiles, ..*old(self) }),
                start == old(self).profiles.rows(),
                models == id_models(ids@),
                n == start.len(),
                self.profiles.rows().len() == n,
                forall|k: int| i <= k < n ==> #[trigger] self.profiles.rows()[k] == start[k],
                forall|k: int|
                    0 <= k < i ==> {
                        &&& (#[trigger] self.profiles.rows()[k]).0 == start[k].0
                        &&& mods_added(start[k].1, self.profiles.rows()[k].1, models)
                    },
                are_profile_actions(out@, added_actions(start.take(i as int))),
            decreases n - i,
        {
            assert(self.profiles.rows()[i as int] == start[i as int]);
            proof {
                assert(start.take(i + 1).drop_last() =~= start.take(i as int));
                assert(start.take(i + 1).last() == start[i as int]);
            }
            if self.profiles.value_at(i).add_selected {
                let name = self.profiles.key_at(i).clone();
                let mut profile = take_profile(&mut self.profiles, i);
                add_mods(&mut profile.items, ids);
                let hole = self.profiles.set_value_at(i, profile);
                out.push(Action::FindProvided(name.clone()));
                out.push(Action::SaveProfile(name, true));
            }
            i += 1;
        }
        assert(start.take(i as int) =~= start);
        pop_modal(&mut self.modal_stack);
        out
    }

    /// The mods are to be deleted.
    pub fn library_delete_confirm(&mut self) -> (r: Vec<Action>)
        ensures
            delete_confirmed(*old(self), *final(self), r@),
    {
        pop_modal(&mut self.modal_stack);
        let ids = self.library.iter_workshop_id_selected();
        let mut out: Vec<Action> = Vec::new();
        let mut i: usize = 0;
        while i < ids.len()
            invariant
                0 <= i <= ids@.len(),
                out@.len() == i,
                forall|j: int| 0 <= j < i ==> #[trigger] out@[j] == delete_each(ids@)[j],
            decreases ids@.len() - i,
        {
            out.push(Action::Send(Message::DeleteRequested(ids[i])));
            i += 1;
        }
        assert(out@ =~= delete_each(ids@));
        out
    }
}

/// In a table no two rows have the same key.
pub proof fn lemma_one_row<K: TableKey, V>(rows: Seq<(K::Model, V)>, i: int)
    requires
        crate::table::rising::<K, V>(rows),
        0 <= i < rows.len(),
    ensures
        forall|k: int| 0 <= k < rows.len() && k != i ==> (#[trigger] rows[k]).0 != rows[i].0,
{
    assert forall|k: int| 0 <= k < rows.len() && k != i implies (#[trigger] rows[k]).0
        != rows[i].0 by {
        K::order_is_total(rows[i].0, rows[i].0, rows[i].0);
        if k < i {
            assert(K::before(rows[k].0, rows[i].0));
        } else {
            assert(K::before(rows[i].0, rows[k].0));
        }
    }
}

/// What the query does not let through is not selected once it was entered.
pub proof fn hidden_mods_are_not_selected(a: Library, b: Library, i: int)
    requires
        filter_changed(a, b),
        a.filter_takes_all(a.filter()),
        0 <= i < b.all().len(),
        !a.filter().lets_through(a.all()[i]),
    ensures
        !b.all()[i].selected,
{
}

/// Mods that a profile has keep their settings when they are added again.
pub proof fn added_mods_keep_settings(
    items: Map<ModIdModel, LibraryItemSettings>,
    ids: Seq<ModIdModel>,
    id: ModIdModel,
)
    ensures
        items.dom().contains(id) ==> with_mods(items, ids).dom().contains(id) && with_mods(
            items,
            ids,
        )[id] == items[id],
        ids.contains(id) ==> with_mods(items, ids).dom().contains(id),
    decreases ids.len(),
{
    if ids.len() > 0 {
        added_mods_keep_settings(items, ids.drop_last(), id);
        if ids.contains(id) && id != ids.last() {
            let k = choose|k: int| 0 <= k < ids.len() && ids[k] == id;
            assert(ids.drop_last()[k] == id);
        }
    }
}

} // verus!
