//! What holds of the program whatever it is told.
use vstd::prelude::*;

#[allow(unused_imports)]
use super::boot::known_with;
#[allow(unused_imports)]
use super::downloads::{
    appended_items_wait, beginning_the_next_loses_nothing, in_rows, pushed_items_wait,
    DownloadsModel,
};
#[allow(unused_imports)]
use super::ended::{told, Ended};
#[allow(unused_imports)]
use super::on_download::{download_completed, download_errored, notifies};
#[allow(unused_imports)]
use super::on_library::{
    add_confirmed, added_actions, are_profile_actions, lemma_one_row, library_ids, mods_added,
    profiles_selected, selected_ids, to_check, with_mods,
};
#[allow(unused_imports)]
use super::on_login::download_action;
#[allow(unused_imports)]
use super::on_profile::extended;
#[allow(unused_imports)]
use super::scan::{
    description_file, id_of, is_find, is_note, item_map, known_pairs, local_pairs, mod_registered,
    number_of, said_number, scan_finished, scanned_pairs, with_found, FoundMod,
};
#[allow(unused_imports)]
use super::settings::{edited_settings, is_setting, AppSettingEdit, SettingsModel};
#[allow(unused_imports)]
use super::state::{Action, App, Message, SettingsMessage};
#[allow(unused_imports)]
use super::trim::{is_automatic_snapshot, is_date_in, SNAPSHOT_DATE_FORMAT};
#[allow(unused_imports)]
use super::update::one_step;
#[allow(unused_imports)]
use crate::collections::CollectionsMessage;
#[allow(unused_imports)]
use crate::files::ModDetails;
#[allow(unused_imports)]
use crate::library::{row_keys, workshop_ids, ItemModel, LibraryItemSettings};
#[allow(unused_imports)]
use crate::library::profile::{id_models, Profile};
#[allow(unused_imports)]
use crate::metadata::{tag_of, tags_with, TagModel};
#[allow(unused_imports)]
use crate::numbers::{decimal_reads_back, unsigned_value};
#[allow(unused_imports)]
use crate::paths::{extension_is, lies_in};
#[allow(unused_imports)]
use crate::table::{rising, rows_map};
#[allow(unused_imports)]
use crate::text::{find_from, lemma_find_from};
#[allow(unused_imports)]
use crate::xcom_mod::{ModCompatibility, ModIdModel};
#[allow(unused_imports)]
use vstd::utf8::encode_utf8;

verus! {

/// A download that ended is followed by the next one: with a login and something that waits,
/// the first item that waits goes on and Steam is asked for it, as often as the settings say.
/// How it ended is noted.
pub proof fn downloads_do_not_stall(a: App, b: App, message: Message, r: Seq<Action>, id: u32)
    requires
        one_step(a, b, message, r),
        message == Message::SteamCMDDownloadCompleted(id) || (message matches
            Message::SteamCMDDownloadErrored(n, _) && n == id),
    ensures
        ({
            let queue = a.downloads@.queue;
            let next = Action::Download(queue[0].0, a.settings.automatic_download_retries);
            &&& a.login.logged_in && queue.len() > 0 ==> {
                &&& b.downloads@.ongoing == Some((queue[0].0, 0u64))
                &&& b.downloads@.queue == queue.skip(1)
                &&& r.len() > 0 && r.last() == next
            }
            &&& !a.login.logged_in || queue.len() == 0 ==> {
                &&& b.downloads@.ongoing is None
                &&& b.downloads@.queue == queue
                &&& forall|i: int| 0 <= i < r.len() ==> !((#[trigger] r[i]) is Download)
            }
            &&& b.downloads@.pending == a.downloads@.pending
            &&& message is SteamCMDDownloadCompleted ==> b.downloads@.completed.contains(id)
                && r[0] is ScanDownloads
            &&& message matches Message::SteamCMDDownloadErrored(_, text)
                ==> b.downloads@.errored.dom().contains(id) && b.downloads@.errored[id] == text@
        }),
{
    let told: int = if message is SteamCMDDownloadCompleted {
        if notifies(a, id) {
            2
        } else {
            1
        }
    } else if notifies(a, id) {
        1
    } else {
        0
    };
    let rest = r.skip(told);
    assert(rest.len() == r.len() - told);
    match message {
        Message::SteamCMDDownloadCompleted(n) => {
            assert(download_completed(a, b, id, r));
        },
        Message::SteamCMDDownloadErrored(n, text) => {
            assert(download_errored(a, b, id, text@, r));
        },
        _ => {},
    }
    let queue = a.downloads@.queue;
    if a.login.logged_in && queue.len() > 0 {
        assert(rest.len() == 1);
        assert(rest[0] == r[told]);
        assert(r.last() == r[told]);
    } else {
        assert forall|i: int| 0 <= i < r.len() implies !((#[trigger] r[i]) is Download) by {
            if i >= told {
                assert(rest[i - told] == r[i]);
            }
        }
    }
}

/// Items that are found to be outdated and pushed, or that are updated, are downloaded: each
/// goes on or waits, and where nothing goes on, the first that waits is begun and Steam is
/// asked for it.
pub proof fn updates_are_downloaded(a: App, b: App, message: Message, r: Seq<Action>, id: u32)
    requires
        one_step(a, b, message, r),
        a.login.logged_in,
        (message matches Message::DownloadPushPending(ids) && ids@.contains(id)
            && a.downloads@.pending.dom().contains(id)) || (message is LibraryUpdateRequest
            && library_ids(a).contains(id)),
    ensures
        in_rows(b.downloads@.queue, id) || (b.downloads@.ongoing is Some
            && b.downloads@.ongoing->Some_0.0 == id),
        a.downloads@.ongoing is Some ==> b.downloads@.ongoing == a.downloads@.ongoing && r.len() == 0,
        a.downloads@.ongoing is None ==> b.downloads@.ongoing is Some && r.len() == 1 && r[0]
            == Action::Download(
            b.downloads@.ongoing->Some_0.0,
            a.settings.automatic_download_retries,
        ),
        a.downloads@.ongoing is None && a.downloads@.queue.len() > 0 ==> b.downloads@.ongoing
            == Some((a.downloads@.queue[0].0, 0u64)),
{
    let before = a.downloads@;
    let all = match message {
        Message::DownloadPushPending(ids) => {
            pushed_items_wait(before, ids@);
            before.pushed_pending(ids@)
        },
        _ => {
            appended_items_wait(before, library_ids(a));
            before.appended(library_ids(a))
        },
    };
    assert(in_rows(all.queue, id));
    let k = super::downloads::place_in(all.queue, id);
    assert(all.queue.len() > 0);
    beginning_the_next_loses_nothing(all, true);
    if before.queue.len() > 0 {
        assert(all.queue[0].0 == before.queue[0].0);
    }
}

/// Whether a message says that items are gone.
pub open spec fn takes_items(message: Message) -> bool {
    message is DeleteRequested || (message matches Message::Settings(
        SettingsMessage::ModDirectoryRemoved(_),
    ))
}

proof fn lemma_same_keys<V, W>(a: Seq<(ModIdModel, V)>, b: Seq<(ModIdModel, W)>, id: ModIdModel)
    requires
        row_keys(a) == row_keys(b),
    ensures
        rows_map(a).dom().contains(id) <==> rows_map(b).dom().contains(id),
{
    assert(a.len() == row_keys(a).len() && b.len() == row_keys(b).len());
    if rows_map(a).dom().contains(id) {
        let i = choose|i: int| 0 <= i < a.len() && (#[trigger] a[i]).0 == id;
        assert(row_keys(a)[i] == id);
        assert(row_keys(b)[i] == b[i].0);
        assert(b[i].0 == id);
    }
    if rows_map(b).dom().contains(id) {
        let i = choose|i: int| 0 <= i < b.len() && (#[trigger] b[i]).0 == id;
        assert(row_keys(b)[i] == id);
        assert(row_keys(a)[i] == a[i].0);
        assert(a[i].0 == id);
    }
}

/// No mod leaves the library, and none comes to it, but by being deleted or with its directory:
/// choosing, searching, downloading and playing leave the library as it is.
#[verifier::spinoff_prover]
#[verifier::rlimit(80)]
pub proof fn the_library_keeps_its_mods(
    a: App,
    b: App,
    message: Message,
    r: Seq<Action>,
    id: ModIdModel,
)
    requires
        !(message is Chained),
        one_step(a, b, message, r),
        !takes_items(message),
    ensures
        b.library.items@.dom().contains(id) <==> a.library.items@.dom().contains(id),
{
    if row_keys(b.library.items.rows()) == row_keys(a.library.items.rows()) {
        lemma_same_keys(a.library.items.rows(), b.library.items.rows(), id);
    }
}

/// An item that is deleted is gone from the library and from what was downloaded, and its
/// directory is removed. No other item is touched.
pub proof fn deleted_items_are_gone(a: App, b: App, id: u32, r: Seq<Action>, other: u32)
    requires
        one_step(a, b, Message::DeleteRequested(id), r),
        other != id,
    ensures
        !b.library.items@.dom().contains(ModIdModel::Workshop(id)),
        !b.downloaded@.dom().contains(id),
        !b.downloads@.completed.contains(id),
        b.library.items@.dom().contains(ModIdModel::Workshop(other))
            == a.library.items@.dom().contains(ModIdModel::Workshop(other)),
        b.downloaded@.dom().contains(other) == a.downloaded@.dom().contains(other),
        b.downloads@.completed.contains(other) == a.downloads@.completed.contains(other),
        b.downloads@.queue == a.downloads@.queue && b.downloads@.ongoing == a.downloads@.ongoing,
        b.profiles == a.profiles && b.settings == a.settings && b.save == a.save,
        r.len() == 1 && r[0] is RemoveItem && r[0]->RemoveItem_0 == id,
{
}

/// Mods that are put into a profile are in it and active, and the others are as they were.
pub proof fn put_in_mods_are_active(
    items: Map<ModIdModel, LibraryItemSettings>,
    ids: Seq<ModIdModel>,
    id: ModIdModel,
)
    ensures
        extended(items, ids).dom().contains(id) <==> items.dom().contains(id) || ids.contains(id),
        ids.contains(id) ==> extended(items, ids)[id].enabled,
        !ids.contains(id) && items.dom().contains(id) ==> extended(items, ids)[id] == items[id],
    decreases ids.len(),
{
    if ids.len() > 0 {
        let front = ids.drop_last();
        put_in_mods_are_active(items, front, id);
        if ids.contains(id) && id != ids.last() {
            let k = choose|k: int| 0 <= k < ids.len() && ids[k] == id;
            assert(front[k] == id);
        }
        if front.contains(id) {
            let k = choose|k: int| 0 <= k < front.len() && front[k] == id;
            assert(ids[k] == id);
        }
        if id == ids.last() {
            assert(ids[ids.len() - 1] == id);
        }
    }
}

/// Mods that are added from the library are in each profile that was chosen, active where they
/// are new, and in no other profile.
pub proof fn added_mods_are_in_the_chosen_profiles(
    items: Map<ModIdModel, LibraryItemSettings>,
    ids: Seq<ModIdModel>,
    id: ModIdModel,
)
    ensures
        with_mods(items, ids).dom().contains(id) <==> items.dom().contains(id) || ids.contains(id),
        items.dom().contains(id) ==> with_mods(items, ids)[id] == items[id],
        !items.dom().contains(id) && ids.contains(id) ==> with_mods(items, ids)[id].enabled,
    decreases ids.len(),
{
    if ids.len() > 0 {
        let front = ids.drop_last();
        added_mods_are_in_the_chosen_profiles(items, front, id);
        if ids.contains(id) && id != ids.last() {
            let k = choose|k: int| 0 <= k < ids.len() && ids[k] == id;
            assert(front[k] == id);
        }
        if front.contains(id) {
            let k = choose|k: int| 0 <= k < front.len() && front[k] == id;
            assert(ids[k] == id);
        }
        if id == ids.last() {
            assert(ids[ids.len() - 1] == id);
        }
    }
}

proof fn lemma_added_actions(rows: Seq<(Seq<char>, Profile)>, i: int)
    requires
        0 <= i < rows.len(),
        rows[i].1.add_selected,
    ensures
        added_actions(rows).contains((true, rows[i].0)),
        added_actions(rows).contains((false, rows[i].0)),
    decreases rows.len(),
{
    let front = added_actions(rows.drop_last());
    let all = added_actions(rows);
    if i < rows.len() - 1 {
        lemma_added_actions(rows.drop_last(), i);
        assert(rows.drop_last()[i] == rows[i]);
        let k = choose|k: int| 0 <= k < front.len() && front[k] == (true, rows[i].0);
        let l = choose|l: int| 0 <= l < front.len() && front[l] == (false, rows[i].0);
        assert(all[k] == front[k]);
        assert(all[l] == front[l]);
    } else {
        assert(all[front.len() as int] == (false, rows[i].0));
        assert(all[front.len() as int + 1] == (true, rows[i].0));
    }
}

/// Adding mods of the library to profiles adds them to each profile that was chosen and to no
/// other, and each that was chosen is written.
pub proof fn adding_mods_changes_the_chosen_profiles(
    a: App,
    b: App,
    ids: Vec<crate::xcom_mod::ModId>,
    r: Seq<Action>,
    i: int,
    id: ModIdModel,
)
    requires
        one_step(a, b, Message::LibraryAddToProfileConfirm(ids), r),
        0 <= i < a.profiles.rows().len(),
    ensures
        ({
            let before = a.profiles.rows()[i];
            let after = b.profiles.rows()[i];
            &&& b.profiles.rows().len() == a.profiles.rows().len()
            &&& after.0 == before.0
            &&& after.1.name == before.1.name && after.1.settings == before.1.settings
            &&& !before.1.add_selected ==> after == before
            &&& before.1.add_selected ==> {
                &&& after.1.items@.dom().contains(id) <==> before.1.items@.dom().contains(id)
                    || id_models(ids@).contains(id)
                &&& before.1.items@.dom().contains(id) ==> after.1.items@[id]
                    == before.1.items@[id]
                &&& exists|k: int|
                    0 <= k < r.len() && (#[trigger] r[k] matches Action::SaveProfile(name, _)
                        && name@ == before.0)
            }
            &&& b.library == a.library && b.downloads == a.downloads
        }),
{
    let models = id_models(ids@);
    let before = a.profiles.rows()[i].1;
    let after = b.profiles.rows()[i].1;
    assert(mods_added(before, after, models));
    if before.add_selected {
        added_mods_are_in_the_chosen_profiles(before.items@, models, id);
        lemma_added_actions(a.profiles.rows(), i);
        let what = added_actions(a.profiles.rows());
        let k = choose|k: int| 0 <= k < what.len() && what[k] == (true, a.profiles.rows()[i].0);
        assert(are_profile_actions(r, what));
        assert(super::on_library::is_profile_action(r[k], what[k]));
    }
}

/// Whether a message changes which mods a profile has, or which profiles there are.
pub open spec fn changes_profiles(message: Message) -> bool {
    ||| message is ProfileCreated
    ||| message is ProfileAddItems
    ||| message is ProfileRemoveItems
    ||| message is ProfileDeleteConfirmed
    ||| message is ProfileImportSnapshotCompleted
    ||| message is LibraryAddToProfileConfirm
}

proof fn lemma_same_profiles(
    a: Seq<(Seq<char>, Profile)>,
    b: Seq<(Seq<char>, Profile)>,
    name: Seq<char>,
)
    requires
        rising::<String, Profile>(a),
        a.len() == b.len(),
        forall|i: int|
            0 <= i < a.len() ==> (#[trigger] b[i]).0 == a[i].0 && b[i].1.items == a[i].1.items,
    ensures
        rows_map(a).dom().contains(name) <==> rows_map(b).dom().contains(name),
        rows_map(a).dom().contains(name) ==> rows_map(b)[name].items == rows_map(a)[name].items,
{
    if rows_map(a).dom().contains(name) {
        let i = choose|i: int| 0 <= i < a.len() && (#[trigger] a[i]).0 == name;
        assert(b[i].0 == name);
        let j = choose|j: int| 0 <= j < b.len() && (#[trigger] b[j]).0 == name;
        lemma_one_row::<String, Profile>(a, i);
        assert(a[j].0 == name);
        assert(i == j);
    }
    if rows_map(b).dom().contains(name) {
        let j = choose|j: int| 0 <= j < b.len() && (#[trigger] b[j]).0 == name;
        assert(a[j].0 == name);
    }
}

/// The mods of the profiles change only when that is asked for: whatever else happens, there are
/// the same profiles with the same mods.
#[verifier::spinoff_prover]
#[verifier::rlimit(80)]
pub proof fn profiles_keep_their_mods(
    a: App,
    b: App,
    message: Message,
    r: Seq<Action>,
    name: Seq<char>,
)
    requires
        !(message is Chained),
        one_step(a, b, message, r),
        !changes_profiles(message),
        rising::<String, Profile>(a.profiles.rows()),
    ensures
        b.profiles@.dom().contains(name) <==> a.profiles@.dom().contains(name),
        a.profiles@.dom().contains(name) ==> b.profiles@[name].items == a.profiles@[name].items,
{
    let before = a.profiles.rows();
    let after = b.profiles.rows();
    if after.len() == before.len() && forall|i: int|
        0 <= i < before.len() ==> (#[trigger] after[i]).0 == before[i].0 && after[i].1.items
            == before[i].1.items {
        lemma_same_profiles(before, after, name);
    }
}

/// Where an action has Steam download an item, that item goes on from there.
pub open spec fn begins(b: App, action: Action, retries: u32) -> bool {
    action matches Action::Download(id, n) ==> n == retries && b.downloads@.ongoing == Some(
        (id, 0u64),
    )
}

/// Steam is asked to download an item only when the program notes that it goes on, and as often
/// as the settings say.
#[verifier::spinoff_prover]
#[verifier::rlimit(80)]
pub proof fn what_steam_downloads_goes_on(
    a: App,
    b: App,
    message: Message,
    r: Seq<Action>,
    i: int,
)
    requires
        !(message is Chained),
        one_step(a, b, message, r),
        0 <= i < r.len(),
    ensures
        begins(b, r[i], a.settings.automatic_download_retries),
{
    match message {
        Message::SteamCMDDownloadCompleted(id) => {
            downloads_do_not_stall(a, b, message, r, id);
            let told: int = if notifies(a, id) {
                2
            } else {
                1
            };
            assert(download_completed(a, b, id, r));
            let rest = r.skip(told);
            assert(rest.len() == r.len() - told);
            if i >= told {
                assert(rest[i - told] == r[i]);
            }
        },
        Message::SteamCMDDownloadErrored(id, text) => {
            downloads_do_not_stall(a, b, message, r, id);
            let told: int = if notifies(a, id) {
                1
            } else {
                0
            };
            assert(download_errored(a, b, id, text@, r));
            let rest = r.skip(told);
            assert(rest.len() == r.len() - told);
            if i >= told {
                assert(rest[i - told] == r[i]);
            }
        },
        Message::CloseAppRequested => {
            super::on_login::lemma_closing_action(a, r, i);
        },
        Message::LoadLaunchGame(_) | Message::LoadProfileApplied(_) => {
            let rest = r.skip(1);
            assert(rest.len() == r.len() - 1);
            if i >= 1 {
                assert(rest[i - 1] == r[i]);
                assert(i == 1 || i == 2);
                assert(rest[0] == r[1]);
            }
        },
        Message::SetViewingItem(_) => {
            let one = r.skip(1);
            let two = r.skip(2);
            assert(one.len() == r.len() - 1);
            if i >= 1 {
                assert(one[i - 1] == r[i]);
            }
            if i >= 2 {
                assert(two.len() == r.len() - 2);
                assert(two[i - 2] == r[i]);
            }
        },
        Message::Collections(_) => {
            if i >= 1 {
                assert(r.skip(1)[i - 1] == r[i]);
            }
        },
        Message::QueryFilesLoaded(_, files, _) | Message::FilesResolved(files, _) => {
            super::update::lemma_only_images(files@, a.images@.dom(), i);
        },
        _ => {},
    }
}

proof fn lemma_contains_pushed<T>(front: Seq<T>, last: T, x: T)
    ensures
        front.push(last).contains(x) <==> front.contains(x) || x == last,
{
    let all = front.push(last);
    if front.contains(x) {
        let k = choose|k: int| 0 <= k < front.len() && front[k] == x;
        assert(all[k] == x);
    }
    if x == last {
        assert(all[front.len() as int] == x);
    }
    if all.contains(x) {
        let k = choose|k: int| 0 <= k < all.len() && all[k] == x;
        if k < front.len() {
            assert(front[k] == x);
        }
    }
}

proof fn lemma_contains_last<T>(all: Seq<T>, x: T)
    requires
        all.len() > 0,
    ensures
        all.contains(x) <==> all.drop_last().contains(x) || x == all.last(),
{
    lemma_contains_pushed(all.drop_last(), all.last(), x);
    assert(all.drop_last().push(all.last()) =~= all);
}

/// Whether a mod was found somewhere.
pub open spec fn was_found(found: Seq<(ModIdModel, Seq<char>)>, id: ModIdModel) -> bool {
    exists|i: int| 0 <= i < found.len() && (#[trigger] found[i]).0 == id
}

/// A scan puts each mod into the library that it finds and that something is known of, at the
/// place where it was found and under its title. Mods that are there already are told where they
/// are now, and nothing else of them changes.
pub proof fn found_mods_are_in_the_library(
    items: Map<ModIdModel, ItemModel>,
    details: Map<ModIdModel, ModDetails>,
    found: Seq<(ModIdModel, Seq<char>)>,
    id: ModIdModel,
)
    ensures
        ({
            let after = with_found(items, details, found);
            let seen = was_found(found, id);
            &&& after.dom().contains(id) <==> items.dom().contains(id) || (seen
                && details.dom().contains(id))
            &&& after.dom().contains(id) && seen ==> exists|i: int|
                0 <= i < found.len() && (#[trigger] found[i]).0 == id && found[i].1
                    == after[id].path
            &&& !seen && items.dom().contains(id) ==> after[id] == items[id]
            &&& items.dom().contains(id) ==> after[id] == (ItemModel {
                path: after[id].path,
                ..items[id]
            })
            &&& !items.dom().contains(id) && after.dom().contains(id) ==> after[id].id == id
                && after[id].title == details[id].title_text() && !after[id].selected
                && !after[id].needs_update
        }),
    decreases found.len(),
{
    if found.len() > 0 {
        let fewer = found.drop_last();
        found_mods_are_in_the_library(items, details, fewer, id);
        let front = with_found(items, details, fewer);
        let after = with_found(items, details, found);
        assert(found[found.len() - 1] == found.last());
        if was_found(fewer, id) {
            let i = choose|i: int| 0 <= i < fewer.len() && (#[trigger] fewer[i]).0 == id;
            assert(found[i] == fewer[i]);
        }
        if was_found(found, id) {
            let i = choose|i: int| 0 <= i < found.len() && (#[trigger] found[i]).0 == id;
            if i < fewer.len() {
                assert(found[i] == fewer[i]);
            }
        }
        if after.dom().contains(id) && was_found(found, id) && found.last().0 != id {
            let i = choose|i: int|
                0 <= i < fewer.len() && (#[trigger] fewer[i]).0 == id && fewer[i].1
                    == front[id].path;
            assert(found[i] == fewer[i]);
        }
    }
}

/// The mods that a scan finds: all items that were downloaded, or all local mods below the
/// directory, each where it is.
pub proof fn scans_find_everything(a: App, directory: Seq<char>, n: u32, path: Seq<char>)
    ensures
        was_found(scanned_pairs(a, directory, true), ModIdModel::Workshop(n))
            <==> a.downloaded@.dom().contains(n),
        scanned_pairs(a, directory, false).contains((ModIdModel::Local(path), path))
            <==> a.local@.dom().contains(ModIdModel::Local(path)) && lies_in(path, directory),
{
    let rows = a.downloaded.rows();
    let pairs = scanned_pairs(a, directory, true);
    if a.downloaded@.dom().contains(n) {
        let i = choose|i: int| 0 <= i < rows.len() && (#[trigger] rows[i]).0 == n;
        assert(pairs[i].0 == ModIdModel::Workshop(n));
    }
    if was_found(pairs, ModIdModel::Workshop(n)) {
        let i = choose|i: int|
            0 <= i < pairs.len() && (#[trigger] pairs[i]).0 == ModIdModel::Workshop(n);
        assert(rows[i].0 == n);
    }
    lemma_local_pairs(a.local.rows(), directory, path);
}

proof fn lemma_local_pairs(rows: Seq<(ModIdModel, ())>, directory: Seq<char>, path: Seq<char>)
    ensures
        local_pairs(rows, directory).contains((ModIdModel::Local(path), path)) <==> rows_map(
            rows,
        ).dom().contains(ModIdModel::Local(path)) && lies_in(path, directory),
    decreases rows.len(),
{
    let id = ModIdModel::Local(path);
    if rows.len() > 0 {
        let fewer = rows.drop_last();
        lemma_local_pairs(fewer, directory, path);
        let last = rows.last().0;
        assert(rows[rows.len() - 1] == rows.last());
        if let ModIdModel::Local(p) = last {
            lemma_contains_pushed(local_pairs(fewer, directory), (last, p), (id, path));
        }
        if rows_map(fewer).dom().contains(id) {
            let i = choose|i: int| 0 <= i < fewer.len() && (#[trigger] fewer[i]).0 == id;
            assert(rows[i].0 == id);
        }
        if rows_map(rows).dom().contains(id) {
            let i = choose|i: int| 0 <= i < rows.len() && (#[trigger] rows[i]).0 == id;
            if i < fewer.len() {
                assert(fewer[i].0 == id);
            }
        }
    }
}

/// A mod of the workshop that lies in a directory named by a number is the item of that number,
/// whatever its own files say.
pub proof fn directories_name_their_items(found: FoundMod, n: u32)
    requires
        unsigned_value(encode_utf8(found.folder@), u32::MAX as nat) == Some(n as nat),
    ensures
        number_of(found, true) == n,
        id_of(found, true)@ == ModIdModel::Workshop(n),
        id_of(found, false)@ == ModIdModel::Local(found.path@),
{
    decimal_reads_back(said_number(found) as u64);
}

/// The file that describes a mod is the first one with the extension of such files.
pub proof fn the_first_description_counts(paths: Seq<Seq<char>>)
    ensures
        description_file(paths) is None <==> forall|i: int|
            0 <= i < paths.len() ==> !extension_is(#[trigger] paths[i], "XComMod"@),
        description_file(paths) matches Some(k) ==> 0 <= k < paths.len() && extension_is(
            paths[k],
            "XComMod"@,
        ) && forall|i: int| 0 <= i < k ==> !extension_is(#[trigger] paths[i], "XComMod"@),
    decreases paths.len(),
{
    if paths.len() > 0 {
        let fewer = paths.drop_last();
        the_first_description_counts(fewer);
        assert(paths[paths.len() - 1] == paths.last());
        assert forall|i: int| 0 <= i < fewer.len() implies #[trigger] fewer[i] == paths[i] by {}
        if let Some(k) = description_file(fewer) {
            assert(fewer[k] == paths[k]);
            assert forall|i: int| 0 <= i < k implies !extension_is(
                #[trigger] paths[i],
                "XComMod"@,
            ) by {
                assert(fewer[i] == paths[i]);
            }
        } else {
            assert forall|i: int| 0 <= i < fewer.len() implies !extension_is(
                #[trigger] paths[i],
                "XComMod"@,
            ) by {
                assert(fewer[i] == paths[i]);
            }
        }
    }
}

/// The setting of a name that is switched on or off.
pub open spec fn switch_named(m: SettingsModel, name: Seq<char>) -> Option<bool> {
    if name == "check_updates_on_startup"@ {
        Some(m.check_updates_on_startup)
    } else if name == "notify_on_download_complete"@ {
        Some(m.notify_on_download_complete)
    } else if name == "notify_with_sound"@ {
        Some(m.notify_with_sound)
    } else if name == "notify_progress"@ {
        Some(m.notify_progress)
    } else if name == "reload_profile_on_launch"@ {
        Some(m.reload_profile_on_launch)
    } else if name == "steamcmd_login_on_startup"@ {
        Some(m.steamcmd_login_on_startup)
    } else if name == "steamcmd_logout_on_exit"@ {
        Some(m.steamcmd_logout_on_exit)
    } else if name == "steamcmd_save_password"@ {
        Some(m.steamcmd_save_password)
    } else if name == "steam_webapi_save_api_key"@ {
        Some(m.steam_webapi_save_api_key)
    } else {
        None
    }
}

/// The setting of a name that is a number.
pub open spec fn number_named(m: SettingsModel, name: Seq<char>) -> Option<u32> {
    if name == "automatic_download_retries"@ {
        Some(m.automatic_download_retries)
    } else if name == "steam_webapi_cache_lifetime"@ {
        Some(m.steam_webapi_cache_lifetime)
    } else {
        None
    }
}

/// The setting of a name that is a text.
pub open spec fn text_named(m: SettingsModel, name: Seq<char>) -> Option<Seq<char>> {
    if name == "download_directory"@ {
        Some(m.download_directory)
    } else if name == "steamcmd_command_path"@ {
        Some(m.steamcmd_command_path)
    } else if name == "steam_webapi_api_key"@ {
        Some(m.steam_webapi_api_key)
    } else {
        None
    }
}

/// Editing a setting gives it the value that was entered, and leaves every other setting as it
/// is.
#[verifier::spinoff_prover]
#[verifier::rlimit(60)]
pub proof fn edits_change_one_setting(m: SettingsModel, edit: AppSettingEdit, other: Seq<char>)
    requires
        is_setting(edit),
    ensures
        ({
            let after = edited_settings(m, edit);
            match edit {
                AppSettingEdit::Bool(name, new) => {
                    &&& switch_named(after, name@) == Some(new)
                    &&& other != name@ ==> switch_named(after, other) == switch_named(m, other)
                    &&& number_named(after, other) == number_named(m, other)
                    &&& text_named(after, other) == text_named(m, other)
                },
                AppSettingEdit::Number(name, new) => {
                    &&& number_named(after, name@) == Some(new)
                    &&& other != name@ ==> number_named(after, other) == number_named(m, other)
                    &&& switch_named(after, other) == switch_named(m, other)
                    &&& text_named(after, other) == text_named(m, other)
                },
                AppSettingEdit::String(name, new) => {
                    &&& text_named(after, name@) == Some(new@)
                    &&& other != name@ ==> text_named(after, other) == text_named(m, other)
                    &&& switch_named(after, other) == switch_named(m, other)
                    &&& number_named(after, other) == number_named(m, other)
                },
            }
        }),
{
    lemma_setting_names_differ();
}

proof fn lemma_setting_names_differ()
    ensures
        "automatic_download_retries"@ != "steam_webapi_cache_lifetime"@,
        "download_directory"@ != "steamcmd_command_path"@,
        "download_directory"@ != "steam_webapi_api_key"@,
        "steamcmd_command_path"@ != "steam_webapi_api_key"@,
        "check_updates_on_startup"@ != "notify_on_download_complete"@,
        "check_updates_on_startup"@ != "notify_with_sound"@,
        "check_updates_on_startup"@ != "notify_progress"@,
        "check_updates_on_startup"@ != "reload_profile_on_launch"@,
        "check_updates_on_startup"@ != "steamcmd_login_on_startup"@,
        "check_updates_on_startup"@ != "steamcmd_logout_on_exit"@,
        "check_updates_on_startup"@ != "steamcmd_save_password"@,
        "check_updates_on_startup"@ != "steam_webapi_save_api_key"@,
        "notify_on_download_complete"@ != "notify_with_sound"@,
        "notify_on_download_complete"@ != "notify_progress"@,
        "notify_on_download_complete"@ != "reload_profile_on_launch"@,
        "notify_on_download_complete"@ != "steamcmd_login_on_startup"@,
        "notify_on_download_complete"@ != "steamcmd_logout_on_exit"@,
        "notify_on_download_complete"@ != "steamcmd_save_password"@,
        "notify_on_download_complete"@ != "steam_webapi_save_api_key"@,
        "notify_with_sound"@ != "notify_progress"@,
        "notify_with_sound"@ != "reload_profile_on_launch"@,
        "notify_with_sound"@ != "steamcmd_login_on_startup"@,
        "notify_with_sound"@ != "steamcmd_logout_on_exit"@,
        "notify_with_sound"@ != "steamcmd_save_password"@,
        "notify_with_sound"@ != "steam_webapi_save_api_key"@,
        "notify_progress"@ != "reload_profile_on_launch"@,
        "notify_progress"@ != "steamcmd_login_on_startup"@,
        "notify_progress"@ != "steamcmd_logout_on_exit"@,
        "notify_progress"@ != "steamcmd_save_password"@,
        "notify_progress"@ != "steam_webapi_save_api_key"@,
        "reload_profile_on_launch"@ != "steamcmd_login_on_startup"@,
        "reload_profile_on_launch"@ != "steamcmd_logout_on_exit"@,
        "reload_profile_on_launch"@ != "steamcmd_save_password"@,
        "reload_profile_on_launch"@ != "steam_webapi_save_api_key"@,
        "steamcmd_login_on_startup"@ != "steamcmd_logout_on_exit"@,
        "steamcmd_login_on_startup"@ != "steamcmd_save_password"@,
        "steamcmd_login_on_startup"@ != "steam_webapi_save_api_key"@,
        "steamcmd_logout_on_exit"@ != "steamcmd_save_password"@,
        "steamcmd_logout_on_exit"@ != "steam_webapi_save_api_key"@,
        "steamcmd_save_password"@ != "steam_webapi_save_api_key"@,
{
    reveal_strlit("automatic_download_retries");
    reveal_strlit("steam_webapi_cache_lifetime");
    reveal_strlit("download_directory");
    reveal_strlit("steamcmd_command_path");
    reveal_strlit("steam_webapi_api_key");
    reveal_strlit("check_updates_on_startup");
    reveal_strlit("notify_on_download_complete");
    reveal_strlit("notify_with_sound");
    reveal_strlit("notify_progress");
    reveal_strlit("reload_profile_on_launch");
    reveal_strlit("steamcmd_login_on_startup");
    reveal_strlit("steamcmd_logout_on_exit");
    reveal_strlit("steamcmd_save_password");
    reveal_strlit("steam_webapi_save_api_key");
    assert("check_updates_on_startup"@[0] == 'c');
    assert("check_updates_on_startup"@.len() == 24);
    assert("notify_on_download_complete"@.len() == 27);
    assert("notify_with_sound"@.len() == 17);
    assert("notify_progress"@.len() == 15);
    assert("reload_profile_on_launch"@.len() == 24);
    assert("reload_profile_on_launch"@[0] == 'r');
    assert("steamcmd_login_on_startup"@.len() == 25);
    assert("steamcmd_login_on_startup"@[9] == 'l' && "steamcmd_login_on_startup"@[12] == 'i');
    assert("steamcmd_logout_on_exit"@.len() == 23);
    assert("steamcmd_save_password"@.len() == 22);
    assert("steam_webapi_save_api_key"@.len() == 25);
    assert("steam_webapi_save_api_key"@[5] == '_' && "steamcmd_login_on_startup"@[5] == 'c');
    assert("automatic_download_retries"@.len() == 26);
    assert("steam_webapi_cache_lifetime"@.len() == 27);
    assert("download_directory"@.len() == 18);
    assert("steamcmd_command_path"@.len() == 21);
    assert("steam_webapi_api_key"@.len() == 20);
}

/// The items that are checked for updates are those of the library that are neither being
/// downloaded, nor wait for it, nor are known to be outdated.
pub proof fn updates_are_looked_for(a: App, ids: Seq<u32>, id: u32)
    ensures
        to_check(a, ids).contains(id) <==> ids.contains(id) && !(a.downloads@.ongoing is Some
            && a.downloads@.ongoing->Some_0.0 == id) && !in_rows(a.downloads@.queue, id)
            && !a.downloads@.pending.dom().contains(id),
    decreases ids.len(),
{
    if ids.len() > 0 {
        updates_are_looked_for(a, ids.drop_last(), id);
        lemma_contains_last(ids, id);
        lemma_contains_pushed(to_check(a, ids.drop_last()), ids.last(), id);
    }
}

/// The numbers of the mods that come from the workshop are all of theirs, and no others.
pub proof fn workshop_mods_have_their_numbers(ids: Seq<ModIdModel>, n: u32)
    ensures
        workshop_ids(ids).contains(n) <==> ids.contains(ModIdModel::Workshop(n)),
    decreases ids.len(),
{
    if ids.len() > 0 {
        workshop_mods_have_their_numbers(ids.drop_last(), n);
        lemma_contains_last(ids, ModIdModel::Workshop(n));
        if let ModIdModel::Workshop(m) = ids.last() {
            lemma_contains_pushed(workshop_ids(ids.drop_last()), m, n);
        }
    }
}

/// The mods that are added to profiles are those that are selected in the library.
pub proof fn selected_mods_are_added(items: Seq<ItemModel>, id: ModIdModel)
    ensures
        selected_ids(items).contains(id) <==> exists|i: int|
            0 <= i < items.len() && (#[trigger] items[i]).selected && items[i].id == id,
    decreases items.len(),
{
    if items.len() > 0 {
        let fewer = items.drop_last();
        selected_mods_are_added(fewer, id);
        assert(items[items.len() - 1] == items.last());
        lemma_contains_pushed(selected_ids(fewer), items.last().id, id);
        if exists|i: int| 0 <= i < fewer.len() && (#[trigger] fewer[i]).selected && fewer[i].id == id {
            let i = choose|i: int|
                0 <= i < fewer.len() && (#[trigger] fewer[i]).selected && fewer[i].id == id;
            assert(items[i] == fewer[i]);
        }
        if exists|i: int| 0 <= i < items.len() && (#[trigger] items[i]).selected && items[i].id == id {
            let i = choose|i: int|
                0 <= i < items.len() && (#[trigger] items[i]).selected && items[i].id == id;
            if i < fewer.len() {
                assert(items[i] == fewer[i]);
            }
        }
    }
}

/// Only snapshots that the program made of a profile are taken for such: their names are the
/// program's mark, the name of the profile and a date, one after the other.
pub proof fn other_files_are_no_snapshots(file: Seq<char>, profile: Seq<char>)
    requires
        is_automatic_snapshot(file, profile),
    ensures
        exists|date: Seq<char>|
            file == "LXCOMM_AUTO_BASIC_"@ + profile + date && #[trigger] is_date_in(
                date,
                SNAPSHOT_DATE_FORMAT@,
            ),
{
    lemma_find_from(file, profile, 0);
    let i = find_from(file, profile, 0)->Some_0;
    let date = file.skip(i + profile.len());
    assert(file.subrange(i, i + profile.len()) == profile);
    assert(file =~= file.take(i) + profile + date);
    assert(is_date_in(date, SNAPSHOT_DATE_FORMAT@));
}

/// The profiles that were kept in another way are known afterwards, beside those that were known
/// before.
pub proof fn migrated_profiles_are_known(known: Set<Seq<char>>, names: Seq<Seq<char>>, x: Seq<char>)
    ensures
        known_with(known, names).contains(x) <==> known.contains(x) || names.contains(x),
    decreases names.len(),
{
    if names.len() > 0 {
        migrated_profiles_are_known(known, names.drop_last(), x);
        lemma_contains_last(names, x);
    }
}

/// Whether something ended with an error.
pub open spec fn failed(ended: Ended) -> bool {
    match ended {
        Ended::SessionStarted(_, result) => result is Err,
        Ended::ModsFound(result) => result is Err,
        Ended::CollectionsFound(result) => result is Err,
        Ended::DependenciesFound(_, result) => result is Err,
        Ended::OutdatedFound(result) => result is Err,
        Ended::ItemRemoved(_, result) => result is Err,
        Ended::ProfileSetUp(_, result) => result is Err,
        Ended::ProfileSaved(_, _, result) => result is Err,
        Ended::RemovalSaved(_, _, result) => result is Err,
        Ended::FolderOpened(_, result) => result is Err,
        Ended::FolderImported(_, result) => result is Err,
        Ended::SnapshotExported(_, result) => result is Err,
        Ended::ArchiveUnreadable(_) => true,
        Ended::TimesUnreadable(_) => true,
        Ended::SnapshotImported(result) => result is Err,
        Ended::ProfileLinked(_, result) => result is Err,
        Ended::SnapshotMade(result) => result is Err,
        Ended::GameLaunched(result) => result is Err,
        Ended::SettingsSaved(result) => result is Err,
        Ended::SessionTold(_) => false,
    }
}

/// No failure passes in silence, and none changes anything: the user is told of it, and beyond
/// that the program is at most told that it is no longer busy.
pub proof fn failures_are_told(ended: Ended, r: Seq<Message>)
    requires
        told(ended, r),
        failed(ended),
    ensures
        r.len() > 0,
        r.last() is DisplayError,
        forall|i: int|
            0 <= i < r.len() ==> (#[trigger] r[i]) is DisplayError || r[i] == Message::SetBusy(
                false,
            ),
{
}

proof fn lemma_local_pairs_say_where(rows: Seq<(ModIdModel, ())>, directory: Seq<char>, i: int)
    requires
        0 <= i < local_pairs(rows, directory).len(),
    ensures
        local_pairs(rows, directory)[i].0 == ModIdModel::Local(local_pairs(rows, directory)[i].1),
    decreases rows.len(),
{
    let front = local_pairs(rows.drop_last(), directory);
    if i < front.len() {
        lemma_local_pairs_say_where(rows.drop_last(), directory, i);
    }
}

/// A local mod that was registered is in the library once the directory that it lies in was looked
/// through, at its path. A mod of the workshop is there once something is known of it, at the place
/// where it was found.
#[verifier::spinoff_prover]
pub proof fn registered_mods_are_in_the_library(
    a: App,
    b: App,
    c: App,
    found: FoundMod,
    compatibility: ModCompatibility,
    is_workshop: bool,
    directory: Seq<char>,
    r: Seq<Action>,
)
    requires
        mod_registered(a, b, found, compatibility, is_workshop),
        scan_finished(b, c, directory, is_workshop, r),
        is_workshop ==> a.index.details@.dom().contains(id_of(found, is_workshop)@),
        !is_workshop ==> lies_in(found.path@, directory),
        rising::<u32, String>(b.downloaded.rows()),
    ensures
        c.library.items@.dom().contains(id_of(found, is_workshop)@),
        c.library.items@[id_of(found, is_workshop)@].path@ == found.path@,
{
    let id = id_of(found, is_workshop)@;
    let pairs = scanned_pairs(b, directory, is_workshop);
    let items = item_map(b.library.items@);
    let after = with_found(items, b.index.details@, pairs);
    found_mods_are_in_the_library(items, b.index.details@, pairs, id);
    assert(b.index.details@.dom().contains(id));
    if is_workshop {
        let n = number_of(found, true);
        let rows = b.downloaded.rows();
        assert(b.downloaded@.dom().contains(n) && b.downloaded@[n] == found.path);
        scans_find_everything(b, directory, n, found.path@);
        assert(was_found(pairs, id));
        let i = choose|i: int|
            0 <= i < pairs.len() && (#[trigger] pairs[i]).0 == id && pairs[i].1 == after[id].path;
        assert(rows[i].0 == n);
        crate::table::lemma_row_is_value::<u32, String>(rows, i);
        assert(rows[i].1 == found.path);
    } else {
        scans_find_everything(b, directory, 0, found.path@);
        assert(b.local@.dom().contains(id));
        let k = choose|k: int| 0 <= k < pairs.len() && pairs[k] == (id, found.path@);
        assert(pairs[k].0 == id);
        assert(was_found(pairs, id));
        let i = choose|i: int|
            0 <= i < pairs.len() && (#[trigger] pairs[i]).0 == id && pairs[i].1 == after[id].path;
        lemma_local_pairs_say_where(b.local.rows(), directory, i);
    }
    assert(item_map(c.library.items@).dom().contains(id));
    assert(item_map(c.library.items@)[id].path == found.path@);
}

/// After a scan the tags of each mod are noted that was found and that something is known of, and
/// what mods provide is found out for the library and for each profile.
pub proof fn scans_are_followed_up(
    a: App,
    b: App,
    directory: Seq<char>,
    is_workshop: bool,
    r: Seq<Action>,
    id: ModIdModel,
    path: Seq<char>,
    k: int,
)
    requires
        scan_finished(a, b, directory, is_workshop, r),
    ensures
        scanned_pairs(a, directory, is_workshop).contains((id, path)) && a.index.details@.dom().contains(
            id,
        ) ==> exists|i: int| 0 <= i < r.len() && is_note(#[trigger] r[i], (id, path)),
        exists|i: int| 0 <= i < r.len() && #[trigger] r[i] is FindLibraryProvided,
        0 <= k < a.profiles.rows().len() ==> exists|i: int|
            0 <= i < r.len() && is_find(#[trigger] r[i], a.profiles.rows()[k].0),
{
    let pairs = scanned_pairs(a, directory, is_workshop);
    let known = known_pairs(pairs, a.index.details@);
    let names = crate::library::row_keys(a.profiles.rows());
    let n = known.len() as int;
    lemma_known_pairs(pairs, a.index.details@, (id, path));
    assert(r[n] is FindLibraryProvided);
    if known.contains((id, path)) {
        let i = choose|i: int| 0 <= i < known.len() && known[i] == (id, path);
        assert(r.take(n)[i] == r[i]);
        assert(is_note(r[i], known[i]));
    }
    if 0 <= k < a.profiles.rows().len() {
        assert(names[k] == a.profiles.rows()[k].0);
        assert(r.skip(n + 1)[k] == r[n + 1 + k]);
        assert(is_find(r[n + 1 + k], names[k]));
    }
}

proof fn lemma_known_pairs(
    pairs: Seq<(ModIdModel, Seq<char>)>,
    details: Map<ModIdModel, ModDetails>,
    pair: (ModIdModel, Seq<char>),
)
    ensures
        known_pairs(pairs, details).contains(pair) <==> pairs.contains(pair)
            && details.dom().contains(pair.0),
    decreases pairs.len(),
{
    if pairs.len() > 0 {
        lemma_known_pairs(pairs.drop_last(), details, pair);
        lemma_contains_last(pairs, pair);
        lemma_contains_pushed(known_pairs(pairs.drop_last(), details), pairs.last(), pair);
    }
}

/// Tags that are put to a mod are there afterwards, beside those that it had.
pub proof fn tags_are_put_beside_others(
    tags: Set<TagModel>,
    texts: Seq<Seq<char>>,
    known: Seq<Seq<char>>,
    tag: TagModel,
)
    ensures
        tags_with(tags, texts, known).contains(tag) <==> tags.contains(tag) || exists|i: int|
            0 <= i < texts.len() && tag_of(#[trigger] texts[i], known) == tag,
    decreases texts.len(),
{
    if texts.len() > 0 {
        let fewer = texts.drop_last();
        tags_are_put_beside_others(tags, fewer, known, tag);
        assert(texts[texts.len() - 1] == texts.last());
        if exists|i: int| 0 <= i < fewer.len() && tag_of(#[trigger] fewer[i], known) == tag {
            let i = choose|i: int|
                0 <= i < fewer.len() && tag_of(#[trigger] fewer[i], known) == tag;
            assert(texts[i] == fewer[i]);
        }
        if exists|i: int| 0 <= i < texts.len() && tag_of(#[trigger] texts[i], known) == tag {
            let i = choose|i: int|
                0 <= i < texts.len() && tag_of(#[trigger] texts[i], known) == tag;
            if i < fewer.len() {
                assert(texts[i] == fewer[i]);
            }
        }
    }
}

} // verus!
