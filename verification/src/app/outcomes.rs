//! What the user can count on when they log in, download, launch and leave.
use vstd::prelude::*;

#[allow(unused_imports)]
use super::boot::migrated;
#[allow(unused_imports)]
use super::modal::{lowest_of, without_kind, AppModal, KeyModel, ModalKind};
#[allow(unused_imports)]
use super::on_browse::{
    api_key_submitted, file_number, files_loaded, image_action, image_actions, indexed,
    unknown_children,
};
#[allow(unused_imports)]
use super::on_download::{download_completed, download_outcome, notifies, request_each};
#[allow(unused_imports)]
use super::on_library::delete_each;
#[allow(unused_imports)]
use super::on_load::{
    active_profile, applied, arguments, launch_requested, prepare_error,
};
#[allow(unused_imports)]
use super::on_login::{closing_actions, code_submitted, login_requested};
#[allow(unused_imports)]
use super::on_modal::{answer, choose_resolved, page_set};
#[allow(unused_imports)]
use super::on_profile::{
    add_completed, are_wanted, collection_named, is_wanted, profile_made,
    wanted_for, Wanted,
};
#[allow(unused_imports)]
use super::on_settings::{
    directory_added, directory_removed, local_mods_forgotten, settings_step,
};
#[allow(unused_imports)]
use super::settings::{dir_rows, holds_path};
#[allow(unused_imports)]
use super::state::{
    Action, App, AppPage, ApplyReason, Message, Outcome, PrepareFacts, SettingsMessage,
};
#[allow(unused_imports)]
use crate::files::{ChildFile, ModDetails, WorkshopDetails};
#[allow(unused_imports)]
use crate::library::missing::{child_number, ModIndex};
#[allow(unused_imports)]
use crate::library::profile::ProfileSettings;
#[allow(unused_imports)]
use crate::numbers::unsigned_value;
#[allow(unused_imports)]
use crate::xcom_mod::{ModId, ModIdModel};
#[allow(unused_imports)]
use vstd::utf8::encode_utf8;

verus! {

/// Before the program ends, its state is saved, and the password and the key are either kept, as
/// was asked, or deleted. The session is logged out, where that was asked, before it is ended,
/// and the window is closed last.
#[verifier::spinoff_prover]
#[verifier::rlimit(60)]
pub proof fn closing_tidies_up(a: App, r: Seq<Action>)
    requires
        closing_actions(a, r),
    ensures
        r.last() is CloseWindow,
        exists|i: int| 0 <= i < r.len() && #[trigger] r[i] is SaveState,
        (exists|i: int| 0 <= i < r.len() && #[trigger] r[i] is DeletePassword)
            <==> !a.settings.steamcmd_save_password,
        (exists|i: int| 0 <= i < r.len() && #[trigger] r[i] is SavePassword)
            <==> a.settings.steamcmd_save_password && a.login.password@.len() > 0,
        (exists|i: int| 0 <= i < r.len() && #[trigger] r[i] is DeleteApiKey)
            <==> !a.settings.steam_webapi_save_api_key,
        (exists|i: int| 0 <= i < r.len() && #[trigger] r[i] is SaveApiKey)
            <==> a.settings.steam_webapi_save_api_key && a.api_key@.len() > 0,
        (exists|i: int| 0 <= i < r.len() && #[trigger] r[i] is QuitSession) <==> a.login.session
            && !a.login.killed,
        (exists|i: int| 0 <= i < r.len() && #[trigger] r[i] is LogOutSession)
            <==> a.settings.steamcmd_logout_on_exit && a.login.session && a.login.logged_in,
        forall|i: int, j: int|
            0 <= i < r.len() && 0 <= j < r.len() && #[trigger] r[i] is LogOutSession && (
            #[trigger] r[j]) is QuitSession ==> i < j,
{
    let password = if !a.settings.steamcmd_save_password {
        seq![Action::DeletePassword]
    } else if a.login.password@.len() > 0 {
        seq![Action::SavePassword(a.login.password)]
    } else {
        Seq::empty()
    };
    let key = if !a.settings.steam_webapi_save_api_key {
        seq![Action::DeleteApiKey]
    } else if a.api_key@.len() > 0 {
        seq![Action::SaveApiKey(a.api_key)]
    } else {
        Seq::empty()
    };
    let logout = if a.settings.steamcmd_logout_on_exit && a.login.session && a.login.logged_in {
        seq![Action::LogOutSession]
    } else {
        Seq::empty()
    };
    let quit = if a.login.session && !a.login.killed {
        seq![Action::QuitSession]
    } else {
        Seq::empty()
    };
    let first = password + key + seq![Action::SaveState];
    let rest = logout + quit + seq![Action::CloseWindow];
    let n = first.len() as int;
    assert(first == r.take(n));
    assert(rest == r.skip(n + 1));
    assert(r.len() == n + 1 + rest.len());
    assert forall|i: int| 0 <= i < n implies #[trigger] r[i] == first[i] by {}
    assert forall|i: int| n < i < r.len() implies #[trigger] r[i] == rest[i - n - 1] by {}
    assert(first[n - 1] is SaveState && r[n - 1] is SaveState);
    if password.len() > 0 {
        assert(first[0] == password[0] && r[0] == password[0]);
    }
    if key.len() > 0 {
        let k = password.len() as int;
        assert(first[k] == key[0] && r[k] == key[0]);
    }
    if logout.len() > 0 {
        assert(rest[0] == logout[0] && r[n + 1] == logout[0]);
    }
    if quit.len() > 0 {
        let k = logout.len() as int;
        assert(rest[k] == quit[0] && r[n + 1 + k] == quit[0]);
    }
    assert(rest[rest.len() - 1] is CloseWindow);
}

/// A login that the user asks for, with a name and a password, is tried without a code where one
/// was given before, and else a code is asked for.
pub proof fn asked_logins_are_tried(a: App, b: App, r: Seq<Action>)
    requires
        login_requested(a, b, true, r),
        !a.login.logged_in,
        a.login.session,
        a.save.username@.len() > 0,
        a.login.password@.len() > 0,
    ensures
        r.len() > 0,
        if a.login.is_cached {
            r[0] matches Action::AttemptCachedLogin(name, manual) && name == a.login.username
                && manual
        } else {
            r[0] == Action::Send(Message::SteamCMDLoginElevated)
        },
{
}

/// A login that nobody asked for never asks for anything.
pub proof fn unasked_logins_ask_for_nothing(a: App, b: App, r: Seq<Action>)
    requires
        login_requested(a, b, false, r),
    ensures
        !r.contains(Action::Send(Message::SteamCMDLoginElevated)),
        b.login == a.login,
{
}

/// A code is sent with the name and the password that were entered, and is then forgotten.
pub proof fn codes_are_used_once(a: App, b: App, r: Seq<Action>)
    requires
        code_submitted(a, b, r),
    ensures
        b.login.code@.len() == 0,
        b.login.username == a.login.username,
        b.login.password == a.login.password,
        exists|i: int|
            0 <= i < r.len() && #[trigger] r[i] == Action::AttemptFullLogin(
                a.login.username,
                a.login.password,
                a.login.code,
            ),
{
    assert(r[0] is AttemptFullLogin);
}

/// When a download is complete, the downloads are looked through. That all are complete is told
/// where nothing waits any more and the user wants to be told.
pub proof fn complete_downloads_are_seen(a: App, b: App, id: u32, r: Seq<Action>)
    requires
        download_completed(a, b, id, r),
    ensures
        exists|i: int| 0 <= i < r.len() && #[trigger] r[i] is ScanDownloads,
        (exists|i: int| 0 <= i < r.len() && #[trigger] r[i] is NotifyAll) <==> a.downloads@.queue.len()
            == 0 && a.settings.notify_on_download_complete,
        (exists|i: int| 0 <= i < r.len() && #[trigger] r[i] is NotifyItem) <==> notifies(a, id),
        b.downloads@.completed.contains(id),
{
    let told: int = if notifies(a, id) {
        2
    } else {
        1
    };
    let rest = r.skip(told);
    assert(r[0] is ScanDownloads);
    assert(rest.len() == r.len() - told);
    assert forall|i: int| told <= i < r.len() implies #[trigger] r[i] == rest[i - told] by {}
    assert forall|i: int| 0 <= i < rest.len() implies (#[trigger] rest[i] is NotifyAll
        || rest[i] is Download) && (rest[i] is NotifyAll ==> a.downloads@.queue.len() == 0
        && a.settings.notify_on_download_complete) by {}
    if notifies(a, id) {
        assert(r[1] is NotifyItem);
    }
    if a.downloads@.queue.len() == 0 && a.settings.notify_on_download_complete {
        assert(rest.len() == 1 && rest[0] is NotifyAll);
        assert(r[told] == rest[0]);
    }
}

/// A download that fails is told to the user and noted with its reason, and either way the next
/// one can begin.
pub proof fn failed_downloads_are_told(id: u32, error: Option<String>, r: Seq<Action>)
    requires
        download_outcome(id, error, r),
    ensures
        exists|i: int|
            0 <= i < r.len() && #[trigger] r[i] == Action::Send(
                Message::SteamCMDDownloadCompleted(id),
            ),
        error is Some ==> exists|i: int|
            0 <= i < r.len() && (#[trigger] r[i] matches Action::Send(Message::DisplayError(_, text))
                && text@ == error->Some_0@),
        (exists|i: int|
            0 <= i < r.len() && (#[trigger] r[i] matches Action::Send(
                Message::SteamCMDDownloadErrored(n, text),
            ) && n == id && text@ == error->Some_0@)) <==> error is Some,
{
    if error is Some {
        assert(r[0] is Send);
        assert(r[1] is Send);
        assert(r[2] is Send);
    } else {
        assert(r[0] is Send);
    }
}

/// Each item that the user confirmed is requested, in their order, and nothing else.
pub proof fn confirmed_items_are_requested(ids: Seq<u32>, more: Seq<u32>, id: u32)
    ensures
        request_each(ids + more) == request_each(ids) + request_each(more),
        request_each(ids).contains(Action::Send(Message::SteamCMDDownloadRequested(id)))
            <==> ids.contains(id),
        request_each(ids).len() == ids.len(),
{
    let all = request_each(ids);
    let wanted = Action::Send(Message::SteamCMDDownloadRequested(id));
    assert(request_each(ids + more) =~= all + request_each(more));
    if ids.contains(id) {
        let i = choose|i: int| 0 <= i < ids.len() && ids[i] == id;
        assert(all[i] == wanted);
    }
    if all.contains(wanted) {
        let i = choose|i: int| 0 <= i < all.len() && all[i] == wanted;
        assert(ids[i] == id);
    }
}

/// Arguments are handed to the game one after the other: each with its value behind it, and a
/// value without a name alone.
pub proof fn arguments_are_handed_on(
    args: Seq<(String, String)>,
    more: Seq<(String, String)>,
    key: String,
    value: String,
)
    ensures
        arguments(args + more) == arguments(args) + arguments(more),
        arguments(seq![(key, value)]) == if key@.len() == 0 {
            seq![value]
        } else {
            seq![key, value]
        },
    decreases more.len(),
{
    let one = seq![(key, value)];
    assert(one.drop_last() =~= Seq::<(String, String)>::empty());
    assert(arguments(one.drop_last()) =~= Seq::<String>::empty());
    assert(arguments(one) =~= if key@.len() == 0 {
        seq![value]
    } else {
        seq![key, value]
    });
    if more.len() == 0 {
        assert(args + more =~= args);
        assert(arguments(args) + arguments(more) =~= arguments(args));
    } else {
        arguments_are_handed_on(args, more.drop_last(), key, value);
        assert((args + more).drop_last() =~= args + more.drop_last());
        assert((args + more).last() == more.last());
        assert(arguments(args + more) =~= arguments(args) + arguments(more));
    }
}

/// Whether the game is started.
pub open spec fn starts(r: Seq<Action>) -> bool {
    exists|i: int| 0 <= i < r.len() && #[trigger] r[i] is Launch
}

/// The game is not started before the active profile is linked into it, where the user wants it
/// to be. Once it is, the game is started with the command and the arguments that are set, and a
/// snapshot of the profile is made first where its settings say so.
pub proof fn the_profile_is_linked_before_the_game_starts(
    a: App,
    b: App,
    facts: PrepareFacts,
    r: Seq<Action>,
    c: App,
    s: Seq<Action>,
)
    requires
        a.save.launch_command is Some,
        launch_requested(a, b, facts, r),
        applied(a, c, ApplyReason::Launch, s),
    ensures
        a.settings.reload_profile_on_launch && active_profile(a) is Some ==> !starts(r),
        a.settings.reload_profile_on_launch && active_profile(a) is Some && prepare_error(a, facts)
            is None ==> r.len() == 1 && (r[0] matches Action::LoadProfile(request)
            && request.reason == ApplyReason::Launch && Some(request.profile)
            == a.save.active_profile),
        !a.settings.reload_profile_on_launch ==> starts(r),
        s.len() > 0 && (s[0] matches Action::Launch(command, args, snapshot) && Some(command)
            == a.save.launch_command && args@ == arguments(a.save.launch_args@) && (snapshot is Some
            <==> active_profile(a) is Some
            && active_profile(a)->Some_0.settings.automatic_snapshot_on_launch) && (
        snapshot is Some ==> snapshot == a.save.active_profile)),
{
    if !a.settings.reload_profile_on_launch {
        assert(r[0] is Launch);
    }
}

/// Where a profile was linked because the user asked for it, they are told, and a snapshot of it is
/// made first where its settings say so. Where they did not ask, nothing happens.
pub proof fn linked_profiles_are_told(a: App, b: App, r: Seq<Action>)
    requires
        applied(a, b, ApplyReason::Asked, r),
        active_profile(a) is Some,
    ensures
        a == b,
        (exists|i: int| 0 <= i < r.len() && #[trigger] r[i] is GenerateSnapshot) <==> active_profile(
            a,
        )->Some_0.settings.automatic_snapshot_on_apply,
        r.len() > 0,
        !starts(r),
{
    if active_profile(a)->Some_0.settings.automatic_snapshot_on_apply {
        assert(r[1] is GenerateSnapshot);
        assert(!(r[0] is Launch) && !(r[2] is Launch));
    }
}

/// A profile is made only under a name that is given, valid and not used yet, and then it is.
pub proof fn names_are_used_once(
    a: App,
    b: App,
    invalid: Option<String>,
    r: Seq<Action>,
)
    requires
        add_completed(a, b, true, invalid, r),
    ensures
        (exists|i: int| 0 <= i < r.len() && #[trigger] r[i] is CreateProfile)
            <==> a.profile_add_name@.len() > 0 && !a.profiles@.dom().contains(a.profile_add_name@)
            && invalid is None,
        forall|i: int|
            0 <= i < r.len() && (#[trigger] r[i] matches Action::CreateProfile(name)) ==> r[i]
                == Action::CreateProfile(a.profile_add_name),
        a == b,
{
    if r.len() > 0 {
        assert(r[0] is Send || r[0] is CreateProfile);
    }
}

/// A profile that was made is there, is kept and is shown, holds no mods, and leaves the others as
/// they are.
pub proof fn made_profiles_join_the_others(
    a: App,
    b: App,
    name: String,
    settings: ProfileSettings,
    other: Seq<char>,
)
    requires
        profile_made(a, b, name, settings),
    ensures
        b.profiles@.dom().contains(name@),
        b.profiles@[name@].name@ == name@,
        forall|id: ModIdModel| !#[trigger] b.profiles@[name@].items@.dom().contains(id),
        b.save.tracked_profiles@.dom().contains(name@),
        b.selected_profile_name == Some(name),
        other != name@ ==> (b.profiles@.dom().contains(other) <==> a.profiles@.dom().contains(other))
            && (a.profiles@.dom().contains(other) ==> b.profiles@[other] == a.profiles@[other])
            && (b.save.tracked_profiles@.dom().contains(other)
            <==> a.save.tracked_profiles@.dom().contains(other)),
{
}

/// Whether something is among what is to be done.
pub open spec fn is_among(r: Seq<Action>, wanted: Wanted) -> bool {
    exists|i: int| 0 <= i < r.len() && is_wanted(#[trigger] r[i], wanted)
}

proof fn lemma_wanted(
    index: ModIndex,
    images: Set<Seq<char>>,
    ids: Seq<ModIdModel>,
    id: ModIdModel,
)
    requires
        ids.contains(id),
        index.details@.dom().contains(id),
        index.details@[id] is Workshop,
    ensures
        ({
            let all = wanted_for(index, images, ids);
            let url = index.details@[id]->Workshop_0.preview_url@;
            &&& all.contains(Wanted::Markup(index.details@[id].description_text()))
            &&& url.len() == 0 || images.contains(url) || all.contains(Wanted::Image(url))
        }),
    decreases ids.len(),
{
    let all = wanted_for(index, images, ids);
    let front = wanted_for(index, images, ids.drop_last());
    let url = index.details@[id]->Workshop_0.preview_url@;
    let markup = Wanted::Markup(index.details@[id].description_text());
    let image = Wanted::Image(url);
    if id == ids.last() {
        assert(all[front.len() as int] == markup);
        if url.len() > 0 && !images.contains(url) {
            assert(all[front.len() as int + 1] == image);
        }
    } else {
        let k = choose|k: int| 0 <= k < ids.len() && ids[k] == id;
        assert(ids.drop_last()[k] == id);
        lemma_wanted(index, images, ids.drop_last(), id);
        assert forall|w: Wanted| front.contains(w) implies #[trigger] all.contains(w) by {
            let i = choose|i: int| 0 <= i < front.len() && front[i] == w;
            assert(all[i] == w);
        }
    }
}

/// When a profile is shown, the description of each of its mods that something is known of is made
/// ready, and its image is loaded where it is not there yet.
pub proof fn shown_mods_are_made_ready(
    r: Seq<Action>,
    index: ModIndex,
    images: Set<Seq<char>>,
    ids: Seq<ModIdModel>,
    id: ModIdModel,
)
    requires
        are_wanted(r, wanted_for(index, images, ids)),
        ids.contains(id),
        index.details@.dom().contains(id),
        index.details@[id] is Workshop,
    ensures
        is_among(r, Wanted::Markup(index.details@[id].description_text())),
        ({
            let url = index.details@[id]->Workshop_0.preview_url@;
            url.len() == 0 || images.contains(url) || is_among(r, Wanted::Image(url))
        }),
{
    let all = wanted_for(index, images, ids);
    lemma_wanted(index, images, ids, id);
    assert forall|w: Wanted| #[trigger] all.contains(w) implies is_among(r, w) by {
        let i = choose|i: int| 0 <= i < all.len() && all[i] == w;
        assert(is_wanted(r[i], w));
    }
}

/// A collection becomes a profile only under a name that is given, valid and not used yet, and the
/// profile then holds its mods.
pub proof fn collections_become_profiles(
    name: String,
    used: Set<Seq<char>>,
    invalid: Option<String>,
    ids: Vec<ModId>,
    r: Message,
)
    requires
        collection_named(name, used, invalid, ids, r),
    ensures
        r is Chained <==> name@.len() > 0 && !used.contains(name@) && invalid is None,
        !(r is Chained) ==> r is DisplayError,
        r is Chained ==> r->Chained_0@.contains(Message::ProfileAddItems(name, ids)),
{
    if r is Chained {
        assert(r->Chained_0@[2] == Message::ProfileAddItems(name, ids));
    }
}

/// Dialogs of one kind are taken away, and all others stay, in their order.
pub proof fn other_dialogs_stay(stack: Seq<AppModal>, more: Seq<AppModal>, kind: ModalKind, m: AppModal)
    ensures
        without_kind(stack, kind).contains(m) <==> stack.contains(m) && !kind.holds(m),
        without_kind(stack + more, kind) == without_kind(stack, kind) + without_kind(more, kind),
    decreases stack.len() + more.len(),
{
    lemma_dialogs(stack, kind, m);
    if more.len() == 0 {
        assert(stack + more =~= stack);
        assert(without_kind(stack, kind) + without_kind(more, kind) =~= without_kind(stack, kind));
    } else {
        other_dialogs_stay(stack, more.drop_last(), kind, m);
        assert((stack + more).drop_last() =~= stack + more.drop_last());
        assert((stack + more).last() == more.last());
        assert(without_kind(stack + more, kind) =~= without_kind(stack, kind) + without_kind(
            more,
            kind,
        ));
    }
}

proof fn lemma_dialogs(stack: Seq<AppModal>, kind: ModalKind, m: AppModal)
    ensures
        without_kind(stack, kind).contains(m) <==> stack.contains(m) && !kind.holds(m),
    decreases stack.len(),
{
    let all = without_kind(stack, kind);
    if stack.len() > 0 {
        let fewer = stack.drop_last();
        let front = without_kind(fewer, kind);
        lemma_dialogs(fewer, kind, m);
        assert(stack[stack.len() - 1] == stack.last());
        if fewer.contains(m) {
            let i = choose|i: int| 0 <= i < fewer.len() && fewer[i] == m;
            assert(stack[i] == m);
        }
        if stack.contains(m) {
            let i = choose|i: int| 0 <= i < stack.len() && stack[i] == m;
            if i < fewer.len() {
                assert(fewer[i] == m);
            }
        }
        if front.contains(m) {
            let i = choose|i: int| 0 <= i < front.len() && front[i] == m;
            assert(all[i] == m);
        }
        if all.contains(m) {
            let i = choose|i: int| 0 <= i < all.len() && all[i] == m;
            if i < front.len() {
                assert(front[i] == m);
            }
        }
        if all.len() > front.len() {
            assert(all[front.len() as int] == stack.last());
        }
    }
}

/// A file that was found and is to be kept is known afterwards, by its number, and what is known of
/// it was either known before or is what a file of that number says.
pub proof fn kept_files_become_known(
    details: Map<ModIdModel, ModDetails>,
    files: Seq<WorkshopDetails>,
    kept: Seq<u32>,
    n: u32,
)
    ensures
        ({
            let after = indexed(details, files, kept);
            let id = ModIdModel::Workshop(n);
            &&& after.dom().contains(id) <==> details.dom().contains(id) || (kept.contains(n)
                && exists|i: int|
                0 <= i < files.len() && file_number(#[trigger] files[i]) == Some(n as nat))
            &&& after.dom().contains(id) ==> (details.dom().contains(id) && after[id]
                == details[id]) || exists|i: int|
                0 <= i < files.len() && file_number(#[trigger] files[i]) == Some(n as nat)
                    && after[id] == ModDetails::Workshop(files[i])
        }),
    decreases files.len(),
{
    if files.len() > 0 {
        let fewer = files.drop_last();
        kept_files_become_known(details, fewer, kept, n);
        let id = ModIdModel::Workshop(n);
        let front = indexed(details, fewer, kept);
        let after = indexed(details, files, kept);
        assert(files[files.len() - 1] == files.last());
        if exists|i: int|
            0 <= i < fewer.len() && file_number(#[trigger] fewer[i]) == Some(n as nat) {
            let i = choose|i: int|
                0 <= i < fewer.len() && file_number(#[trigger] fewer[i]) == Some(n as nat);
            assert(files[i] == fewer[i]);
        }
        if exists|i: int|
            0 <= i < files.len() && file_number(#[trigger] files[i]) == Some(n as nat) {
            let i = choose|i: int|
                0 <= i < files.len() && file_number(#[trigger] files[i]) == Some(n as nat);
            if i < fewer.len() {
                assert(files[i] == fewer[i]);
            }
        }
        if front.dom().contains(id) && !(details.dom().contains(id) && front[id] == details[id]) {
            let i = choose|i: int|
                0 <= i < fewer.len() && file_number(#[trigger] fewer[i]) == Some(n as nat)
                    && front[id] == ModDetails::Workshop(fewer[i]);
            assert(files[i] == fewer[i]);
        }
    }
}

/// The images that are loaded for files are those that they have and that are not there yet.
pub proof fn missing_images_are_loaded(
    files: Seq<WorkshopDetails>,
    images: Set<Seq<char>>,
    url: String,
)
    ensures
        image_actions(files, images).contains(Action::LoadImage(url)) <==> url@.len() > 0
            && !images.contains(url@) && exists|i: int|
            0 <= i < files.len() && (#[trigger] files[i]).preview_url == url,
    decreases files.len(),
{
    let all = image_actions(files, images);
    let wanted = Action::LoadImage(url);
    if files.len() > 0 {
        let fewer = files.drop_last();
        let front = image_actions(fewer, images);
        let last = image_action(files.last().preview_url, images);
        missing_images_are_loaded(fewer, images, url);
        assert(files[files.len() - 1] == files.last());
        assert(all == front + last);
        if front.contains(wanted) {
            let i = choose|i: int| 0 <= i < front.len() && front[i] == wanted;
            assert(all[i] == wanted);
            let k = choose|k: int| 0 <= k < fewer.len() && (#[trigger] fewer[k]).preview_url == url;
            assert(files[k] == fewer[k]);
        }
        if last.len() > 0 {
            assert(all[front.len() as int] == last[0]);
        }
        if all.contains(wanted) {
            let i = choose|i: int| 0 <= i < all.len() && all[i] == wanted;
            if i < front.len() {
                assert(front[i] == wanted);
            } else {
                assert(last[i - front.len()] == wanted);
            }
        }
        if exists|k: int| 0 <= k < files.len() && (#[trigger] files[k]).preview_url == url {
            let k = choose|k: int| 0 <= k < files.len() && (#[trigger] files[k]).preview_url == url;
            if k < fewer.len() {
                assert(files[k] == fewer[k]);
            }
        }
    }
}

/// Of what an item needs, that is looked up which nothing is known of.
pub proof fn unknown_children_are_looked_up(index: ModIndex, children: Seq<ChildFile>, n: u32)
    ensures
        unknown_children(index, children).contains(n) <==> !index.details@.dom().contains(
            ModIdModel::Workshop(n),
        ) && exists|i: int|
            0 <= i < children.len() && child_number(#[trigger] children[i]) == Some(n as nat),
    decreases children.len(),
{
    let all = unknown_children(index, children);
    if children.len() > 0 {
        let fewer = children.drop_last();
        let front = unknown_children(index, fewer);
        unknown_children_are_looked_up(index, fewer, n);
        assert(children[children.len() - 1] == children.last());
        if front.contains(n) {
            let i = choose|i: int| 0 <= i < front.len() && front[i] == n;
            assert(all[i] == n);
            let k = choose|k: int|
                0 <= k < fewer.len() && child_number(#[trigger] fewer[k]) == Some(n as nat);
            assert(children[k] == fewer[k]);
        }
        if all.len() > front.len() {
            assert(all[front.len() as int] == all.last());
        }
        if all.contains(n) {
            let i = choose|i: int| 0 <= i < all.len() && all[i] == n;
            if i < front.len() {
                assert(front[i] == n);
            }
        }
        if exists|k: int|
            0 <= k < children.len() && child_number(#[trigger] children[k]) == Some(n as nat) {
            let k = choose|k: int|
                0 <= k < children.len() && child_number(#[trigger] children[k]) == Some(n as nat);
            if k < fewer.len() {
                assert(children[k] == fewer[k]);
            }
        }
    }
}

/// There are as many pages as hold all mods that were found, and no more than one beyond that.
pub proof fn pages_hold_all_mods(
    a: App,
    b: App,
    total: u32,
    files: Seq<WorkshopDetails>,
    kept: Seq<u32>,
    r: Seq<Action>,
)
    requires
        a.query_page_size > 1,
        files_loaded(a, b, total, files, kept, r),
    ensures
        b.browse@.page_max * a.query_page_size > total,
        (b.browse@.page_max - 1) * a.query_page_size <= total,
        b.loaded_files@.len() == files.len(),
{
    let size = a.query_page_size as int;
    let pages = total as int / size;
    assert(pages * size <= total && total < (pages + 1) * size && pages + 1 <= u32::MAX)
        by (nonlinear_arith)
        requires
            size > 1,
            pages == total as int / size,
    ;
}

/// The key is written down only where the user wants it to be, and either way it is used as it was
/// entered.
pub proof fn keys_are_stored_when_asked_for(a: App, b: App, r: Seq<Action>)
    requires
        api_key_submitted(a, b, r),
        a.api_key@.len() > 0,
    ensures
        (exists|i: int| 0 <= i < r.len() && #[trigger] r[i] is StoreApiKey)
            <==> a.settings.steam_webapi_save_api_key,
        r.len() == 1,
        r[0] == Action::StoreApiKey(a.api_key) || r[0] == Action::TellApiKey(a.api_key),
        b.api_key == a.api_key,
{
}

/// A profile whose name is a number gets a name that is none and ends in it. All others keep their
/// names.
pub proof fn only_numbers_are_renamed(name: Seq<char>)
    ensures
        unsigned_value(encode_utf8(name), u64::MAX as nat) is None ==> migrated(name) == name,
        unsigned_value(encode_utf8(name), u64::MAX as nat) is Some ==> migrated(name).len()
            > name.len() && migrated(name).skip(migrated(name).len() - name.len()) == name,
{
    reveal_strlit("Profile_");
    if unsigned_value(encode_utf8(name), u64::MAX as nat) is Some {
        assert(migrated(name).skip(migrated(name).len() - name.len()) =~= name);
    }
}

/// An answer goes to the dialog of its kind that was opened first.
pub proof fn the_first_dialog_is_answered(stack: Seq<AppModal>, kind: ModalKind)
    ensures
        match lowest_of(stack, kind) {
            Some(i) => 0 <= i < stack.len() && kind.holds(stack[i]) && forall|j: int|
                0 <= j < i ==> !kind.holds(#[trigger] stack[j]),
            None => forall|j: int| 0 <= j < stack.len() ==> !kind.holds(#[trigger] stack[j]),
        },
    decreases stack.len(),
{
    if stack.len() > 0 {
        let fewer = stack.drop_last();
        the_first_dialog_is_answered(fewer, kind);
        assert forall|j: int| 0 <= j < fewer.len() implies #[trigger] stack[j] == fewer[j] by {}
        if let Some(i) = lowest_of(fewer, kind) {
            assert(stack[i] == fewer[i]);
            assert forall|j: int| 0 <= j < i implies !kind.holds(#[trigger] stack[j]) by {
                assert(stack[j] == fewer[j]);
            }
        } else {
            assert forall|j: int| 0 <= j < fewer.len() implies !kind.holds(#[trigger] stack[j]) by {
                assert(stack[j] == fewer[j]);
            }
        }
    }
}

/// A question that is answered goes away, alone, and the answer goes to the one who asked. A dialog
/// that is not submitted hands nothing on.
pub proof fn answers_reach_those_who_asked(
    a: App,
    b: App,
    key: KeyModel,
    choice: usize,
    r: Seq<Action>,
)
    requires
        choose_resolved(a, b, key, choice, r),
        exists|j: int|
            0 <= j < a.modal_stack@.len() && ModalKind::Choose(key).holds(
                #[trigger] a.modal_stack@[j],
            ),
    ensures
        b.modal_stack@.len() == a.modal_stack@.len() - 1,
        exists|i: int|
            0 <= i < a.modal_stack@.len() && ModalKind::Choose(key).holds(
                #[trigger] a.modal_stack@[i],
            ) && b.modal_stack@ == a.modal_stack@.take(i) + a.modal_stack@.skip(i + 1) && r
                == seq![Action::Resolve(a.modal_stack@[i]->Choose_0.ticket, choice)],
{
    let stack = a.modal_stack@;
    let kind = ModalKind::Choose(key);
    the_first_dialog_is_answered(stack, kind);
    let i = lowest_of(stack, kind)->Some_0;
    assert(kind.holds(stack[i]));
    assert(stack.remove(i) =~= stack.take(i) + stack.skip(i + 1));
}

/// Whether a message does what the user was asked about.
pub open spec fn goes_ahead(message: Message) -> bool {
    message is DownloadAllConfirmed || message is ProfileDeleteConfirmed
        || message is LoadFindGameResolved || message is LoadFindLocalResolved
}

/// Nothing that the user is asked about happens unless they say yes, which is the second of the
/// options, and then it does.
pub proof fn nothing_happens_without_a_yes(outcome: Outcome, choice: Option<usize>)
    ensures
        goes_ahead(answer(outcome, choice)) <==> choice == Some(1usize),
        choice == Some(1usize) ==> match outcome {
            Outcome::DownloadAll(ids) => answer(outcome, choice) == Message::DownloadAllConfirmed(
                ids,
            ),
            Outcome::DeleteProfile(name) => answer(outcome, choice)
                == Message::ProfileDeleteConfirmed(name),
            Outcome::GameFind(path) => answer(outcome, choice) == Message::LoadFindGameResolved(
                path,
            ),
            Outcome::LocalFind(path) => answer(outcome, choice) == Message::LoadFindLocalResolved(
                path,
            ),
        },
{
}

/// Saving the settings writes them down, puts all of them to use and looks through the downloads
/// where they are to be in another place.
pub proof fn saved_settings_take_effect(a: App, b: App, r: Seq<Action>)
    requires
        settings_step(a, b, SettingsMessage::Save, r),
    ensures
        b.settings@ == a.settings_editing@,
        exists|i: int| 0 <= i < r.len() && #[trigger] r[i] is SaveSettings,
        (exists|i: int| 0 <= i < r.len() && #[trigger] r[i] is ScanDownloads)
            <==> a.settings@.download_directory != a.settings_editing@.download_directory,
        (exists|i: int| 0 <= i < r.len() && #[trigger] r[i] is ApplySessionSettings)
            <==> !a.login.shared,
        a.login.shared ==> b.modal_stack@.len() > a.modal_stack@.len(),
{
    let scans = a.settings@.download_directory != a.settings_editing@.download_directory;
    let n: int = if scans {
        1
    } else {
        0
    };
    assert(r.last() is SaveSettings);
    assert(r[r.len() - 1] is SaveSettings);
    if scans {
        assert(r[0] is ScanDownloads);
    }
    if !a.login.shared {
        assert(r[n] is ApplySessionSettings);
    }
}

/// A directory of mods that is added is kept and looked through, once. One that is taken out is no
/// longer kept, and the others are.
pub proof fn mod_directories_are_kept(
    a: App,
    b: App,
    path: Seq<char>,
    r: Seq<Action>,
    index: usize,
    c: App,
    s: Seq<Action>,
)
    requires
        directory_added(a, b, path, r),
        directory_removed(a, c, index, s),
        index < dir_rows(a.save.local_mod_dirs).len(),
    ensures
        dir_rows(a.save.local_mod_dirs) =~= dir_rows(b.save.local_mod_dirs).take(
            dir_rows(a.save.local_mod_dirs).len() as int,
        ),
        holds_path(dir_rows(b.save.local_mod_dirs), path),
        (exists|i: int|
            0 <= i < r.len() && (#[trigger] r[i] matches Action::ScanMods(p) && p@ == path))
            <==> !holds_path(dir_rows(a.save.local_mod_dirs), path),
        dir_rows(c.save.local_mod_dirs) == dir_rows(a.save.local_mod_dirs).take(index as int)
            + dir_rows(a.save.local_mod_dirs).skip(index + 1),
        s.len() == 1 && (s[0] matches Action::ListMods(p) && p@ == dir_rows(
            a.save.local_mod_dirs,
        )[index as int]),
{
    let before = dir_rows(a.save.local_mod_dirs);
    let after = dir_rows(b.save.local_mod_dirs);
    assert(before =~= after.take(before.len() as int));
    if !holds_path(before, path) {
        assert(after[before.len() as int] == path);
        assert(r[0] is ScanMods);
    }
    assert(before.remove(index as int) =~= before.take(index as int) + before.skip(index + 1));
}

/// Local mods that are no longer looked for are forgotten everywhere, and no others are.
pub proof fn forgotten_mods_are_gone(
    a: App,
    b: App,
    paths: Seq<Seq<char>>,
    id: ModIdModel,
)
    requires
        local_mods_forgotten(a, b, paths),
    ensures
        ({
            let forgotten = id is Local && paths.contains(id->Local_0);
            &&& b.library.items@.dom().contains(id) <==> a.library.items@.dom().contains(id)
                && !forgotten
            &&& b.local@.dom().contains(id) <==> a.local@.dom().contains(id) && !forgotten
            &&& b.index.details@.dom().contains(id) <==> a.index.details@.dom().contains(id)
                && !forgotten
            &&& b.index.metadata@.dom().contains(id) <==> a.index.metadata@.dom().contains(id)
                && !forgotten
        }),
{
}

/// Each mod of the workshop that is in the library is deleted, one by one, and nothing else.
pub proof fn each_one_is_deleted(ids: Seq<u32>, id: u32)
    ensures
        delete_each(ids).len() == ids.len(),
        delete_each(ids).contains(Action::Send(Message::DeleteRequested(id))) <==> ids.contains(id),
{
    let all = delete_each(ids);
    let wanted = Action::Send(Message::DeleteRequested(id));
    if ids.contains(id) {
        let i = choose|i: int| 0 <= i < ids.len() && ids[i] == id;
        assert(all[i] == wanted);
    }
    if all.contains(wanted) {
        let i = choose|i: int| 0 <= i < all.len() && all[i] == wanted;
        assert(ids[i] == id);
    }
}

/// Settings that were changed and not saved are not lost sight of: the user is told when they leave
/// the page.
pub proof fn unsaved_settings_are_told(a: App, b: App, page: AppPage)
    requires
        page_set(a, b, page),
    ensures
        b.current_page == page,
        b.modal_stack@.len() > a.modal_stack@.len() <==> a.current_page == AppPage::Settings
            && a.settings_editing@ != a.settings@,
        b.settings_editing == a.settings_editing,
{
}

} // verus!
