//! What the program does when something happens.
use vstd::prelude::*;

use super::modal::AppModal;
use super::state::{nothing, only, Action, App, AppSave, Login, Message, SettingsMessage};
#[allow(unused_imports)]
use crate::collections::CollectionsMessage;
#[allow(unused_imports)]
use super::downloads::DownloadsModel;
#[allow(unused_imports)]
use super::modal::{without_kind, ModalKind};
#[allow(unused_imports)]
use super::on_browse::{
    api_key_submitted, api_key_updated, browse_page_set, children_have_numbers, files_loaded,
    files_resolved, item_viewed, only_browse, page_query, query_submitted,
};
#[allow(unused_imports)]
use super::on_collections::collections_step;
#[allow(unused_imports)]
use super::on_download::{
    all_requested, all_resolved, download_completed, download_errored, download_progressed,
    download_requested, item_deleted, multiple_requested, only_downloads, pending_pushed,
    progress_is_defined, request_each,
};
#[allow(unused_imports)]
use super::on_library::{
    add_confirmed, add_requested, all_toggled, delete_confirmed, fuzzy_changed, item_toggled,
    library_ids, one_selected, outdated_asked, outdated_found, profiles_selected, query_changed,
    to_check, update_requested,
};
#[allow(unused_imports)]
use super::on_load::{
    applied, arg_added, arg_key_set, arg_value_set, command_set, game_matched, game_resolved,
    game_search, launch_requested, local_matched, local_resolved, local_search, only_args, picking,
    prepared, profile_dependencies_asked, reason_of, search_begun,
};
#[allow(unused_imports)]
use super::on_log::log_step;
#[allow(unused_imports)]
use super::on_login::{
    closing_actions, code_cancelled, code_submitted, login_elevated, login_requested,
    login_succeeded,
};
#[allow(unused_imports)]
use super::on_modal::{
    busy_message_modified, busy_set, choose_resolved, dialog_field_set, dialog_resolved,
    modal_escaped, only_modals, page_set, popped,
};
#[allow(unused_imports)]
use super::on_profile::{
    active_chosen, add_completed, delete_asked, export_asked, folder_viewed, item_chosen,
    items_added, items_removed, profile_chosen, profile_deleted, profile_made, provided_found,
    removal_saved, snapshot_imported,
};
#[allow(unused_imports)]
use super::on_import::{
    basic_import, collection_import_asked, incremental_import, snapshot_import_asked,
};
#[allow(unused_imports)]
use super::on_settings::settings_step;
#[allow(unused_imports)]
use super::settings::is_setting;
#[allow(unused_imports)]
use super::state::with_modal;
#[allow(unused_imports)]
use crate::browser::{toggled, with_period, BrowseModel};
#[allow(unused_imports)]
use crate::library::missing::dependencies_noted;
#[allow(unused_imports)]
use crate::library::profile::id_models;
#[allow(unused_imports)]
use crate::web::QueryModel;

verus! {

/// What a message does to the dialogs and the pages.
pub open spec fn modal_step(a: App, b: App, message: Message, r: Seq<Action>) -> bool {
    match message {
        Message::AsyncChooseResolve(key, choice) => choose_resolved(a, b, key@, choice, r),
        Message::AsyncChooseCancelled(key) => {
            &&& only_modals(a, b)
            &&& b.modal_stack@ == without_kind(a.modal_stack@, ModalKind::Choose(key@))
            &&& r.len() == 0
        },
        Message::AsyncDialogUpdate(key, field, value) => dialog_field_set(
            a,
            b,
            key@,
            field@,
            value,
        ) && r.len() == 0,
        Message::AsyncDialogResolved(key, submitted) => dialog_resolved(a, b, key@, submitted, r),
        Message::AbortTask(key) => a == b && r == seq![Action::Abort(key)],
        Message::SetPage(page) => page_set(a, b, page) && r.len() == 0,
        Message::SetBusy(busy) => busy_set(a, b, busy) && r.len() == 0,
        Message::SetBusyMessage(text) => {
            &&& only_modals(a, b)
            &&& b.modal_stack@ == a.modal_stack@.push(AppModal::BusyMessage(text))
            &&& r.len() == 0
        },
        Message::ModifyBusyMessage(text) => busy_message_modified(a, b, text) && r.len() == 0,
        Message::DisplayError(title, body) => {
            &&& only_modals(a, b)
            &&& b.modal_stack@ == a.modal_stack@.push(AppModal::ErrorMessage(title, body))
            &&& r.len() == 0
        },
        Message::OpenModal(modal) => {
            &&& only_modals(a, b)
            &&& b.modal_stack@ == with_modal(a.modal_stack@, modal)
            &&& r.len() == 0
        },
        Message::CloseModal => {
            &&& only_modals(a, b)
            &&& b.modal_stack@ == popped(a.modal_stack@)
            &&& r.len() == 0
        },
        Message::EscapeModal => modal_escaped(a, b) && r.len() == 0,
        Message::ApiKeyRequest => {
            &&& only_modals(a, b)
            &&& b.modal_stack@ == a.modal_stack@.push(AppModal::ApiKeyRequest)
            &&& r.len() == 0
        },
        Message::ApiKeyRequestUpdate(key) => api_key_updated(a, b, key@) && r.len() == 0,
        Message::ApiKeySubmit => api_key_submitted(a, b, r),
        Message::LibraryDeleteRequest => {
            &&& only_modals(a, b)
            &&& b.modal_stack@ == a.modal_stack@.push(AppModal::LibraryDeleteRequest)
            &&& r.len() == 0
        },
        Message::ProfileViewDetails(name) => {
            &&& only_modals(a, b)
            &&& b.modal_stack@ == a.modal_stack@.push(AppModal::ProfileDetails(name))
            &&& r.len() == 0
        },
        Message::ItemDetailsAddToLibraryRequest(ids) => {
            &&& only_modals(a, b)
            &&& b.modal_stack@ == a.modal_stack@.push(AppModal::AddToProfileRequest(ids))
            &&& r.len() == 0
        },
        _ => true,
    }
}

/// What a message does to what is browsed and to the login.
pub open spec fn browse_step(a: App, b: App, message: Message, r: Seq<Action>) -> bool {
    let before = a.browse@;
    match message {
        Message::QueryFilesLoaded(total, files, kept) => files_loaded(
            a,
            b,
            total,
            files@,
            kept@,
            r,
        ),
        Message::FilesResolved(files, kept) => files_resolved(a, b, files@, kept@, r),
        Message::ImageLoaded(url) => {
            &&& b == (App { images: b.images, ..a })
            &&& b.images@ == a.images@.insert(url@, ())
            &&& r.len() == 0
        },
        Message::SetBrowsePage(new) => browse_page_set(a, b, new, r),
        Message::SetViewingItem(id) => item_viewed(a, b, id, r),
        Message::BrowseEditQuery(text) => {
            &&& only_browse(a, b)
            &&& b.browse@ == (BrowseModel {
                query: QueryModel { query: text@, ..before.query },
                ..before
            })
            &&& r.len() == 0
        },
        Message::BrowseEditTag(tag) => {
            &&& only_browse(a, b)
            &&& b.browse@ == (BrowseModel {
                query: QueryModel { tags: toggled(before.query.tags, tag@), ..before.query },
                ..before
            })
            &&& r.len() == 0
        },
        Message::BrowseEditSort(sort) => {
            &&& only_browse(a, b)
            &&& b.browse@ == (BrowseModel {
                query: QueryModel { sort, ..before.query },
                ..before
            })
            &&& r.len() == 0
        },
        Message::BrowseEditPeriod(period) => {
            &&& only_browse(a, b)
            &&& b.browse@ == (BrowseModel {
                period,
                query: QueryModel {
                    sort: with_period(before.query.sort, period),
                    ..before.query
                },
                ..before
            })
            &&& r.len() == 0
        },
        Message::BrowseToggleTagsDropdown(open) => {
            &&& only_browse(a, b)
            &&& b.browse@ == (BrowseModel { tags_open: open, ..before })
            &&& r.len() == 0
        },
        Message::BrowseSubmitQuery => query_submitted(a, b, r),
        Message::BrowseUpdateQuery => a == b && page_query(a, r),
        Message::SetSteamCMDUser(text) => {
            &&& b == (App {
                save: AppSave { username: text, ..a.save },
                login: Login {
                    username: if a.login.shared {
                        a.login.username
                    } else {
                        text
                    },
                    ..a.login
                },
                ..a
            })
            &&& r.len() == 0
        },
        Message::SetSteamCMDPassword(text) => {
            &&& b == (App {
                login: Login {
                    password: if a.login.shared {
                        a.login.password
                    } else {
                        text
                    },
                    ..a.login
                },
                ..a
            })
            &&& r.len() == 0
        },
        Message::SetSteamCMDCode(text) => {
            &&& b == (App { login: Login { code: text, ..a.login }, ..a })
            &&& r.len() == 0
        },
        Message::SteamCMDLogin(manual) => login_requested(a, b, manual, r),
        Message::SteamCMDLoginSuccess => login_succeeded(a, b, r),
        Message::SteamCMDLoginElevated => login_elevated(a, b) && r.len() == 0,
        Message::SteamCMDLoginElevatedSubmit => code_submitted(a, b, r),
        Message::SteamCMDLoginElevatedCancel => code_cancelled(a, b) && r.len() == 0,
        Message::CloseAppRequested => a == b && closing_actions(a, r),
        _ => true,
    }
}

/// What a message does to the downloads and the library.
pub open spec fn library_step(a: App, b: App, message: Message, r: Seq<Action>) -> bool {
    match message {
        Message::DeleteRequested(id) => item_deleted(a, b, id, r),
        Message::SteamCMDDownloadRequested(id) => download_requested(a, b, id, r),
        Message::SteamCMDDownloadCompleted(id) => download_completed(a, b, id, r),
        Message::SteamCMDDownloadErrored(id, text) => download_errored(a, b, id, text@, r),
        Message::SteamCMDDownloadProgress(id, size) => download_progressed(a, b, id, size, r),
        Message::SteamCMDDownloadCompletedClear(ids) => {
            &&& only_downloads(a, b)
            &&& b.downloads@ == (DownloadsModel {
                completed: a.downloads@.completed.difference(ids@.to_set()),
                ..a.downloads@
            })
            &&& r.len() == 0
        },
        Message::SteamCMDDownloadErrorClear(ids) => {
            &&& only_downloads(a, b)
            &&& b.downloads@ == (DownloadsModel {
                errored: a.downloads@.errored.remove_keys(ids@.to_set()),
                ..a.downloads@
            })
            &&& r.len() == 0
        },
        Message::DownloadCancelRequested(id) => {
            &&& only_downloads(a, b)
            &&& b.downloads@ == a.downloads@.cancelled(id)
            &&& r.len() == 0
        },
        Message::DownloadAllRequested(id) => a == b && all_requested(a, id, r),
        Message::DownloadAllResolved(ids, there) => all_resolved(a, b, ids@, there@, r),
        Message::DownloadMultipleRequested(ids, there) => multiple_requested(
            a,
            b,
            ids@,
            there@,
            r,
        ),
        Message::DownloadAllConfirmed(ids) => a == b && r == request_each(ids@),
        Message::DownloadPushPending(ids) => pending_pushed(a, b, ids@, r),
        Message::LibraryToggleItem(id, selected) => item_toggled(a, b, id@, selected) && r.len()
            == 0,
        Message::LibraryToggleAll(selected) => all_toggled(a, b, selected) && r.len() == 0,
        Message::LibraryUpdateRequest => update_requested(a, b, r),
        Message::LibraryScanRequest => a == b && r == seq![Action::ScanDownloads],
        Message::LibraryCheckOutdatedRequest => a == b && outdated_asked(
            a,
            to_check(a, library_ids(a)),
            r,
        ),
        Message::LibraryForceCheckOutdated => a == b && outdated_asked(a, library_ids(a), r),
        Message::CheckOutdatedCompleted(found) => outdated_found(a, b, found@, r),
        Message::LibraryAddToProfileRequest => add_requested(a, b) && r.len() == 0,
        Message::LibraryAddToProfileToggleAll(selected) => {
            &&& b == (App { profiles: b.profiles, ..a })
            &&& profiles_selected(a.profiles.rows(), b.profiles.rows(), selected)
            &&& r.len() == 0
        },
        Message::LibraryAddToProfileToggled(name, selected) => one_selected(
            a,
            b,
            name@,
            selected,
        ) && r.len() == 0,
        Message::LibraryAddToProfileConfirm(ids) => add_confirmed(a, b, id_models(ids@), r),
        Message::LibraryDeleteConfirm => delete_confirmed(a, b, r),
        Message::LibraryFilterUpdateQuery(text) => query_changed(a, b, text) && r.len() == 0,
        Message::LibraryFilterToggleFuzzy(fuzzy) => fuzzy_changed(a, b, fuzzy) && r.len() == 0,
        Message::LibraryProvided(provided) => {
            &&& b == (App { library: b.library, ..a })
            &&& dependencies_noted(a.library, b.library, a.index, provided@.dom())
            &&& r.len() == 0
        },
        _ => true,
    }
}

/// What a message does to the profiles.
pub open spec fn profile_step(a: App, b: App, message: Message, r: Seq<Action>) -> bool {
    match message {
        Message::ProfileAddPressed => {
            &&& b == (App {
                modal_stack: b.modal_stack,
                profile_add_name: b.profile_add_name,
                ..a
            })
            &&& b.profile_add_name@.len() == 0
            &&& b.modal_stack@ == a.modal_stack@.push(AppModal::ProfileAddRequest)
            &&& r.len() == 0
        },
        Message::ProfileAddEdited(name) => b == (App { profile_add_name: name, ..a }) && r.len()
            == 0,
        Message::ProfileAddCompleted(submitted, invalid) => add_completed(
            a,
            b,
            submitted,
            invalid,
            r,
        ),
        Message::ProfileCreated(name, settings) => profile_made(a, b, name, settings) && r.len()
            == 0,
        Message::ProfileAddItems(name, ids) => items_added(a, b, name@, id_models(ids@), r),
        Message::ProfileDeletePressed(name) => delete_asked(a, b, name@, r),
        Message::ProfileDeleteConfirmed(name) => profile_deleted(a, b, name@) && r.len() == 0,
        Message::ProfileRemoveItems(name, ids, writable) => items_removed(
            a,
            b,
            name@,
            id_models(ids@),
            writable,
            r,
        ),
        Message::ProfileItemsRemoved(name) => removal_saved(a, b, name@) && r.len() == 0,
        Message::ProfileSelected(name) => profile_chosen(a, b, name, r),
        Message::ProfileItemSelected(id, unsaved) => item_chosen(a, b, id, unsaved, r),
        Message::ProfileViewFolderRequested(profile, name) => a == b && folder_viewed(
            a,
            profile@,
            name@,
            r,
        ),
        Message::ProfileImportFolderRequested(profile, name) => a == b && picking(
            r,
            Action::PickImportFolder(profile, name),
        ),
        Message::ProfileExportSnapshotRequested(name, exists) => a == b && export_asked(
            a,
            name,
            exists,
            r,
        ),
        Message::ProfileImportCollectionRequested(title, ids) => collection_import_asked(
            a,
            b,
            title,
            ids,
            r,
        ),
        Message::ProfileImportSnapshotRequested => snapshot_import_asked(a, b, r),
        Message::ProfileImportBasicSnapshot(name) => a == b && basic_import(name, r),
        Message::ProfileImportIncrementalSnapshot(name, count, dates) => incremental_import(
            a,
            b,
            name,
            count,
            dates,
            r,
        ),
        Message::ProfileImportSnapshotCompleted(profile) => snapshot_imported(a, b, profile)
            && r.len() == 0,
        Message::ActiveProfileSelected(name) => active_chosen(a, b, name) && r.len() == 0,
        Message::ProfileProvided(name, provided) => provided_found(
            a,
            b,
            name@,
            provided@.dom(),
        ) && r.len() == 0,
        _ => true,
    }
}

/// What a message does to the game and how it is started.
pub open spec fn load_step(a: App, b: App, message: Message, r: Seq<Action>) -> bool {
    match message {
        Message::LoadPrepareProfile(manual, facts) => a == b && prepared(
            a,
            reason_of(manual),
            facts,
            r,
        ),
        Message::LoadProfileApplied(reason) => applied(a, b, reason, r),
        Message::LoadPickGameDirectory => a == b && picking(r, Action::PickGameDirectory),
        Message::LoadSetGameDirectory(path) => {
            &&& b == (App { save: AppSave { game_directory: Some(path), ..a.save }, ..a })
            &&& r.len() == 0
        },
        Message::LoadPickLocalDirectory => a == b && picking(r, Action::PickLocalDirectory),
        Message::LoadSetLocalDirectory(path) => {
            &&& b == (App { save: AppSave { local_directory: Some(path), ..a.save }, ..a })
            &&& r.len() == 0
        },
        Message::LoadPickLaunchCommand => a == b && picking(r, Action::PickLaunchCommand),
        Message::LoadSetLaunchCommand(command) => command_set(a, b, command) && r.len() == 0,
        Message::LoadAddLaunchArgs => arg_added(a, b) && r.len() == 0,
        Message::LoadRemoveLaunchArgs(i) => {
            &&& only_args(a, b)
            &&& b.save.launch_args@ == a.save.launch_args@.remove(i as int)
            &&& r.len() == 0
        },
        Message::LoadEditArgKey(i, key) => arg_key_set(a, b, i, key) && r.len() == 0,
        Message::LoadEditArgValue(i, value) => arg_value_set(a, b, i, value) && r.len() == 0,
        Message::LoadToggleLinuxNative(native) => {
            &&& b == (App { save: AppSave { linux_native_mode: native, ..a.save }, ..a })
            &&& r.len() == 0
        },
        Message::LoadLaunchGame(facts) => launch_requested(a, b, facts, r),
        Message::LoadFindGameRequested => a == b && search_begun(
            super::modal::AppAbortKey::GameFind,
            game_search(a.save.linux_native_mode),
            r,
        ),
        Message::LoadFindGameMatched(path) => game_matched(a, b, path@, r),
        Message::LoadFindGameResolved(path) => game_resolved(a, b, path, r),
        Message::LoadFindLocalRequested => a == b && search_begun(
            super::modal::AppAbortKey::LocalFind,
            local_search(a.save.linux_native_mode),
            r,
        ),
        Message::LoadFindLocalMatched(path) => local_matched(a, b, path@, r),
        Message::LoadFindLocalResolved(path) => local_resolved(a, b, path, r),
        Message::ItemDetailsAddToLibraryAllRequest(id) => a == b && profile_dependencies_asked(
            a,
            id,
            r,
        ),
        _ => true,
    }
}

/// Whether a message that stands by itself makes sense in a state.
pub open spec fn accepts_one(a: App, message: Message) -> bool {
    match message {
        Message::QueryFilesLoaded(_, _, _) => a.query_page_size > 1,
        Message::Collections(CollectionsMessage::QueryCollectionsLoaded(_, _)) => a.query_page_size
            > 1,
        Message::SetViewingItem(id) => children_have_numbers(a.index, id@),
        Message::SteamCMDDownloadProgress(id, size) => progress_is_defined(a, id, size),
        Message::Settings(SettingsMessage::Edit(edit)) => is_setting(edit),
        Message::LoadRemoveLaunchArgs(i) => i < a.save.launch_args@.len(),
        _ => true,
    }
}

/// What a message that stands by itself does.
pub open spec fn one_step(a: App, b: App, message: Message, r: Seq<Action>) -> bool {
    &&& modal_step(a, b, message, r)
    &&& browse_step(a, b, message, r)
    &&& library_step(a, b, message, r)
    &&& profile_step(a, b, message, r)
    &&& load_step(a, b, message, r)
    &&& log_step(a, b, message, r)
    &&& match message {
        Message::Collections(m) => collections_step(a, b, m, r),
        Message::Settings(m) => settings_step(a, b, m, r),
        Message::Nothing => a == b && r.len() == 0,
        _ => true,
    }
}

/// Whether what is to be done falls into what was to be done when a state was reached,
/// and what came after it.
pub open spec fn parted(
    mid: App,
    before: Seq<Action>,
    behind: Seq<Action>,
    r: Seq<Action>,
) -> bool {
    r == before + behind
}

/// What a message does: the state afterwards, and what is to be done. Chained messages
/// each take effect at once, one after the other, before anything is done for them.
pub open spec fn step(a: App, b: App, message: Message, r: Seq<Action>) -> bool
    decreases message, 0nat,
{
    match message {
        Message::Chained(messages) => chain_step(a, b, messages, messages@.len(), r),
        _ => one_step(a, b, message, r),
    }
}

/// What the first `n` of chained messages do.
pub open spec fn chain_step(a: App, b: App, messages: Vec<Message>, n: nat, r: Seq<Action>) -> bool
    decreases messages, n,
{
    if n == 0 || n > messages@.len() {
        a == b && r.len() == 0
    } else {
        exists|mid: App, before: Seq<Action>, behind: Seq<Action>|
            {
                &&& #[trigger] parted(mid, before, behind, r)
                &&& chain_step(a, mid, messages, (n - 1) as nat, before)
                &&& step(mid, b, messages@[n - 1], behind)
            }
    }
}

/// Whether a message makes sense in a state. Chained messages must each make sense in
/// the state that those before it lead to.
pub open spec fn accepts(a: App, message: Message) -> bool
    decreases message,
{
    match message {
        Message::Chained(messages) => forall|n: nat, mid: App, r: Seq<Action>|
            n < messages@.len() && #[trigger] chain_step(a, mid, messages, n, r) ==> accepts(
                mid,
                messages@[n as int],
            ),
        _ => accepts_one(a, message),
    }
}

impl App {
    /// Does what follows from a message, and gives what is to be done for it.
    pub fn update(&mut self, message: Message) -> (r: Vec<Action>)
        requires
            accepts(*old(self), message),
        ensures
            step(*old(self), *final(self), message, r@),
        decreases message,
    {
        let ghost whole = message;
        let messages = match message {
            Message::Chained(messages) => messages,
            other => return self.update_one(other),
        };
        let ghost start = *self;
        let ghost all = messages;
        let mut rest = messages;
        let mut out: Vec<Action> = Vec::new();
        let ghost mut done: nat = 0;
        assert(all@.skip(0) =~= all@);
        while rest.len() > 0
            invariant
                whole == message,
                whole == Message::Chained(all),
                start == *old(self),
                accepts(start, whole),
                done + rest@.len() == all@.len(),
                rest@ == all@.skip(done as int),
                chain_step(start, *self, all, done, out@),
            decreases rest@.len(),
        {
            let ghost mid = *self;
            let ghost before = out@;
            assert(rest@[0] == all@[done as int]);
            let next = rest.remove(0);
            assert(rest@ =~= all@.skip(done as int + 1));
            assert(decreases_to!(whole => whole->Chained_0));
            assert(decreases_to!(all => all@));
            assert(decreases_to!(all@ => all@[done as int]));
            let mut more = self.update(next);
            let ghost behind = more@;
            out.append(&mut more);
            assert(out@ =~= before + behind);
            assert(parted(mid, before, behind, out@));
            assert(step(mid, *self, all@[done as int], behind));
            proof {
                done = done + 1;
            }
            assert(chain_step(start, *self, all, done, out@));
        }
        out
    }

    #[verifier::spinoff_prover]
    #[verifier::rlimit(60)]
    fn update_one(&mut self, message: Message) -> (r: Vec<Action>)
        requires
            !(message is Chained),
            accepts_one(*old(self), message),
        ensures
            one_step(*old(self), *final(self), message, r@),
    {
        match message {
            Message::Chained(_) => nothing(),
            Message::AsyncChooseResolve(key, choice) => self.async_choose_resolve(&key, choice),
            Message::AsyncChooseCancelled(key) => {
                self.async_choose_cancelled(&key);
                nothing()
            },
            Message::AsyncDialogUpdate(key, field, value) => {
                self.async_dialog_update(&key, field, value);
                nothing()
            },
            Message::AsyncDialogResolved(key, submitted) => self.async_dialog_resolved(
                &key,
                submitted,
            ),
            Message::AbortTask(key) => only(Action::Abort(key)),
            Message::QueryFilesLoaded(total, files, kept) => self.query_files_loaded(
                total,
                files,
                &kept,
            ),
            Message::FilesResolved(files, kept) => self.background_resolved(files, &kept),
            Message::ImageLoaded(url) => {
                self.image_loaded(url);
                nothing()
            },
            Message::ApiKeyRequest => {
                self.modal_stack.push(AppModal::ApiKeyRequest);
                nothing()
            },
            Message::ApiKeyRequestUpdate(key) => {
                self.api_key_request_update(key);
                nothing()
            },
            Message::ApiKeySubmit => self.api_key_submit(),
            Message::SetBrowsePage(new) => self.set_browse_page(new),
            Message::SetViewingItem(id) => self.set_viewing_item(id),
            Message::BrowseEditQuery(text) => {
                self.browse.edit_query(text);
                nothing()
            },
            Message::BrowseEditTag(tag) => {
                self.browse.edit_tag(tag);
                nothing()
            },
            Message::BrowseEditSort(sort) => {
                self.browse.edit_sort(sort);
                nothing()
            },
            Message::BrowseEditPeriod(period) => {
                self.browse.edit_period(period);
                nothing()
            },
            Message::BrowseToggleTagsDropdown(open) => {
                self.browse.toggle_tags(open);
                nothing()
            },
            Message::BrowseSubmitQuery => self.browse_submit_query(),
            Message::BrowseUpdateQuery => self.browse_update_query(),
            Message::SetSteamCMDUser(text) => {
                if !self.login.shared {
                    self.login.username = text.clone();
                }
                self.save.username = text;
                nothing()
            },
            Message::SetSteamCMDPassword(text) => {
                if !self.login.shared {
                    self.login.password = text;
                }
                nothing()
            },
            Message::SetSteamCMDCode(text) => {
                self.login.code = text;
                nothing()
            },
            Message::SteamCMDLogin(manual) => self.steamcmd_login(manual),
            Message::SteamCMDLoginSuccess => self.steamcmd_login_success(),
            Message::SteamCMDLoginElevated => {
                self.steamcmd_login_elevated();
                nothing()
            },
            Message::SteamCMDLoginElevatedSubmit => self.steamcmd_login_elevated_submit(),
            Message::SteamCMDLoginElevatedCancel => {
                self.steamcmd_login_elevated_cancel();
                nothing()
            },
            Message::DeleteRequested(id) => self.delete_requested(id),
            Message::SteamCMDDownloadRequested(id) => self.download_requested(id),
            Message::SteamCMDDownloadCompleted(id) => self.download_completed(id),
            Message::SteamCMDDownloadErrored(id, text) => self.download_errored(id, text),
            Message::SteamCMDDownloadProgress(id, size) => self.download_progress(id, size),
            Message::SteamCMDDownloadCompletedClear(ids) => {
                self.downloads.clear_completed(&ids);
                nothing()
            },
            Message::SteamCMDDownloadErrorClear(ids) => {
                self.downloads.clear_errored(&ids);
                nothing()
            },
            Message::DownloadCancelRequested(id) => {
                let waited = self.downloads.cancel(id);
                nothing()
            },
            Message::DownloadAllRequested(id) => self.download_all_requested(id),
            Message::DownloadAllResolved(ids, there) => self.download_all_resolved(ids, there),
            Message::DownloadMultipleRequested(ids, there) => self.download_multiple_requested(
                ids,
                there,
            ),
            Message::DownloadAllConfirmed(ids) => self.download_all_confirmed(ids),
            Message::DownloadPushPending(ids) => self.download_push_pending(&ids),
            Message::Collections(message) => self.update_collections(message),
            Message::Settings(message) => self.update_settings(message),
            Message::LibraryToggleItem(id, selected) => {
                self.library_toggle_item(&id, selected);
                nothing()
            },
            Message::LibraryToggleAll(selected) => {
                self.library_toggle_all(selected);
                nothing()
            },
            Message::LibraryUpdateRequest => self.library_update_request(),
            Message::LibraryScanRequest => only(Action::ScanDownloads),
            Message::LibraryCheckOutdatedRequest => self.library_check_outdated_request(),
            Message::LibraryForceCheckOutdated => self.library_force_check_outdated(),
            Message::CheckOutdatedCompleted(found) => self.check_outdated_completed(&found),
            Message::LibraryAddToProfileRequest => {
                self.library_add_to_profile_request();
                nothing()
            },
            Message::LibraryAddToProfileToggleAll(selected) => {
                self.library_add_to_profile_toggle_all(selected);
                nothing()
            },
            Message::LibraryAddToProfileToggled(name, selected) => {
                self.library_add_to_profile_toggled(&name, selected);
                nothing()
            },
            Message::LibraryAddToProfileConfirm(ids) => self.library_add_to_profile_confirm(&ids),
            Message::LibraryDeleteRequest => {
                self.modal_stack.push(AppModal::LibraryDeleteRequest);
                nothing()
            },
            Message::LibraryDeleteConfirm => self.library_delete_confirm(),
            Message::LibraryFilterUpdateQuery(text) => {
                self.library_filter_update_query(text);
                nothing()
            },
            Message::LibraryFilterToggleFuzzy(fuzzy) => {
                self.library_filter_toggle_fuzzy(fuzzy);
                nothing()
            },
            Message::ProfileAddPressed => {
                self.profile_add_pressed();
                nothing()
            },
            Message::ProfileAddEdited(name) => {
                self.profile_add_name = name;
                nothing()
            },
            Message::ProfileAddCompleted(submitted, invalid) => self.profile_add_completed(
                submitted,
                invalid,
            ),
            Message::ProfileCreated(name, settings) => {
                self.profile_created(name, settings);
                nothing()
            },
            Message::ProfileAddItems(name, ids) => self.profile_add_items(name, &ids),
            Message::ProfileDeletePressed(name) => self.profile_delete_pressed(name),
            Message::ProfileDeleteConfirmed(name) => {
                self.profile_delete_confirmed(&name);
                nothing()
            },
            Message::ProfileRemoveItems(name, ids, writable) => self.profile_remove_items(
                name,
                &ids,
                writable,
            ),
            Message::ProfileItemsRemoved(name) => {
                self.profile_items_removed(&name);
                nothing()
            },
            Message::ProfileSelected(name) => self.profile_selected(name),
            Message::ProfileItemSelected(id, unsaved) => self.profile_item_selected(id, unsaved),
            Message::ProfileViewFolderRequested(
                profile,
                name,
            ) => self.profile_view_folder_requested(profile.as_str(), name.as_str()),
            Message::ProfileImportFolderRequested(profile, name) => vec![
                Action::Send(Message::SetBusy(true)),
                Action::PickImportFolder(profile, name),
                Action::Send(Message::SetBusy(false)),
            ],
            Message::ProfileViewDetails(name) => {
                self.modal_stack.push(AppModal::ProfileDetails(name));
                nothing()
            },
            Message::ProfileExportSnapshotRequested(
                name,
                exists,
            ) => self.profile_export_snapshot_requested(name, exists),
            Message::ProfileImportCollectionRequested(
                title,
                ids,
            ) => self.profile_import_collection_requested(title, ids),
            Message::ProfileImportSnapshotRequested => self.profile_import_snapshot_requested(),
            Message::ProfileImportBasicSnapshot(name) => self.profile_import_basic_snapshot(name),
            Message::ProfileImportIncrementalSnapshot(
                name,
                count,
                dates,
            ) => self.profile_import_incremental_snapshot(name, count, dates),
            Message::ProfileImportSnapshotCompleted(profile) => {
                self.profile_import_snapshot_completed(profile);
                nothing()
            },
            Message::ActiveProfileSelected(name) => {
                self.active_profile_selected(name);
                nothing()
            },
            Message::ProfileProvided(name, provided) => {
                self.profile_provided(&name, &provided);
                nothing()
            },
            Message::LibraryProvided(provided) => {
                self.library_provided(&provided);
                nothing()
            },
            Message::LoadPrepareProfile(manual, facts) => self.load_prepare_profile(manual, facts),
            Message::LoadProfileApplied(reason) => self.load_profile_applied(reason),
            Message::LoadPickGameDirectory => self.load_pick_game_directory(),
            Message::LoadSetGameDirectory(path) => {
                self.save.game_directory = Some(path);
                nothing()
            },
            Message::LoadPickLocalDirectory => self.load_pick_local_directory(),
            Message::LoadSetLocalDirectory(path) => {
                self.save.local_directory = Some(path);
                nothing()
            },
            Message::LoadPickLaunchCommand => self.load_pick_launch_command(),
            Message::LoadSetLaunchCommand(command) => {
                self.load_set_launch_command(command);
                nothing()
            },
            Message::LoadAddLaunchArgs => {
                self.load_add_launch_args();
                nothing()
            },
            Message::LoadRemoveLaunchArgs(i) => {
                self.load_remove_launch_args(i);
                nothing()
            },
            Message::LoadEditArgKey(i, key) => {
                self.load_edit_arg_key(i, key);
                nothing()
            },
            Message::LoadEditArgValue(i, value) => {
                self.load_edit_arg_value(i, value);
                nothing()
            },
            Message::LoadToggleLinuxNative(native) => {
                self.save.linux_native_mode = native;
                nothing()
            },
            Message::LoadLaunchGame(facts) => self.load_launch_game(facts),
            Message::LogAppend(line) => {
                self.log_append(line.as_str());
                nothing()
            },
            Message::LaunchLogCreated(contents) => {
                self.launch_log = contents;
                nothing()
            },
            Message::LaunchLogAppended(contents) => {
                self.launch_log_appended(contents.as_str());
                nothing()
            },
            Message::LaunchLogClear => {
                self.launch_log = String::new();
                nothing()
            },
            Message::LoadFindGameRequested => self.load_find_game_requested(),
            Message::LoadFindGameMatched(path) => self.load_find_game_matched(path.as_str()),
            Message::LoadFindGameResolved(path) => self.load_find_game_resolved(path),
            Message::LoadFindLocalRequested => self.load_find_local_requested(),
            Message::LoadFindLocalMatched(path) => self.load_find_local_matched(path),
            Message::LoadFindLocalResolved(path) => self.load_find_local_resolved(path),
            Message::ItemDetailsAddToLibraryRequest(ids) => {
                self.modal_stack.push(AppModal::AddToProfileRequest(ids));
                nothing()
            },
            Message::ItemDetailsAddToLibraryAllRequest(id) => self.item_details_add_all(id),
            Message::SetPage(page) => {
                self.set_page(page);
                nothing()
            },
            Message::SetBusy(busy) => {
                self.set_busy(busy);
                nothing()
            },
            Message::SetBusyMessage(text) => {
                self.modal_stack.push(AppModal::BusyMessage(text));
                nothing()
            },
            Message::ModifyBusyMessage(text) => {
                self.modify_busy_message(text);
                nothing()
            },
            Message::DisplayError(title, body) => {
                self.modal_stack.push(AppModal::ErrorMessage(title, body));
                nothing()
            },
            Message::OpenModal(modal) => {
                self.open_modal(modal);
                nothing()
            },
            Message::CloseModal => {
                self.close_modal();
                nothing()
            },
            Message::EscapeModal => {
                self.escape_modal();
                nothing()
            },
            Message::CloseAppRequested => self.close_app_requested(),
            Message::Nothing => nothing(),
        }
    }
}

/// Whether a message, or one of those chained in it, saves edited settings or enters the
/// key of the web interface of Steam.
pub open spec fn changes_settings(message: Message) -> bool
    decreases message,
{
    match message {
        Message::Chained(messages) => exists|i: int|
            0 <= i < messages@.len() && changes_settings(#[trigger] messages@[i]),
        Message::ApiKeyRequestUpdate(_) => true,
        Message::Settings(SettingsMessage::Save) => true,
        _ => false,
    }
}

#[verifier::spinoff_prover]
#[verifier::rlimit(60)]
proof fn lemma_settings_stay(a: App, b: App, message: Message, r: Seq<Action>)
    requires
        !(message is Chained),
        one_step(a, b, message, r),
        !changes_settings(message),
    ensures
        b.settings == a.settings,
{
}

proof fn lemma_settings_stay_in_chain(
    a: App,
    b: App,
    messages: Vec<Message>,
    n: nat,
    r: Seq<Action>,
)
    requires
        n <= messages@.len(),
        chain_step(a, b, messages, n, r),
        forall|i: int| 0 <= i < messages@.len() ==> !changes_settings(#[trigger] messages@[i]),
    ensures
        b.settings == a.settings,
    decreases messages, n,
{
    if n > 0 {
        let (mid, before, behind) = choose|mid: App, before: Seq<Action>, behind: Seq<Action>|
            {
                &&& #[trigger] parted(mid, before, behind, r)
                &&& chain_step(a, mid, messages, (n - 1) as nat, before)
                &&& step(mid, b, messages@[n - 1], behind)
            };
        lemma_settings_stay_in_chain(a, mid, messages, (n - 1) as nat, before);
        settings_change_only_when_saved(mid, b, messages@[n - 1], behind);
    }
}

/// The settings in force change only when edited ones are saved, but for the key
/// of the web interface of Steam, which the user may be asked for.
pub proof fn settings_change_only_when_saved(a: App, b: App, message: Message, r: Seq<Action>)
    requires
        step(a, b, message, r),
        !changes_settings(message),
    ensures
        b.settings == a.settings,
    decreases message, 0nat,
{
    match message {
        Message::Chained(messages) => {
            assert forall|i: int| 0 <= i < messages@.len() implies !changes_settings(
                #[trigger] messages@[i],
            ) by {}
            lemma_settings_stay_in_chain(a, b, messages, messages@.len(), r);
        },
        _ => {
            lemma_settings_stay(a, b, message, r);
        },
    }
}

/// Whether an action is what a message that stands by itself calls for in a state.
pub open spec fn called_for(a: App, b: App, message: Message, r: Seq<Action>, action: Action) -> bool {
    &&& !(message is Chained)
    &&& one_step(a, b, message, r)
    &&& r.contains(action)
}

proof fn lemma_called_for_in_chain(
    a: App,
    b: App,
    messages: Vec<Message>,
    n: nat,
    r: Seq<Action>,
    i: int,
)
    requires
        n <= messages@.len(),
        chain_step(a, b, messages, n, r),
        0 <= i < r.len(),
    ensures
        exists|x: App, y: App, m: Message, done: Seq<Action>| called_for(x, y, m, done, r[i]),
    decreases messages, n,
{
    if n > 0 {
        let (mid, before, behind) = choose|mid: App, before: Seq<Action>, behind: Seq<Action>|
            {
                &&& #[trigger] parted(mid, before, behind, r)
                &&& chain_step(a, mid, messages, (n - 1) as nat, before)
                &&& step(mid, b, messages@[n - 1], behind)
            };
        if i < before.len() {
            lemma_called_for_in_chain(a, mid, messages, (n - 1) as nat, before, i);
            assert(r[i] == before[i]);
        } else {
            all_is_done_for_one_message(mid, b, messages@[n - 1], behind, i - before.len());
            assert(r[i] == behind[i - before.len()]);
        }
    }
}

/// Whatever is to be done is what one message calls for, also where messages are
/// chained: what holds of all that single messages call for holds of everything.
pub proof fn all_is_done_for_one_message(
    a: App,
    b: App,
    message: Message,
    r: Seq<Action>,
    i: int,
)
    requires
        step(a, b, message, r),
        0 <= i < r.len(),
    ensures
        exists|x: App, y: App, m: Message, done: Seq<Action>| called_for(x, y, m, done, r[i]),
    decreases message, 0nat,
{
    match message {
        Message::Chained(messages) => {
            lemma_called_for_in_chain(a, b, messages, messages@.len(), r, i);
        },
        _ => {
            assert(r.contains(r[i]));
            assert(called_for(a, b, message, r, r[i]));
        },
    }
}

/// No download begins without a login, whatever message it begins for.
#[verifier::spinoff_prover]
#[verifier::rlimit(60)]
pub proof fn downloads_begin_only_after_a_login(
    a: App,
    b: App,
    message: Message,
    r: Seq<Action>,
    i: int,
)
    requires
        !(message is Chained),
        one_step(a, b, message, r),
        0 <= i < r.len(),
        r[i] is Download,
    ensures
        a.login.logged_in,
{
    match message {
        Message::SteamCMDDownloadCompleted(id) => {
            let told: int = if super::on_download::notifies(a, id) {
                2
            } else {
                1
            };
            assert(download_completed(a, b, id, r));
            if i >= told {
                let rest = r.skip(told);
                assert(rest[i - told] == r[i]);
                assert(rest.len() == r.len() - told);
                if a.downloads@.queue.len() == 0 {
                    assert(rest.len() <= 1);
                    assert(i == told);
                    assert(rest[0] is NotifyAll);
                } else {
                    let next = a.downloads@.completed_one(id).next(a.login.logged_in);
                    assert(rest == super::on_login::download_action(
                        next,
                        a.settings.automatic_download_retries,
                    ));
                    assert(next is Some);
                }
            } else if i == 1 {
                assert(r[1] is NotifyItem);
            }
        },
        Message::SteamCMDDownloadErrored(id, _) => {
            let told: int = if super::on_download::notifies(a, id) {
                1
            } else {
                0
            };
            if i >= told {
                let rest = r.skip(told);
                assert(rest[i - told] == r[i]);
                assert(rest.len() == r.len() - told);
            }
        },
        Message::CloseAppRequested => {
            super::on_login::lemma_closing_action(a, r, i);
        },
        Message::LoadLaunchGame(_) | Message::LoadProfileApplied(_) => {
            let rest = r.skip(1);
            assert(rest.len() == r.len() - 1);
            if i >= 1 {
                assert(rest[i - 1] == r[i]);
                assert(i == 1 || i == 2);
                assert(rest[0] == r[1]);
            }
        },
        Message::SetViewingItem(_) => {
            let one = r.skip(1);
            let two = r.skip(2);
            assert(one.len() == r.len() - 1);
            if i >= 1 {
                assert(one[i - 1] == r[i]);
            }
            if i >= 2 {
                assert(two.len() == r.len() - 2);
                assert(two[i - 2] == r[i]);
            }
        },
        Message::Collections(_) => {
            if i >= 1 {
                assert(r.skip(1)[i - 1] == r[i]);
            }
        },
        Message::QueryFilesLoaded(_, files, _) | Message::FilesResolved(files, _) => {
            lemma_only_images(files@, a.images@.dom(), i);
        },
        _ => {},
    }
}

/// A password or a key is kept only where the user wants it to be, whatever message
/// it would be kept for.
#[verifier::spinoff_prover]
#[verifier::rlimit(60)]
pub proof fn no_secret_is_kept_unasked(a: App, b: App, message: Message, r: Seq<Action>, i: int)
    requires
        !(message is Chained),
        one_step(a, b, message, r),
        0 <= i < r.len(),
    ensures
        r[i] is StoreApiKey || r[i] is SaveApiKey ==> a.settings.steam_webapi_save_api_key,
        r[i] is SavePassword ==> a.settings.steamcmd_save_password,
{
    match message {
        Message::SteamCMDDownloadCompleted(id) => {
            let told: int = if super::on_download::notifies(a, id) {
                2
            } else {
                1
            };
            assert(download_completed(a, b, id, r));
            if i >= told {
                let rest = r.skip(told);
                assert(rest[i - told] == r[i]);
                assert(rest.len() == r.len() - told);
                if a.downloads@.queue.len() == 0 {
                    assert(rest.len() <= 1);
                    assert(i == told);
                    assert(rest[0] is NotifyAll);
                } else {
                    let next = a.downloads@.completed_one(id).next(a.login.logged_in);
                    assert(rest == super::on_login::download_action(
                        next,
                        a.settings.automatic_download_retries,
                    ));
                    assert(next is Some);
                    assert(i == told);
                    assert(rest[0] is Download);
                }
            } else if i == 1 {
                assert(r[1] is NotifyItem);
            } else {
                assert(r[0] is ScanDownloads);
            }
        },
        Message::SteamCMDDownloadErrored(id, _) => {
            let told: int = if super::on_download::notifies(a, id) {
                1
            } else {
                0
            };
            if i >= told {
                let rest = r.skip(told);
                assert(rest[i - told] == r[i]);
                assert(rest.len() == r.len() - told);
                assert(i == told);
                assert(rest[0] is Download);
            }
        },
        Message::CloseAppRequested => {
            super::on_login::lemma_closing_action(a, r, i);
        },
        Message::LoadLaunchGame(_) | Message::LoadProfileApplied(_) => {
            let rest = r.skip(1);
            assert(rest.len() == r.len() - 1);
            if i >= 1 {
                assert(rest[i - 1] == r[i]);
                assert(i == 1 || i == 2);
                assert(rest[0] == r[1]);
            }
        },
        Message::SetViewingItem(_) => {
            let one = r.skip(1);
            let two = r.skip(2);
            assert(one.len() == r.len() - 1);
            if i >= 1 {
                assert(one[i - 1] == r[i]);
            }
            if i >= 2 {
                assert(two.len() == r.len() - 2);
                assert(two[i - 2] == r[i]);
            }
        },
        Message::Collections(_) => {
            if i >= 1 {
                assert(r.skip(1)[i - 1] == r[i]);
            }
        },
        Message::QueryFilesLoaded(_, files, _) | Message::FilesResolved(files, _) => {
            lemma_only_images(files@, a.images@.dom(), i);
        },
        _ => {},
    }
}

pub(crate) proof fn lemma_only_images(
    files: Seq<crate::files::WorkshopDetails>,
    images: Set<Seq<char>>,
    i: int,
)
    requires
        0 <= i < super::on_browse::image_actions(files, images).len(),
    ensures
        super::on_browse::image_actions(files, images)[i] is LoadImage,
    decreases files.len(),
{
    let front = super::on_browse::image_actions(files.drop_last(), images);
    if i < front.len() {
        lemma_only_images(files.drop_last(), images, i);
    }
}

} // verus!
