use indexmap::IndexSet;
use lxcomm::app::boot::{
    boot_errors, load_report, migrate_profiles, migrated_name, moves_profile, KeyResult, Kept,
    LoadFailure,
};
use lxcomm::app::modal::{shown_modals, AppModal, AsyncDialogField, AsyncDialogKey, AsyncDialogStrategy};
use lxcomm::app::on_import::{chosen_field, pick_archive, text_field, Picked};
use lxcomm::app::on_log::log_changed;
use lxcomm::app::on_modal::answered;
use lxcomm::app::pages::{issue_message, ChildRow, DownloadSize, ProfileRowStyle};
use lxcomm::app::scan::{described_name, find_description_file, FoundMod};
use lxcomm::app::settings::{
    can_edit, settings_fields, AppSettingEdit, AppSettings, AppSettingsNumberPreview, Preview,
};
use lxcomm::app::state::{
    Action, App, AppPage, AppSave, ApplyReason, DialogOutcome, Message, Outcome, PrepareFacts,
    SettingsMessage,
};
use lxcomm::app::trim::{
    automatic_snapshot, snapshot_limits, trim_image_cache, trim_snapshots, ImageInfo,
    SnapshotLimits,
};
use lxcomm::collections::CollectionsMessage;
use lxcomm::files::{ChildFile, ModDetails, MonitorFileChange, SizeDisplay, WorkshopDetails};
use lxcomm::library::profile::{CompatibilityIssue, Profile, ProfileSettings};
use lxcomm::library::{LibraryItem, LibraryItemSettings};
use lxcomm::metadata::Tag;
use lxcomm::snapshot::archive::{ArchiveFacts, SnapshotMetadata, SnapshotType};
use lxcomm::table::Table;
use lxcomm::web::{WorkshopSort, WorkshopTrendPeriod};
use lxcomm::xcom_mod::{ModCompatibility, ModId, ModMetadata};

fn profile_settings() -> ProfileSettings {
    ProfileSettings {
        automatic_snapshot_on_apply: false,
        automatic_snapshot_on_launch: false,
        automatic_snapshot_incremental: false,
        automatic_snapshot_number_limit: 0,
        automatic_snapshot_size_limit: 0,
    }
}

fn app() -> App {
    App::boot(
        Kept {
            settings: AppSettings::defaults("/data"),
            save: AppSave {
                username: "me".into(),
                tracked_profiles: Table::new(),
                active_profile: None,
                game_directory: None,
                local_directory: None,
                launch_command: None,
                launch_args: Vec::new(),
                local_mod_dirs: IndexSet::new(),
                linux_native_mode: false,
            },
            password: "pw".into(),
            profiles: Table::new(),
            data_dir: "/data".into(),
            profiles_dir: "/data/profiles".into(),
            profile_data_name: "profile.json".into(),
            query_page_size: 50,
        },
        WorkshopSort::Trend(WorkshopTrendPeriod::Week),
        WorkshopTrendPeriod::Week,
    )
}

fn logged_in() -> App {
    let mut app = app();
    app.login.session = true;
    app.login.logged_in = true;
    app
}

fn with_profile(name: &str) -> App {
    let mut app = app();
    app.save.tracked_profiles.insert(name.into(), ());
    app.profiles.insert(name.into(), Profile::new(name.into(), profile_settings()));
    app
}

fn details(id: u32, title: &str, children: &[&str]) -> WorkshopDetails {
    WorkshopDetails {
        published_file_id: id.to_string(),
        title: title.into(),
        creator: 76,
        file_description: Some("about".into()),
        short_description: None,
        file_size: "2000".into(),
        hcontent_file: None,
        preview_url: format!("{id}.png"),
        time_updated: 0,
        children: children
            .iter()
            .map(|c| ChildFile { published_file_id: c.to_string() })
            .collect(),
        tags: Vec::new(),
    }
}

fn errors(actions: &[Action]) -> Vec<(String, String)> {
    actions
        .iter()
        .filter_map(|action| match action {
            Action::Send(Message::DisplayError(title, body)) => {
                Some((title.clone(), body.clone()))
            }
            _ => None,
        })
        .collect()
}

#[test]
fn the_program_begins_on_its_main_page() {
    let app = app();
    assert_eq!(app.current_page, AppPage::Main);
    assert_eq!(AppPage::Browse.text(), "Workshop Items");
    assert!(app.modal_stack.is_empty());
    assert_eq!(app.settings.download_directory, "/data/downloads");
    assert_eq!(app.settings.steam_webapi_cache_lifetime, 86400);
    assert!(app.boot_login().is_empty());
    assert!(app.can_log_in());
    assert!(!app.can_apply());
    assert!(!app.can_submit_key());
}

#[test]
fn the_key_is_asked_for() {
    let mut app = app();
    let asked = app.boot_api_key(KeyResult::Found("KEY".into()));
    assert!(matches!(&asked[..], [Action::Send(Message::ApiKeyRequest)]));
    app.settings.steam_webapi_save_api_key = true;
    let failed = app.boot_api_key(KeyResult::Failed("locked".into()));
    assert_eq!(errors(&failed), vec![("Error Loading API Key".into(), "locked".into())]);
    let found = app.boot_api_key(KeyResult::Found("KEY".into()));
    assert!(matches!(&found[..], [Action::Send(Message::LibraryForceCheckOutdated)]));
    assert_eq!(app.api_key, "KEY");
    let shown = boot_errors(&vec!["a".to_string(), "b".to_string()]);
    assert_eq!(errors(&shown).len(), 2);
}

#[test]
fn what_cannot_be_read_is_reported() {
    assert_eq!(load_report("settings", "/s.toml", LoadFailure::NotFound), None);
    assert_eq!(
        load_report("settings", "/s.toml", LoadFailure::Unreadable(true)),
        Some("Failed to load settings, original has been backed up to /s.toml.bak.".to_string())
    );
    assert!(load_report("settings", "/s.toml", LoadFailure::Unreadable(false))
        .unwrap()
        .contains("/s.toml.bak"));
}

#[test]
fn old_profiles_get_names() {
    assert_eq!(migrated_name("7".into()), "Profile_7");
    assert_eq!(migrated_name("Mine".into()), "Mine");
    let mut known = Table::new();
    migrate_profiles(&mut known, &vec!["a".to_string(), "b".to_string(), "a".to_string()]);
    assert_eq!(known.len(), 2);
    assert!(moves_profile(true, false));
    assert!(!moves_profile(true, true));
}

#[test]
fn downloads_wait_in_their_order() {
    let mut app = logged_in();
    let started = app.update(Message::SteamCMDDownloadRequested(1));
    assert!(started.iter().any(|a| matches!(a, Action::Download(1, 1))));
    app.update(Message::SteamCMDDownloadRequested(2));
    app.update(Message::SteamCMDDownloadRequested(3));
    app.update(Message::SteamCMDDownloadRequested(2));
    assert_eq!(app.downloads.queue_len(), 2);
    assert_eq!(app.downloads.queued_at(0), (2, 0));
    app.update(Message::DownloadCancelRequested(2));
    assert!(!app.downloads.is_queued(2));
    assert_eq!(app.downloads.errorred_downloads.get(&2), Some(&"Cancelled".to_string()));
    app.update(Message::SteamCMDDownloadProgress(1, 500));
    assert_eq!(app.downloads.ongoing_download, Some((1, 500)));
    let next = app.update(Message::SteamCMDDownloadCompleted(1));
    assert!(next.iter().any(|a| matches!(a, Action::Download(3, 1))));
    assert!(app.downloads.completed_downloads.contains(&1));
    let last = app.update(Message::SteamCMDDownloadErrored(3, "broken".into()));
    assert!(!last.iter().any(|a| matches!(a, Action::Download(_, _))));
    assert_eq!(app.downloads.errorred_downloads.get(&3), Some(&"broken".to_string()));
}

#[test]
fn nothing_is_downloaded_without_a_login() {
    let mut app = app();
    let actions = app.update(Message::SteamCMDDownloadRequested(1));
    assert!(!actions.iter().any(|a| matches!(a, Action::Download(_, _))));
    assert_eq!(app.downloads.ongoing_download, None);
}

#[test]
fn downloads_are_shown() {
    let mut app = logged_in();
    app.index
        .details
        .insert(ModId::Workshop(1), ModDetails::Workshop(details(1, "One", &[])));
    assert!(app.downloads_page().empty_note);
    app.update(Message::SteamCMDDownloadRequested(1));
    app.update(Message::SteamCMDDownloadRequested(2));
    app.downloads.pending_queue.insert(4, 0);
    app.downloads.errorred_downloads.insert(1, "why".into());
    app.downloads.completed_downloads.insert(9, ());
    let page = app.downloads_page();
    let ongoing = page.ongoing.unwrap();
    assert_eq!(ongoing.label, "One (1)");
    assert!(!ongoing.cancel);
    assert_eq!(
        ongoing.size,
        DownloadSize::Of(SizeDisplay::automatic_from(0, 2000), SizeDisplay::automatic(2000))
    );
    assert_eq!(page.queued[0].label, "Unknown (2)");
    assert!(page.queued[0].cancel);
    assert_eq!(page.completed, vec![(9, "Unknown (9)".to_string())]);
    assert_eq!(page.errored, vec![(1, "One (1)\nwhy".to_string())]);
    assert_eq!(
        page.pending,
        vec![(
            4,
            "Unknown (4)".to_string(),
            "Last Updated - 1970 January  1 - 12:00AM".to_string()
        )]
    );
    assert!(!page.empty_note);
    assert!(!page.login_note);
    assert_eq!(app.download_button(2, false), ("Download", false));
    assert_eq!(app.download_button(7, true), ("Update", true));
}

#[test]
fn dialogs_lie_over_each_other() {
    let mut app = app();
    app.update(Message::SetBusy(true));
    app.update(Message::DisplayError("t".into(), "b".into()));
    assert_eq!(app.modal_stack.len(), 2);
    app.update(Message::EscapeModal);
    assert_eq!(app.modal_stack.len(), 1);
    app.update(Message::EscapeModal);
    assert_eq!(app.modal_stack.len(), 1);
    app.update(Message::SetBusy(false));
    assert!(app.modal_stack.is_empty());
    app.update(Message::SetBusyMessage("one".into()));
    app.update(Message::ModifyBusyMessage("two".into()));
    assert!(matches!(&app.modal_stack[0], AppModal::BusyMessage(text) if text == "two"));
}

fn question(key: AsyncDialogKey, strategy: AsyncDialogStrategy, ticket: u64) -> AppModal {
    AppModal::async_choose(key, "t".into(), "b".into(), vec!["No".into()], strategy, ticket)
}

#[test]
fn questions_wait_for_each_other() {
    let mut app = app();
    for ticket in [1, 2] {
        app.update(Message::OpenModal(question(
            AsyncDialogKey::GameFind,
            AsyncDialogStrategy::Queue,
            ticket,
        )));
    }
    assert_eq!(shown_modals(&app.modal_stack).len(), 1);
    let resolved = app.update(Message::AsyncChooseResolve(AsyncDialogKey::GameFind, 1));
    assert!(matches!(&resolved[..], [Action::Resolve(1, 1)]));
    assert_eq!(app.modal_stack.len(), 1);
    for ticket in [5, 6] {
        app.update(Message::OpenModal(question(
            AsyncDialogKey::DownloadAllConfirm,
            AsyncDialogStrategy::Replace,
            ticket,
        )));
    }
    assert_eq!(app.modal_stack.len(), 2);
}

#[test]
fn answers_decide() {
    assert!(matches!(
        answered(Outcome::DeleteProfile("p".into()), Some(1)),
        Message::ProfileDeleteConfirmed(n) if n == "p"
    ));
    assert!(matches!(
        answered(Outcome::DeleteProfile("p".into()), Some(0)),
        Message::CloseModal
    ));
    assert!(matches!(
        answered(Outcome::DownloadAll(vec![1]), None),
        Message::Nothing
    ));
}

#[test]
fn profiles_are_made_and_deleted() {
    let mut app = app();
    app.update(Message::ProfileAddEdited("Mine".into()));
    assert!(app.can_add_profile());
    let actions = app.update(Message::ProfileAddCompleted(true, None));
    assert!(actions.iter().any(|a| matches!(a, Action::CreateProfile(n) if n == "Mine")));
    app.update(Message::ProfileCreated("Mine".into(), profile_settings()));
    assert!(app.profiles.contains(&"Mine".to_string()));
    app.update(Message::ProfileAddItems("Mine".into(), vec![ModId::Workshop(3)]));
    assert_eq!(app.profiles.get(&"Mine".to_string()).unwrap().items.len(), 1);
    app.update(Message::ActiveProfileSelected("Mine".into()));
    assert!(app.can_apply());
    app.update(Message::ProfileDeleteConfirmed("Mine".into()));
    assert!(!app.profiles.contains(&"Mine".to_string()));
    assert!(!app.save.tracked_profiles.contains(&"Mine".to_string()));
    assert_eq!(app.save.active_profile, None);
}

#[test]
fn snapshots_are_imported_under_free_names() {
    let mut app = with_profile("Mine");
    let asked = app.update(Message::ProfileImportSnapshotRequested);
    assert!(matches!(&asked[2], Action::AwaitDialog(0, DialogOutcome::ImportSnapshot)));
    let taken = app.snapshot_name_given("Mine".into(), None);
    assert_eq!(
        errors(&taken),
        vec![(
            "Invalid Profile Name".to_string(),
            "Profile with name 'Mine' already exists.".to_string()
        )]
    );
    let free = app.snapshot_name_given("Other".into(), None);
    assert!(matches!(&free[..], [Action::PickSnapshot(n)] if n == "Other"));
    let invalid = app.snapshot_name_given("x/y".into(), Some("bad".into()));
    assert_eq!(errors(&invalid)[0].1, "bad");
    let basic = app.update(Message::ProfileImportBasicSnapshot("Other".into()));
    assert!(matches!(&basic[1], Action::LoadBasicSnapshot(n) if n == "Other"));
    let one = app.update(Message::ProfileImportIncrementalSnapshot("Other".into(), 1, Vec::new()));
    assert!(matches!(&one[0], Action::LoadIncrementalSnapshot(n, None) if n == "Other"));
    let many = app.update(Message::ProfileImportIncrementalSnapshot(
        "Other".into(),
        2,
        vec!["first".into(), "second".into()],
    ));
    assert!(matches!(&many[0], Action::AwaitDialog(1, DialogOutcome::SnapshotDate(_))));
}

#[test]
fn archives_are_looked_at() {
    let facts = |kind: Option<SnapshotType>, names: &[&str]| ArchiveFacts {
        metadata: kind.map(|k| SnapshotMetadata::new(k, "d".into(), "1".into())),
        names: names.iter().map(|n| n.to_string()).collect(),
    };
    assert!(matches!(
        pick_archive("n".into(), &facts(None, &[])),
        Picked::Tell(Message::DisplayError(t, b))
            if t == "Invalid Archive" && b == "The picked zip archive was not an LXCOMM snapshot."
    ));
    assert!(matches!(
        pick_archive("n".into(), &facts(Some(SnapshotType::Basic), &[])),
        Picked::Tell(Message::ProfileImportBasicSnapshot(n)) if n == "n"
    ));
    assert!(matches!(
        pick_archive("n".into(), &facts(Some(SnapshotType::Incremental), &["root", "5"])),
        Picked::Changes(times) if times.len() == 1
    ));
    assert!(matches!(
        pick_archive("n".into(), &facts(Some(SnapshotType::Incremental), &["soon"])),
        Picked::Unreadable
    ));
}

#[test]
fn fields_are_read() {
    let mut fields = Table::new();
    fields.insert("Name".to_string(), AsyncDialogField::Text("x".into()));
    fields.insert(
        "Timestamp".to_string(),
        AsyncDialogField::TextEnum(Some("b".into()), vec!["a".into(), "b".into()]),
    );
    assert_eq!(text_field(&fields, "Name"), "x");
    assert_eq!(text_field(&fields, "Timestamp"), "");
    assert_eq!(chosen_field(&fields, "Timestamp"), Some("b".to_string()));
    assert_eq!(chosen_field(&fields, "Other"), None);
}

#[test]
fn unsaved_details_stay_open() {
    let mut app = with_profile("Mine");
    let name = "Mine".to_string();
    assert!(matches!(app.close_profile_details(&name), Message::CloseModal));
    let mut changed = Profile::new(name.clone(), profile_settings());
    changed.settings_editing.automatic_snapshot_on_apply = true;
    app.profiles.insert(name.clone(), changed);
    assert!(matches!(
        app.close_profile_details(&name),
        Message::DisplayError(t, _) if t == "Unsaved Changes"
    ));
    assert!(!app.all_profiles_selected());
}

#[test]
fn settings_apply_once_saved() {
    let mut app = app();
    app.update(Message::Settings(SettingsMessage::Edit(AppSettingEdit::Number(
        "automatic_download_retries",
        4,
    ))));
    assert_eq!(app.settings.automatic_download_retries, 1);
    assert!(app.can_save_settings());
    app.update(Message::SetPage(AppPage::Settings));
    app.update(Message::SetPage(AppPage::Main));
    assert!(matches!(app.modal_stack.last(), Some(AppModal::ErrorMessage(_, _))));
    app.update(Message::Settings(SettingsMessage::Save));
    assert_eq!(app.settings.automatic_download_retries, 4);
    assert!(!app.can_save_settings());
    app.update(Message::Settings(SettingsMessage::ResetToDefault));
    assert_eq!(app.settings_editing.automatic_download_retries, 1);
    app.update(Message::Settings(SettingsMessage::ResetToSaved));
    assert_eq!(app.settings_editing.automatic_download_retries, 4);
}

#[test]
fn mod_directories_are_listed_once() {
    let mut app = app();
    let add = |path: &str| {
        Message::Settings(SettingsMessage::AddModDirectoryConfirmed(path.to_string()))
    };
    assert!(matches!(&app.update(add("/mods"))[..], [Action::ScanMods(p)] if p == "/mods"));
    assert!(app.update(add("/mods/")).is_empty());
    app.update(add("/more"));
    let removed = app.update(Message::Settings(SettingsMessage::RemoveModDirectory(0)));
    assert!(matches!(&removed[..], [Action::ListMods(p)] if p == "/mods"));
    assert_eq!(app.save.local_mod_dirs.len(), 1);
    assert!(app.update(Message::Settings(SettingsMessage::RemoveModDirectory(5))).is_empty());
}

#[test]
fn settings_are_previewed() {
    assert!(matches!(
        AppSettingsNumberPreview::HumanTime.generate_preview(86400),
        Preview::Text(text) if text == "1day"
    ));
    assert!(matches!(
        AppSettingsNumberPreview::FileSize.generate_preview(500),
        Preview::Size(size) if size == SizeDisplay::automatic(500)
    ));
    let fields = settings_fields();
    assert_eq!(fields.len(), 14);
    let locked = fields.iter().find(|f| f.locked).unwrap();
    assert!(!can_edit(locked, true));
    assert!(can_edit(locked, false));
}

#[test]
fn snapshots_are_trimmed() {
    assert!(automatic_snapshot(
        "LXCOMM_AUTO_BASIC_Mine_2024.01.31_10h20m30s.zip",
        "Mine"
    ));
    assert!(!automatic_snapshot(
        "LXCOMM_AUTO_BASIC_Mine_2024.13.31_10h20m30s.zip",
        "Mine"
    ));
    assert!(!automatic_snapshot("Mine_yesterday.zip", "Mine"));
    assert_eq!(snapshot_limits(&profile_settings()), None);
    let limited =
        ProfileSettings { automatic_snapshot_number_limit: 2, ..profile_settings() };
    let limits = snapshot_limits(&limited).unwrap();
    assert_eq!(limits.number, 2);
    assert_eq!(trim_snapshots(&vec![5, 6, 7], limits), 1);
    assert_eq!(
        trim_snapshots(&vec![5, 6, 7], SnapshotLimits { number: 9, size: 10 }),
        2
    );
    assert_eq!(
        trim_snapshots(&vec![5, 6, 7], SnapshotLimits { number: 3, size: 18 }),
        0
    );
}

#[test]
fn images_are_trimmed_by_use() {
    let image = |path: &str, size: u64, accessed: u64| ImageInfo {
        path: path.into(),
        size,
        accessed,
    };
    assert!(trim_image_cache(&vec![image("a", 10, 1)]).is_empty());
    let big = 700_000_000;
    let images = vec![image("new", big, 9), image("old", big, 1)];
    assert_eq!(trim_image_cache(&images), vec![1]);
}

#[test]
fn mods_are_found() {
    let paths = vec!["/m/x.txt".to_string(), "/m/Mine.XComMod".to_string()];
    assert_eq!(find_description_file(&paths), Some(1));
    assert_eq!(described_name("/m/Mine.XComMod"), Some("Mine".to_string()));
    let mut app = with_profile("P");
    let found = |folder: &str, id: Option<&str>| FoundMod {
        path: format!("/w/{folder}"),
        folder: folder.into(),
        data: ModMetadata {
            published_file_id: 0,
            title: "Found".into(),
            description: "d".into(),
            dlc_name: "Found".into(),
        },
        id_file: id.map(str::to_string),
        readme: Some("one\ntwo".into()),
    };
    let compatibility = || ModCompatibility {
        required: Table::new(),
        incompatible: Table::new(),
        ignore_required: Table::new(),
    };
    app.index
        .details
        .insert(ModId::Workshop(77), ModDetails::Workshop(details(77, "Known", &[])));
    let mut asks = compatibility();
    asks.required.insert("Highlander".into(), ());
    app.register_mod(found("77", Some(" 12\n")), asks, true);
    app.register_mod(found("77", None), compatibility(), true);
    let said = app.library.compatibility.get(&ModId::Workshop(77)).unwrap();
    assert!(said.required.contains(&"Highlander".to_string()));
    assert_eq!(app.downloaded.get(&77), Some(&"/w/77".to_string()));
    let actions = app.finish_scan("/w", true);
    assert!(matches!(
        &actions[..],
        [
            Action::NoteTags(ModId::Workshop(77), path),
            Action::FindLibraryProvided,
            Action::FindProvided(n),
        ] if path == "/w/77" && n == "P"
    ));
    assert!(app.library.items.contains(&ModId::Workshop(77)));
    app.register_mod(found("local", Some("x")), compatibility(), false);
    app.finish_scan("/w", false);
    let id = ModId::Local("/w/local".into());
    assert!(app.library.items.contains(&id));
    assert_eq!(app.index.details.get(&id).unwrap().get_description(), "one\ntwo");
}

fn library_app() -> App {
    let mut app = app();
    for (id, title) in [(1, "Long War"), (2, "Barracks")] {
        app.library.items.insert(
            ModId::Workshop(id),
            LibraryItem {
                id: ModId::Workshop(id),
                title: title.into(),
                path: String::new(),
                needs_update: false,
                selected: false,
            },
        );
    }
    app
}

#[test]
fn the_library_is_shown_and_selected() {
    let mut app = library_app();
    app.library.missing_dependencies.insert(ModId::Workshop(1), vec!["Highlander".into()]);
    app.update(Message::LibraryToggleItem(ModId::Workshop(1), true));
    let page = app.library_page().unwrap();
    assert!(page.some_selected);
    assert!(!page.all_selected);
    assert_eq!(page.rows[0].missing, vec!["Missing Item: Highlander"]);
    assert!(page.rows[0].danger);
    assert_eq!(page.rows[1].dlc_name, "UNKNOWN");
    assert_eq!(app.deletion_list(), vec!["Long War (1)"]);
    app.update(Message::LibraryToggleAll(true));
    assert!(app.library_page().unwrap().all_selected);
    app.update(Message::LibraryFilterUpdateQuery("barr".into()));
    let page = app.library_page().unwrap();
    assert_eq!(page.rows.len(), 1);
    assert_eq!(app.deletion_list(), vec!["Barracks (2)"]);
}

#[test]
fn items_are_shown_in_detail() {
    let mut app = app();
    app.index.details.insert(
        ModId::Workshop(1),
        ModDetails::Workshop(details(1, "One", &["2", "3"])),
    );
    app.index
        .details
        .insert(ModId::Workshop(2), ModDetails::Workshop(details(2, "Two", &[])));
    let mut noted = Table::new();
    noted.insert(Tag::User("mine".into()), ());
    noted.insert(Tag::Workshop("Gameplay".into()), ());
    let one = ModId::Workshop(1);
    let view = app.view_item_detailed(&one, true, false, &noted, &vec![2]).unwrap();
    assert_eq!(view.title, "One");
    assert!(matches!(&view.children[0], ChildRow::Known(2, label, true) if label == "Two (2)"));
    assert_eq!(view.tags, Vec::<String>::new());
    assert_eq!(
        view.author,
        Some((76, "https://steamcommunity.com/profiles/76/myworkshopfiles/?appid=268500".into()))
    );
    assert_eq!(
        view.page.as_deref(),
        Some("https://steamcommunity.com/sharedfiles/filedetails/?id=1")
    );
    app.library.items.insert(
        ModId::Workshop(1),
        LibraryItem {
            id: ModId::Workshop(1),
            title: "One".into(),
            path: "/items/1".into(),
            needs_update: false,
            selected: false,
        },
    );
    let listed = app.view_item_detailed(&one, true, false, &noted, &Vec::new()).unwrap();
    assert_eq!(listed.tags, vec!["Gameplay", "mine"]);
    assert!(matches!(&listed.children[0], ChildRow::Known(2, _, false)));
    assert!(matches!(&view.children[1], ChildRow::Unknown(label) if label == "UNKNOWN (3)"));
    assert!(view.can_download && view.can_download_all && view.can_delete);
    assert_eq!(view.description, "about");
    let nine = ModId::Workshop(9);
    assert!(app.view_item_detailed(&nine, true, false, &noted, &Vec::new()).is_none());
}

#[test]
fn mods_of_a_profile_are_shown() {
    let mut app = app();
    app.index
        .details
        .insert(ModId::Workshop(1), ModDetails::Workshop(details(1, "One", &[])));
    let mut profile = Profile::new("P".into(), profile_settings());
    profile.items.insert(ModId::Workshop(1), LibraryItemSettings::default());
    let there = app.view_profile_mod(&profile, &ModId::Workshop(1), true);
    assert_eq!(there.label, "One (1)");
    assert_eq!(there.style, ProfileRowStyle::Plain);
    profile
        .compatibility_issues
        .insert(ModId::Workshop(1), vec![CompatibilityIssue::Incompatible("X".into())]);
    let gone = app.view_profile_mod(&profile, &ModId::Workshop(1), false);
    assert_eq!(gone.label, "One (1) (MISSING)");
    assert_eq!(
        gone.issues,
        vec!["Missing: Mod is not downloaded (or found)", "Incompatible Mod: X"]
    );
    assert_eq!(gone.style, ProfileRowStyle::Danger);
    profile.view_selected_item = Some(ModId::Workshop(1));
    assert_eq!(
        app.view_profile_mod(&profile, &ModId::Workshop(1), false).style,
        ProfileRowStyle::Selected
    );
    let local = app.view_profile_mod(&profile, &ModId::Local("/m".into()), false);
    assert_eq!(local.label, "UNKNOWN (/m) (MISSING)");
    assert!(!local.selectable);
    assert_eq!(
        issue_message(&CompatibilityIssue::Overlapping(
            "Other".into(),
            vec!["a".into(), "b".into()]
        )),
        "Other Provides Same DLCNames: a, b"
    );
    assert_eq!(issue_message(&CompatibilityIssue::Unknown), "Missing Info");
}

#[test]
fn secrets_are_kept_only_when_asked_for() {
    let mut app = app();
    app.api_key = "KEY".into();
    let actions = app.update(Message::CloseAppRequested);
    assert!(!actions
        .iter()
        .any(|a| matches!(a, Action::SavePassword(_) | Action::SaveApiKey(_))));
    app.settings.steamcmd_save_password = true;
    app.settings.steam_webapi_save_api_key = true;
    let actions = app.update(Message::CloseAppRequested);
    assert!(actions.iter().any(|a| matches!(a, Action::SavePassword(p) if p == "pw")));
    assert!(actions.iter().any(|a| matches!(a, Action::SaveApiKey(k) if k == "KEY")));
    assert!(matches!(actions.last(), Some(Action::CloseWindow)));
}

#[test]
fn keys_are_stored_only_when_asked_for() {
    let mut app = app();
    app.update(Message::ApiKeyRequestUpdate("KEY".into()));
    app.update(Message::ApiKeyRequest);
    assert!(matches!(
        app.update(Message::ApiKeySubmit).as_slice(),
        [Action::TellApiKey(key)] if key == "KEY"
    ));
    assert!(app.modal_stack.is_empty());
    app.settings.steam_webapi_save_api_key = true;
    assert!(matches!(
        app.update(Message::ApiKeySubmit).as_slice(),
        [Action::StoreApiKey(key)] if key == "KEY"
    ));
    app.api_key = String::new();
    assert!(app.update(Message::ApiKeySubmit).is_empty());
}

#[test]
fn searches_load_pages() {
    let mut app = app();
    app.update(Message::BrowseEditQuery("holo".into()));
    app.update(Message::BrowseEditTag("Gameplay".into()));
    assert_eq!(app.browse.browsing_query.tags.len(), 1);
    app.update(Message::BrowseEditTag("Gameplay".into()));
    assert_eq!(app.browse.browsing_query.tags.len(), 0);
    app.update(Message::BrowseSubmitQuery);
    assert_eq!(app.browse.browsing_page, 1);
    app.update(Message::QueryFilesLoaded(1, vec![details(5, "Lost", &[])], Vec::new()));
    assert_eq!(app.loaded_files[0].title, "Lost");
    assert!(app.index.details.get(&ModId::Workshop(5)).is_none());
    let five = vec![details(5, "Five", &[])];
    let actions = app.update(Message::QueryFilesLoaded(101, five, vec![5]));
    assert_eq!(app.browse.browsing_page_max, 3);
    assert!(actions.iter().any(|a| matches!(a, Action::LoadImage(url) if url == "5.png")));
    assert_eq!(app.loaded_files.len(), 1);
    assert_eq!(app.loaded_files[0].published_file_id, "5");
    app.update(Message::QueryFilesLoaded(1, vec![details(5, "Later", &[])], vec![5]));
    assert_eq!(app.loaded_files[0].title, "Later");
    let known = app.index.details.get(&ModId::Workshop(5));
    assert_eq!(known.map(|known| known.title()), Some("Five"));
}

#[test]
fn messages_are_tested_before_they_are_taken() {
    let mut app = logged_in();
    assert!(app.try_update(Message::LoadRemoveLaunchArgs(0)).is_none());
    app.update(Message::LoadAddLaunchArgs);
    assert!(app.takes(&Message::LoadRemoveLaunchArgs(0)));
    assert!(app.try_update(Message::LoadRemoveLaunchArgs(0)).is_some());
    assert!(app.save.launch_args.is_empty());

    let edit = |name: &'static str| {
        Message::Settings(SettingsMessage::Edit(AppSettingEdit::Bool(name, true)))
    };
    assert!(app.takes(&edit("notify_progress")));
    assert!(!app.takes(&edit("download_directory")));
    assert!(app.try_update(edit("nothing")).is_none());

    app.index
        .details
        .insert(ModId::Workshop(1), ModDetails::Workshop(details(1, "One", &["2", "x"])));
    app.index.details.insert(ModId::Workshop(2), ModDetails::Workshop(details(2, "Two", &["1"])));
    assert!(!app.takes(&Message::SetViewingItem(ModId::Workshop(1))));
    assert!(app.takes(&Message::SetViewingItem(ModId::Workshop(2))));
    assert!(app.takes(&Message::SetViewingItem(ModId::Workshop(3))));

    app.settings.notify_progress = true;
    app.downloads.ongoing_download = Some((2, 0));
    assert!(!app.takes(&Message::SteamCMDDownloadProgress(2, u64::MAX)));
    assert!(app.takes(&Message::SteamCMDDownloadProgress(2, 5)));
    assert!(app.takes(&Message::SteamCMDDownloadProgress(1, u64::MAX)));

    app.query_page_size = 1;
    assert!(!app.takes(&Message::QueryFilesLoaded(0, Vec::new(), Vec::new())));
    let loaded = CollectionsMessage::QueryCollectionsLoaded(0, Vec::new());
    assert!(!app.takes(&Message::Collections(loaded)));
    assert!(app.takes(&Message::Collections(CollectionsMessage::BrowseSubmitQuery)));
}

#[test]
fn logs_grow_at_their_end() {
    let mut app = app();
    app.update(Message::LogAppend("\u{1b}[1mLoading\u{1b}[0m".into()));
    app.update(Message::LogAppend("OK".into()));
    assert_eq!(app.steamcmd_log, "Loading\nOK\n");
    app.update(log_changed(MonitorFileChange::Append("b".into())));
    app.update(log_changed(MonitorFileChange::Create("a".into())));
    app.update(log_changed(MonitorFileChange::Append("b".into())));
    assert_eq!(app.launch_log, "ab");
    app.update(Message::LaunchLogClear);
    assert_eq!(app.launch_log, "");
}

#[test]
fn logins_in_use_are_not_changed() {
    let mut app = app();
    app.login.shared = true;
    app.update(Message::SetSteamCMDUser("you".into()));
    app.update(Message::SetSteamCMDPassword("other".into()));
    assert_eq!(app.save.username, "you");
    assert_eq!(app.login.username, "me");
    assert_eq!(app.login.password, "pw");
    let actions = app.update(Message::SteamCMDLogin(true));
    assert!(matches!(
        actions.as_slice(),
        [Action::Send(Message::DisplayError(title, body))] if title == "Error Logging In"
            && body == "SteamCMD session is in an unexpected state, report this to the dev."
    ));
    app.update(Message::SteamCMDLoginElevated);
    assert!(app.login.is_cached);
    app.update(Message::SteamCMDLoginElevatedCancel);
    app.update(Message::Settings(SettingsMessage::Save));
    assert!(matches!(
        app.modal_stack.last(),
        Some(AppModal::ErrorMessage(title, _)) if title == "Warning"
    ));
    app.login.shared = false;
    app.update(Message::SetSteamCMDUser("you".into()));
    assert_eq!(app.login.username, "you");
    assert!(matches!(
        app.update(Message::SteamCMDLogin(true)).as_slice(),
        [Action::StartSession(true)]
    ));
    app.update(Message::SteamCMDLoginElevated);
    assert!(!app.login.is_cached);
}

#[test]
fn what_is_there_is_not_downloaded_again() {
    let mut app = app();
    app.downloaded.insert(2, "/items/2".into());
    let actions = app.update(Message::DownloadAllRequested(1));
    let there = match actions.into_iter().nth(1) {
        Some(Action::ResolveDependencies(_, 1, Some(there))) => there,
        _ => panic!("what the item asks for is not looked up"),
    };
    assert_eq!(there, [2]);
    app.downloaded.insert(3, "/items/3".into());
    let actions = app.update(Message::DownloadAllResolved(vec![3, 2, 1], there));
    assert!(matches!(
        actions.as_slice(),
        [_, Action::AwaitChoice(_, Outcome::DownloadAll(ids))] if *ids == [1, 3]
    ));
    let actions = app.update(Message::DownloadAllResolved(vec![2], vec![2]));
    assert!(matches!(
        actions.as_slice(),
        [Action::Send(Message::DisplayError(title, _))] if title == "Already Downloaded"
    ));
}

#[test]
fn chained_messages_take_effect_at_once() {
    let mut app = app();
    let error = || Message::DisplayError("t".into(), "b".into());
    let chain = Message::Chained(vec![
        Message::SetBusy(true),
        Message::Chained(vec![error(), Message::LibraryScanRequest]),
        Message::BrowseSubmitQuery,
    ]);
    let actions = app.update(chain);
    assert!(matches!(&app.modal_stack[..], [AppModal::Busy, AppModal::ErrorMessage(_, _)]));
    assert!(matches!(
        &actions[..],
        [Action::ScanDownloads, Action::Send(Message::BrowseUpdateQuery)]
    ));
    let chain = Message::Chained(vec![
        Message::LoadAddLaunchArgs,
        Message::LoadRemoveLaunchArgs(0),
    ]);
    assert!(app.try_update(chain).is_some());
    assert!(app.save.launch_args.is_empty());
    let chain = Message::Chained(vec![
        Message::LoadAddLaunchArgs,
        Message::LoadRemoveLaunchArgs(1),
        Message::LoadAddLaunchArgs,
    ]);
    assert!(app.try_update(chain).is_none());
    assert_eq!(app.save.launch_args.len(), 1);
}

#[test]
fn the_game_starts_only_when_asked_for() {
    let mut app = with_profile("p");
    app.save.active_profile = Some("p".into());
    app.save.game_directory = Some("/game".into());
    app.save.local_directory = Some("/local".into());
    app.save.launch_command = Some("steam".into());
    app.settings.reload_profile_on_launch = true;
    let facts = PrepareFacts { game_exists: true, subdirectory_exists: true };
    assert!(matches!(
        &app.update(Message::LoadPrepareProfile(false, facts))[..],
        [Action::LoadProfile(request)] if request.reason == ApplyReason::Unasked
    ));
    assert!(app.update(Message::LoadProfileApplied(ApplyReason::Unasked)).is_empty());
    assert!(matches!(
        &app.update(Message::LoadPrepareProfile(true, facts))[..],
        [Action::LoadProfile(request)] if request.reason == ApplyReason::Asked
    ));
    assert!(matches!(
        &app.update(Message::LoadProfileApplied(ApplyReason::Asked))[..],
        [Action::Send(Message::DisplayError(title, _))] if title == "Success"
    ));
    assert!(matches!(
        &app.update(Message::LoadLaunchGame(facts))[..],
        [Action::LoadProfile(request)]
            if request.reason == ApplyReason::Launch && request.profile == "p"
                && request.game_directory == "/game" && request.local_directory == "/local"
    ));
    assert!(matches!(
        &app.update(Message::LoadProfileApplied(ApplyReason::Launch))[..],
        [Action::Launch(command, _, None), Action::Abort(_), Action::MonitorLog(_)]
            if command == "steam"
    ));
}

#[test]
fn searches_are_handed_over() {
    let mut app = app();
    app.api_key = "key".into();
    app.update(Message::BrowseEditQuery("holo".into()));
    app.update(Message::BrowseEditTag("Gameplay".into()));
    app.update(Message::SetBrowsePage(3));
    let actions = app.update(Message::BrowseUpdateQuery);
    let lifetime = app.settings.steam_webapi_cache_lifetime;
    assert!(matches!(
        &actions[..],
        [_, Action::QueryMods(key, 3, query, kept), Action::ResetScroll, _]
            if key == "key" && query.query == "holo" && *kept == lifetime
                && query.tags.len() == 1 && query.tags.contains(&"Gameplay".to_string())
    ));
    let of = Message::Collections;
    app.update(of(CollectionsMessage::BrowseEditQuery("sets".into())));
    let actions = app.update(of(CollectionsMessage::BrowseUpdateQuery));
    assert!(matches!(
        &actions[..],
        [_, Action::QueryCollections(key, _, query), Action::ResetScroll, _]
            if key == "key" && query.query == "sets" && query.tags.len() == 0
    ));
}

#[test]
fn logins_hand_over_who_logs_in() {
    let mut app = app();
    app.login.session = true;
    app.login.is_cached = true;
    assert!(matches!(
        app.update(Message::SteamCMDLogin(true)).as_slice(),
        [Action::AttemptCachedLogin(user, true), Action::Send(Message::SetBusy(false))]
            if user == "me"
    ));
    app.update(Message::SetSteamCMDCode("12345".into()));
    let actions = app.update(Message::SteamCMDLoginElevatedSubmit);
    assert!(matches!(
        actions.as_slice(),
        [Action::AttemptFullLogin(user, password, code), Action::Send(Message::Chained(last))]
            if user == "me" && password == "pw" && code == "12345"
                && matches!(
                    last.as_slice(),
                    [Message::SetBusy(false), Message::SetSteamCMDCode(code)] if code.is_empty()
                )
    ));
    assert_eq!(app.login.code, "");
}
