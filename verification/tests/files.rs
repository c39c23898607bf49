use lxcomm::collections::{Collection, CollectionRow, CollectionSource, ImageSource};
use lxcomm::files::{
    dir_exact_eq, directory_matches, file_exact_eq, find_directories_matching, gen_hash,
    gen_partial_hash, get_all_items_directory, get_item_config_directory, get_item_directory,
    get_item_downloading_directory, get_mod_directory, get_workshop_manifest_path, is_hidden,
    link_dirs, link_files, move_dirs, names_directories, FileFacts, FileMonitor, LinkError,
    ModDetails, MonitorFileChange, SizeDisplay, WalkFacts, WorkshopDetails,
};
use lxcomm::library::missing::ModIndex;
use lxcomm::library::profile::{Profile, ProfileSettings};
use lxcomm::library::LibraryItemSettings;
use lxcomm::loading::plan::{
    build_active_config, build_mod_environment, link_profile_local_files, LocalFolders, ModEntry,
    PlaceStep,
};
use lxcomm::loading::{
    check_destination, check_local_files, config_links, enabled_items, entry_source,
    link_kind, link_mod_environment, link_profile_folder, mod_destination, mod_list,
    profile_directory, profile_folders, ConfigEntry, ConfigLink, FolderFacts, GameFacts, LinkKind,
    LoadStep, LoadingError, LocalFacts,
};
use lxcomm::metadata::{read_in, read_metadata, ProgramMetadata, Tag};
use lxcomm::paths::path_components;
use lxcomm::table::Table;
use lxcomm::xcom_mod::{ModId, ModMetadata};

#[test]
fn items_have_their_directories() {
    assert_eq!(
        get_all_items_directory("/d"),
        "/d/steamapps/workshop/content/268500"
    );
    assert_eq!(
        get_item_directory("/d", 7),
        "/d/steamapps/workshop/content/268500/7"
    );
    assert_eq!(
        get_item_config_directory("/d", 7),
        "/d/steamapps/workshop/content/268500/7/Config"
    );
    assert_eq!(get_mod_directory("/d", &ModId::Local("/m".into())), "/m");
    assert_eq!(
        get_workshop_manifest_path("/d"),
        "/d/steamapps/workshop/appworkshop_268500.acf"
    );
    assert_eq!(
        get_item_downloading_directory("/d", 7),
        "/d/steamapps/workshop/downloads/268500/7"
    );
}

#[test]
fn sizes_are_shown_in_fitting_units() {
    assert_eq!(SizeDisplay::automatic(500).suffix_short(), "B");
    assert_eq!(
        SizeDisplay::automatic_from(5, 5_000_000_000).suffix_short(),
        SizeDisplay::automatic(5_000_000_000).suffix_short()
    );
    assert_ne!(
        SizeDisplay::automatic(500).suffix_short(),
        SizeDisplay::automatic(5_000_000).suffix_short()
    );
}

#[test]
fn hashes_are_the_programs_own() {
    assert_eq!(gen_hash(b"x"), blake3::hash(b"LXCOMMx").to_hex().to_string());
    assert_ne!(gen_hash(b"x"), blake3::hash(b"x").to_hex().to_string());
    assert_eq!(
        gen_partial_hash(b"ab", 4),
        blake3::hash(b"LXCOMMab\0\0").to_hex().to_string()
    );
    assert_eq!(gen_partial_hash(b"abcd", 2), gen_partial_hash(b"abzz", 2));
}

fn facts(name: &str, contents: &[u8]) -> FileFacts {
    FileFacts {
        name: name.into(),
        len: contents.len() as u64,
        is_file: true,
        contents: contents.to_vec(),
    }
}

#[test]
fn files_are_compared() {
    assert!(file_exact_eq(&facts("a", b"x"), &facts("a", b"x")));
    assert!(!file_exact_eq(&facts("a", b"x"), &facts("b", b"x")));
    assert!(!file_exact_eq(&facts("a", b"x"), &facts("a", b"y")));
    assert!(!file_exact_eq(&facts("a", b"x"), &facts("a", b"xx")));
    let walk = |contents: &[u8]| {
        vec![WalkFacts { depth: 1, path: "a".into(), file: facts("a", contents) }]
    };
    assert!(dir_exact_eq(&walk(b"x"), &walk(b"x")));
    assert!(!dir_exact_eq(&walk(b"x"), &walk(b"y")));
    assert!(!dir_exact_eq(&walk(b"x"), &Vec::new()));
}

#[test]
fn growing_files_are_watched() {
    let mut monitor = FileMonitor { position: 0 };
    assert!(matches!(monitor.created(b"\xffa"), MonitorFileChange::Create(s) if s == "\u{fffd}a"));
    assert!(matches!(monitor.modified(b"a"), MonitorFileChange::Create(s) if s == "a"));
    monitor.passed_on(false, 1);
    assert_eq!(monitor.position, 0);
    monitor.passed_on(true, 1);
    assert!(matches!(monitor.modified(b"b"), MonitorFileChange::Append(s) if s == "b"));
}

fn chars(names: &[&str]) -> Vec<Vec<char>> {
    names.iter().map(|n| n.chars().collect()).collect()
}

#[test]
fn directories_are_looked_for() {
    let wanted = chars(&["xcom2", "xcomgame"]);
    assert!(names_directories("xcom2/xcomgame"));
    assert_eq!(find_directories_matching("xcom2/xcomgame"), wanted);
    for names in ["/XCOM 2", "", ".", "..", "a/..", "/"] {
        assert!(!names_directories(names));
    }
    for names in [
        "XCOM 2/share/data/binaries",
        "XCOM 2/XCom2-WarOfTheChosen/Binaries",
        "feral-interactive/XCOM 2 WotC/VFS/Local/my games/XCOM2 War of the Chosen/XComGame",
        "Documents/My Games/XCOM2 War of the Chosen/XComGame",
    ] {
        assert!(names_directories(names));
    }
    assert!(directory_matches(&path_components("/games/XCOM2/XComGame"), &wanted));
    assert!(!directory_matches(&path_components("/games/XCOM2/XComGame/Config"), &wanted));
    assert!(!directory_matches(&path_components("/games/XComGame"), &wanted));
    assert!(is_hidden(".git"));
    assert!(!is_hidden("git"));
}

#[test]
fn links_and_moves_are_checked() {
    assert_eq!(link_files(false), Err(LinkError::NotAFile));
    assert_eq!(link_files(true), Ok(()));
    assert_eq!(link_dirs(false), Err(LinkError::NotADirectory));
    assert_eq!(link_dirs(true), Ok(()));
    assert_eq!(move_dirs(false, false, false), Err(LinkError::FromNotADirectory));
    assert_eq!(move_dirs(true, true, false), Err(LinkError::ToNotADirectory));
    assert_eq!(move_dirs(true, true, true), Ok(()));
}

fn metadata(dlc_name: &str) -> ModMetadata {
    ModMetadata {
        published_file_id: 0,
        title: dlc_name.to_uppercase(),
        description: "about".into(),
        dlc_name: dlc_name.into(),
    }
}

fn settings() -> ProfileSettings {
    ProfileSettings {
        automatic_snapshot_on_apply: false,
        automatic_snapshot_on_launch: false,
        automatic_snapshot_incremental: false,
        automatic_snapshot_number_limit: 0,
        automatic_snapshot_size_limit: 0,
    }
}

fn profile() -> Profile {
    let mut profile = Profile::new("Mine".into(), settings());
    profile.items.insert(ModId::Workshop(2), LibraryItemSettings { enabled: true });
    profile.items.insert(ModId::Workshop(1), LibraryItemSettings { enabled: false });
    profile.items.insert(ModId::Local("/m".into()), LibraryItemSettings { enabled: true });
    profile
}

#[test]
fn active_mods_are_listed() {
    let mut known: Table<ModId, ModMetadata> = Table::new();
    known.insert(ModId::Workshop(1), metadata("One"));
    known.insert(ModId::Workshop(2), metadata("Two"));
    assert!(matches!(mod_list(&profile(), &known), Err(LoadingError::MetadataMissing)));
    known.insert(ModId::Local("/m".into()), metadata("Own"));
    assert_eq!(
        mod_list(&profile(), &known).ok(),
        Some(
            "[Engine.XComModOptions]\nActiveMods=\"One\"\nActiveMods=\"Two\"\nActiveMods=\"Own\"\n"
                .to_string()
        )
    );
    let made = profile();
    let enabled: Vec<String> = enabled_items(&made).iter().map(|id| id.text()).collect();
    assert_eq!(enabled, vec!["2", "/m"]);
    assert_eq!(
        mod_destination("/active", &ModId::Workshop(2), &known).ok(),
        Some("/active/Two".to_string())
    );
    let missing = mod_destination("/active", &ModId::Workshop(9), &known);
    assert_eq!(
        missing.err().map(|e| e.message()),
        Some("item informatin missing for id 9".to_string())
    );
    assert_eq!(
        check_destination("Two", true).err().map(|e| e.message()),
        Some("Mod with DLCName Two is defined twice".to_string())
    );
}

fn config(name: &str) -> ConfigEntry {
    ConfigEntry {
        path: format!("/c/{name}"),
        name: name.into(),
        canonical: format!("/c/{name}"),
        canonical_name: name.into(),
        is_dir: false,
    }
}

#[test]
fn custom_configuration_takes_the_place_of_the_original() {
    let custom = vec![config("XComGame.ini")];
    let original = vec![
        ConfigEntry { path: "/o/XComGame.ini".into(), canonical: "/o/XComGame.ini".into(), ..config("XComGame.ini") },
        ConfigEntry { path: "/o/XComUI.ini".into(), canonical: "/o/XComUI.ini".into(), ..config("XComUI.ini") },
    ];
    let links = config_links(&custom, &original);
    let sources: Vec<&str> = links
        .iter()
        .map(|link| match link {
            ConfigLink::File(from, _) => from.as_str(),
            ConfigLink::Directory(from, _) => from.as_str(),
        })
        .collect();
    assert!(sources.contains(&"/c/XComGame.ini"));
    assert!(sources.contains(&"/o/XComUI.ini"));
    assert!(!sources.contains(&"/o/XComGame.ini"));
}

#[test]
fn mod_entries_are_linked() {
    let own = Some("/config".to_string());
    assert_eq!(entry_source("/m/Src", "Src", &own), None);
    assert_eq!(entry_source("/m/Config", "Config", &own), own);
    assert_eq!(entry_source("/m/Config", "Config", &None), Some("/m/Config".to_string()));
    assert_eq!(entry_source("/m/Content", "Content", &own), Some("/m/Content".to_string()));
    assert!(matches!(link_kind(true, false), Ok(LinkKind::Directory)));
    assert!(matches!(link_kind(false, true), Ok(LinkKind::File)));
    assert!(matches!(link_kind(false, false), Err(LoadingError::Unprocessable)));
    assert_eq!(profile_directory("/p", 3), "/p/3");
    assert_eq!(
        profile_folders(),
        vec!["CharacterPool", "Config", "Photobooth", "SaveData"]
    );
}

fn game() -> GameFacts {
    GameFacts {
        active_mods: true,
        active_config: true,
        mods: true,
        mods_is_link: false,
        mods_backup: false,
        config: true,
        options: true,
        options_backup: true,
    }
}

#[test]
fn the_game_is_linked() {
    let steps = link_mod_environment("/active", "/game", game()).ok().unwrap();
    assert!(matches!(&steps[0], LoadStep::Rename(a, b)
        if a == "/game/XComGame/Mods" && b == "/game/XComGame/Mods.bak"));
    assert!(matches!(steps.last(), Some(LoadStep::LinkDir(a, b))
        if a == "/active" && b == "/game/XComGame/Mods"));
    let nothing = GameFacts { active_mods: false, ..game() };
    assert!(matches!(
        link_mod_environment("/active", "/game", nothing),
        Err(LoadingError::NoActiveMods)
    ));
    let no_config = GameFacts { active_config: false, ..game() };
    assert!(matches!(
        link_mod_environment("/active", "/game", no_config),
        Err(LoadingError::NoActiveConfig)
    ));
}

#[test]
fn local_folders_are_checked_and_linked() {
    let all = LocalFacts { config: true, logs: true, exists: true, profile: true };
    assert!(check_local_files("/l/XComGame", all).is_ok());
    assert!(matches!(check_local_files("/l/Other", all), Err(LoadingError::NotSaveFolder(_))));
    assert!(matches!(
        check_local_files("/l/XComGame", LocalFacts { config: false, ..all }),
        Err(LoadingError::NoConfigFolder(_))
    ));
    assert!(matches!(
        check_local_files("/l/XComGame", LocalFacts { logs: false, ..all }),
        Err(LoadingError::NoLogsFolder(_))
    ));
    assert!(matches!(
        check_local_files("/l/XComGame", LocalFacts { exists: false, ..all }),
        Err(LoadingError::Unreadable(_))
    ));
    assert!(matches!(
        check_local_files("/l/XComGame", LocalFacts { profile: false, ..all }),
        Err(LoadingError::NoProfileFolder)
    ));
    let folder =
        FolderFacts { exists: true, is_link: false, is_dir: true, backup: false, source: false };
    let steps = link_profile_folder("/l", "/p", "SaveData", folder);
    assert_eq!(steps.len(), 4);
    assert!(matches!(&steps[0], LoadStep::Rename(_, b) if b == "/l/SaveData.bak"));
    assert!(matches!(&steps[2], LoadStep::CreateDir(d) if d == "/p/SaveData"));
}

#[test]
fn tags_are_read_back() {
    let known = vec!["Gameplay".to_string()];
    for tag in [
        Tag::Workshop("Gameplay".into()),
        Tag::Custom("Odd".into()),
        Tag::User("mine".into()),
    ] {
        let read = Tag::deserialize(&tag.serialize(), &known);
        assert_eq!(read.as_text(), tag.as_text());
        assert_eq!(read.serialize(), tag.serialize());
    }
    assert_eq!(Tag::User("mine".into()).serialize(), "USER:mine");
    let mut notes = ProgramMetadata::default();
    notes.extend_tags(&["Gameplay".to_string(), "Odd".to_string(), "Odd".to_string()], &known);
    assert_eq!(notes.tags.len(), 2);
    notes.time_downloaded = 12;
    notes.tags.insert(Tag::User("mine".into()), ());
    let (path, record) = notes.save_in("/m");
    assert_eq!(path, read_in("/m"));
    assert_eq!(record.time_downloaded, 12);
    assert_eq!(record.tags, vec!["Gameplay", "Odd", "USER:mine"]);
    let back = record.restore(&known);
    assert_eq!(back.time_downloaded, 12);
    assert_eq!(back.tags.len(), 3);
    assert!(back.tags.contains(&Tag::Workshop("Gameplay".into())));
    assert!(back.tags.contains(&Tag::Custom("Odd".into())));
    assert!(back.tags.contains(&Tag::User("mine".into())));
    assert!(read_metadata(7, "/d").starts_with("/d/steamapps/workshop/content/268500/7/"));
}

#[test]
fn collections_show_their_items() {
    let mut index = ModIndex { metadata: Table::new(), details: Table::new() };
    index.details.insert(
        ModId::Workshop(5),
        ModDetails::Workshop(WorkshopDetails {
            published_file_id: "5".into(),
            title: "Five".into(),
            creator: 76,
            file_description: Some("long".into()),
            short_description: None,
            file_size: "1".into(),
            hcontent_file: None,
            preview_url: "five.png".into(),
            time_updated: 0,
            children: Vec::new(),
            tags: Vec::new(),
        }),
    );
    let collection = |source| Collection {
        source,
        title: "All".into(),
        items: vec![5, 6],
        image: ImageSource::Web(String::new()),
        banner: None,
        description: String::new(),
    };
    let web = collection(CollectionSource::Workshop(9));
    let rows = web.rows(&index);
    assert!(matches!(&rows[0], CollectionRow::Known(_, title, id, _) if title == "Five" && id == "5"));
    assert!(matches!(&rows[1], CollectionRow::Unknown(text) if text == "UNKNOWN (6)"));
    assert_eq!(web.download_all(), Some(vec![5, 6]));
    assert_eq!(web.mods().len(), 2);
    let local = collection(CollectionSource::Local("/c".into()));
    assert_eq!(local.download_all(), None);
    assert!(web.comes_before(&local));
    assert!(web != local);
}

fn step_text(step: &PlaceStep) -> String {
    match step {
        PlaceStep::CreateDir(path) => format!("mkdir {path}"),
        PlaceStep::LinkFile(from, to) => format!("file {from} {to}"),
        PlaceStep::LinkDir(from, to) => format!("dir {from} {to}"),
    }
}

fn mod_entry(name: &str, is_dir: bool, is_file: bool) -> ModEntry {
    ModEntry { path: format!("/m/{name}"), name: name.into(), is_dir, is_file }
}

#[test]
fn mods_are_put_among_the_active_ones() {
    let mut known = Table::new();
    known.insert(
        ModId::Workshop(2),
        ModMetadata {
            published_file_id: 2,
            title: "Two".into(),
            description: String::new(),
            dlc_name: "Second".into(),
        },
    );
    let entries = vec![
        mod_entry("Config", true, false),
        mod_entry("Src", true, false),
        mod_entry("Content", true, false),
        mod_entry("Second.XComMod", false, true),
    ];
    let config = Some("/c/2".to_string());
    let place = |id: u32, taken: bool, entries: &Vec<ModEntry>| {
        let (steps, failure) = build_mod_environment(
            "/a",
            &ModId::Workshop(id),
            &known,
            taken,
            &config,
            entries,
        );
        let steps: Vec<String> = steps.iter().map(step_text).collect();
        (steps, failure.map(|e| e.message()))
    };
    let (steps, failure) = place(2, false, &entries);
    assert_eq!(failure, None);
    assert_eq!(
        steps,
        vec![
            "mkdir /a/Second",
            "dir /c/2 /a/Second/Config",
            "dir /m/Content /a/Second/Content",
            "file /m/Second.XComMod /a/Second/Second.XComMod",
        ]
    );
    let (steps, failure) = place(2, true, &entries);
    assert!(steps.is_empty());
    assert_eq!(failure, Some("Mod with DLCName Second is defined twice".to_string()));
    let (steps, failure) = place(3, false, &entries);
    assert!(steps.is_empty());
    assert_eq!(failure, Some("item informatin missing for id 3".to_string()));
    let odd = vec![mod_entry("a", false, true), mod_entry("b", false, false)];
    let (steps, failure) = place(2, false, &odd);
    assert_eq!(steps, vec!["mkdir /a/Second", "file /m/a /a/Second/a"]);
    assert_eq!(failure, Some("unable to process file".to_string()));
}

#[test]
fn active_configuration_is_linked() {
    let entry = |name: &str, is_dir: bool| ConfigEntry {
        path: format!("/o/{name}"),
        name: name.into(),
        canonical: format!("/real/{name}"),
        canonical_name: name.into(),
        is_dir,
    };
    let custom = vec![entry("A.ini", false)];
    let original = vec![entry("A.ini", false), entry("B.ini", false), entry("Sub", true)];
    let steps = build_active_config("/active", "2", &custom, &original);
    let steps: Vec<String> = steps.iter().map(step_text).collect();
    assert_eq!(
        steps,
        vec![
            "mkdir /active/2",
            "file /real/A.ini /active/2/A.ini",
            "file /real/B.ini /active/2/B.ini",
            "dir /real/Sub /active/2/Sub",
        ]
    );
}

#[test]
fn folders_of_a_profile_are_linked() {
    let folder =
        FolderFacts { exists: true, is_link: true, is_dir: true, backup: true, source: true };
    let folders = LocalFolders {
        character_pool: folder,
        config: folder,
        photobooth: folder,
        save_data: FolderFacts { source: false, ..folder },
    };
    let all = LocalFacts { config: true, logs: true, exists: true, profile: true };
    let steps = link_profile_local_files("/l/XComGame", "/p", all, folders);
    assert_eq!(steps.map(|steps| steps.len()).ok(), Some(9));
    let bad = LocalFacts { profile: false, ..all };
    assert!(matches!(
        link_profile_local_files("/l/XComGame", "/p", bad, folders),
        Err(LoadingError::NoProfileFolder)
    ));
}
