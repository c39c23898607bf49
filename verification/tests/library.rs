use lxcomm::files::{ChildFile, ModDetails, WorkshopDetails};
use lxcomm::library::missing::ModIndex;
use lxcomm::library::profile::{CompatibilityIssue, Profile, ProfileSettings};
use lxcomm::library::{FilterMethod, Library, LibraryItem, LibraryItemSettings};
use lxcomm::table::Table;
use lxcomm::xcom_mod::{ModCompatibility, ModId, ModMetadata};

fn item(id: u32, title: &str) -> LibraryItem {
    LibraryItem {
        id: ModId::Workshop(id),
        title: title.into(),
        path: format!("/m/{id}"),
        needs_update: false,
        selected: false,
    }
}

fn library() -> Library {
    let mut library = Library::default();
    for (id, title) in [(1, "Long War"), (2, "Better Barracks"), (3, "ÄRGER")] {
        library.items.insert(ModId::Workshop(id), item(id, title));
    }
    library
}

fn titles(items: Vec<&LibraryItem>) -> Vec<String> {
    items.into_iter().map(|item| item.title.clone()).collect()
}

#[test]
fn filters_let_items_through() {
    let library = library();
    assert_eq!(library.iter_with_filter(&FilterMethod::All).len(), 3);
    assert_eq!(
        titles(library.iter_with_filter(&FilterMethod::Id("2".into()))),
        vec!["Better Barracks"]
    );
    assert_eq!(
        titles(library.iter_with_filter(&FilterMethod::Title("ärger".into()))),
        vec!["ÄRGER"]
    );
    assert_eq!(
        titles(library.iter_with_filter(&FilterMethod::TitleFuzzy("long wr".into()))),
        vec!["Long War"]
    );
    let both = FilterMethod::Combined(vec![
        FilterMethod::Title("r".into()),
        FilterMethod::Id("1".into()),
    ]);
    assert_eq!(titles(library.iter_with_filter(&both)), vec!["Long War"]);
}

#[test]
fn combined_filters_match_what_all_match() {
    let library = library();
    let r = || FilterMethod::Title("r".into());
    let one = || FilterMethod::Id("1".into());
    let nothing = FilterMethod::Combined(Vec::new());
    assert_eq!(library.iter_with_filter(&nothing).len(), 3);
    let flat = FilterMethod::Combined(vec![r(), one()]);
    let turned = FilterMethod::Combined(vec![one(), r(), one()]);
    let nested = FilterMethod::Combined(vec![FilterMethod::Combined(vec![r()]), one()]);
    for method in [flat, turned, nested] {
        assert_eq!(titles(library.iter_with_filter(&method)), vec!["Long War"]);
    }
}

#[test]
fn filtered_mods_keep_their_order() {
    let mut library = library();
    library.filter_query = "r".into();
    assert_eq!(titles(library.iter_filtered()), vec!["Long War", "Better Barracks", "ÄRGER"]);
    library.filter_query = String::new();
    library.filter_fuzzy = true;
    assert_eq!(library.iter_filtered().len(), 3);
}

#[test]
fn some_titles_cannot_be_searched() {
    let fuzzy = FilterMethod::TitleFuzzy("x".repeat(65));
    assert!(!fuzzy.can_match("Long War"));
    assert_eq!(fuzzy.try_matches(&item(1, "Long War")), None);
    let empty = FilterMethod::TitleFuzzy(String::new());
    assert_eq!(empty.try_matches(&item(1, "Long War")), Some(false));
}

#[test]
fn selections_follow_the_filter() {
    let mut library = library();
    library.filter_query = "long".into();
    library.iter_filtered_mut(true);
    assert_eq!(titles(library.iter_selected()), vec!["Long War"]);
    library.select_item(&ModId::Workshop(2), true);
    assert_eq!(library.iter_selected().len(), 2);
    library.update_selected_filtered();
    assert_eq!(titles(library.iter_selected()), vec!["Long War"]);
    assert_eq!(library.iter_workshop_id_selected(), vec![1, 2, 3]);
}

fn metadata(dlc_name: &str) -> ModMetadata {
    ModMetadata {
        published_file_id: 0,
        title: dlc_name.into(),
        description: String::new(),
        dlc_name: dlc_name.into(),
    }
}

fn details(id: u32, title: &str, children: &[&str]) -> ModDetails {
    ModDetails::Workshop(WorkshopDetails {
        published_file_id: id.to_string(),
        title: title.into(),
        creator: 76,
        file_description: None,
        short_description: None,
        file_size: "10".into(),
        hcontent_file: None,
        preview_url: String::new(),
        time_updated: 0,
        children: children
            .iter()
            .map(|c| ChildFile { published_file_id: c.to_string() })
            .collect(),
        tags: Vec::new(),
    })
}

fn names(all: &[&str]) -> Table<String, ()> {
    let mut table = Table::new();
    for name in all {
        table.insert(name.to_string(), ());
    }
    table
}

fn index() -> ModIndex {
    let mut index = ModIndex { metadata: Table::new(), details: Table::new() };
    index.metadata.insert(ModId::Workshop(1), metadata("LongWar"));
    index.metadata.insert(ModId::Workshop(2), metadata("Barracks"));
    index.details.insert(ModId::Workshop(1), details(1, "Long War", &["2", "9"]));
    index.details.insert(ModId::Workshop(2), details(2, "Better Barracks", &[]));
    index
}

#[test]
fn missing_dependencies_are_noted() {
    let mut library = library();
    let mut asks = ModCompatibility {
        required: names(&["Highlander"]),
        incompatible: Table::new(),
        ignore_required: Table::new(),
    };
    library.compatibility.insert(ModId::Workshop(2), asks);
    library.update_missing_dependencies(&index(), &names(&["LongWar", "Barracks"]));
    let first = library.missing_dependencies.get(&ModId::Workshop(1)).unwrap();
    assert_eq!(first, &vec!["UNKNOWN (9)".to_string()]);
    let second = library.missing_dependencies.get(&ModId::Workshop(2)).unwrap();
    assert_eq!(second, &vec!["Highlander".to_string()]);
    asks = ModCompatibility {
        required: names(&["LongWar"]),
        incompatible: Table::new(),
        ignore_required: Table::new(),
    };
    library.compatibility.insert(ModId::Workshop(2), asks);
    library.update_missing_dependencies(&index(), &names(&["LongWar", "Barracks"]));
    assert!(library.missing_dependencies.get(&ModId::Workshop(2)).is_none());
}

fn settings() -> ProfileSettings {
    ProfileSettings {
        automatic_snapshot_on_apply: false,
        automatic_snapshot_on_launch: false,
        automatic_snapshot_incremental: false,
        automatic_snapshot_number_limit: 0,
        automatic_snapshot_size_limit: 0,
    }
}

fn profile(ids: &[u32]) -> Profile {
    let mut profile = Profile::new("Mine".into(), settings());
    for id in ids {
        profile.items.insert(ModId::Workshop(*id), LibraryItemSettings::default());
    }
    profile
}

#[test]
fn profiles_miss_what_the_library_lacks() {
    let missing: Vec<String> =
        profile(&[1, 7]).missing_items(&library()).iter().map(|id| id.text()).collect();
    assert_eq!(missing, vec!["7"]);
}

#[test]
fn profiles_note_what_does_not_fit() {
    let mut library = library();
    library.compatibility.insert(
        ModId::Workshop(2),
        ModCompatibility {
            required: names(&["Highlander"]),
            incompatible: names(&["LongWar"]),
            ignore_required: Table::new(),
        },
    );
    library.compatibility.insert(
        ModId::Workshop(1),
        ModCompatibility {
            required: Table::new(),
            incompatible: Table::new(),
            ignore_required: Table::new(),
        },
    );
    let mut profile = profile(&[1, 2, 7]);
    profile.update_compatibility_issues(&library, &index(), &names(&["LongWar", "Barracks"]));
    let first = profile.compatibility_issues.get(&ModId::Workshop(1)).unwrap();
    assert!(first
        .iter()
        .any(|issue| matches!(
            issue,
            CompatibilityIssue::MissingWorkshop(9, text) if text == "9 (UNKNOWN)"
        )));
    let second = profile.compatibility_issues.get(&ModId::Workshop(2)).unwrap();
    assert!(second
        .iter()
        .any(|issue| matches!(issue, CompatibilityIssue::MissingRequired(n) if n == "Highlander")));
    assert!(second
        .iter()
        .any(|issue| matches!(issue, CompatibilityIssue::Incompatible(n) if n == "LongWar")));
    let unknown = profile.compatibility_issues.get(&ModId::Workshop(7)).unwrap();
    assert!(unknown.iter().any(|issue| matches!(issue, CompatibilityIssue::Unknown)));
}

#[test]
fn mods_of_the_same_name_overlap() {
    let mut library = library();
    let mut index = index();
    for id in [1, 2] {
        index.metadata.insert(ModId::Workshop(id), metadata("Same"));
        library.compatibility.insert(
            ModId::Workshop(id),
            ModCompatibility {
                required: Table::new(),
                incompatible: Table::new(),
                ignore_required: Table::new(),
            },
        );
    }
    let mut profile = profile(&[1, 2]);
    profile.update_compatibility_issues(&library, &index, &names(&["Same"]));
    let issues = profile.compatibility_issues.get(&ModId::Workshop(2)).unwrap();
    assert!(issues.iter().any(|issue| matches!(
        issue,
        CompatibilityIssue::Overlapping(name, shared)
            if name == "Same (0)" && shared == &vec!["Same".to_string()]
    )));
}
