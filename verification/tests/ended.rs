use lxcomm::app::ended::{export_comment, export_destination, export_name, tell, Ended};
use lxcomm::app::state::{ApplyReason, Message};
use lxcomm::collections::CollectionsMessage;
use lxcomm::library::profile::{Profile, ProfileSettings};
use lxcomm::paths::added_extension;
use lxcomm::steamcmd::SessionEvent;
use lxcomm::xcom_mod::ModId;

fn settings() -> ProfileSettings {
    ProfileSettings {
        automatic_snapshot_on_apply: false,
        automatic_snapshot_on_launch: false,
        automatic_snapshot_incremental: false,
        automatic_snapshot_number_limit: 0,
        automatic_snapshot_size_limit: 0,
    }
}

/// The title and the text of the only error that is told of.
fn error(ended: Ended) -> (String, String) {
    let mut told = tell(ended);
    assert_eq!(told.len(), 1);
    match told.pop() {
        Some(Message::DisplayError(title, body)) => (title, body),
        _ => panic!("no error was told of"),
    }
}

fn pair(title: &str, body: &str) -> (String, String) {
    (title.to_string(), body.to_string())
}

fn failed<T>() -> Result<T, String> {
    Err("no".to_string())
}

#[test]
fn sessions_are_told_of() {
    assert!(matches!(
        tell(Ended::SessionStarted(true, Ok(()))).as_slice(),
        [Message::SteamCMDLogin(true)]
    ));
    assert_eq!(
        error(Ended::SessionStarted(false, failed())),
        pair("Error Logging In", "Failed to start SteamCMD session: no")
    );
    let told = tell(Ended::SessionTold(SessionEvent::Line("hello".into())));
    assert!(matches!(told.as_slice(), [Message::LogAppend(line)] if line == "hello"));
    assert_eq!(
        error(Ended::SessionTold(SessionEvent::Shutdown)),
        pair(
            "SteamCMD Session Closed Unexpectedly",
            "The SteamCMD session has stopped for some reason.\nYou will not be able to download mods until you restart."
        )
    );
    assert!(tell(Ended::SessionTold(SessionEvent::Waiting)).is_empty());
    assert!(tell(Ended::SessionTold(SessionEvent::WriteError("no".into()))).is_empty());
}

#[test]
fn pages_are_told_of() {
    assert!(matches!(
        tell(Ended::ModsFound(Ok((7, Vec::new(), vec![3])))).as_slice(),
        [Message::QueryFilesLoaded(7, files, kept)] if files.is_empty() && *kept == [3]
    ));
    assert!(matches!(
        tell(Ended::CollectionsFound(Ok((3, Vec::new())))).as_slice(),
        [Message::Collections(CollectionsMessage::QueryCollectionsLoaded(3, _))]
    ));
    assert_eq!(error(Ended::ModsFound(failed())), pair("Page Load Failed", "no"));
    assert_eq!(error(Ended::CollectionsFound(failed())), pair("Page Load Failed", "no"));
}

#[test]
fn dependencies_are_told_of() {
    assert!(matches!(
        tell(Ended::DependenciesFound(Some(vec![2]), Ok(vec![1, 2]))).as_slice(),
        [Message::DownloadAllResolved(found, there)] if *found == [1, 2] && *there == [2]
    ));
    let told = tell(Ended::DependenciesFound(None, Ok(vec![1, 2])));
    match told.as_slice() {
        [Message::ItemDetailsAddToLibraryRequest(ids)] => {
            assert!(matches!(ids.as_slice(), [ModId::Workshop(1), ModId::Workshop(2)]));
        }
        _ => panic!("the mods were not told of"),
    }
    assert_eq!(
        error(Ended::DependenciesFound(Some(Vec::new()), failed())),
        pair(
            "Error Resolving Dependencies",
            "An error occured while trying to resolve dependencies. Original error:\nno"
        )
    );
    assert_eq!(
        error(Ended::DependenciesFound(None, failed())),
        pair(
            "Error Resolving Dependencies",
            "An error occurred while resolving dependencies:\nno"
        )
    );
    assert!(matches!(
        tell(Ended::OutdatedFound(Ok(vec![(1, 5)]))).as_slice(),
        [Message::CheckOutdatedCompleted(found)] if *found == [(1, 5)]
    ));
    assert_eq!(error(Ended::OutdatedFound(failed())), pair("Error Checking Updates", "no"));
}

#[test]
fn changes_of_profiles_are_told_of() {
    assert!(matches!(
        tell(Ended::ProfileSetUp("mine".into(), Ok(settings()))).as_slice(),
        [Message::ProfileCreated(name, _)] if name == "mine"
    ));
    assert_eq!(
        error(Ended::ProfileSetUp("mine".into(), failed())),
        pair("Error Setting Up Profile", "Error attempting to set up new profile: no")
    );
    assert!(tell(Ended::ProfileSaved("mine".into(), true, Ok(()))).is_empty());
    assert_eq!(
        error(Ended::ProfileSaved("mine".into(), true, failed())),
        pair(
            "Error Updating Profile",
            "Failed to write to profile 'mine', added mods will not be present when LXCOMM next launches.\n\nCaused by:\n    no"
        )
    );
    assert_eq!(
        error(Ended::ProfileSaved("mine".into(), false, failed())),
        pair("Error Updating Profile", "Failed to write changes to disk: no")
    );
    assert!(matches!(
        tell(Ended::RemovalSaved("mine".into(), "/p".into(), Ok(()))).as_slice(),
        [Message::ProfileItemsRemoved(name)] if name == "mine"
    ));
    assert_eq!(
        error(Ended::RemovalSaved("mine".into(), "/p".into(), failed())),
        pair("Profile Corrupted", "Failed to write to /p when saving profile: no")
    );
    assert!(tell(Ended::FolderOpened("/p".into(), Ok(()))).is_empty());
    assert_eq!(
        error(Ended::FolderOpened("/p".into(), failed())),
        pair("Error Opening", "Something went wrong opening /p:\nno")
    );
    assert!(tell(Ended::FolderImported("Config".into(), Ok(()))).is_empty());
    assert_eq!(
        error(Ended::FolderImported("Config".into(), failed())),
        pair("Error Importing Config", "no")
    );
}

#[test]
fn snapshots_are_told_of() {
    assert_eq!(
        error(Ended::SnapshotExported("/s.zip".into(), Ok("s.zip".into()))),
        pair("Success", "Snapshot 's.zip' successfully exported to '/s.zip'")
    );
    assert_eq!(
        error(Ended::SnapshotExported("/s.zip".into(), failed())),
        pair("Snapshot Failed", "Failed to load snapshot")
    );
    assert_eq!(
        error(Ended::ArchiveUnreadable("no".into())),
        pair("Invalid Archive", "Could not read picked zip archive.\n\nCaused by:\n    no")
    );
    assert_eq!(
        error(Ended::TimesUnreadable("no".into())),
        pair("Error Reading Archive", "Failed to read from archive.: no")
    );
    let profile = Profile::new("mine".into(), settings());
    assert!(matches!(
        tell(Ended::SnapshotImported(Ok(profile))).as_slice(),
        [Message::ProfileImportSnapshotCompleted(profile)] if profile.name == "mine"
    ));
    assert_eq!(
        error(Ended::SnapshotImported(failed())),
        pair("Error Importing", "Failed to import snapshot\n\nCaused by:\n    no")
    );
    assert_eq!(
        error(Ended::SnapshotMade(Ok(()))),
        pair("Success", "Config was successfully applied.")
    );
    assert_eq!(
        error(Ended::SnapshotMade(failed())),
        pair(
            "Error Generating Snapshot",
            "Failed to create an automatic snapshot.\n\nCaused by:\n    no"
        )
    );
}

#[test]
fn games_are_told_of() {
    assert!(matches!(
        tell(Ended::ProfileLinked(ApplyReason::Asked, Ok(()))).as_slice(),
        [Message::LoadProfileApplied(ApplyReason::Asked)]
    ));
    assert_eq!(
        error(Ended::ProfileLinked(ApplyReason::Asked, failed())),
        pair("Error Applying Config", "no")
    );
    assert!(matches!(
        tell(Ended::GameLaunched(Ok(()))).as_slice(),
        [Message::SetBusy(false)]
    ));
    assert!(matches!(
        tell(Ended::GameLaunched(failed())).as_slice(),
        [Message::SetBusy(false), Message::DisplayError(title, body)]
            if title == "Error Launching" && body == "Error launching game:\nno"
    ));
    assert!(tell(Ended::ItemRemoved(5, Ok(()))).is_empty());
    assert_eq!(
        error(Ended::ItemRemoved(5, failed())),
        pair("Error Deleting Item", "An error occurred while trying to delete 5:\nno")
    );
    assert!(tell(Ended::SettingsSaved(Ok(()))).is_empty());
    assert_eq!(
        error(Ended::SettingsSaved(failed())),
        pair("Error Saving Settings to Disk", "no")
    );
}

#[test]
fn snapshots_are_exported_as_archives() {
    assert_eq!(export_destination("/a/b.zip".into()), "/a/b.zip");
    assert_eq!(export_destination("/a/b".into()), "/a/b.zip");
    assert_eq!(export_destination("/a/b.tar".into()), "/a/b.tar.zip");
    assert_eq!(export_destination("/a/.zip".into()), "/a/.zip.zip");
    assert_eq!(added_extension("/", "zip"), "/");
    assert_eq!(added_extension("/a/", "zip"), "/a.zip");
    assert_eq!(export_name("mine", "2024.01.02"), "mine_2024.01.02.zip");
    assert_eq!(
        export_comment("mine", "noon"),
        "Snapshot of 'mine' automatically generated at noon."
    );
}
