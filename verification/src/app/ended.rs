//! What follows once something that the program asked for has ended.
use vstd::prelude::*;

use super::state::{ApplyReason, Message};
use crate::collections::{Collection, CollectionsMessage};
use crate::files::WorkshopDetails;
use crate::library::profile::{Profile, ProfileSettings};
use crate::numbers::decimal;
use crate::paths::{added_extension, has_extension};
use crate::steamcmd::SessionEvent;
use crate::text::join_two;
use crate::xcom_mod::ModId;
#[allow(unused_imports)]
use crate::numbers::decimal_text;
#[allow(unused_imports)]
use crate::paths::{extension_added, extension_is};

verus! {

/// How something that the program asked for ended. An error is told of by a text.
pub enum Ended {
    /// A session of Steam was started for a login that the user asked for, or not.
    SessionStarted(bool, Result<(), String>),
    /// Something happened in the session.
    SessionTold(SessionEvent),
    /// A page of items was searched for, some of which were kept on disk.
    ModsFound(Result<(u32, Vec<WorkshopDetails>, Vec<u32>), String>),
    /// A page of collections was searched for.
    CollectionsFound(Result<(u32, Vec<Collection>), String>),
    /// What an item asks for was looked up: for a download, with the items that were
    /// there, or for a profile.
    DependenciesFound(Option<Vec<u32>>, Result<Vec<u32>, String>),
    OutdatedFound(Result<Vec<(u32, u64)>, String>),
    /// The directory of an item was removed.
    ItemRemoved(u32, Result<(), String>),
    /// The directory of a profile was made.
    ProfileSetUp(String, Result<ProfileSettings, String>),
    /// A profile was written that may have got mods of the library.
    ProfileSaved(String, bool, Result<(), String>),
    /// A profile was written to a path after mods were removed from it.
    RemovalSaved(String, String, Result<(), String>),
    FolderOpened(String, Result<(), String>),
    /// A folder of a profile was replaced.
    FolderImported(String, Result<(), String>),
    /// A snapshot was written to a path, and is called so.
    SnapshotExported(String, Result<String, String>),
    /// The archive that was picked cannot be read.
    ArchiveUnreadable(String),
    /// The times of the changes in an archive cannot be read.
    TimesUnreadable(String),
    SnapshotImported(Result<Profile, String>),
    /// A profile was linked into the game, at the user's wish or not.
    ProfileLinked(ApplyReason, Result<(), String>),
    /// A snapshot was made after a profile was linked into the game.
    SnapshotMade(Result<(), String>),
    GameLaunched(Result<(), String>),
    SettingsSaved(Result<(), String>),
}

/// Whether a message tells of an error.
pub open spec fn tells_error(r: Message, title: Seq<char>, body: Seq<char>) -> bool {
    r matches Message::DisplayError(t, b) && t@ == title && b@ == body
}

pub open spec fn only_tells_error(r: Seq<Message>, title: Seq<char>, body: Seq<char>) -> bool {
    r.len() == 1 && tells_error(r[0], title, body)
}

/// What went wrong, with what it came from.
pub open spec fn with_cause(text: Seq<char>, cause: Seq<char>) -> Seq<char> {
    text + "\n\nCaused by:\n    "@ + cause
}

pub open spec fn are_workshop_ids(r: Seq<ModId>, ids: Seq<u32>) -> bool {
    &&& r.len() == ids.len()
    &&& forall|i: int| 0 <= i < ids.len() ==> #[trigger] r[i] == ModId::Workshop(ids[i])
}

/// What follows from what happened in the session of Steam.
pub open spec fn session_told(event: SessionEvent, r: Seq<Message>) -> bool {
    match event {
        SessionEvent::Line(line) => r == seq![Message::LogAppend(line)],
        SessionEvent::Shutdown => only_tells_error(
            r,
            "SteamCMD Session Closed Unexpectedly"@,
            "The SteamCMD session has stopped for some reason.\nYou will not be able to download mods until you restart."@,
        ),
        SessionEvent::Waiting | SessionEvent::WriteError(_) => r.len() == 0,
    }
}

/// What follows from what Steam answered.
pub open spec fn answer_told(ended: Ended, r: Seq<Message>) -> bool {
    match ended {
        Ended::SessionStarted(manual, Ok(_)) => r == seq![Message::SteamCMDLogin(manual)],
        Ended::SessionStarted(_, Err(text)) => only_tells_error(
            r,
            "Error Logging In"@,
            "Failed to start SteamCMD session: "@ + text@,
        ),
        Ended::SessionTold(event) => session_told(event, r),
        Ended::ModsFound(Ok(found)) => r == seq![
            Message::QueryFilesLoaded(found.0, found.1, found.2),
        ],
        Ended::CollectionsFound(Ok(found)) => r == seq![
            Message::Collections(CollectionsMessage::QueryCollectionsLoaded(found.0, found.1)),
        ],
        Ended::ModsFound(Err(text)) | Ended::CollectionsFound(Err(text)) => only_tells_error(
            r,
            "Page Load Failed"@,
            text@,
        ),
        Ended::DependenciesFound(Some(there), Ok(ids)) => r == seq![
            Message::DownloadAllResolved(ids, there),
        ],
        Ended::DependenciesFound(Some(_), Err(text)) => only_tells_error(
            r,
            "Error Resolving Dependencies"@,
            "An error occured while trying to resolve dependencies. Original error:\n"@ + text@,
        ),
        Ended::DependenciesFound(None, Ok(ids)) => {
            &&& r.len() == 1
            &&& r[0] matches Message::ItemDetailsAddToLibraryRequest(mods) && are_workshop_ids(
                mods@,
                ids@,
            )
        },
        Ended::DependenciesFound(None, Err(text)) => only_tells_error(
            r,
            "Error Resolving Dependencies"@,
            "An error occurred while resolving dependencies:\n"@ + text@,
        ),
        Ended::OutdatedFound(Ok(found)) => r == seq![Message::CheckOutdatedCompleted(found)],
        Ended::OutdatedFound(Err(text)) => only_tells_error(r, "Error Checking Updates"@, text@),
        _ => true,
    }
}

/// What follows from what was done with profiles.
pub open spec fn profile_told(ended: Ended, r: Seq<Message>) -> bool {
    match ended {
        Ended::ProfileSetUp(name, Ok(settings)) => r == seq![
            Message::ProfileCreated(name, settings),
        ],
        Ended::ProfileSetUp(_, Err(text)) => only_tells_error(
            r,
            "Error Setting Up Profile"@,
            "Error attempting to set up new profile: "@ + text@,
        ),
        Ended::ProfileSaved(_, _, Ok(_)) => r.len() == 0,
        Ended::ProfileSaved(name, true, Err(text)) => only_tells_error(
            r,
            "Error Updating Profile"@,
            with_cause(
                "Failed to write to profile '"@ + name@
                    + "', added mods will not be present when LXCOMM next launches."@,
                text@,
            ),
        ),
        Ended::ProfileSaved(_, false, Err(text)) => only_tells_error(
            r,
            "Error Updating Profile"@,
            "Failed to write changes to disk: "@ + text@,
        ),
        Ended::RemovalSaved(name, _, Ok(_)) => r == seq![Message::ProfileItemsRemoved(name)],
        Ended::RemovalSaved(_, path, Err(text)) => only_tells_error(
            r,
            "Profile Corrupted"@,
            "Failed to write to "@ + path@ + " when saving profile: "@ + text@,
        ),
        Ended::FolderOpened(_, Ok(_)) | Ended::FolderImported(_, Ok(_)) => r.len() == 0,
        Ended::FolderOpened(path, Err(text)) => only_tells_error(
            r,
            "Error Opening"@,
            "Something went wrong opening "@ + path@ + ":\n"@ + text@,
        ),
        Ended::FolderImported(name, Err(text)) => only_tells_error(
            r,
            "Error Importing "@ + name@,
            text@,
        ),
        Ended::SnapshotExported(path, Ok(name)) => only_tells_error(
            r,
            "Success"@,
            "Snapshot '"@ + name@ + "' successfully exported to '"@ + path@ + "'"@,
        ),
        Ended::SnapshotExported(_, Err(_)) => only_tells_error(
            r,
            "Snapshot Failed"@,
            "Failed to load snapshot"@,
        ),
        Ended::ArchiveUnreadable(text) => only_tells_error(
            r,
            "Invalid Archive"@,
            with_cause("Could not read picked zip archive."@, text@),
        ),
        Ended::TimesUnreadable(text) => only_tells_error(
            r,
            "Error Reading Archive"@,
            "Failed to read from archive.: "@ + text@,
        ),
        Ended::SnapshotImported(Ok(profile)) => r == seq![
            Message::ProfileImportSnapshotCompleted(profile),
        ],
        Ended::SnapshotImported(Err(text)) => only_tells_error(
            r,
            "Error Importing"@,
            with_cause("Failed to import snapshot"@, text@),
        ),
        _ => true,
    }
}

/// What follows once something that the program asked for has ended.
pub open spec fn told(ended: Ended, r: Seq<Message>) -> bool {
    &&& answer_told(ended, r)
    &&& profile_told(ended, r)
    &&& match ended {
        Ended::ItemRemoved(_, Ok(_)) | Ended::SettingsSaved(Ok(_)) => r.len() == 0,
        Ended::ItemRemoved(id, Err(text)) => only_tells_error(
            r,
            "Error Deleting Item"@,
            "An error occurred while trying to delete "@ + decimal_text(id as nat) + ":\n"@
                + text@,
        ),
        Ended::ProfileLinked(reason, Ok(_)) => r == seq![Message::LoadProfileApplied(reason)],
        Ended::ProfileLinked(_, Err(text)) => only_tells_error(
            r,
            "Error Applying Config"@,
            text@,
        ),
        Ended::SnapshotMade(Ok(_)) => only_tells_error(
            r,
            "Success"@,
            "Config was successfully applied."@,
        ),
        Ended::SnapshotMade(Err(text)) => only_tells_error(
            r,
            "Error Generating Snapshot"@,
            with_cause("Failed to create an automatic snapshot."@, text@),
        ),
        Ended::GameLaunched(Ok(_)) => r == seq![Message::SetBusy(false)],
        Ended::GameLaunched(Err(text)) => {
            &&& r.len() == 2
            &&& r[0] == Message::SetBusy(false)
            &&& tells_error(r[1], "Error Launching"@, "Error launching game:\n"@ + text@)
        },
        Ended::SettingsSaved(Err(text)) => only_tells_error(
            r,
            "Error Saving Settings to Disk"@,
            text@,
        ),
        _ => true,
    }
}

fn error(title: &str, body: &str) -> (r: Vec<Message>)
    ensures
        only_tells_error(r@, title@, body@),
{
    vec![Message::DisplayError(title.to_owned(), body.to_owned())]
}

fn one(message: Message) -> (r: Vec<Message>)
    ensures
        r@ == seq![message],
{
    vec![message]
}

fn caused(text: &str, cause: &str) -> (r: String)
    ensures
        r@ == with_cause(text@, cause@),
{
    let start = join_two(text, "\n\nCaused by:\n    ");
    join_two(start.as_str(), cause)
}

/// `a`, `b`, `c` and `d` one after the other.
fn join_four(a: &str, b: &str, c: &str, d: &str) -> (r: String)
    ensures
        r@ == a@ + b@ + c@ + d@,
{
    let start = join_two(a, b);
    let more = join_two(start.as_str(), c);
    join_two(more.as_str(), d)
}

fn workshop_ids(ids: &Vec<u32>) -> (r: Vec<ModId>)
    ensures
        are_workshop_ids(r@, ids@),
{
    let mut out: Vec<ModId> = Vec::new();
    let mut i: usize = 0;
    while i < ids.len()
        invariant
            0 <= i <= ids@.len(),
            out@.len() == i,
            forall|j: int| 0 <= j < i ==> #[trigger] out@[j] == ModId::Workshop(ids@[j]),
        decreases ids@.len() - i,
    {
        out.push(ModId::Workshop(ids[i]));
        i += 1;
    }
    out
}

fn tell_session(event: SessionEvent) -> (r: Vec<Message>)
    ensures
        session_told(event, r@),
{
    match event {
        SessionEvent::Line(line) => one(Message::LogAppend(line)),
        SessionEvent::Shutdown => error(
            "SteamCMD Session Closed Unexpectedly",
            "The SteamCMD session has stopped for some reason.\nYou will not be able to download mods until you restart.",
        ),
        SessionEvent::Waiting | SessionEvent::WriteError(_) => Vec::new(),
    }
}

fn tell_dependencies(there: Option<Vec<u32>>, result: Result<Vec<u32>, String>) -> (r: Vec<
    Message,
>)
    ensures
        answer_told(Ended::DependenciesFound(there, result), r@),
{
    match (there, result) {
        (Some(there), Ok(ids)) => one(Message::DownloadAllResolved(ids, there)),
        (Some(_), Err(text)) => {
            let body = join_two(
                "An error occured while trying to resolve dependencies. Original error:\n",
                text.as_str(),
            );
            error("Error Resolving Dependencies", body.as_str())
        },
        (None, Ok(ids)) => one(Message::ItemDetailsAddToLibraryRequest(workshop_ids(&ids))),
        (None, Err(text)) => {
            let body = join_two(
                "An error occurred while resolving dependencies:\n",
                text.as_str(),
            );
            error("Error Resolving Dependencies", body.as_str())
        },
    }
}

fn tell_saved(name: String, added: bool, result: Result<(), String>) -> (r: Vec<Message>)
    ensures
        profile_told(Ended::ProfileSaved(name, added, result), r@),
{
    match result {
        Ok(_) => Vec::new(),
        Err(text) => if added {
            let start = join_two("Failed to write to profile '", name.as_str());
            let body = join_two(
                start.as_str(),
                "', added mods will not be present when LXCOMM next launches.",
            );
            let all = caused(body.as_str(), text.as_str());
            error("Error Updating Profile", all.as_str())
        } else {
            let body = join_two("Failed to write changes to disk: ", text.as_str());
            error("Error Updating Profile", body.as_str())
        },
    }
}

fn tell_exported(path: String, result: Result<String, String>) -> (r: Vec<Message>)
    ensures
        profile_told(Ended::SnapshotExported(path, result), r@),
{
    match result {
        Ok(name) => {
            let start = join_four(
                "Snapshot '",
                name.as_str(),
                "' successfully exported to '",
                path.as_str(),
            );
            let body = join_two(start.as_str(), "'");
            error("Success", body.as_str())
        },
        Err(_) => error("Snapshot Failed", "Failed to load snapshot"),
    }
}

fn tell_profile(ended: Ended) -> (r: Vec<Message>)
    ensures
        profile_told(ended, r@),
{
    match ended {
        Ended::ProfileSetUp(name, Ok(settings)) => one(Message::ProfileCreated(name, settings)),
        Ended::ProfileSetUp(_, Err(text)) => {
            let body = join_two("Error attempting to set up new profile: ", text.as_str());
            error("Error Setting Up Profile", body.as_str())
        },
        Ended::ProfileSaved(name, added, result) => tell_saved(name, added, result),
        Ended::RemovalSaved(name, _, Ok(_)) => one(Message::ProfileItemsRemoved(name)),
        Ended::RemovalSaved(_, path, Err(text)) => {
            let body = join_four(
                "Failed to write to ",
                path.as_str(),
                " when saving profile: ",
                text.as_str(),
            );
            error("Profile Corrupted", body.as_str())
        },
        Ended::FolderOpened(path, Err(text)) => {
            let body = join_four(
                "Something went wrong opening ",
                path.as_str(),
                ":\n",
                text.as_str(),
            );
            error("Error Opening", body.as_str())
        },
        Ended::FolderImported(name, Err(text)) => {
            let title = join_two("Error Importing ", name.as_str());
            error(title.as_str(), text.as_str())
        },
        Ended::SnapshotExported(path, result) => tell_exported(path, result),
        Ended::ArchiveUnreadable(text) => {
            let body = caused("Could not read picked zip archive.", text.as_str());
            error("Invalid Archive", body.as_str())
        },
        Ended::TimesUnreadable(text) => {
            let body = join_two("Failed to read from archive.: ", text.as_str());
            error("Error Reading Archive", body.as_str())
        },
        Ended::SnapshotImported(Ok(profile)) => one(Message::ProfileImportSnapshotCompleted(profile)),
        Ended::SnapshotImported(Err(text)) => {
            let body = caused("Failed to import snapshot", text.as_str());
            error("Error Importing", body.as_str())
        },
        _ => Vec::new(),
    }
}

/// What follows once something that the program asked for has ended.
pub fn tell(ended: Ended) -> (r: Vec<Message>)
    ensures
        told(ended, r@),
{
    match ended {
        Ended::SessionStarted(manual, Ok(_)) => one(Message::SteamCMDLogin(manual)),
        Ended::SessionStarted(_, Err(text)) => {
            let body = join_two("Failed to start SteamCMD session: ", text.as_str());
            error("Error Logging In", body.as_str())
        },
        Ended::SessionTold(event) => tell_session(event),
        Ended::ModsFound(Ok(found)) => one(
            Message::QueryFilesLoaded(found.0, found.1, found.2),
        ),
        Ended::CollectionsFound(Ok(found)) => one(
            Message::Collections(CollectionsMessage::QueryCollectionsLoaded(found.0, found.1)),
        ),
        Ended::ModsFound(Err(text)) => error("Page Load Failed", text.as_str()),
        Ended::CollectionsFound(Err(text)) => error("Page Load Failed", text.as_str()),
        Ended::DependenciesFound(there, result) => tell_dependencies(there, result),
        Ended::OutdatedFound(Ok(found)) => one(Message::CheckOutdatedCompleted(found)),
        Ended::OutdatedFound(Err(text)) => error("Error Checking Updates", text.as_str()),
        Ended::ItemRemoved(_, Ok(_)) => Vec::new(),
        Ended::ItemRemoved(id, Err(text)) => {
            let number = decimal(id as u64);
            let body = join_four(
                "An error occurred while trying to delete ",
                number.as_str(),
                ":\n",
                text.as_str(),
            );
            error("Error Deleting Item", body.as_str())
        },
        Ended::ProfileLinked(reason, Ok(_)) => one(Message::LoadProfileApplied(reason)),
        Ended::ProfileLinked(_, Err(text)) => error("Error Applying Config", text.as_str()),
        Ended::SnapshotMade(Ok(_)) => error("Success", "Config was successfully applied."),
        Ended::SnapshotMade(Err(text)) => {
            let body = caused("Failed to create an automatic snapshot.", text.as_str());
            error("Error Generating Snapshot", body.as_str())
        },
        Ended::GameLaunched(Ok(_)) => one(Message::SetBusy(false)),
        Ended::GameLaunched(Err(text)) => {
            let body = join_two("Error launching game:\n", text.as_str());
            vec![
                Message::SetBusy(false),
                Message::DisplayError("Error Launching".to_owned(), body),
            ]
        },
        Ended::SettingsSaved(Ok(_)) => Vec::new(),
        Ended::SettingsSaved(Err(text)) => error("Error Saving Settings to Disk", text.as_str()),
        other => tell_profile(other),
    }
}

/// Where a snapshot is written that the user wants at a path.
pub fn export_destination(path: String) -> (r: String)
    ensures
        r@ == if extension_is(path@, "zip"@) {
            path@
        } else {
            extension_added(path@, "zip"@)
        },
{
    if has_extension(path.as_str(), "zip") {
        path
    } else {
        added_extension(path.as_str(), "zip")
    }
}

/// What a snapshot of a profile is called unless the user wants it otherwise. The
/// date is written as numbers.
pub fn export_name(name: &str, date: &str) -> (r: String)
    ensures
        r@ == name@ + "_"@ + date@ + ".zip"@,
{
    join_four(name, "_", date, ".zip")
}

/// What is noted in a snapshot that the user wants of a profile.
pub fn export_comment(name: &str, now: &str) -> (r: String)
    ensures
        r@ == "Snapshot of '"@ + name@ + "' automatically generated at "@ + now@ + "."@,
{
    let start = join_four("Snapshot of '", name, "' automatically generated at ", now);
    join_two(start.as_str(), ".")
}

} // verus!
