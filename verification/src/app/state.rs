//! What the program knows, what it is told, and what it asks for.
use std::collections::hash_map::RandomState;

use indexmap::IndexSet;
use vstd::prelude::*;

use super::downloads::Downloads;
use super::modal::{
    AppAbortKey, AppModal, AsyncDialogField, AsyncDialogKey, AsyncDialogStrategy, KindOf,
};
use super::settings::{new_dirs, AppSettingEdit, AppSettings};
use crate::browser::Browse;
use crate::collections::{Collection, CollectionsMessage};
use crate::files::{SizeDisplay, WorkshopDetails};
use crate::library::missing::ModIndex;
use crate::library::profile::{Profile, ProfileSettings};
use crate::library::Library;
use crate::table::Table;
use crate::web::{WorkshopQuery, WorkshopSort, WorkshopTrendPeriod};
use crate::xcom_mod::ModId;
#[allow(unused_imports)]
use super::modal::{without_kind, ModalKind};
#[allow(unused_imports)]
use super::settings::dir_rows;

verus! {

/// The pages of the program.
#[derive(Debug, Clone, Copy, PartialEq, Eq, Structural)]
pub enum AppPage {
    Main,
    Library,
    Profiles,
    Browse,
    Collections,
    SteamCMD,
    Settings,
    Downloads,
    GameLogs,
}

impl Default for AppPage {
    fn default() -> (r: Self)
        ensures
            r == AppPage::Main,
    {
        AppPage::Main
    }
}

impl AppPage {
    /// What the page is called.
    pub fn text(self) -> (r: &'static str)
        ensures
            r@ == match self {
                AppPage::Main => "Main"@,
                AppPage::Library => "Library"@,
                AppPage::Profiles => "Profiles"@,
                AppPage::Browse => "Workshop Items"@,
                AppPage::Collections => "Workshop Collections"@,
                AppPage::SteamCMD => "SteamCMD"@,
                AppPage::Settings => "Settings"@,
                AppPage::Downloads => "Downloads"@,
                AppPage::GameLogs => "Game Logs"@,
            },
    {
        match self {
            AppPage::Main => "Main",
            AppPage::Library => "Library",
            AppPage::Profiles => "Profiles",
            AppPage::Browse => "Workshop Items",
            AppPage::Collections => "Workshop Collections",
            AppPage::SteamCMD => "SteamCMD",
            AppPage::Settings => "Settings",
            AppPage::Downloads => "Downloads",
            AppPage::GameLogs => "Game Logs",
        }
    }
}

/// A change of the settings.
#[derive(Debug)]
pub enum SettingsMessage {
    Edit(AppSettingEdit),
    ResetToDefault,
    ResetToSaved,
    Save,
    AddModDirectory,
    AddModDirectoryConfirmed(String),
    RemoveModDirectory(usize),
    /// The entries of a directory of mods that was removed.
    ModDirectoryRemoved(Vec<String>),
    Nothing,
}

impl Default for SettingsMessage {
    fn default() -> (r: Self)
        ensures
            r is Nothing,
    {
        SettingsMessage::Nothing
    }
}

/// What was found of the game's directory.
#[derive(Debug, Clone, Copy, PartialEq, Eq, Structural)]
pub struct PrepareFacts {
    pub game_exists: bool,
    pub subdirectory_exists: bool,
}

/// What the active profile is linked into the game for.
#[derive(Debug, Clone, Copy, PartialEq, Eq, Structural)]
pub enum ApplyReason {
    /// The user asked for it, and is told of it.
    Asked,
    /// Nobody asked for it, and nothing follows.
    Unasked,
    /// The game is to be started afterwards.
    Launch,
}

/// What is linked into the game, and where it comes from and goes to.
#[derive(Debug)]
pub struct LoadRequest {
    pub profile: String,
    pub reason: ApplyReason,
    pub linux_native_mode: bool,
    pub download_directory: String,
    pub game_directory: String,
    pub local_directory: String,
}

/// What happens, as the program is told of it.
pub enum Message {
    Chained(Vec<Message>),

    AsyncChooseResolve(AsyncDialogKey, usize),
    AsyncChooseCancelled(AsyncDialogKey),
    AsyncDialogUpdate(AsyncDialogKey, String, AsyncDialogField),
    AsyncDialogResolved(AsyncDialogKey, bool),
    AbortTask(AppAbortKey),

    /// How many items a search found, those of the page, and the numbers of those that
    /// were kept on disk.
    QueryFilesLoaded(u32, Vec<WorkshopDetails>, Vec<u32>),
    /// Items, and the numbers of those that were kept on disk.
    FilesResolved(Vec<WorkshopDetails>, Vec<u32>),
    ImageLoaded(String),

    ApiKeyRequest,
    ApiKeyRequestUpdate(String),
    ApiKeySubmit,

    SetBrowsePage(u32),
    SetViewingItem(ModId),
    BrowseEditQuery(String),
    BrowseEditTag(String),
    BrowseEditSort(WorkshopSort),
    BrowseEditPeriod(WorkshopTrendPeriod),
    BrowseToggleTagsDropdown(bool),
    BrowseSubmitQuery,
    BrowseUpdateQuery,

    SetSteamCMDUser(String),
    SetSteamCMDPassword(String),
    SetSteamCMDCode(String),
    SteamCMDLogin(bool),
    SteamCMDLoginSuccess,
    SteamCMDLoginElevated,
    SteamCMDLoginElevatedSubmit,
    SteamCMDLoginElevatedCancel,

    DeleteRequested(u32),
    SteamCMDDownloadRequested(u32),
    SteamCMDDownloadCompleted(u32),
    SteamCMDDownloadErrored(u32, String),
    SteamCMDDownloadProgress(u32, u64),
    SteamCMDDownloadCompletedClear(Vec<u32>),
    SteamCMDDownloadErrorClear(Vec<u32>),
    DownloadCancelRequested(u32),
    DownloadAllRequested(u32),
    /// The items that one asks for, itself included, and those that were there when
    /// they were asked for.
    DownloadAllResolved(Vec<u32>, Vec<u32>),
    /// The items, and those of them that are there already.
    DownloadMultipleRequested(Vec<u32>, Vec<u32>),
    DownloadAllConfirmed(Vec<u32>),
    DownloadPushPending(Vec<u32>),

    Collections(CollectionsMessage),
    Settings(SettingsMessage),

    LibraryToggleItem(ModId, bool),
    LibraryToggleAll(bool),
    LibraryUpdateRequest,
    LibraryScanRequest,
    LibraryCheckOutdatedRequest,
    LibraryForceCheckOutdated,
    CheckOutdatedCompleted(Vec<(u32, u64)>),
    LibraryAddToProfileRequest,
    LibraryAddToProfileToggleAll(bool),
    LibraryAddToProfileToggled(String, bool),
    LibraryAddToProfileConfirm(Vec<ModId>),
    LibraryDeleteRequest,
    LibraryDeleteConfirm,
    LibraryFilterUpdateQuery(String),
    LibraryFilterToggleFuzzy(bool),
    ProfileAddPressed,
    ProfileAddEdited(String),
    /// Whether the name was submitted, and why it is no name of a profile if it is
    /// none.
    ProfileAddCompleted(bool, Option<String>),
    /// The directory of a profile was made.
    ProfileCreated(String, ProfileSettings),
    ProfileAddItems(String, Vec<ModId>),
    ProfileDeletePressed(String),
    ProfileDeleteConfirmed(String),
    /// The profile, the mods, and whether the profile's file can be written.
    ProfileRemoveItems(String, Vec<ModId>, bool),
    /// A profile was written after mods were removed from it.
    ProfileItemsRemoved(String),
    ProfileSelected(String),
    /// The mod, and whether the editor holds changes that are not saved.
    ProfileItemSelected(ModId, bool),
    ProfileViewFolderRequested(String, String),
    ProfileImportFolderRequested(String, String),
    ProfileViewDetails(String),
    /// The profile, and whether its directory is there.
    ProfileExportSnapshotRequested(String, bool),
    /// The title of a collection, and its items.
    ProfileImportCollectionRequested(String, Vec<ModId>),
    ProfileImportSnapshotRequested,
    ProfileImportBasicSnapshot(String),
    /// The profile, how many sets of changes there are, and their times as they are
    /// shown.
    ProfileImportIncrementalSnapshot(String, usize, Vec<String>),
    ProfileImportSnapshotCompleted(Profile),
    ActiveProfileSelected(String),
    /// The mods that those of a profile stand for, by their names in the game.
    ProfileProvided(String, Table<String, ()>),
    /// The mods that those of the library stand for, by their names in the game.
    LibraryProvided(Table<String, ()>),

    LoadPrepareProfile(bool, PrepareFacts),
    /// The active profile was linked into the game.
    LoadProfileApplied(ApplyReason),
    LoadPickGameDirectory,
    LoadSetGameDirectory(String),
    LoadPickLocalDirectory,
    LoadSetLocalDirectory(String),
    LoadPickLaunchCommand,
    LoadSetLaunchCommand(String),
    LoadAddLaunchArgs,
    LoadRemoveLaunchArgs(usize),
    LoadEditArgKey(usize, String),
    LoadEditArgValue(usize, String),
    LoadToggleLinuxNative(bool),
    LoadLaunchGame(PrepareFacts),

    /// A line that SteamCMD printed.
    LogAppend(String),
    LaunchLogCreated(String),
    LaunchLogAppended(String),
    LaunchLogClear,

    LoadFindGameRequested,
    LoadFindGameMatched(String),
    LoadFindGameResolved(String),
    LoadFindLocalRequested,
    LoadFindLocalMatched(String),
    LoadFindLocalResolved(String),

    ItemDetailsAddToLibraryRequest(Vec<ModId>),
    ItemDetailsAddToLibraryAllRequest(u32),

    SetPage(AppPage),
    SetBusy(bool),
    SetBusyMessage(String),
    ModifyBusyMessage(String),
    DisplayError(String, String),
    OpenModal(AppModal),
    CloseModal,
    EscapeModal,

    CloseAppRequested,
    Nothing,
}

impl Default for Message {
    fn default() -> (r: Self)
        ensures
            r is Nothing,
    {
        Message::Nothing
    }
}

/// What a choice decides.
#[derive(Debug)]
pub enum Outcome {
    DownloadAll(Vec<u32>),
    DeleteProfile(String),
    GameFind(String),
    LocalFind(String),
}

/// What the fields of a dialog are filled in for.
#[derive(Debug)]
pub enum DialogOutcome {
    /// A profile of these items.
    ImportCollection(Vec<ModId>),
    /// The name of a profile that a snapshot is imported under.
    ImportSnapshot,
    /// The time up to which the changes of a snapshot are applied for a profile.
    SnapshotDate(String),
}

/// What is to be done for the program.
pub enum Action {
    Send(Message),
    /// A choice was made.
    Resolve(u64, usize),
    /// Fields were filled in, or left.
    ResolveDialog(u64, Option<Table<String, AsyncDialogField>>),
    /// A choice is to be waited for.
    AwaitChoice(u64, Outcome),
    /// The fields of a dialog are to be waited for.
    AwaitDialog(u64, DialogOutcome),
    Abort(AppAbortKey),

    /// The key is to be kept and told to the background task.
    StoreApiKey(String),
    /// The key is to be told to the background task, and not to be kept.
    TellApiKey(String),
    /// The background task is to find out about items.
    RequestResolve(Vec<u32>),
    LoadImage(String),
    /// A description is to be turned into markdown.
    CacheMarkup(String),
    /// A page of a search for items is to be loaded: the key, the page, the search, and
    /// how long the page may be kept.
    QueryMods(String, u32, WorkshopQuery, u32),
    /// A page of a search for collections is to be loaded: the key, the page, and the
    /// search.
    QueryCollections(String, u32, WorkshopQuery),
    /// The collection at this place of the page is to be kept.
    KeepCollection(usize),
    ResetScroll,

    StartSession(bool),
    /// The user, and whether they asked for it.
    AttemptCachedLogin(String, bool),
    /// The user, the password, and the code.
    AttemptFullLogin(String, String, String),
    FollowSession,

    /// The item and its directory.
    RemoveItem(u32, String),
    /// The item, and how often the download may be tried again.
    Download(u32, u32),
    ScanDownloads,
    ScanMods(String),
    /// The entries of a directory of mods are to be listed.
    ListMods(String),
    /// What came of a download.
    NotifyItem(u32, String, String),
    /// How far a download is: the item, its title, and how much there is of how
    /// much.
    NotifyProgress(u32, String, SizeDisplay, SizeDisplay),
    /// All downloads are done, and whether a sound is played.
    NotifyAll(bool),
    /// What an item asks for is to be found out, with the key: for a download, with the
    /// items that are there, or for a profile.
    ResolveDependencies(String, u32, Option<Vec<u32>>),
    /// It is to be found out which of the items are outdated, with the key.
    CheckOutdated(String, Vec<u32>),

    CreateProfile(String),
    /// The profile is to be written, which may have got mods of the library.
    SaveProfile(String, bool),
    /// The profile is to be written, and the program told if that went well.
    SaveRemoval(String),
    /// What the mods of a profile stand for is to be found out.
    FindProvided(String),
    /// What the mods of the library stand for is to be found out.
    FindLibraryProvided,
    /// The tags of a mod's page are to be added to the notes in its directory.
    NoteTags(ModId, String),
    LoadEditor(String, ModId),
    OpenFolder(String),
    PickImportFolder(String, String),
    ExportSnapshot(String),
    /// A snapshot is to be picked that is imported under a name.
    PickSnapshot(String),
    LoadBasicSnapshot(String),
    /// The profile, and the time up to which changes are applied.
    LoadIncrementalSnapshot(String, Option<i64>),
    GenerateSnapshot(String),

    /// A profile is to be linked into the game.
    LoadProfile(LoadRequest),
    PickGameDirectory,
    PickLocalDirectory,
    PickLaunchCommand,
    PickModDirectory,
    FindDirectories(AppAbortKey, String),
    /// The command, its arguments, and the profile of which a snapshot is made
    /// before.
    Launch(String, Vec<String>, Option<String>),
    MonitorLog(String),

    /// The Steam session is to use the settings.
    ApplySessionSettings,
    SaveSettings,
    SavePassword(String),
    DeletePassword,
    SaveApiKey(String),
    DeleteApiKey,
    LogOutSession,
    QuitSession,
    SaveState,
    CloseWindow,
}

/// What is kept when the program ends.
pub struct AppSave {
    /// The user of Steam.
    pub username: String,
    pub tracked_profiles: Table<String, ()>,
    pub active_profile: Option<String>,
    pub game_directory: Option<String>,
    pub local_directory: Option<String>,
    pub launch_command: Option<String>,
    pub launch_args: Vec<(String, String)>,
    pub local_mod_dirs: IndexSet<String, RandomState>,
    pub linux_native_mode: bool,
}

impl Default for AppSave {
    fn default() -> (r: Self)
        ensures
            r.username@.len() == 0,
            r.tracked_profiles@ == Map::<Seq<char>, ()>::empty(),
            r.active_profile is None,
            r.game_directory is None,
            r.local_directory is None,
            r.launch_command is None,
            r.launch_args@.len() == 0,
            dir_rows(r.local_mod_dirs).len() == 0,
            !r.linux_native_mode,
    {
        AppSave {
            username: String::new(),
            tracked_profiles: Table::new(),
            active_profile: None,
            game_directory: None,
            local_directory: None,
            launch_command: None,
            launch_args: Vec::new(),
            local_mod_dirs: new_dirs(),
            linux_native_mode: false,
        }
    }
}

/// How the program stands with Steam.
#[derive(Debug)]
pub struct Login {
    pub username: String,
    pub password: String,
    pub code: String,
    /// Whether Steam is thought to know the user without a code.
    pub is_cached: bool,
    /// Whether a session was started, whether it is logged in, and whether it
    /// ended.
    pub session: bool,
    pub logged_in: bool,
    pub killed: bool,
    /// Whether something that goes on uses the login, which then cannot be changed.
    pub shared: bool,
}

/// The collections of the workshop.
pub struct CollectionsState {
    pub loaded_web_collections: Vec<Collection>,
    pub browse: Browse,
}

/// The state of the program.
pub struct App {
    pub api_key: String,
    pub current_page: AppPage,
    pub modal_stack: Vec<AppModal>,
    pub browse: Browse,
    /// The items of the page that was loaded.
    pub loaded_files: Vec<WorkshopDetails>,
    pub login: Login,
    pub settings: AppSettings,
    pub settings_editing: AppSettings,
    /// Where the program's files are.
    pub data_dir: String,
    pub profiles_dir: String,
    /// The name of the file that a profile is kept in.
    pub profile_data_name: String,
    pub save: AppSave,
    /// The images that were loaded.
    pub images: Table<String, ()>,
    pub downloads: Downloads,
    /// The items of the workshop that are there, with their directories.
    pub downloaded: Table<u32, String>,
    /// The mods that do not come from the workshop.
    pub local: Table<ModId, ()>,
    pub library: Library,
    pub profiles: Table<String, Profile>,
    pub index: ModIndex,
    /// What SteamCMD and the game wrote.
    pub steamcmd_log: String,
    pub launch_log: String,
    pub profile_add_name: String,
    pub selected_profile_name: Option<String>,
    pub collections: CollectionsState,
    /// How many items a page of the workshop has.
    pub query_page_size: u32,
    /// Whether there is a background task to find out about items.
    pub resolver: bool,
    /// The ticket of the next dialog that somebody waits for.
    pub next_ticket: u64,
}

/// Whether all that is to be done is to show an error.
pub open spec fn only_error(r: Seq<Action>, title: Seq<char>, body: Seq<char>) -> bool {
    r.len() == 1 && is_error(r[0], title, body)
}

pub open spec fn is_error(action: Action, title: Seq<char>, body: Seq<char>) -> bool {
    action matches Action::Send(Message::DisplayError(t, b)) && t@ == title && b@ == body
}

/// Whether an action says that something goes on.
pub open spec fn is_busy_message(action: Action, text: Seq<char>) -> bool {
    action matches Action::Send(Message::SetBusyMessage(t)) && t@ == text
}

pub(crate) fn nothing() -> (r: Vec<Action>)
    ensures
        r@.len() == 0,
        r@ == Seq::<Action>::empty(),
{
    Vec::new()
}

pub(crate) fn only(action: Action) -> (r: Vec<Action>)
    ensures
        r@ == seq![action],
{
    vec![action]
}

pub(crate) fn error_message(title: &str, body: &str) -> (r: Action)
    ensures
        is_error(r, title@, body@),
{
    Action::Send(Message::DisplayError(title.to_owned(), body.to_owned()))
}

pub(crate) fn show_error(title: &str, body: &str) -> (r: Vec<Action>)
    ensures
        only_error(r@, title@, body@),
{
    vec![error_message(title, body)]
}

pub(crate) fn busy_message(text: &str) -> (r: Action)
    ensures
        is_busy_message(r, text@),
{
    Action::Send(Message::SetBusyMessage(text.to_owned()))
}

/// The stack with another dialog on it. One that replaces others takes the place
/// of those with its key.
pub open spec fn with_modal(stack: Seq<AppModal>, modal: AppModal) -> Seq<AppModal> {
    match modal {
        AppModal::Choose(choose) => if choose.strategy == AsyncDialogStrategy::Replace {
            without_kind(stack, ModalKind::Choose(choose.key@)).push(modal)
        } else {
            stack.push(modal)
        },
        _ => stack.push(modal),
    }
}

/// Puts a dialog on the stack.
pub fn push_modal(stack: &mut Vec<AppModal>, modal: AppModal)
    ensures
        final(stack)@ == with_modal(old(stack)@, modal),
{
    if let AppModal::Choose(choose) = &modal {
        if let AsyncDialogStrategy::Replace = choose.strategy {
            super::modal::drop_kind(stack, &KindOf::Choose(&choose.key));
        }
    }
    stack.push(modal);
}

} // verus!
