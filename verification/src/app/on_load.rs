//! What happens when a profile is applied and the game is started.
use vstd::prelude::*;

use super::modal::{AppAbortKey, AppModal, AsyncDialogKey, AsyncDialogStrategy};
use super::on_download::question;
use super::state::{
    busy_message, nothing, only, push_modal, show_error, Action, App, AppSave, ApplyReason,
    LoadRequest, Message, Outcome, PrepareFacts,
};
use crate::library::profile::Profile;
use crate::paths::{join, parent_or_self};
use crate::text::join_two;
#[allow(unused_imports)]
use super::modal::KeyModel;
#[allow(unused_imports)]
use super::on_download::{is_question, next_of};
#[allow(unused_imports)]
use super::state::{is_busy_message, only_error, with_modal};
#[allow(unused_imports)]
use crate::files::is_searchable;
#[allow(unused_imports)]
use crate::paths::{joined, lemma_names_something, parent_of};

verus! {

/// The directory of the game's files below its own.
pub open spec fn game_subdirectory(native: bool) -> Seq<char> {
    if native {
        "xcomgame"@
    } else {
        "XComGame"@
    }
}

/// Why a profile cannot be linked into the game.
pub open spec fn prepare_error(a: App, facts: PrepareFacts) -> Option<(Seq<char>, Seq<char>)> {
    match (a.save.game_directory, a.save.local_directory) {
        (None, _) => Some(("No Game Directory"@, "Game directory must be set."@)),
        (_, None) => Some(("No Local Directory"@, "Local directory must be set."@)),
        (Some(game), Some(_)) => if !facts.game_exists {
            Some(("Directory Not Found"@, "Could not find game directory at "@ + game@))
        } else if !facts.subdirectory_exists {
            Some(
                (
                    "Invalid Game Directory"@,
                    "Unable to find the '"@ + game_subdirectory(a.save.linux_native_mode)
                        + "' subdirectory in "@ + game@,
                ),
            )
        } else {
            None
        },
    }
}

/// The profile that is played with, if it is there.
pub open spec fn active_profile(a: App) -> Option<Profile> {
    match a.save.active_profile {
        Some(name) => if a.profiles@.dom().contains(name@) {
            Some(a.profiles@[name@])
        } else {
            None
        },
        None => None,
    }
}

/// What a profile is linked for where the user asked for it, or did not.
pub open spec fn reason_of(manual: bool) -> ApplyReason {
    if manual {
        ApplyReason::Asked
    } else {
        ApplyReason::Unasked
    }
}

/// Whether the active profile is to be linked from where the mods are into the game.
pub open spec fn asks_to_load(a: App, reason: ApplyReason, request: LoadRequest) -> bool {
    &&& Some(request.profile) == a.save.active_profile
    &&& request.reason == reason
    &&& request.linux_native_mode == a.save.linux_native_mode
    &&& request.download_directory == a.settings.download_directory
    &&& Some(request.game_directory) == a.save.game_directory
    &&& Some(request.local_directory) == a.save.local_directory
}

/// What linking the active profile into the game calls for.
pub open spec fn prepared(a: App, reason: ApplyReason, facts: PrepareFacts, r: Seq<Action>) -> bool {
    match prepare_error(a, facts) {
        Some(error) => only_error(r, error.0, error.1),
        None => if active_profile(a) is Some {
            r.len() == 1 && (r[0] matches Action::LoadProfile(request) && asks_to_load(
                a,
                reason,
                request,
            ))
        } else {
            r.len() == 0
        },
    }
}

/// The arguments that the game is started with: each value, with its key before
/// it where it has one.
pub open spec fn arguments(args: Seq<(String, String)>) -> Seq<String>
    decreases args.len(),
{
    if args.len() == 0 {
        Seq::empty()
    } else {
        let front = arguments(args.drop_last());
        let (key, value) = args.last();
        if key@.len() == 0 {
            front.push(value)
        } else {
            front.push(key).push(value)
        }
    }
}

/// The profile of which a snapshot is made before the game is started.
pub open spec fn snapshot_before_launch(a: App) -> Option<String> {
    if active_profile(a) is Some && active_profile(
        a,
    )->Some_0.settings.automatic_snapshot_on_launch {
        a.save.active_profile
    } else {
        None
    }
}

/// What watching the game's log calls for: what watched it before is stopped.
pub open spec fn monitor_actions(a: App, r: Seq<Action>) -> bool {
    match a.save.local_directory {
        Some(local) => {
            &&& r.len() == 2
            &&& r[0] == Action::Abort(AppAbortKey::GameLogMonitor)
            &&& r[1] matches Action::MonitorLog(path) && path@ == joined(
                local@,
                "Logs/Launch.log"@,
            )
        },
        None => r == seq![Action::Abort(AppAbortKey::GameLogMonitor)],
    }
}

pub open spec fn launched(a: App, b: App, r: Seq<Action>) -> bool {
    match a.save.launch_command {
        None => a == b && only_error(r, "Missing Command"@, "No command has been set."@),
        Some(command) => {
            &&& b == (App { modal_stack: b.modal_stack, ..a })
            &&& b.modal_stack@.len() == a.modal_stack@.len() + 1
            &&& b.modal_stack@.drop_last() == a.modal_stack@
            &&& if snapshot_before_launch(a) is Some {
                b.modal_stack@.last() matches AppModal::BusyMessage(text) && text@
                    == "Generating Automatic Snapshot..."@
            } else {
                b.modal_stack@.last() is Busy
            }
            &&& r.len() > 0
            &&& r[0] matches Action::Launch(c, args, snapshot) && c == command && args@
                == arguments(a.save.launch_args@) && snapshot == snapshot_before_launch(a)
            &&& monitor_actions(a, r.skip(1))
        },
    }
}

pub open spec fn launch_requested(a: App, b: App, facts: PrepareFacts, r: Seq<Action>) -> bool {
    if a.save.launch_command is None || !a.settings.reload_profile_on_launch || (prepare_error(
        a,
        facts,
    ) is None && active_profile(a) is None) {
        launched(a, b, r)
    } else {
        a == b && prepared(a, ApplyReason::Launch, facts, r)
    }
}

/// What follows once the active profile was linked into the game: the user is
/// told where they asked for it, and the game is started where that is what it was
/// linked for.
pub open spec fn applied(a: App, b: App, reason: ApplyReason, r: Seq<Action>) -> bool {
    if reason == ApplyReason::Launch {
        launched(a, b, r)
    } else if reason == ApplyReason::Unasked || active_profile(a) is None {
        a == b && r.len() == 0
    } else if active_profile(a)->Some_0.settings.automatic_snapshot_on_apply {
        &&& a == b
        &&& r.len() == 3
        &&& is_busy_message(r[0], "Generating Automatic Snapshot..."@)
        &&& r[1] == Action::GenerateSnapshot(a.save.active_profile->Some_0)
        &&& r[2] == Action::Send(Message::SetBusy(false))
    } else {
        a == b && only_error(r, "Success"@, "Config was successfully applied."@)
    }
}

pub open spec fn command_set(a: App, b: App, command: String) -> bool {
    b == (App {
        save: AppSave {
            launch_command: if command@.len() == 0 {
                None
            } else {
                Some(command)
            },
            ..a.save
        },
        ..a
    })
}

/// Whether nothing but the arguments changed.
pub open spec fn only_args(a: App, b: App) -> bool {
    b == (App { save: AppSave { launch_args: b.save.launch_args, ..a.save }, ..a })
}

pub open spec fn arg_added(a: App, b: App) -> bool {
    &&& only_args(a, b)
    &&& b.save.launch_args@.len() == a.save.launch_args@.len() + 1
    &&& b.save.launch_args@.drop_last() == a.save.launch_args@
    &&& b.save.launch_args@.last().0@.len() == 0
    &&& b.save.launch_args@.last().1@.len() == 0
}

pub open spec fn arg_key_set(a: App, b: App, i: usize, key: String) -> bool {
    &&& only_args(a, b)
    &&& b.save.launch_args@ == if i < a.save.launch_args@.len() {
        a.save.launch_args@.update(i as int, (key, a.save.launch_args@[i as int].1))
    } else {
        a.save.launch_args@
    }
}

pub open spec fn arg_value_set(a: App, b: App, i: usize, value: String) -> bool {
    &&& only_args(a, b)
    &&& b.save.launch_args@ == if i < a.save.launch_args@.len() {
        a.save.launch_args@.update(i as int, (a.save.launch_args@[i as int].0, value))
    } else {
        a.save.launch_args@
    }
}

pub open spec fn picking(r: Seq<Action>, pick: Action) -> bool {
    r == seq![Action::Send(Message::SetBusy(true)), pick, Action::Send(Message::SetBusy(false))]
}

/// Where the game is searched for.
pub open spec fn game_search(native: bool) -> Seq<char> {
    if native {
        "XCOM 2/share/data/binaries"@
    } else {
        "XCOM 2/XCom2-WarOfTheChosen/Binaries"@
    }
}

/// Where the game's files of the user are searched for.
pub open spec fn local_search(native: bool) -> Seq<char> {
    if native {
        "feral-interactive/XCOM 2 WotC/VFS/Local/my games/XCOM2 War of the Chosen/XComGame"@
    } else {
        "Documents/My Games/XCOM2 War of the Chosen/XComGame"@
    }
}

pub open spec fn search_begun(key: AppAbortKey, search: Seq<char>, r: Seq<Action>) -> bool {
    &&& r.len() == 2
    &&& r[0] == Action::Send(Message::SetBusy(true))
    &&& r[1] matches Action::FindDirectories(k, s) && k == key && s@ == search
}

/// What the user is asked of a path that was found.
pub open spec fn path_question(path: Seq<char>) -> Seq<char> {
    "Program found the following path:\n\n"@ + path + "\n\nIs this the correct one?"@
}

pub open spec fn path_asked(a: App, b: App, title: Seq<char>, path: Seq<char>) -> bool {
    &&& b == (App { modal_stack: b.modal_stack, next_ticket: next_of(a.next_ticket), ..a })
    &&& exists|modal: AppModal| #[trigger]
        is_question(
            modal,
            KeyModel::GameFind,
            title,
            path_question(path),
            AsyncDialogStrategy::Queue,
            a.next_ticket,
        ) && b.modal_stack@ == with_modal(a.modal_stack@, modal)
}

/// The directory that a path lies in, or the path itself where there is none.
pub open spec fn above(path: Seq<char>) -> Seq<char> {
    match parent_of(path) {
        Some(parent) => parent,
        None => path,
    }
}

pub open spec fn game_matched(a: App, b: App, path: Seq<char>, r: Seq<Action>) -> bool {
    &&& path_asked(a, b, "Found Game Path"@, above(path))
    &&& r.len() == 1
    &&& r[0] matches Action::AwaitChoice(ticket, Outcome::GameFind(p)) && ticket == a.next_ticket
        && p@ == above(path)
}

pub open spec fn local_matched(a: App, b: App, path: Seq<char>, r: Seq<Action>) -> bool {
    &&& path_asked(a, b, "Found Local Path"@, path)
    &&& r.len() == 1
    &&& r[0] matches Action::AwaitChoice(ticket, Outcome::LocalFind(p)) && ticket == a.next_ticket
        && p@ == path
}

pub open spec fn game_resolved(a: App, b: App, path: String, r: Seq<Action>) -> bool {
    &&& b == (App { save: AppSave { game_directory: Some(path), ..a.save }, ..a })
    &&& r == seq![Action::Abort(AppAbortKey::GameFind), Action::Send(Message::SetBusy(false))]
}

pub open spec fn local_resolved(a: App, b: App, path: String, r: Seq<Action>) -> bool {
    &&& b == (App { save: AppSave { local_directory: Some(path), ..a.save }, ..a })
    &&& r == seq![Action::Abort(AppAbortKey::LocalFind), Action::Send(Message::SetBusy(false))]
}

pub open spec fn profile_dependencies_asked(a: App, id: u32, r: Seq<Action>) -> bool {
    &&& r.len() == 3
    &&& is_busy_message(r[0], "Resolving dependencies..."@)
    &&& r[1] matches Action::ResolveDependencies(key, i, None) && key@ == a.api_key@ && i == id
    &&& r[2] == Action::Send(Message::SetBusy(false))
}

/// The arguments that the game is started with.
pub fn launch_arguments(args: &Vec<(String, String)>) -> (r: Vec<String>)
    ensures
        r@ == arguments(args@),
{
    let mut out: Vec<String> = Vec::new();
    let mut i: usize = 0;
    while i < args.len()
        invariant
            0 <= i <= args@.len(),
            out@ == arguments(args@.take(i as int)),
        decreases args@.len() - i,
    {
        proof {
            assert(args@.take(i + 1).drop_last() =~= args@.take(i as int));
            assert(args@.take(i + 1).last() == args@[i as int]);
        }
        if !args[i].0.as_str().is_empty() {
            out.push(args[i].0.clone());
        }
        out.push(args[i].1.clone());
        i += 1;
    }
    assert(args@.take(i as int) =~= args@);
    out
}

fn path_body(path: &str) -> (r: String)
    ensures
        r@ == path_question(path@),
{
    let a = join_two("Program found the following path:\n\n", path);
    join_two(a.as_str(), "\n\nIs this the correct one?")
}

impl App {
    fn find_prepare_error(&self, facts: PrepareFacts) -> (r: Option<(String, String)>)
        ensures
            match r {
                Some(error) => prepare_error(*self, facts) == Some((error.0@, error.1@)),
                None => prepare_error(*self, facts) is None,
            },
    {
        let game: &String = match &self.save.game_directory {
            None => {
                return Some(
                    ("No Game Directory".to_owned(), "Game directory must be set.".to_owned()),
                );
            },
            Some(game) => game,
        };
        if self.save.local_directory.is_none() {
            return Some(
                ("No Local Directory".to_owned(), "Local directory must be set.".to_owned()),
            );
        }
        if !facts.game_exists {
            let body = join_two("Could not find game directory at ", game.as_str());
            return Some(("Directory Not Found".to_owned(), body));
        }
        if !facts.subdirectory_exists {
            let name = if self.save.linux_native_mode {
                "xcomgame"
            } else {
                "XComGame"
            };
            let a = join_two("Unable to find the '", name);
            let b = join_two(a.as_str(), "' subdirectory in ");
            let body = join_two(b.as_str(), game.as_str());
            return Some(("Invalid Game Directory".to_owned(), body));
        }
        None
    }

    fn find_active(&self) -> (r: Option<(&String, &Profile)>)
        ensures
            match r {
                Some(found) => self.save.active_profile == Some(*found.0) && active_profile(*self)
                    == Some(*found.1),
                None => active_profile(*self) is None,
            },
    {
        match &self.save.active_profile {
            Some(name) => match self.profiles.get(name) {
                Some(profile) => Some((name, profile)),
                None => None,
            },
            None => None,
        }
    }

    /// The active profile is to be linked into the game.
    pub fn load_prepare_profile(&self, manual: bool, facts: PrepareFacts) -> (r: Vec<Action>)
        ensures
            prepared(*self, reason_of(manual), facts, r@),
    {
        self.prepare_profile(
            if manual {
                ApplyReason::Asked
            } else {
                ApplyReason::Unasked
            },
            facts,
        )
    }

    fn prepare_profile(&self, reason: ApplyReason, facts: PrepareFacts) -> (r: Vec<Action>)
        ensures
            prepared(*self, reason, facts, r@),
    {
        if let Some(error) = self.find_prepare_error(facts) {
            return show_error(error.0.as_str(), error.1.as_str());
        }
        let (game_directory, local_directory) = match (
            &self.save.game_directory,
            &self.save.local_directory,
        ) {
            (Some(game), Some(local)) => (game.clone(), local.clone()),
            _ => return nothing(),
        };
        match self.find_active() {
            Some(found) => only(
                Action::LoadProfile(
                    LoadRequest {
                        profile: found.0.clone(),
                        reason,
                        linux_native_mode: self.save.linux_native_mode,
                        download_directory: self.settings.download_directory.clone(),
                        game_directory,
                        local_directory,
                    },
                ),
            ),
            None => nothing(),
        }
    }

    /// What watching the game's log calls for.
    pub fn setup_launch_log_monitor(&self) -> (r: Vec<Action>)
        ensures
            monitor_actions(*self, r@),
    {
        let mut out = only(Action::Abort(AppAbortKey::GameLogMonitor));
        if let Some(local) = &self.save.local_directory {
            out.push(Action::MonitorLog(join(local.as_str(), "Logs/Launch.log")));
        }
        out
    }

    /// The game is started.
    pub fn launch(&mut self) -> (r: Vec<Action>)
        ensures
            launched(*old(self), *final(self), r@),
    {
        let command: String = match &self.save.launch_command {
            None => return show_error("Missing Command", "No command has been set."),
            Some(command) => command.clone(),
        };
        let args = launch_arguments(&self.save.launch_args);
        let snapshot: Option<String> = match self.find_active() {
            Some(found) => if found.1.settings.automatic_snapshot_on_launch {
                Some(found.0.clone())
            } else {
                None
            },
            None => None,
        };
        let mut watch = self.setup_launch_log_monitor();
        let ghost start = self.modal_stack@;
        let ghost watched = watch@;
        if snapshot.is_some() {
            self.modal_stack.push(
                AppModal::BusyMessage("Generating Automatic Snapshot...".to_owned()),
            );
        } else {
            self.modal_stack.push(AppModal::Busy);
        }
        assert(self.modal_stack@.drop_last() =~= start);
        let mut out = only(Action::Launch(command, args, snapshot));
        out.append(&mut watch);
        assert(out@.skip(1) =~= watched);
        out
    }

    /// The game is to be started, with the active profile where the settings say
    /// so.
    pub fn load_launch_game(&mut self, facts: PrepareFacts) -> (r: Vec<Action>)
        ensures
            launch_requested(*old(self), *final(self), facts, r@),
    {
        if self.save.launch_command.is_some() && self.settings.reload_profile_on_launch {
            let out = self.prepare_profile(ApplyReason::Launch, facts);
            if out.len() > 0 {
                return out;
            }
        }
        self.launch()
    }

    /// The active profile was linked into the game.
    pub fn load_profile_applied(&mut self, reason: ApplyReason) -> (r: Vec<Action>)
        ensures
            applied(*old(self), *final(self), reason, r@),
    {
        match reason {
            ApplyReason::Launch => return self.launch(),
            ApplyReason::Unasked => return nothing(),
            ApplyReason::Asked => {},
        }
        match self.find_active() {
            None => nothing(),
            Some(found) => if found.1.settings.automatic_snapshot_on_apply {
                vec![
                    busy_message("Generating Automatic Snapshot..."),
                    Action::GenerateSnapshot(found.0.clone()),
                    Action::Send(Message::SetBusy(false)),
                ]
            } else {
                show_error("Success", "Config was successfully applied.")
            },
        }
    }

    fn pick(&self, pick: Action) -> (r: Vec<Action>)
        ensures
            picking(r@, pick),
    {
        vec![Action::Send(Message::SetBusy(true)), pick, Action::Send(Message::SetBusy(false))]
    }

    pub fn load_pick_game_directory(&self) -> (r: Vec<Action>)
        ensures
            picking(r@, Action::PickGameDirectory),
    {
        self.pick(Action::PickGameDirectory)
    }

    pub fn load_pick_local_directory(&self) -> (r: Vec<Action>)
        ensures
            picking(r@, Action::PickLocalDirectory),
    {
        self.pick(Action::PickLocalDirectory)
    }

    pub fn load_pick_launch_command(&self) -> (r: Vec<Action>)
        ensures
            picking(r@, Action::PickLaunchCommand),
    {
        self.pick(Action::PickLaunchCommand)
    }

    /// The command that starts the game was entered.
    pub fn load_set_launch_command(&mut self, command: String)
        ensures
            command_set(*old(self), *final(self), command),
    {
        if command.as_str().is_empty() {
            self.save.launch_command = None;
        } else {
            self.save.launch_command = Some(command);
        }
    }

    pub fn load_add_launch_args(&mut self)
        ensures
            arg_added(*old(self), *final(self)),
    {
        let ghost start = self.save.launch_args@;
        self.save.launch_args.push((String::new(), String::new()));
        assert(self.save.launch_args@.drop_last() =~= start);
    }

    pub fn load_remove_launch_args(&mut self, i: usize)
        requires
            i < old(self).save.launch_args@.len(),
        ensures
            only_args(*old(self), *final(self)),
            final(self).save.launch_args@ == old(self).save.launch_args@.remove(i as int),
    {
        let gone = self.save.launch_args.remove(i);
    }

    pub fn load_edit_arg_key(&mut self, i: usize, key: String)
        ensures
            arg_key_set(*old(self), *final(self), i, key),
    {
        if i < self.save.launch_args.len() {
            let ghost start = self.save.launch_args@;
            let pair = self.save.launch_args.remove(i);
            self.save.launch_args.insert(i, (key, pair.1));
            assert(self.save.launch_args@ =~= start.update(i as int, (key, pair.1)));
        }
    }

    pub fn load_edit_arg_value(&mut self, i: usize, value: String)
        ensures
            arg_value_set(*old(self), *final(self), i, value),
    {
        if i < self.save.launch_args.len() {
            let ghost start = self.save.launch_args@;
            let pair = self.save.launch_args.remove(i);
            self.save.launch_args.insert(i, (pair.0, value));
            assert(self.save.launch_args@ =~= start.update(i as int, (pair.0, value)));
        }
    }

    /// The game's directory is to be searched for.
    pub fn load_find_game_requested(&self) -> (r: Vec<Action>)
        ensures
            search_begun(AppAbortKey::GameFind, game_search(self.save.linux_native_mode), r@),
    {
        let search = if self.save.linux_native_mode {
            "XCOM 2/share/data/binaries"
        } else {
            "XCOM 2/XCom2-WarOfTheChosen/Binaries"
        };
        vec![
            Action::Send(Message::SetBusy(true)),
            Action::FindDirectories(AppAbortKey::GameFind, search.to_owned()),
        ]
    }

    /// The directory of the game's files of the user is to be searched for.
    pub fn load_find_local_requested(&self) -> (r: Vec<Action>)
        ensures
            search_begun(AppAbortKey::LocalFind, local_search(self.save.linux_native_mode), r@),
    {
        let search = if self.save.linux_native_mode {
            "feral-interactive/XCOM 2 WotC/VFS/Local/my games/XCOM2 War of the Chosen/XComGame"
        } else {
            "Documents/My Games/XCOM2 War of the Chosen/XComGame"
        };
        vec![
            Action::Send(Message::SetBusy(true)),
            Action::FindDirectories(AppAbortKey::LocalFind, search.to_owned()),
        ]
    }

    fn ask_path(&mut self, title: &str, path: &str) -> (r: u64)
        ensures
            path_asked(*old(self), *final(self), title@, path@),
            r == old(self).next_ticket,
    {
        let ticket = self.take_ticket();
        let body = path_body(path);
        let modal = question(
            AsyncDialogKey::GameFind,
            title,
            body,
            AsyncDialogStrategy::Queue,
            ticket,
        );
        assert(is_question(
            modal,
            KeyModel::GameFind,
            title@,
            path_question(path@),
            AsyncDialogStrategy::Queue,
            ticket,
        ));
        push_modal(&mut self.modal_stack, modal);
        ticket
    }

    /// A directory was found that may be below the game's.
    pub fn load_find_game_matched(&mut self, path: &str) -> (r: Vec<Action>)
        ensures
            game_matched(*old(self), *final(self), path@, r@),
    {
        let found = parent_or_self(path);
        let ticket = self.ask_path("Found Game Path", found.as_str());
        only(Action::AwaitChoice(ticket, Outcome::GameFind(found)))
    }

    /// A directory was found that may be that of the game's files of the user.
    pub fn load_find_local_matched(&mut self, path: String) -> (r: Vec<Action>)
        ensures
            local_matched(*old(self), *final(self), path@, r@),
    {
        let ticket = self.ask_path("Found Local Path", path.as_str());
        only(Action::AwaitChoice(ticket, Outcome::LocalFind(path)))
    }

    /// The user said that a directory is the game's.
    pub fn load_find_game_resolved(&mut self, path: String) -> (r: Vec<Action>)
        ensures
            game_resolved(*old(self), *final(self), path, r@),
    {
        self.save.game_directory = Some(path);
        vec![Action::Abort(AppAbortKey::GameFind), Action::Send(Message::SetBusy(false))]
    }

    /// The user said that a directory is that of the game's files of the user.
    pub fn load_find_local_resolved(&mut self, path: String) -> (r: Vec<Action>)
        ensures
            local_resolved(*old(self), *final(self), path, r@),
    {
        self.save.local_directory = Some(path);
        vec![Action::Abort(AppAbortKey::LocalFind), Action::Send(Message::SetBusy(false))]
    }

    /// A mod is to be added to profiles with all that it asks for.
    pub fn item_details_add_all(&self, id: u32) -> (r: Vec<Action>)
        ensures
            profile_dependencies_asked(*self, id, r@),
    {
        vec![
            busy_message("Resolving dependencies..."),
            Action::ResolveDependencies(self.api_key.clone(), id, None),
            Action::Send(Message::SetBusy(false)),
        ]
    }
}

/// What follows from a search for directories.
pub fn search_ended(key: AppAbortKey, found: Option<String>) -> (r: Message)
    ensures
        match found {
            Some(path) => r == if key == AppAbortKey::LocalFind {
                Message::LoadFindLocalMatched(path)
            } else {
                Message::LoadFindGameMatched(path)
            },
            None => r is Chained && r->Chained_0@ == seq![
                Message::AbortTask(key),
                Message::SetBusy(false),
            ],
        },
{
    match found {
        Some(path) => match key {
            AppAbortKey::LocalFind => Message::LoadFindLocalMatched(path),
            _ => Message::LoadFindGameMatched(path),
        },
        None => Message::Chained(vec![Message::AbortTask(key), Message::SetBusy(false)]),
    }
}

/// Nothing is linked into a game that was not found.
pub proof fn nothing_is_linked_without_the_game(
    a: App,
    reason: ApplyReason,
    facts: PrepareFacts,
    r: Seq<Action>,
)
    requires
        prepared(a, reason, facts, r),
        a.save.game_directory is None || a.save.local_directory is None || !facts.game_exists
            || !facts.subdirectory_exists,
    ensures
        forall|i: int| 0 <= i < r.len() ==> !((#[trigger] r[i]) is LoadProfile),
{
}

/// What is searched for can always be searched for: it is a relative path that names
/// something.
pub proof fn searches_are_possible(native: bool)
    ensures
        is_searchable(game_search(native)),
        is_searchable(local_search(native)),
{
    reveal_strlit("XCOM 2/share/data/binaries");
    reveal_strlit("XCOM 2/XCom2-WarOfTheChosen/Binaries");
    reveal_strlit(
        "feral-interactive/XCOM 2 WotC/VFS/Local/my games/XCOM2 War of the Chosen/XComGame",
    );
    reveal_strlit("Documents/My Games/XCOM2 War of the Chosen/XComGame");
    lemma_names_something(game_search(native));
    lemma_names_something(local_search(native));
}

} // verus!
