//! What happens to the login, and when the program ends.
use vstd::prelude::*;

use super::modal::{drop_kind, AppModal, KindOf};
use super::state::{nothing, only, show_error, Action, App, Login, Message};
use crate::text::{chars_of, join_two};
#[allow(unused_imports)]
use super::modal::{without_kind, ModalKind};
#[allow(unused_imports)]
use super::state::only_error;

verus! {

/// Whether nothing but the login and the dialogs changed.
pub open spec fn only_login(a: App, b: App) -> bool {
    b == (App { login: b.login, modal_stack: b.modal_stack, ..a })
}

pub open spec fn login_requested(a: App, b: App, manual: bool, r: Seq<Action>) -> bool {
    if a.login.logged_in || a.save.username@.len() == 0 {
        a == b && r.len() == 0
    } else if !a.login.session && a.login.shared {
        a == b && only_error(
            r,
            "Error Logging In"@,
            "SteamCMD session is in an unexpected state, report this to the dev."@,
        )
    } else if !a.login.session {
        a == b && r == seq![Action::StartSession(manual)]
    } else if manual && a.login.password@.len() == 0 {
        a == b && only_error(r, "Error Logging In"@, "Password field is empty"@)
    } else if manual && !a.login.is_cached {
        a == b && r == seq![Action::Send(Message::SteamCMDLoginElevated)]
    } else if !a.login.is_cached {
        a == b && r.len() == 0
    } else {
        &&& b == (App { modal_stack: b.modal_stack, ..a })
        &&& b.modal_stack@.len() == a.modal_stack@.len() + 1
        &&& b.modal_stack@.drop_last() == a.modal_stack@
        &&& b.modal_stack@.last() matches AppModal::BusyMessage(text) && text@
            == "Logging into SteamCMD..."@
        &&& r == seq![
            Action::AttemptCachedLogin(a.login.username, manual),
            Action::Send(Message::SetBusy(false)),
        ]
    }
}

/// The download that is begun next, as an action.
pub open spec fn download_action(id: Option<u32>, retries: u32) -> Seq<Action> {
    match id {
        Some(id) => seq![Action::Download(id, retries)],
        None => Seq::empty(),
    }
}

pub open spec fn login_succeeded(a: App, b: App, r: Seq<Action>) -> bool {
    let stack = without_kind(a.modal_stack@, ModalKind::SteamGuard);
    if !a.login.session {
        &&& b == (App { modal_stack: b.modal_stack, ..a })
        &&& b.modal_stack@ == stack
        &&& only_error(
            r,
            "Unexpected State"@,
            "Something has gone wrong initializing SteamCMD. Please report this to the dev."@,
        )
    } else {
        &&& b == (App {
            modal_stack: b.modal_stack,
            login: Login { is_cached: a.login.is_cached || !a.login.shared, ..a.login },
            downloads: b.downloads,
            ..a
        })
        &&& b.modal_stack@ == stack
        &&& b.downloads@ == a.downloads@.queued(a.login.logged_in)
        &&& r == download_action(
            a.downloads@.next(a.login.logged_in),
            a.settings.automatic_download_retries,
        ).push(Action::FollowSession)
    }
}

pub open spec fn login_elevated(a: App, b: App) -> bool {
    &&& only_login(a, b)
    &&& b.login == (Login {
        code: b.login.code,
        is_cached: a.login.is_cached && a.login.shared,
        ..a.login
    })
    &&& b.login.code@.len() == 0
    &&& b.modal_stack@ == a.modal_stack@.push(AppModal::SteamGuardCodeRequest)
}

pub open spec fn code_submitted(a: App, b: App, r: Seq<Action>) -> bool {
    &&& only_login(a, b)
    &&& b.login == (Login { code: b.login.code, ..a.login })
    &&& b.login.code@.len() == 0
    &&& b.modal_stack@ == a.modal_stack@.push(AppModal::Busy)
    &&& r.len() == 2
    &&& r[0] == Action::AttemptFullLogin(a.login.username, a.login.password, a.login.code)
    &&& r[1] matches Action::Send(Message::Chained(last)) && last@.len() == 2 && last@[0]
        == Message::SetBusy(false) && (last@[1] matches Message::SetSteamCMDCode(code)
        && code@.len() == 0)
}

pub open spec fn code_cancelled(a: App, b: App) -> bool {
    &&& only_login(a, b)
    &&& b.login == (Login { code: b.login.code, ..a.login })
    &&& b.login.code@.len() == 0
    &&& b.modal_stack@.len() == 0
}

/// What is to be done when the program ends.
pub open spec fn closing_actions(a: App, r: Seq<Action>) -> bool {
    let password = if !a.settings.steamcmd_save_password {
        seq![Action::DeletePassword]
    } else if a.login.password@.len() > 0 {
        seq![Action::SavePassword(a.login.password)]
    } else {
        Seq::empty()
    };
    let key = if !a.settings.steam_webapi_save_api_key {
        seq![Action::DeleteApiKey]
    } else if a.api_key@.len() > 0 {
        seq![Action::SaveApiKey(a.api_key)]
    } else {
        Seq::empty()
    };
    let logout = if a.settings.steamcmd_logout_on_exit && a.login.session && a.login.logged_in {
        seq![Action::LogOutSession]
    } else {
        Seq::empty()
    };
    let quit = if a.login.session && !a.login.killed {
        seq![Action::QuitSession]
    } else {
        Seq::empty()
    };
    let first = password + key + seq![Action::SaveState];
    let n = first.len() as int;
    &&& r.len() > n
    &&& r.take(n) == first
    &&& super::state::is_busy_message(r[n], "Shutting down..."@)
    &&& r.skip(n + 1) == logout + quit + seq![Action::CloseWindow]
}

/// How an attempt to log in ended.
#[derive(Debug)]
pub enum LoginResult {
    LoggedIn,
    /// Steam refused the login.
    Failure,
    /// Something else went wrong.
    Other(String),
}

pub open spec fn after_cached_login(manual: bool, result: LoginResult, r: Message) -> bool {
    match result {
        LoginResult::LoggedIn => r is SteamCMDLoginSuccess,
        LoginResult::Failure => if manual {
            r is SteamCMDLoginElevated
        } else {
            r is Nothing
        },
        LoginResult::Other(text) => r matches Message::DisplayError(t, b) && t@
            == "Error Logging In"@ && b == text,
    }
}

/// What follows from an attempt to log in without a code.
pub fn cached_login_ended(manual: bool, result: LoginResult) -> (r: Message)
    ensures
        after_cached_login(manual, result, r),
{
    match result {
        LoginResult::LoggedIn => Message::SteamCMDLoginSuccess,
        LoginResult::Failure => if manual {
            Message::SteamCMDLoginElevated
        } else {
            Message::Nothing
        },
        LoginResult::Other(text) => Message::DisplayError("Error Logging In".to_owned(), text),
    }
}

/// What follows from an attempt to log in with a code.
pub fn full_login_ended(error: Option<String>) -> (r: Message)
    ensures
        match error {
            None => r is SteamCMDLoginSuccess,
            Some(text) => r matches Message::DisplayError(t, b) && t@ == "Failed To Log In"@ && b
                == text,
        },
{
    match error {
        None => Message::SteamCMDLoginSuccess,
        Some(text) => Message::DisplayError("Failed To Log In".to_owned(), text),
    }
}

/// Whether four characters of one line stand in square brackets at a place.
pub open spec fn progress_at(line: Seq<char>, i: int) -> bool {
    &&& 0 <= i
    &&& i + 5 < line.len()
    &&& line[i] == '['
    &&& line[i + 5] == ']'
    &&& line[i + 1] != '\n'
    &&& line[i + 2] != '\n'
    &&& line[i + 3] != '\n'
    &&& line[i + 4] != '\n'
}

/// What the user is told when a line says how far Steam has updated itself.
pub fn update_progress(line: &str) -> (r: Option<String>)
    ensures
        match r {
            Some(text) => (exists|i: int| #[trigger] progress_at(line@, i)) && text@
                == "SteamCMD is updating...\n"@ + line@,
            None => forall|i: int| !#[trigger] progress_at(line@, i),
        },
{
    let s = chars_of(line);
    let n: usize = s.len();
    let mut i: usize = 0;
    while i < n && n - i > 5
        invariant
            0 <= i <= n,
            s@ == line@,
            n == s@.len(),
            forall|j: int| 0 <= j < i ==> !#[trigger] progress_at(line@, j),
        decreases n - i,
    {
        if s[i] == '[' && s[i + 5] == ']' && s[i + 1] != '\n' && s[i + 2] != '\n' && s[i + 3]
            != '\n' && s[i + 4] != '\n' {
            assert(progress_at(line@, i as int));
            return Some(join_two("SteamCMD is updating...\n", line));
        }
        i += 1;
    }
    None
}

impl App {
    /// The user wants to log in, or the program does at its start.
    pub fn steamcmd_login(&mut self, manual: bool) -> (r: Vec<Action>)
        ensures
            login_requested(*old(self), *final(self), manual, r@),
    {
        if self.login.logged_in || self.save.username.as_str().is_empty() {
            return nothing();
        }
        if !self.login.session {
            if self.login.shared {
                return show_error(
                    "Error Logging In",
                    "SteamCMD session is in an unexpected state, report this to the dev.",
                );
            }
            return only(Action::StartSession(manual));
        }
        if manual {
            if self.login.password.as_str().is_empty() {
                return show_error("Error Logging In", "Password field is empty");
            }
            if !self.login.is_cached {
                return only(Action::Send(Message::SteamCMDLoginElevated));
            }
        } else if !self.login.is_cached {
            return nothing();
        }
        let ghost start = self.modal_stack@;
        self.modal_stack.push(AppModal::BusyMessage("Logging into SteamCMD...".to_owned()));
        assert(self.modal_stack@.drop_last() =~= start);
        vec![
            Action::AttemptCachedLogin(self.login.username.clone(), manual),
            Action::Send(Message::SetBusy(false)),
        ]
    }

    /// Begins the next download, as an action.
    pub fn queue_downloads(&mut self) -> (r: Vec<Action>)
        ensures
            *final(self) == (App { downloads: final(self).downloads, ..*old(self) }),
            final(self).downloads@ == old(self).downloads@.queued(old(self).login.logged_in),
            r@ == download_action(
                old(self).downloads@.next(old(self).login.logged_in),
                old(self).settings.automatic_download_retries,
            ),
    {
        match self.downloads.queue_downloads(self.login.logged_in) {
            Some(id) => only(Action::Download(id, self.settings.automatic_download_retries)),
            None => nothing(),
        }
    }

    /// The login went well.
    pub fn steamcmd_login_success(&mut self) -> (r: Vec<Action>)
        ensures
            login_succeeded(*old(self), *final(self), r@),
    {
        drop_kind(&mut self.modal_stack, &KindOf::SteamGuard);
        if !self.login.session {
            return show_error(
                "Unexpected State",
                "Something has gone wrong initializing SteamCMD. Please report this to the dev.",
            );
        }
        if !self.login.shared {
            self.login.is_cached = true;
        }
        let mut out = self.queue_downloads();
        out.push(Action::FollowSession);
        out
    }

    /// Steam asks for a code.
    pub fn steamcmd_login_elevated(&mut self)
        ensures
            login_elevated(*old(self), *final(self)),
    {
        self.login.code = String::new();
        if !self.login.shared {
            self.login.is_cached = false;
        }
        self.modal_stack.push(AppModal::SteamGuardCodeRequest);
    }

    /// The code was entered.
    pub fn steamcmd_login_elevated_submit(&mut self) -> (r: Vec<Action>)
        ensures
            code_submitted(*old(self), *final(self), r@),
    {
        self.modal_stack.push(AppModal::Busy);
        let code = self.login.code.clone();
        self.login.code = String::new();
        let (user, password) = (self.login.username.clone(), self.login.password.clone());
        vec![
            Action::AttemptFullLogin(user, password, code),
            Action::Send(
                Message::Chained(
                    vec![Message::SetBusy(false), Message::SetSteamCMDCode(String::new())],
                ),
            ),
        ]
    }

    /// No code will be entered.
    pub fn steamcmd_login_elevated_cancel(&mut self)
        ensures
            code_cancelled(*old(self), *final(self)),
    {
        self.login.code = String::new();
        self.modal_stack = Vec::new();
    }

    /// The program is to end.
    pub fn close_app_requested(&self) -> (r: Vec<Action>)
        ensures
            closing_actions(*self, r@),
    {
        let mut out: Vec<Action> = Vec::new();
        if self.settings.steamcmd_save_password {
            if !self.login.password.as_str().is_empty() {
                out.push(Action::SavePassword(self.login.password.clone()));
            }
        } else {
            out.push(Action::DeletePassword);
        }
        if self.settings.steam_webapi_save_api_key {
            if !self.api_key.as_str().is_empty() {
                out.push(Action::SaveApiKey(self.api_key.clone()));
            }
        } else {
            out.push(Action::DeleteApiKey);
        }
        out.push(Action::SaveState);
        let ghost first = out@;
        out.push(super::state::busy_message("Shutting down..."));
        let ghost told = out@;
        if self.settings.steamcmd_logout_on_exit && self.login.session && self.login.logged_in {
            out.push(Action::LogOutSession);
        }
        if self.login.session && !self.login.killed {
            out.push(Action::QuitSession);
        }
        out.push(Action::CloseWindow);
        proof {
            assert(out@.take(first.len() as int) =~= first);
            assert(out@[first.len() as int] == told[first.len() as int]);
            let logout = if self.settings.steamcmd_logout_on_exit && self.login.session
                && self.login.logged_in {
                seq![Action::LogOutSession]
            } else {
                Seq::empty()
            };
            let quit = if self.login.session && !self.login.killed {
                seq![Action::QuitSession]
            } else {
                Seq::empty()
            };
            assert(out@.skip(first.len() as int + 1) =~= logout + quit + seq![Action::CloseWindow]);
            let password = if !self.settings.steamcmd_save_password {
                seq![Action::DeletePassword]
            } else if self.login.password@.len() > 0 {
                seq![Action::SavePassword(self.login.password)]
            } else {
                Seq::empty()
            };
            let key = if !self.settings.steam_webapi_save_api_key {
                seq![Action::DeleteApiKey]
            } else if self.api_key@.len() > 0 {
                seq![Action::SaveApiKey(self.api_key)]
            } else {
                Seq::empty()
            };
            assert(first =~= password + key + seq![Action::SaveState]);
        }
        out
    }
}

/// What the actions at the end of the program are.
pub proof fn lemma_closing_action(a: App, r: Seq<Action>, i: int)
    requires
        closing_actions(a, r),
        0 <= i < r.len(),
    ensures
        match r[i] {
            Action::SavePassword(password) => a.settings.steamcmd_save_password && password
                == a.login.password,
            Action::SaveApiKey(key) => a.settings.steam_webapi_save_api_key && key == a.api_key,
            Action::DeletePassword | Action::DeleteApiKey | Action::SaveState
            | Action::LogOutSession | Action::QuitSession | Action::CloseWindow
            | Action::Send(_) => true,
            _ => false,
        },
{
    let password = if !a.settings.steamcmd_save_password {
        seq![Action::DeletePassword]
    } else if a.login.password@.len() > 0 {
        seq![Action::SavePassword(a.login.password)]
    } else {
        Seq::empty()
    };
    let key = if !a.settings.steam_webapi_save_api_key {
        seq![Action::DeleteApiKey]
    } else if a.api_key@.len() > 0 {
        seq![Action::SaveApiKey(a.api_key)]
    } else {
        Seq::empty()
    };
    let first = password + key + seq![Action::SaveState];
    let n = first.len() as int;
    if i < n {
        assert(r.take(n)[i] == r[i]);
        assert(first[i] == r[i]);
        if i >= password.len() {
            if i < password.len() + key.len() {
                assert(first[i] == key[i - password.len()]);
            } else {
                assert(first[i] is SaveState);
            }
        } else {
            assert(first[i] == password[i]);
        }
    } else if i > n {
        let logout = if a.settings.steamcmd_logout_on_exit && a.login.session
            && a.login.logged_in {
            seq![Action::LogOutSession]
        } else {
            Seq::empty()
        };
        let quit = if a.login.session && !a.login.killed {
            seq![Action::QuitSession]
        } else {
            Seq::empty()
        };
        let last = logout + quit + seq![Action::CloseWindow];
        let j = i - n - 1;
        assert(r.skip(n + 1)[j] == r[i]);
        assert(r.skip(n + 1) == last);
        assert(last[j] == r[i]);
        if j < logout.len() {
            assert(last[j] == logout[j]);
        } else if j < logout.len() + quit.len() {
            assert(last[j] == quit[j - logout.len()]);
        } else {
            assert(r.skip(n + 1).len() == r.len() - n - 1);
            assert(j == logout.len() + quit.len());
            assert(last[j] == seq![Action::CloseWindow][0]);
        }
    }
}

/// A password or a key is kept only where the user wants it to be.
pub proof fn secrets_are_kept_only_when_asked_for(a: App, r: Seq<Action>, i: int)
    requires
        closing_actions(a, r),
        0 <= i < r.len(),
    ensures
        r[i] is SavePassword ==> a.settings.steamcmd_save_password,
        r[i] is SaveApiKey ==> a.settings.steam_webapi_save_api_key,
{
    lemma_closing_action(a, r, i);
}

} // verus!
