//! Logins and downloads step by step, as a session goes through them.
use vstd::prelude::*;

use super::{
    cached_login_line, download_failed, download_line, full_login_line, Attempts, DownloadLine,
    Error, LoginLine,
};
#[allow(unused_imports)]
use super::holds;
#[allow(unused_imports)]
use crate::text::occurs_at;

verus! {

/// What is done next for a download.
#[derive(Debug, Clone, Copy, PartialEq, Eq, Structural)]
pub enum DownloadStep {
    /// The directory of downloads is made.
    MakeDirectory,
    /// The session is told of the directory.
    SetDirectory,
    /// Another download may not follow too soon.
    WaitForTurn,
    /// The session is told to download.
    SendCommand,
    /// What the session prints is read.
    ReadLine,
    /// What SteamCMD kept of the download is removed.
    RemoveManifest,
    /// It is written down when the item was downloaded.
    WriteMetadata,
    Ended,
}

/// What comes of a step.
#[derive(Debug)]
pub enum DownloadEvent {
    Done,
    Failed(Error),
    Line(String),
}

/// A download that is under way.
#[derive(Debug)]
pub struct DownloadRun {
    pub id: u32,
    pub attempts: Attempts,
    pub step: DownloadStep,
    /// Why the download failed.
    pub failure: Option<Error>,
}

impl DownloadRun {
    /// The run after an attempt failed: it begins again as long as that is allowed.
    pub open spec fn failed(self, error: Error) -> DownloadRun {
        let (again, attempts) = self.attempts.tried(true);
        if again {
            DownloadRun {
                id: self.id,
                attempts,
                step: DownloadStep::MakeDirectory,
                failure: None,
            }
        } else {
            DownloadRun {
                id: self.id,
                attempts,
                step: DownloadStep::Ended,
                failure: Some(Error::DownloadFailure(Box::new(error), self.id)),
            }
        }
    }

    pub open spec fn at(self, step: DownloadStep) -> DownloadRun {
        DownloadRun { step, ..self }
    }

    /// The run after the download itself failed: what was kept of it is removed
    /// before the attempt counts as failed.
    pub open spec fn broken(self, error: Error) -> DownloadRun {
        DownloadRun { step: DownloadStep::RemoveManifest, failure: Some(error), ..self }
    }

    /// The run after something came of its step.
    pub open spec fn after(self, event: DownloadEvent) -> DownloadRun {
        match (self.step, event) {
            (DownloadStep::MakeDirectory, DownloadEvent::Done) => self.at(
                DownloadStep::SetDirectory,
            ),
            (DownloadStep::MakeDirectory, DownloadEvent::Failed(e)) => self.failed(e),
            (DownloadStep::SetDirectory, DownloadEvent::Done) => self.at(DownloadStep::WaitForTurn),
            (DownloadStep::SetDirectory, DownloadEvent::Failed(e)) => self.failed(e),
            (DownloadStep::WaitForTurn, DownloadEvent::Done) => self.at(DownloadStep::SendCommand),
            (DownloadStep::SendCommand, DownloadEvent::Done) => self.at(DownloadStep::ReadLine),
            (DownloadStep::SendCommand, DownloadEvent::Failed(e)) => self.broken(e),
            (DownloadStep::ReadLine, DownloadEvent::Line(line)) => if occurs_at(
                line@,
                "ERROR!"@,
                0,
            ) {
                self.broken(Error::Message(line))
            } else if occurs_at(line@, "Success"@, 0) {
                self.at(DownloadStep::WriteMetadata)
            } else {
                self
            },
            (DownloadStep::ReadLine, DownloadEvent::Failed(e)) => self.broken(e),
            (DownloadStep::RemoveManifest, DownloadEvent::Done) => self.failed(
                match self.failure {
                    Some(e) => e,
                    None => Error::Unkown,
                },
            ),
            (DownloadStep::WriteMetadata, DownloadEvent::Done) => self.at(DownloadStep::Ended),
            _ => self,
        }
    }

    /// A download of an item that may be tried again so often.
    pub fn new(id: u32, retries: u32) -> (r: Self)
        ensures
            r == (DownloadRun {
                id,
                attempts: Attempts { made: 0, retries },
                step: DownloadStep::MakeDirectory,
                failure: None,
            }),
    {
        DownloadRun {
            id,
            attempts: Attempts::new(retries),
            step: DownloadStep::MakeDirectory,
            failure: None,
        }
    }

    fn fail(self, error: Error) -> (r: Self)
        ensures
            r == self.failed(error),
    {
        let mut attempts = self.attempts;
        if attempts.try_again(true) {
            DownloadRun {
                id: self.id,
                attempts,
                step: DownloadStep::MakeDirectory,
                failure: None,
            }
        } else {
            DownloadRun {
                id: self.id,
                attempts,
                step: DownloadStep::Ended,
                failure: Some(download_failed(error, self.id)),
            }
        }
    }

    fn go(self, step: DownloadStep) -> (r: Self)
        ensures
            r == self.at(step),
    {
        DownloadRun { id: self.id, attempts: self.attempts, step, failure: self.failure }
    }

    fn break_off(self, error: Error) -> (r: Self)
        ensures
            r == self.broken(error),
    {
        DownloadRun {
            id: self.id,
            attempts: self.attempts,
            step: DownloadStep::RemoveManifest,
            failure: Some(error),
        }
    }

    /// The run after something came of its step.
    pub fn advance(self, event: DownloadEvent) -> (r: Self)
        ensures
            r == self.after(event),
    {
        match (self.step, event) {
            (DownloadStep::MakeDirectory, DownloadEvent::Done) => self.go(
                DownloadStep::SetDirectory,
            ),
            (DownloadStep::MakeDirectory, DownloadEvent::Failed(e)) => self.fail(e),
            (DownloadStep::SetDirectory, DownloadEvent::Done) => self.go(DownloadStep::WaitForTurn),
            (DownloadStep::SetDirectory, DownloadEvent::Failed(e)) => self.fail(e),
            (DownloadStep::WaitForTurn, DownloadEvent::Done) => self.go(DownloadStep::SendCommand),
            (DownloadStep::SendCommand, DownloadEvent::Done) => self.go(DownloadStep::ReadLine),
            (DownloadStep::SendCommand, DownloadEvent::Failed(e)) => self.break_off(e),
            (DownloadStep::ReadLine, DownloadEvent::Line(line)) => match download_line(line) {
                DownloadLine::Failed(text) => self.break_off(Error::Message(text)),
                DownloadLine::Succeeded => self.go(DownloadStep::WriteMetadata),
                DownloadLine::Irrelevant => self,
            },
            (DownloadStep::ReadLine, DownloadEvent::Failed(e)) => self.break_off(e),
            (DownloadStep::RemoveManifest, DownloadEvent::Done) => {
                let DownloadRun { id, attempts, step, failure } = self;
                let error = match failure {
                    Some(e) => e,
                    None => Error::Unkown,
                };
                DownloadRun { id, attempts, step, failure: None }.fail(error)
            },
            (DownloadStep::WriteMetadata, DownloadEvent::Done) => self.go(DownloadStep::Ended),
            _ => self,
        }
    }
}

/// A download ends well only after SteamCMD said so: it is written down when an item
/// was downloaded only after a line that begins with `Success`.
pub proof fn downloads_succeed_only_when_told(run: DownloadRun, event: DownloadEvent)
    requires
        run.step != DownloadStep::WriteMetadata,
        run.after(event).step == DownloadStep::WriteMetadata,
    ensures
        run.step == DownloadStep::ReadLine,
        event matches DownloadEvent::Line(line) && occurs_at(line@, "Success"@, 0) && !occurs_at(
            line@,
            "ERROR!"@,
            0,
        ),
{
}

/// A download never is tried more often than allowed.
pub proof fn attempts_stay_within_bounds(run: DownloadRun, event: DownloadEvent)
    requires
        run.attempts.made <= run.attempts.retries,
    ensures
        run.after(event).attempts.made <= run.after(event).attempts.retries,
        run.after(event).attempts.retries == run.attempts.retries,
        run.after(event).id == run.id,
{
}

/// A download that ended badly says so of its item, and that only after the last
/// attempt that is allowed.
pub proof fn failures_are_told_after_the_last_attempt(run: DownloadRun, event: DownloadEvent)
    requires
        run.step != DownloadStep::Ended,
        run.step == DownloadStep::WriteMetadata ==> run.failure is None,
        run.after(event).step == DownloadStep::Ended,
        run.after(event).failure is Some,
    ensures
        run.attempts.made >= run.attempts.retries,
        run.after(event).failure matches Some(Error::DownloadFailure(_, id)) && id == run.id,
{
}

/// What is done next for a login.
#[derive(Debug, Clone, Copy, PartialEq, Eq, Structural)]
pub enum LoginStep {
    /// The session asks for input.
    AwaitSession,
    /// The session is told of the directory of downloads.
    SetDirectory,
    /// The session asks for input again.
    AwaitDirectory,
    /// The session is told not to ask for a password.
    SendNoPrompt,
    SendLogin,
    /// What the session prints is read.
    ReadLine,
    /// The session asks for input after it said how the login went.
    AwaitEnd(bool),
    LoggedIn,
    Failed,
}

/// What comes of a step.
#[derive(Debug)]
pub enum LoginEvent {
    Done,
    /// The step failed, or there are no more lines.
    Failed(Error),
    Line(String),
}

/// A login that is under way.
#[derive(Debug)]
pub struct LoginRun {
    /// Whether kept credentials are used.
    pub cached: bool,
    pub step: LoginStep,
    pub failure: Option<Error>,
}

/// What a line says of a login.
pub open spec fn said_of_login(cached: bool, line: Seq<char>) -> LoginLine {
    if cached {
        if holds(line, "FAILED (No cached credentials and @NoPromptForPassword is set)"@) {
            LoginLine::Failed
        } else if holds(line, "Waiting for client config...OK"@) {
            LoginLine::LoggedIn
        } else {
            LoginLine::Irrelevant
        }
    } else {
        if holds(line, "Waiting for client config...OK"@) {
            LoginLine::LoggedIn
        } else if holds(line, "...ERROR (Invalid Password)"@) {
            LoginLine::Failed
        } else {
            LoginLine::Irrelevant
        }
    }
}

impl LoginRun {
    pub open spec fn at(self, step: LoginStep) -> LoginRun {
        LoginRun { cached: self.cached, step, failure: None }
    }

    pub open spec fn failed(self, error: Error) -> LoginRun {
        LoginRun { cached: self.cached, step: LoginStep::Failed, failure: Some(error) }
    }

    /// The run after something came of its step.
    pub open spec fn after(self, event: LoginEvent) -> LoginRun {
        match (self.step, event) {
            (LoginStep::AwaitSession, LoginEvent::Done) => self.at(LoginStep::SetDirectory),
            (LoginStep::SetDirectory, LoginEvent::Done) => self.at(LoginStep::AwaitDirectory),
            (LoginStep::SetDirectory, LoginEvent::Failed(e)) => self.failed(e),
            (LoginStep::AwaitDirectory, LoginEvent::Done) => self.at(LoginStep::SendNoPrompt),
            (LoginStep::SendNoPrompt, LoginEvent::Done) => self.at(LoginStep::SendLogin),
            (LoginStep::SendNoPrompt, LoginEvent::Failed(e)) => self.failed(e),
            (LoginStep::SendLogin, LoginEvent::Done) => self.at(LoginStep::ReadLine),
            (LoginStep::SendLogin, LoginEvent::Failed(e)) => self.failed(e),
            (LoginStep::ReadLine, LoginEvent::Failed(e)) => self.failed(e),
            (LoginStep::ReadLine, LoginEvent::Line(line)) => match said_of_login(
                self.cached,
                line@,
            ) {
                LoginLine::LoggedIn => self.at(LoginStep::AwaitEnd(true)),
                LoginLine::Failed => if self.cached {
                    self.at(LoginStep::AwaitEnd(false))
                } else {
                    self.failed(Error::LoginFailure)
                },
                LoginLine::Irrelevant => self,
            },
            (LoginStep::AwaitEnd(true), LoginEvent::Done) => self.at(LoginStep::LoggedIn),
            (LoginStep::AwaitEnd(false), LoginEvent::Done) => self.failed(Error::LoginFailure),
            _ => self,
        }
    }

    /// A login. One with kept credentials waits for the session first.
    pub fn new(cached: bool) -> (r: Self)
        ensures
            r == (LoginRun {
                cached,
                step: if cached {
                    LoginStep::AwaitSession
                } else {
                    LoginStep::SetDirectory
                },
                failure: None,
            }),
    {
        LoginRun {
            cached,
            step: if cached {
                LoginStep::AwaitSession
            } else {
                LoginStep::SetDirectory
            },
            failure: None,
        }
    }

    fn go(&self, step: LoginStep) -> (r: Self)
        ensures
            r == self.at(step),
    {
        LoginRun { cached: self.cached, step, failure: None }
    }

    fn fail(&self, error: Error) -> (r: Self)
        ensures
            r == self.failed(error),
    {
        LoginRun { cached: self.cached, step: LoginStep::Failed, failure: Some(error) }
    }

    /// The run after something came of its step.
    pub fn advance(self, event: LoginEvent) -> (r: Self)
        ensures
            r == self.after(event),
    {
        match (self.step, event) {
            (LoginStep::AwaitSession, LoginEvent::Done) => self.go(LoginStep::SetDirectory),
            (LoginStep::SetDirectory, LoginEvent::Done) => self.go(LoginStep::AwaitDirectory),
            (LoginStep::SetDirectory, LoginEvent::Failed(e)) => self.fail(e),
            (LoginStep::AwaitDirectory, LoginEvent::Done) => self.go(LoginStep::SendNoPrompt),
            (LoginStep::SendNoPrompt, LoginEvent::Done) => self.go(LoginStep::SendLogin),
            (LoginStep::SendNoPrompt, LoginEvent::Failed(e)) => self.fail(e),
            (LoginStep::SendLogin, LoginEvent::Done) => self.go(LoginStep::ReadLine),
            (LoginStep::SendLogin, LoginEvent::Failed(e)) => self.fail(e),
            (LoginStep::ReadLine, LoginEvent::Failed(e)) => self.fail(e),
            (LoginStep::ReadLine, LoginEvent::Line(line)) => {
                let said = if self.cached {
                    cached_login_line(line.as_str())
                } else {
                    full_login_line(line.as_str())
                };
                match said {
                    LoginLine::LoggedIn => self.go(LoginStep::AwaitEnd(true)),
                    LoginLine::Failed => if self.cached {
                        self.go(LoginStep::AwaitEnd(false))
                    } else {
                        self.fail(Error::LoginFailure)
                    },
                    LoginLine::Irrelevant => self,
                }
            },
            (LoginStep::AwaitEnd(true), LoginEvent::Done) => self.go(LoginStep::LoggedIn),
            (LoginStep::AwaitEnd(false), LoginEvent::Done) => self.fail(Error::LoginFailure),
            _ => self,
        }
    }
}

/// A login succeeds only after SteamCMD said so.
pub proof fn logins_succeed_only_when_told(run: LoginRun, event: LoginEvent)
    requires
        run.step != LoginStep::AwaitEnd(true),
    ensures
        run.after(event).step == LoginStep::LoggedIn ==> run.step == LoginStep::LoggedIn,
        run.after(event).step == LoginStep::AwaitEnd(true) ==> (event matches LoginEvent::Line(line)
            && holds(line@, "Waiting for client config...OK"@)),
{
}

/// A download whose steps all go well ends without a failure, having been asked for once, as soon
/// as SteamCMD says that it succeeded.
pub proof fn downloads_that_go_well_end(id: u32, retries: u32, line: String)
    requires
        occurs_at(line@, "Success"@, 0),
        !occurs_at(line@, "ERROR!"@, 0),
    ensures
        ({
            let done = DownloadEvent::Done;
            let run = DownloadRun {
                id,
                attempts: Attempts { made: 0, retries },
                step: DownloadStep::MakeDirectory,
                failure: None,
            };
            let asked = run.after(done).after(done).after(done).after(done);
            let end = asked.after(DownloadEvent::Line(line)).after(done);
            &&& asked.step == DownloadStep::ReadLine
            &&& end.step == DownloadStep::Ended
            &&& end.failure is None
            &&& end.attempts.made == 0
        }),
{
}

/// What a download left behind that failed is cleared away before it is tried again. Where it may
/// not be tried again it ends with what went wrong.
pub proof fn failed_downloads_are_cleared_away(run: DownloadRun, event: DownloadEvent, error: Error)
    requires
        run.step == DownloadStep::ReadLine || run.step == DownloadStep::SendCommand,
        event == DownloadEvent::Failed(error) || (run.step == DownloadStep::ReadLine && (
        event matches DownloadEvent::Line(line) && occurs_at(line@, "ERROR!"@, 0) && error
            == Error::Message(line))),
    ensures
        ({
            let cleared = run.after(event);
            let next = cleared.after(DownloadEvent::Done);
            &&& cleared.step == DownloadStep::RemoveManifest
            &&& run.attempts.made < run.attempts.retries ==> next.step
                == DownloadStep::MakeDirectory && next.failure is None && next.attempts.made
                == run.attempts.made + 1
            &&& run.attempts.made >= run.attempts.retries ==> next.step == DownloadStep::Ended
                && next.failure == Some(Error::DownloadFailure(Box::new(error), run.id))
        }),
{
}

/// A login whose steps all go well succeeds as soon as SteamCMD says so and is ready again. One
/// that SteamCMD turns down fails.
pub proof fn logins_end_as_told(cached: bool, good: String, bad: String)
    requires
        holds(good@, "Waiting for client config...OK"@),
        cached ==> !holds(
            good@,
            "FAILED (No cached credentials and @NoPromptForPassword is set)"@,
        ),
        cached ==> holds(bad@, "FAILED (No cached credentials and @NoPromptForPassword is set)"@),
        !cached ==> holds(bad@, "...ERROR (Invalid Password)"@) && !holds(
            bad@,
            "Waiting for client config...OK"@,
        ),
    ensures
        ({
            let done = LoginEvent::Done;
            let run = LoginRun { cached, step: LoginStep::SetDirectory, failure: None };
            let asked = run.after(done).after(done).after(done).after(done);
            let turned_down = asked.after(LoginEvent::Line(bad)).after(done);
            &&& asked.step == LoginStep::ReadLine
            &&& asked.after(LoginEvent::Line(good)).after(done).step == LoginStep::LoggedIn
            &&& turned_down.step == LoginStep::Failed
            &&& turned_down.failure == Some(Error::LoginFailure)
        }),
{
}

} // verus!
