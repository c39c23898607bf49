//! The logs of SteamCMD and of the game.
use vstd::prelude::*;

use super::state::{App, Message};
use crate::files::MonitorFileChange;
use crate::steamcmd::log_line;
use crate::text::join_two;
#[allow(unused_imports)]
use super::state::Action;
#[allow(unused_imports)]
use crate::steamcmd::logged_line;

verus! {

/// What a message does to the logs.
pub open spec fn log_step(a: App, b: App, message: Message, r: Seq<Action>) -> bool {
    match message {
        Message::LogAppend(line) => {
            &&& b == (App { steamcmd_log: b.steamcmd_log, ..a })
            &&& b.steamcmd_log@ == a.steamcmd_log@ + logged_line(line@) + "\n"@
            &&& r.len() == 0
        },
        Message::LaunchLogCreated(contents) => b == (App { launch_log: contents, ..a }) && r.len()
            == 0,
        Message::LaunchLogAppended(contents) => {
            &&& b == (App { launch_log: b.launch_log, ..a })
            &&& b.launch_log@ == a.launch_log@ + contents@
            &&& r.len() == 0
        },
        Message::LaunchLogClear => {
            &&& b == (App { launch_log: b.launch_log, ..a })
            &&& b.launch_log@.len() == 0
            &&& r.len() == 0
        },
        _ => true,
    }
}

impl App {
    /// SteamCMD printed a line.
    pub fn log_append(&mut self, line: &str)
        ensures
            *final(self) == (App { steamcmd_log: final(self).steamcmd_log, ..*old(self) }),
            final(self).steamcmd_log@ == old(self).steamcmd_log@ + logged_line(line@) + "\n"@,
    {
        let shown = log_line(line);
        let longer = join_two(self.steamcmd_log.as_str(), shown.as_str());
        self.steamcmd_log = join_two(longer.as_str(), "\n");
    }

    /// Something was written to the log of the game.
    pub fn launch_log_appended(&mut self, contents: &str)
        ensures
            *final(self) == (App { launch_log: final(self).launch_log, ..*old(self) }),
            final(self).launch_log@ == old(self).launch_log@ + contents@,
    {
        self.launch_log = join_two(self.launch_log.as_str(), contents);
    }
}

/// What the program is told of a change of the game's log.
pub fn log_changed(change: MonitorFileChange) -> (r: Message)
    ensures
        r == match change {
            MonitorFileChange::Create(contents) => Message::LaunchLogCreated(contents),
            MonitorFileChange::Append(contents) => Message::LaunchLogAppended(contents),
        },
{
    match change {
        MonitorFileChange::Create(contents) => Message::LaunchLogCreated(contents),
        MonitorFileChange::Append(contents) => Message::LaunchLogAppended(contents),
    }
}

/// What was logged of the game stays until the log is made anew or cleared.
pub proof fn logs_grow_at_their_end(a: App, b: App, message: Message, r: Seq<Action>)
    requires
        log_step(a, b, message, r),
        message is LogAppend || message is LaunchLogAppended,
    ensures
        a.steamcmd_log@.is_prefix_of(b.steamcmd_log@),
        a.launch_log@.is_prefix_of(b.launch_log@),
{
}

} // verus!
