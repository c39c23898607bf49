//! The state of a session: what was printed and not yet looked at, and what the
//! session is known to do.
use std::collections::VecDeque;

use vstd::prelude::*;

use super::{
    download_ended, force_install_dir_command, join_answer, Error, OutputReader, SessionError,
    SessionEvent, SessionFlags,
};
#[allow(unused_imports)]
use super::{asks_for_input, dumped, event_models, joined_answer, taken_lines, EventModel};
#[allow(unused_imports)]
use crate::extensions::string_views;

verus! {

/// A session of SteamCMD.
pub struct Session {
    /// The lines that were printed and not taken out yet.
    pub buffer: VecDeque<String>,
    pub reader: OutputReader,
    pub logged_in: bool,
    pub killed: bool,
}

#[verifier::ext_equal]
pub struct SessionModel {
    pub buffer: Seq<Seq<char>>,
    pub scratch: Seq<u8>,
    pub waiting: bool,
    pub logged_in: bool,
    pub killed: bool,
}

impl View for Session {
    type V = SessionModel;

    open spec fn view(&self) -> SessionModel {
        SessionModel {
            buffer: string_views(self.buffer@),
            scratch: self.reader.scratch@,
            waiting: self.reader.waiting,
            logged_in: self.logged_in,
            killed: self.killed,
        }
    }
}

/// The lines among what happened.
pub open spec fn lines_in(events: Seq<EventModel>) -> Seq<Seq<char>>
    decreases events.len(),
{
    if events.len() == 0 {
        Seq::empty()
    } else {
        let front = lines_in(events.drop_last());
        match events.last() {
            EventModel::Line(line) => front.push(line),
            _ => front,
        }
    }
}

impl SessionModel {
    pub open spec fn flags(self) -> SessionFlags {
        SessionFlags { waiting: self.waiting, killed: self.killed, logged_in: self.logged_in }
    }

    /// What is told by what was printed.
    pub open spec fn told(self, read: Seq<u8>) -> Seq<EventModel> {
        let (lines, rest) = taken_lines(self.scratch + read);
        if read.len() > 0 && asks_for_input(rest) {
            lines.push(EventModel::Waiting)
        } else {
            lines
        }
    }

    /// The session after something was printed.
    pub open spec fn after(self, read: Seq<u8>) -> SessionModel {
        let rest = taken_lines(self.scratch + read).1;
        SessionModel {
            buffer: self.buffer + lines_in(self.told(read)),
            scratch: rest,
            waiting: read.len() > 0 && asks_for_input(rest),
            ..self
        }
    }
}

impl Session {
    /// A session that was just started.
    pub fn new() -> (r: Self)
        ensures
            r@ == (SessionModel {
                buffer: Seq::empty(),
                scratch: Seq::empty(),
                waiting: false,
                logged_in: false,
                killed: false,
            }),
    {
        let r = Session {
            buffer: VecDeque::new(),
            reader: OutputReader::new(),
            logged_in: false,
            killed: false,
        };
        assert(string_views(r.buffer@) =~= Seq::empty());
        r
    }

    /// Takes in what was printed, and gives what it tells. Its lines are kept.
    pub fn receive(&mut self, read: &[u8]) -> (r: Vec<SessionEvent>)
        ensures
            event_models(r@) == old(self)@.told(read@),
            final(self)@ == old(self)@.after(read@),
    {
        let ghost start = self@;
        let events = self.reader.receive(read);
        let ghost all = event_models(events@);
        let ghost rest = self.reader.scratch@;
        let ghost waiting = self.reader.waiting;
        let mut i: usize = 0;
        assert(string_views(self.buffer@) =~= start.buffer + lines_in(all.take(0)));
        while i < events.len()
            invariant
                0 <= i <= events@.len(),
                all == event_models(events@),
                string_views(self.buffer@) == start.buffer + lines_in(all.take(i as int)),
                self.reader.scratch@ == rest,
                self.reader.waiting == waiting,
                self.logged_in == start.logged_in,
                self.killed == start.killed,
            decreases events@.len() - i,
        {
            proof {
                assert(all.take(i + 1).drop_last() =~= all.take(i as int));
                assert(all.take(i + 1).last() == events@[i as int]@);
            }
            let ghost before = string_views(self.buffer@);
            if let SessionEvent::Line(line) = &events[i] {
                let copy = line.clone();
                let ghost text = copy@;
                self.buffer.push_back(copy);
                assert(string_views(self.buffer@) =~= before.push(text));
                assert(before.push(text) =~= start.buffer + lines_in(all.take(i + 1)));
            }
            i += 1;
        }
        assert(all.take(i as int) =~= all);
        events
    }

    /// The session printed all that it will.
    pub fn shut_down(&mut self) -> (r: SessionEvent)
        ensures
            r is Shutdown,
            final(self)@ == (SessionModel { killed: true, ..old(self)@ }),
    {
        self.killed = true;
        SessionEvent::Shutdown
    }

    /// Returns whether or not the SteamCMD session is ready to receive input.
    pub fn is_waiting(&self) -> (r: bool)
        ensures
            r == self@.waiting,
    {
        self.reader.waiting
    }

    pub fn is_logged_in(&self) -> (r: bool)
        ensures
            r == self@.logged_in,
    {
        self.logged_in
    }

    pub fn is_killed(&self) -> (r: bool)
        ensures
            r == self@.killed,
    {
        self.killed
    }

    /// What the session is known to do.
    pub fn flags(&self) -> (r: SessionFlags)
        ensures
            r == self@.flags(),
    {
        SessionFlags {
            waiting: self.reader.waiting,
            killed: self.killed,
            logged_in: self.logged_in,
        }
    }

    pub fn buffer_empty(&self) -> (r: bool)
        ensures
            r == (self@.buffer.len() == 0),
    {
        self.buffer.len() == 0
    }

    /// Forgets the lines that were printed.
    pub fn clear_buffer(&mut self)
        ensures
            final(self)@ == (SessionModel { buffer: Seq::empty(), ..old(self)@ }),
    {
        self.buffer.clear();
        assert(string_views(self.buffer@) =~= Seq::empty());
    }

    /// Takes out the line that was printed first.
    pub fn consume_line(&mut self) -> (r: Option<String>)
        ensures
            match r {
                Some(line) => {
                    &&& old(self)@.buffer.len() > 0
                    &&& line@ == old(self)@.buffer[0]
                    &&& final(self)@ == (SessionModel {
                        buffer: old(self)@.buffer.skip(1),
                        ..old(self)@
                    })
                },
                None => old(self)@.buffer.len() == 0 && final(self)@ == old(self)@,
            },
    {
        let ghost start = self@;
        let r = self.buffer.pop_front();
        proof {
            if r is Some {
                assert(string_views(self.buffer@) =~= start.buffer.skip(1));
            } else {
                assert(string_views(self.buffer@) =~= start.buffer);
            }
        }
        r
    }

    /// Takes out all lines that were printed.
    pub fn consume_buffer(&mut self) -> (r: Vec<String>)
        ensures
            string_views(r@) == old(self)@.buffer,
            final(self)@ == (SessionModel { buffer: Seq::empty(), ..old(self)@ }),
    {
        let ghost start = self@;
        let mut out: Vec<String> = Vec::new();
        assert(string_views(out@) + string_views(self.buffer@) =~= start.buffer);
        while self.buffer.len() > 0
            invariant
                string_views(out@) + string_views(self.buffer@) == start.buffer,
                self@ == (SessionModel { buffer: string_views(self.buffer@), ..start }),
            decreases self.buffer@.len(),
        {
            let ghost given = string_views(out@);
            let ghost left = string_views(self.buffer@);
            if let Some(line) = self.buffer.pop_front() {
                let ghost text = line@;
                out.push(line);
                assert(string_views(self.buffer@) =~= left.skip(1));
                assert(string_views(out@) =~= given.push(text));
                assert(string_views(out@) + string_views(self.buffer@) =~= given + left);
            }
        }
        assert(string_views(self.buffer@) =~= Seq::empty());
        assert(string_views(out@) =~= start.buffer);
        out
    }

    /// The text that sends a command to the session.
    /// It is an error to send a command when it is known that the
    /// session is currently busy or is killed.
    pub fn send_command(&self, command: &str) -> (r: Result<String, SessionError>)
        ensures
            match r {
                Ok(text) => self@.waiting && !self@.killed && text@ == command@ + "\n"@,
                Err(SessionError::Busy) => !self@.waiting,
                Err(SessionError::Killed) => self@.waiting && self@.killed,
            },
    {
        self.flags().send_command(command)
    }

    /// The text that says where downloads go.
    pub fn force_install_dir(&self, path: &str) -> (r: Result<String, SessionError>)
        ensures
            match r {
                Ok(text) => self@.waiting && !self@.killed && text@ == "force_install_dir "@
                    + path@ + "\n"@,
                Err(SessionError::Busy) => !self@.waiting,
                Err(SessionError::Killed) => self@.waiting && self@.killed,
            },
    {
        self.send_command(force_install_dir_command(path).as_str())
    }

    /// What was answered: each line that was printed, after a line feed.
    pub fn take_answer(&mut self) -> (r: String)
        ensures
            r@ == joined_answer(old(self)@.buffer),
            final(self)@ == (SessionModel { buffer: Seq::empty(), ..old(self)@ }),
    {
        let lines = self.consume_buffer();
        join_answer(&lines)
    }

    /// Why a download failed of which nothing more was heard: with what SteamCMD last
    /// printed where it asks for input again, else because the session has shut down.
    pub fn download_failure(&self) -> (r: Error)
        ensures
            match r {
                Error::Message(text) => self@.waiting && !self@.killed && text@
                    == "Some unhandled error occurred while downloading, dumping buffer:\n"@
                    + dumped(self@.buffer),
                Error::Session(e) => !(self@.waiting && !self@.killed) && e
                    == SessionError::Killed,
                _ => false,
            },
    {
        let mut lines: Vec<String> = Vec::new();
        let ghost all = self@.buffer;
        let mut i: usize = 0;
        assert(string_views(lines@) =~= all.take(0));
        while i < self.buffer.len()
            invariant
                0 <= i <= self.buffer@.len(),
                all == string_views(self.buffer@),
                string_views(lines@) == all.take(i as int),
            decreases self.buffer@.len() - i,
        {
            let ghost before = string_views(lines@);
            let copy = self.buffer[i].clone();
            let ghost text = copy@;
            lines.push(copy);
            assert(string_views(lines@) =~= before.push(text));
            assert(before.push(text) =~= all.take(i + 1));
            i += 1;
        }
        assert(all.take(i as int) =~= all);
        download_ended(&self.flags(), &lines)
    }
}

/// No line is lost: what is taken out of a session and what is left are together what
/// was there, in its order.
pub proof fn lines_come_out_in_their_order(session: SessionModel, read: Seq<u8>)
    ensures
        session.after(read).buffer.take(session.buffer.len() as int) == session.buffer,
        session.after(read).buffer.skip(session.buffer.len() as int) == lines_in(
            session.told(read),
        ),
{
    let all = session.after(read).buffer;
    let n = session.buffer.len() as int;
    assert(all.take(n) =~= session.buffer);
    assert(all.skip(n) =~= lines_in(session.told(read)));
}

} // verus!
