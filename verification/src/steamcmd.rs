//! A session with SteamCMD: what it prints, what it is asked to do and how it
//! answers.
use std::collections::BTreeMap;
use vstd::prelude::*;
use vstd::utf8::{decode_utf8, encode_utf8, valid_utf8};

use crate::files::{ModDetails, XCOM_APPID};
use crate::library::missing::ModIndex;
use crate::numbers::{decimal, parse_unsigned_text};
use crate::steam_manifest::{
    AppWorkshopManifest, ManifestWorkshopItem, ManifestWorkshopItemDetails,
};
use crate::text::{
    bytes_at, bytes_of, chars_at, chars_of, join_two, push_bytes, sub_bytes, text_contains,
    text_starts_with,
};
use crate::xcom_mod::ModId;
#[allow(unused_imports)]
use crate::extensions::string_views;
#[allow(unused_imports)]
use crate::numbers::{decimal_text, unsigned_value};
#[allow(unused_imports)]
use crate::text::{find_from, occurs_at};
#[allow(unused_imports)]
use crate::xcom_mod::ModIdModel;

pub mod laws;
pub mod runs;
pub mod session;

verus! {

broadcast use vstd::std_specs::btree::group_btree_axioms;

/// Codes with which SteamCMD ends or reports what it does, as gathered by the
/// LinuxGSM project.
#[allow(non_camel_case_types)]
#[derive(Debug, Clone, Copy, PartialEq, Eq, Structural)]
pub enum ExitCode {
    UNKNOWN_MAYBE_HLDS,
    INSUFFICIENT_SPACE1,
    UNKNOWN206,
    INSUFFICIENT_SPACE2,
    INTERNAL_CONNECTION_ISSUE,
    UNKNOWN602,
    FILE_PERMISSION_ISSUE,
    MISSING_UPDATE_FILES,
    CORRUPT_UPDATE_FILES,
    UNKNOWN2,
    CONNECTION_FAILURE,
    RECONFIGURING,
    VALIDATING,
    PREALLOCATION,
    DOWNLOADING,
    COMMITTING,
}

impl ExitCode {
    pub open spec fn number(self) -> u16 {
        match self {
            ExitCode::UNKNOWN_MAYBE_HLDS => 0x10E,
            ExitCode::INSUFFICIENT_SPACE1 => 0x202,
            ExitCode::UNKNOWN206 => 0x206,
            ExitCode::INSUFFICIENT_SPACE2 => 0x212,
            ExitCode::INTERNAL_CONNECTION_ISSUE => 0x402,
            ExitCode::UNKNOWN602 => 0x602,
            ExitCode::FILE_PERMISSION_ISSUE => 0x606,
            ExitCode::MISSING_UPDATE_FILES => 0x626,
            ExitCode::CORRUPT_UPDATE_FILES => 0x6A6,
            ExitCode::UNKNOWN2 => 0x2,
            ExitCode::CONNECTION_FAILURE => 0x6,
            ExitCode::RECONFIGURING => 0x3,
            ExitCode::VALIDATING => 0x5,
            ExitCode::PREALLOCATION => 0x11,
            ExitCode::DOWNLOADING => 0x61,
            ExitCode::COMMITTING => 0x101,
        }
    }

    /// The code as a number.
    pub fn code(self) -> (r: u16)
        ensures
            r == self.number(),
    {
        match self {
            ExitCode::UNKNOWN_MAYBE_HLDS => 0x10E,
            ExitCode::INSUFFICIENT_SPACE1 => 0x202,
            ExitCode::UNKNOWN206 => 0x206,
            ExitCode::INSUFFICIENT_SPACE2 => 0x212,
            ExitCode::INTERNAL_CONNECTION_ISSUE => 0x402,
            ExitCode::UNKNOWN602 => 0x602,
            ExitCode::FILE_PERMISSION_ISSUE => 0x606,
            ExitCode::MISSING_UPDATE_FILES => 0x626,
            ExitCode::CORRUPT_UPDATE_FILES => 0x6A6,
            ExitCode::UNKNOWN2 => 0x2,
            ExitCode::CONNECTION_FAILURE => 0x6,
            ExitCode::RECONFIGURING => 0x3,
            ExitCode::VALIDATING => 0x5,
            ExitCode::PREALLOCATION => 0x11,
            ExitCode::DOWNLOADING => 0x61,
            ExitCode::COMMITTING => 0x101,
        }
    }
}

/// No two codes have the same number.
pub proof fn exit_codes_differ(a: ExitCode, b: ExitCode)
    requires
        a.number() == b.number(),
    ensures
        a == b,
{
}

/// Why something could not be asked of a session.
#[derive(Debug, Clone, Copy, PartialEq, Eq, Structural)]
pub enum SessionError {
    Busy,
    Killed,
}

/// Why something that SteamCMD was to do did not come about.
#[derive(Debug)]
pub enum Error {
    NoSession,
    Session(SessionError),
    DownloadFailure(Box<Error>, u32),
    LoginFailure,
    MissingExecutable,
    Message(String),
    Unkown,
}

impl Default for Error {
    fn default() -> (r: Self)
        ensures
            r == Error::Unkown,
    {
        Error::Unkown
    }
}

#[derive(Debug, Clone, Copy, PartialEq, Eq, Structural)]
pub enum NeedsConfirmation {
    Yes,
    No,
}

/// How a session is left.
#[derive(Debug, Clone, Copy, PartialEq, Eq, Structural)]
pub enum SteamCMDExitCommand {
    Quit,
    LogoutAndQuit,
}

impl Default for SteamCMDExitCommand {
    fn default() -> (r: Self)
        ensures
            r == SteamCMDExitCommand::Quit,
    {
        SteamCMDExitCommand::Quit
    }
}

/// The bytes of each command.
pub open spec fn command_bytes(commands: Seq<Vec<u8>>) -> Seq<Seq<u8>> {
    Seq::new(commands.len(), |i: int| commands[i]@)
}

impl SteamCMDExitCommand {
    /// The commands that leave the session, in order.
    pub fn to_bytes(self) -> (r: Vec<Vec<u8>>)
        ensures
            command_bytes(r@) == match self {
                SteamCMDExitCommand::Quit => seq![encode_utf8("quit"@)],
                SteamCMDExitCommand::LogoutAndQuit => seq![
                    encode_utf8("logout"@),
                    encode_utf8("quit"@),
                ],
            },
    {
        match self {
            SteamCMDExitCommand::Quit => {
                let r = vec![bytes_of("quit")];
                assert(command_bytes(r@) =~= seq![encode_utf8("quit"@)]);
                r
            },
            SteamCMDExitCommand::LogoutAndQuit => {
                let r = vec![bytes_of("logout"), bytes_of("quit")];
                assert(command_bytes(r@) =~= seq![encode_utf8("logout"@), encode_utf8("quit"@)]);
                r
            },
        }
    }
}

/// Something that happened in a session.
#[derive(Debug)]
pub enum SessionEvent {
    /// Session was killed for some reason
    Shutdown,
    /// SteamCMD has output `Steam>` and is awaiting input
    Waiting,
    /// SteamCMD has outputted a line break
    Line(String),
    /// There was an error attempting to write to the session
    WriteError(String),
}

#[verifier::ext_equal]
pub enum EventModel {
    Shutdown,
    Waiting,
    Line(Seq<char>),
    WriteError(Seq<char>),
}

impl View for SessionEvent {
    type V = EventModel;

    open spec fn view(&self) -> EventModel {
        match self {
            SessionEvent::Shutdown => EventModel::Shutdown,
            SessionEvent::Waiting => EventModel::Waiting,
            SessionEvent::Line(text) => EventModel::Line(text@),
            SessionEvent::WriteError(text) => EventModel::WriteError(text@),
        }
    }
}

pub open spec fn event_models(events: Seq<SessionEvent>) -> Seq<EventModel> {
    Seq::new(events.len(), |i: int| events[i]@)
}

/// Bytes without the escape sequences of a terminal.
pub uninterp spec fn stripped(bytes: Seq<u8>) -> Seq<u8>;

/// [`strip_ansi_escapes::strip`] takes the escape sequences of a terminal out of
/// bytes. Which bytes belong to them is left unsaid.
#[verifier::external_body]
fn strip_escapes(bytes: &[u8]) -> (r: Vec<u8>)
    ensures
        r@ == stripped(bytes@),
{
    strip_ansi_escapes::strip(bytes)
}

/// Bytes as they are shown as a text.
pub uninterp spec fn displayed(bytes: Seq<u8>) -> Seq<char>;

/// `to_string` of [`bstr::BStr`] gives the text that well-formed bytes encode, and
/// puts a replacement character in the place of each part that is not
/// well-formed. How it divides what is not well-formed is left unsaid.
#[verifier::external_body]
fn display_bytes(bytes: &[u8]) -> (r: String)
    ensures
        r@ == displayed(bytes@),
        valid_utf8(bytes@) ==> r@ == decode_utf8(bytes@),
{
    bstr::BStr::new(bytes).to_string()
}

/// How a line that was printed is logged.
pub open spec fn logged_line(line: Seq<char>) -> Seq<char> {
    displayed(stripped(encode_utf8(line)))
}

/// How a line that was printed is logged.
pub fn log_line(line: &str) -> (r: String)
    ensures
        r@ == logged_line(line@),
{
    display_bytes(strip_escapes(bytes_of(line).as_slice()).as_slice())
}

/// How many digits stand in `b` from `at` on.
pub open spec fn digits_run(b: Seq<u8>, at: int) -> nat
    decreases b.len() - at,
{
    if 0 <= at < b.len() && 48 <= b[at] <= 57 {
        1 + digits_run(b, at + 1)
    } else {
        0
    }
}

/// The last byte of the sequence that moves the cursor and begins at `i`, if one
/// does: an escape, a bracket, a number, a semicolon, a number and an `H`.
pub open spec fn cursor_move_end(b: Seq<u8>, i: int) -> Option<int> {
    if i + 1 < b.len() && b[i] == 27 && b[i + 1] == 91 {
        let m = digits_run(b, i + 2);
        let semicolon = i + 2 + m;
        let n = digits_run(b, semicolon + 1);
        let end = semicolon + 1 + n;
        if m > 0 && semicolon < b.len() && b[semicolon] == 59 && n > 0 && end < b.len() && b[end]
            == 72 {
            Some(end)
        } else {
            None
        }
    } else {
        None
    }
}

/// The last byte of the first sequence at or after `from` that moves the cursor.
pub open spec fn cursor_move_from(b: Seq<u8>, from: int) -> Option<int>
    decreases b.len() - from,
{
    if from < 0 || from >= b.len() {
        None
    } else {
        match cursor_move_end(b, from) {
            Some(end) => Some(end),
            None => cursor_move_from(b, from + 1),
        }
    }
}

/// The first carriage return or line feed at or after `from`.
pub open spec fn line_break_from(b: Seq<u8>, from: int) -> Option<int>
    decreases b.len() - from,
{
    if from < 0 || from >= b.len() {
        None
    } else if b[from] == 13 || b[from] == 10 {
        Some(from)
    } else {
        line_break_from(b, from + 1)
    }
}

/// Where the first line ends: how many bytes it has, and how many go with it. A
/// line ends at a line break, or where there is none at a move of the cursor.
pub open spec fn line_end(b: Seq<u8>) -> Option<(int, int)> {
    let at = match line_break_from(b, 0) {
        Some(i) => Some(i),
        None => cursor_move_from(b, 0),
    };
    match at {
        None => None,
        Some(i) => if b[i] == 13 && i + 1 < b.len() && b[i + 1] == 10 {
            Some((i, i + 2))
        } else {
            Some((i, i + 1))
        },
    }
}

/// What is passed on of a line, if anything: no command line, and nothing behind
/// the word `login`.
pub open spec fn shown_line(line: Seq<char>) -> Option<Seq<char>> {
    if occurs_at(line, "Steam>"@, 0) {
        None
    } else if occurs_at(line, "login"@, 0) {
        Some("login [REDACTED]"@)
    } else {
        Some(line)
    }
}

proof fn lemma_digits_run_bounds(b: Seq<u8>, at: int)
    requires
        0 <= at <= b.len(),
    ensures
        at + digits_run(b, at) <= b.len(),
    decreases b.len() - at,
{
    if at < b.len() && 48 <= b[at] <= 57 {
        lemma_digits_run_bounds(b, at + 1);
    }
}

pub proof fn lemma_line_end_bounds(b: Seq<u8>)
    ensures
        match line_end(b) {
            Some((line, all)) => 0 <= line < all <= b.len(),
            None => true,
        },
{
    lemma_break_bounds(b, 0);
    lemma_cursor_bounds(b, 0);
}

proof fn lemma_break_bounds(b: Seq<u8>, from: int)
    requires
        0 <= from,
    ensures
        match line_break_from(b, from) {
            Some(i) => from <= i < b.len(),
            None => true,
        },
    decreases b.len() - from,
{
    if from < b.len() && b[from] != 13 && b[from] != 10 {
        lemma_break_bounds(b, from + 1);
    }
}

proof fn lemma_cursor_bounds(b: Seq<u8>, from: int)
    requires
        0 <= from,
    ensures
        match cursor_move_from(b, from) {
            Some(i) => from <= i < b.len(),
            None => true,
        },
    decreases b.len() - from,
{
    if from < b.len() && cursor_move_end(b, from) is None {
        lemma_cursor_bounds(b, from + 1);
    }
}

/// The lines that are passed on of the whole lines in `b`, and what is left
/// behind them.
pub open spec fn taken_lines(b: Seq<u8>) -> (Seq<EventModel>, Seq<u8>)
    decreases b.len(),
{
    proof {
        lemma_line_end_bounds(b);
    }
    match line_end(b) {
        None => (Seq::empty(), b),
        Some((line, all)) => {
            let (more, rest) = taken_lines(b.skip(all));
            let text = displayed(stripped(b.take(line)));
            match shown_line(text) {
                Some(shown) => (seq![EventModel::Line(shown)] + more, rest),
                None => (more, rest),
            }
        },
    }
}

/// Whether `b` ends with `end`.
pub open spec fn ends_with(b: Seq<u8>, end: Seq<u8>) -> bool {
    occurs_at(b, end, b.len() - end.len())
}

/// `Steam>`
pub open spec fn prompt() -> Seq<u8> {
    seq![83, 116, 101, 97, 109, 62]
}

/// `Steam>` and a reset of the colours.
pub open spec fn prompt_reset() -> Seq<u8> {
    seq![83, 116, 101, 97, 109, 62, 27, 91, 48, 109]
}

/// `Steam>` and a cursor that is shown.
pub open spec fn prompt_cursor() -> Seq<u8> {
    seq![83, 116, 101, 97, 109, 62, 27, 91, 63, 50, 53, 104]
}

/// Whether SteamCMD asks for input behind what it printed.
pub open spec fn asks_for_input(b: Seq<u8>) -> bool {
    ends_with(b, prompt_reset()) || ends_with(b, prompt_cursor()) || ends_with(b, prompt())
}

fn count_digits(b: &[u8], at: usize) -> (r: usize)
    requires
        at <= b@.len(),
    ensures
        r == digits_run(b@, at as int),
        at + r <= b@.len(),
{
    let total: usize = b.len();
    let mut i: usize = at;
    proof {
        lemma_digits_run_bounds(b@, at as int);
    }
    while i < total && b[i] >= 48 && b[i] <= 57
        invariant
            at <= i <= total,
            total == b@.len(),
            digits_run(b@, at as int) == (i - at) + digits_run(b@, i as int),
        decreases total - i,
    {
        i += 1;
    }
    i - at
}

/// The last byte of the sequence that moves the cursor and begins at `i`.
fn cursor_move_at(b: &[u8], i: usize) -> (r: Option<usize>)
    requires
        i < b@.len(),
    ensures
        match r {
            Some(end) => cursor_move_end(b@, i as int) == Some(end as int),
            None => cursor_move_end(b@, i as int) is None,
        },
{
    let total: usize = b.len();
    if total - i < 2 || b[i] != 27 || b[i + 1] != 91 {
        return None;
    }
    let m = count_digits(b, i + 2);
    let semicolon: usize = i + 2 + m;
    if m == 0 || semicolon >= total || b[semicolon] != 59 {
        return None;
    }
    let n = count_digits(b, semicolon + 1);
    let end: usize = semicolon + 1 + n;
    if n == 0 || end >= total || b[end] != 72 {
        return None;
    }
    Some(end)
}

/// The last byte of the first sequence that moves the cursor.
pub fn find_cursor_reposition(b: &[u8]) -> (r: Option<usize>)
    ensures
        match r {
            Some(end) => cursor_move_from(b@, 0) == Some(end as int),
            None => cursor_move_from(b@, 0) is None,
        },
{
    let total: usize = b.len();
    let mut i: usize = 0;
    while i < total
        invariant
            0 <= i <= total,
            total == b@.len(),
            cursor_move_from(b@, 0) == cursor_move_from(b@, i as int),
        decreases total - i,
    {
        if let Some(end) = cursor_move_at(b, i) {
            return Some(end);
        }
        i += 1;
    }
    None
}

fn find_line_break(b: &[u8]) -> (r: Option<usize>)
    ensures
        match r {
            Some(i) => line_break_from(b@, 0) == Some(i as int),
            None => line_break_from(b@, 0) is None,
        },
{
    let total: usize = b.len();
    let mut i: usize = 0;
    while i < total
        invariant
            0 <= i <= total,
            total == b@.len(),
            line_break_from(b@, 0) == line_break_from(b@, i as int),
        decreases total - i,
    {
        if b[i] == 13 || b[i] == 10 {
            return Some(i);
        }
        i += 1;
    }
    None
}

fn find_line_end(b: &[u8]) -> (r: Option<(usize, usize)>)
    ensures
        match r {
            Some((line, all)) => line_end(b@) == Some((line as int, all as int)) && line < all
                <= b@.len(),
            None => line_end(b@) is None,
        },
{
    proof {
        lemma_line_end_bounds(b@);
    }
    let total: usize = b.len();
    let at: Option<usize> = match find_line_break(b) {
        Some(i) => Some(i),
        None => find_cursor_reposition(b),
    };
    match at {
        None => None,
        Some(i) => {
            proof {
                lemma_break_bounds(b@, 0);
                lemma_cursor_bounds(b@, 0);
            }
            if b[i] == 13 && total - i > 1 && b[i + 1] == 10 {
                Some((i, i + 2))
            } else {
                Some((i, i + 1))
            }
        },
    }
}

/// What is passed on of a line, if anything.
pub fn redact_line(line: String) -> (r: Option<String>)
    ensures
        match r {
            Some(shown) => shown_line(line@) == Some(shown@),
            None => shown_line(line@) is None,
        },
{
    let s = chars_of(line.as_str());
    let prompt = chars_of("Steam>");
    let login = chars_of("login");
    if chars_at(s.as_slice(), prompt.as_slice(), 0) {
        None
    } else if chars_at(s.as_slice(), login.as_slice(), 0) {
        Some("login [REDACTED]".to_owned())
    } else {
        Some(line)
    }
}

fn bytes_end_with(b: &[u8], end: &Vec<u8>) -> (r: bool)
    ensures
        r == ends_with(b@, end@),
{
    let total: usize = b.len();
    if end.len() > total {
        return false;
    }
    bytes_at(b, end.as_slice(), total - end.len())
}

fn prompt_shown(b: &[u8]) -> (r: bool)
    ensures
        r == asks_for_input(b@),
{
    let plain: Vec<u8> = vec![83, 116, 101, 97, 109, 62];
    let reset: Vec<u8> = vec![83, 116, 101, 97, 109, 62, 27, 91, 48, 109];
    let cursor: Vec<u8> = vec![83, 116, 101, 97, 109, 62, 27, 91, 63, 50, 53, 104];
    assert(plain@ =~= prompt());
    assert(reset@ =~= prompt_reset());
    assert(cursor@ =~= prompt_cursor());
    bytes_end_with(b, &reset) || bytes_end_with(b, &cursor) || bytes_end_with(b, &plain)
}

/// What was printed and not yet passed on.
pub struct OutputReader {
    pub scratch: Vec<u8>,
    /// Whether SteamCMD asks for input.
    pub waiting: bool,
}

impl OutputReader {
    pub fn new() -> (r: Self)
        ensures
            r.scratch@ == Seq::<u8>::empty(),
            !r.waiting,
    {
        OutputReader { scratch: Vec::new(), waiting: false }
    }

    /// Takes what was printed, and gives what it tells.
    pub fn receive(&mut self, read: &[u8]) -> (r: Vec<SessionEvent>)
        ensures
            ({
                let (lines, rest) = taken_lines(old(self).scratch@ + read@);
                let waiting = read@.len() > 0 && asks_for_input(rest);
                &&& final(self).scratch@ == rest
                &&& final(self).waiting == waiting
                &&& event_models(r@) == if waiting {
                    lines.push(EventModel::Waiting)
                } else {
                    lines
                }
            }),
    {
        let mut rest: Vec<u8> = sub_bytes(self.scratch.as_slice(), 0, self.scratch.len());
        assert(rest@ =~= self.scratch@);
        push_bytes(&mut rest, read);
        let ghost all = rest@;
        let ghost expected = taken_lines(all);
        let mut events: Vec<SessionEvent> = Vec::new();
        assert(event_models(events@) =~= Seq::empty());
        assert(event_models(events@) + expected.0 =~= expected.0);
        loop
            invariant
                expected == taken_lines(all),
                expected.0 == event_models(events@) + taken_lines(rest@).0,
                expected.1 == taken_lines(rest@).1,
            ensures
                expected.0 == event_models(events@),
                expected.1 == rest@,
            decreases rest@.len(),
        {
            match find_line_end(rest.as_slice()) {
                None => {
                    assert(event_models(events@) + Seq::<EventModel>::empty() =~= event_models(
                        events@,
                    ));
                    break;
                },
                Some((line, end)) => {
                    let bytes = sub_bytes(rest.as_slice(), 0, line);
                    let behind = sub_bytes(rest.as_slice(), end, rest.len());
                    assert(bytes@ =~= rest@.take(line as int));
                    assert(behind@ =~= rest@.skip(end as int));
                    let plain = strip_escapes(bytes.as_slice());
                    let text = display_bytes(plain.as_slice());
                    let ghost before = event_models(events@);
                    let ghost more = taken_lines(behind@).0;
                    if let Some(shown) = redact_line(text) {
                        let ghost view = shown@;
                        events.push(SessionEvent::Line(shown));
                        proof {
                            assert(event_models(events@) =~= before.push(EventModel::Line(view)));
                            assert(before + (seq![EventModel::Line(view)] + more) =~= event_models(
                                events@,
                            ) + more);
                        }
                    }
                    rest = behind;
                },
            }
        }
        let waiting = read.len() > 0 && prompt_shown(rest.as_slice());
        if waiting {
            let ghost before = event_models(events@);
            events.push(SessionEvent::Waiting);
            assert(event_models(events@) =~= before.push(EventModel::Waiting));
        }
        self.waiting = waiting;
        self.scratch = rest;
        events
    }
}

/// No line that is passed on tells more of a login than that there was one.
pub proof fn logins_are_redacted(line: Seq<char>)
    requires
        occurs_at(line, "login"@, 0),
    ensures
        shown_line(line) == Some("login [REDACTED]"@) || shown_line(line) is None,
{
}

/// What a session is known to do.
#[derive(Debug, Clone, Copy, PartialEq, Eq, Structural)]
pub struct SessionFlags {
    pub waiting: bool,
    pub killed: bool,
    pub logged_in: bool,
}

impl SessionFlags {
    /// The text that sends a command to the session.
    /// It is an error to send a command when it is known that the
    /// session is currently busy or is killed.
    pub fn send_command(&self, command: &str) -> (r: Result<String, SessionError>)
        ensures
            match r {
                Ok(text) => self.waiting && !self.killed && text@ == command@ + "\n"@,
                Err(SessionError::Busy) => !self.waiting,
                Err(SessionError::Killed) => self.waiting && self.killed,
            },
    {
        if !self.waiting {
            return Err(SessionError::Busy);
        } else if self.killed {
            return Err(SessionError::Killed);
        }
        Ok(join_two(command, "\n"))
    }

    /// Whether the wait for input is over before anything more happens: `false`
    /// for a session that has shut down, `true` for one that asks for input.
    pub fn input_ready(&self) -> (r: Option<bool>)
        ensures
            r == if self.killed {
                Some(false)
            } else if self.waiting {
                Some(true)
            } else {
                None
            },
    {
        if self.killed {
            Some(false)
        } else if self.waiting {
            Some(true)
        } else {
            None
        }
    }
}

/// Whether the wait for input is over after something happened, where `None`
/// stands for a session of which nothing more will be heard.
pub fn input_after(event: &Option<SessionEvent>) -> (r: Option<bool>)
    ensures
        r == match event {
            Some(SessionEvent::Waiting) => Some(true),
            Some(SessionEvent::Shutdown) | None => Some(false),
            Some(_) => None,
        },
{
    match event {
        Some(SessionEvent::Waiting) => Some(true),
        Some(SessionEvent::Shutdown) | None => Some(false),
        Some(_) => None,
    }
}

/// What a wait for a line comes to.
#[derive(Debug)]
pub enum LineWait {
    /// A line came.
    Got(String),
    /// No line will come.
    Ended,
    /// The wait goes on.
    Waiting,
}

/// What a wait for a line comes to after something happened.
pub fn line_after(event: Option<SessionEvent>) -> (r: LineWait)
    ensures
        r == match event {
            Some(SessionEvent::Line(line)) => LineWait::Got(line),
            Some(SessionEvent::Shutdown) | None => LineWait::Ended,
            Some(_) => LineWait::Waiting,
        },
{
    match event {
        Some(SessionEvent::Line(line)) => LineWait::Got(line),
        Some(SessionEvent::Shutdown) | None => LineWait::Ended,
        Some(_) => LineWait::Waiting,
    }
}

/// Lines that were answered, each after a line feed.
pub open spec fn joined_answer(lines: Seq<Seq<char>>) -> Seq<char>
    decreases lines.len(),
{
    if lines.len() == 0 {
        Seq::empty()
    } else {
        joined_answer(lines.drop_last()) + "\n"@ + lines.last()
    }
}

/// Lines that were answered, each after a line feed.
pub fn join_answer(lines: &Vec<String>) -> (r: String)
    ensures
        r@ == joined_answer(string_views(lines@)),
{
    let ghost all = string_views(lines@);
    let mut result = String::new();
    let mut i: usize = 0;
    assert(result@ =~= joined_answer(all.take(0)));
    while i < lines.len()
        invariant
            0 <= i <= lines@.len(),
            all == string_views(lines@),
            result@ == joined_answer(all.take(i as int)),
        decreases lines@.len() - i,
    {
        assert(all.take(i + 1).drop_last() =~= all.take(i as int));
        let fed = join_two(result.as_str(), "\n");
        result = join_two(fed.as_str(), lines[i].as_str());
        i += 1;
    }
    assert(all.take(i as int) =~= all);
    result
}

/// The command that looks for commands.
pub fn find_command(s: &str) -> (r: String)
    ensures
        r@ == "find \""@ + s@ + "\""@,
{
    let a = join_two("find \"", s);
    join_two(a.as_str(), "\"")
}

/// The command that says where downloads go.
pub fn force_install_dir_command(path: &str) -> (r: String)
    ensures
        r@ == "force_install_dir "@ + path@,
{
    join_two("force_install_dir ", path)
}

/// The command that keeps SteamCMD from asking for a password.
pub fn no_prompt_command() -> (r: String)
    ensures
        r@ == "@NoPromptForPassword 1"@,
{
    "@NoPromptForPassword 1".to_owned()
}

pub open spec fn cached_login_text(user: Seq<char>) -> Seq<char> {
    "login "@ + user
}

/// The command that logs a user in whose credentials Steam has kept.
pub fn login_cached_command(user: &str) -> (r: String)
    ensures
        r@ == cached_login_text(user@),
{
    join_two("login ", user)
}

pub open spec fn login_text(user: Seq<char>, pass: Seq<char>, code: Seq<char>) -> Seq<char> {
    "login \""@ + user + "\" \""@ + pass + "\" \""@ + code + "\""@
}

/// The command that logs a user in.
pub fn login_command(user: &str, pass: &str, code: &str) -> (r: String)
    ensures
        r@ == login_text(user@, pass@, code@),
{
    let a = join_two("login \"", user);
    let b = join_two(a.as_str(), "\" \"");
    let c = join_two(b.as_str(), pass);
    let d = join_two(c.as_str(), "\" \"");
    let e = join_two(d.as_str(), code);
    join_two(e.as_str(), "\"")
}

pub open spec fn download_text(app_id: u64, file_id: u64) -> Seq<char> {
    "workshop_download_item "@ + decimal_text(app_id as nat) + " "@ + decimal_text(file_id as nat)
}

/// The command that downloads an item.
pub fn download_command(app_id: u64, file_id: u64) -> (r: String)
    ensures
        r@ == download_text(app_id, file_id),
{
    let app = decimal(app_id);
    let file = decimal(file_id);
    let a = join_two("workshop_download_item ", app.as_str());
    let b = join_two(a.as_str(), " ");
    join_two(b.as_str(), file.as_str())
}

/// What a line says of a login that is under way.
#[derive(Debug, Clone, Copy, PartialEq, Eq, Structural)]
pub enum LoginLine {
    LoggedIn,
    Failed,
    Irrelevant,
}

pub open spec fn holds(line: Seq<char>, part: Seq<char>) -> bool {
    find_from(line, part, 0) is Some
}

/// What a line says of a login with kept credentials.
pub fn cached_login_line(line: &str) -> (r: LoginLine)
    ensures
        r == if holds(
            line@,
            "FAILED (No cached credentials and @NoPromptForPassword is set)"@,
        ) {
            LoginLine::Failed
        } else if holds(line@, "Waiting for client config...OK"@) {
            LoginLine::LoggedIn
        } else {
            LoginLine::Irrelevant
        },
{
    if text_contains(line, "FAILED (No cached credentials and @NoPromptForPassword is set)") {
        LoginLine::Failed
    } else if text_contains(line, "Waiting for client config...OK") {
        LoginLine::LoggedIn
    } else {
        LoginLine::Irrelevant
    }
}

/// What a line says of a login with a password.
pub fn full_login_line(line: &str) -> (r: LoginLine)
    ensures
        r == if holds(line@, "Waiting for client config...OK"@) {
            LoginLine::LoggedIn
        } else if holds(line@, "...ERROR (Invalid Password)"@) {
            LoginLine::Failed
        } else {
            LoginLine::Irrelevant
        },
{
    if text_contains(line, "Waiting for client config...OK") {
        LoginLine::LoggedIn
    } else if text_contains(line, "...ERROR (Invalid Password)") {
        LoginLine::Failed
    } else {
        LoginLine::Irrelevant
    }
}

/// What a line says of a download that is under way.
#[derive(Debug)]
pub enum DownloadLine {
    Succeeded,
    /// The download failed, and this is why.
    Failed(String),
    Irrelevant,
}

pub fn download_line(line: String) -> (r: DownloadLine)
    ensures
        r == if occurs_at(line@, "ERROR!"@, 0) {
            DownloadLine::Failed(line)
        } else if occurs_at(line@, "Success"@, 0) {
            DownloadLine::Succeeded
        } else {
            DownloadLine::Irrelevant
        },
{
    if text_starts_with(line.as_str(), "ERROR!") {
        DownloadLine::Failed(line)
    } else if text_starts_with(line.as_str(), "Success") {
        DownloadLine::Succeeded
    } else {
        DownloadLine::Irrelevant
    }
}

/// Lines with a line feed between each two.
pub open spec fn dumped(lines: Seq<Seq<char>>) -> Seq<char>
    decreases lines.len(),
{
    if lines.len() == 0 {
        Seq::empty()
    } else if lines.len() == 1 {
        lines[0]
    } else {
        dumped(lines.drop_last()) + "\n"@ + lines.last()
    }
}

fn dump(lines: &Vec<String>) -> (r: String)
    ensures
        r@ == dumped(string_views(lines@)),
{
    let ghost all = string_views(lines@);
    let mut result = String::new();
    let mut i: usize = 0;
    assert(result@ =~= dumped(all.take(0)));
    while i < lines.len()
        invariant
            0 <= i <= lines@.len(),
            all == string_views(lines@),
            result@ == dumped(all.take(i as int)),
        decreases lines@.len() - i,
    {
        assert(all.take(i + 1).drop_last() =~= all.take(i as int));
        if i == 0 {
            result = lines[i].clone();
            assert(all.take(1)[0] == all[0]);
        } else {
            let fed = join_two(result.as_str(), "\n");
            result = join_two(fed.as_str(), lines[i].as_str());
        }
        i += 1;
    }
    assert(all.take(i as int) =~= all);
    result
}

/// Why a download failed of which nothing more was heard: with what SteamCMD last
/// printed where it asks for input again, else because the session has shut down.
pub fn download_ended(flags: &SessionFlags, buffer: &Vec<String>) -> (r: Error)
    ensures
        match r {
            Error::Message(text) => flags.waiting && !flags.killed && text@
                == "Some unhandled error occurred while downloading, dumping buffer:\n"@ + dumped(
                string_views(buffer@),
            ),
            Error::Session(e) => !(flags.waiting && !flags.killed) && e == SessionError::Killed,
            _ => false,
        },
{
    if flags.waiting && !flags.killed {
        let text = dump(buffer);
        return Error::Message(
            join_two(
                "Some unhandled error occurred while downloading, dumping buffer:\n",
                text.as_str(),
            ),
        );
    }
    Error::Session(SessionError::Killed)
}

/// A failed download of an item.
pub fn download_failed(error: Error, id: u32) -> (r: Error)
    ensures
        r == Error::DownloadFailure(Box::new(error), id),
{
    Error::DownloadFailure(Box::new(error), id)
}

/// How often a download was tried.
#[derive(Debug, Clone, Copy, PartialEq, Eq, Structural)]
pub struct Attempts {
    pub made: u32,
    pub retries: u32,
}

impl Attempts {
    pub fn new(retries: u32) -> (r: Self)
        ensures
            r.made == 0,
            r.retries == retries,
    {
        Attempts { made: 0, retries }
    }

    /// Whether a download is tried once more after it came to an end, and the attempts
    /// then.
    pub open spec fn tried(self, failed: bool) -> (bool, Attempts) {
        if failed && self.made < self.retries {
            (true, Attempts { made: (self.made + 1) as u32, retries: self.retries })
        } else {
            (false, self)
        }
    }

    /// The attempts after downloads failed so often in a row.
    pub open spec fn after_failures(self, failures: nat) -> Attempts
        decreases failures,
    {
        if failures == 0 {
            self
        } else {
            self.after_failures((failures - 1) as nat).tried(true).1
        }
    }

    /// Whether a download is tried once more after it came to an end.
    pub fn try_again(&mut self, failed: bool) -> (r: bool)
        ensures
            (r, *final(self)) == old(self).tried(failed),
    {
        if failed && self.made < self.retries {
            self.made = self.made + 1;
            true
        } else {
            false
        }
    }
}

/// A download that fails again and again is tried once more after each failure, as
/// often as retries are allowed, and then no more. One that does not fail is not
/// tried again.
pub proof fn downloads_are_tried_again_as_often_as_allowed(retries: u32, failures: nat)
    ensures
        ({
            let now = (Attempts { made: 0, retries }).after_failures(failures);
            &&& now.tried(true).0 == (failures < retries)
            &&& !now.tried(false).0
            &&& now.retries == retries
            &&& now.made == if failures < retries {
                failures as int
            } else {
                retries as int
            }
        }),
    decreases failures,
{
    if failures > 0 {
        downloads_are_tried_again_as_often_as_allowed(retries, (failures - 1) as nat);
    }
}

/// A place where SteamCMD may be.
#[derive(Debug)]
pub struct Candidate {
    pub path: String,
    pub exists: bool,
}

/// The place where SteamCMD is: the given one, else the first of those on the
/// search path. It is an error if there is none, or nothing is there.
pub fn which_steamcmd(
    given: Option<Candidate>,
    command: Option<Candidate>,
    script: Option<Candidate>,
) -> (r: Result<String, Error>)
    ensures
        ({
            let first = match given {
                Some(c) => Some(c),
                None => match command {
                    Some(c) => Some(c),
                    None => script,
                },
            };
            match r {
                Ok(path) => first is Some && first->0.exists && path == first->0.path,
                Err(e) => (first is None || !first->0.exists) && e == Error::MissingExecutable,
            }
        }),
{
    let first = match given {
        Some(c) => Some(c),
        None => match command {
            Some(c) => Some(c),
            None => script,
        },
    };
    match first {
        Some(c) => if c.exists {
            Ok(c.path)
        } else {
            Err(Error::MissingExecutable)
        },
        None => Err(Error::MissingExecutable),
    }
}

/// The size that the workshop gives for an item, if it is a number.
pub open spec fn size_of(index: ModIndex, id: u32) -> Option<nat> {
    let key = ModIdModel::Workshop(id);
    if index.details@.dom().contains(key) {
        match index.details@[key] {
            ModDetails::Workshop(details) => unsigned_value(
                encode_utf8(details.file_size@),
                u64::MAX as nat,
            ),
            ModDetails::Local(_) => None,
        }
    } else {
        None
    }
}

/// The content that the workshop gives for an item.
pub open spec fn content_of(index: ModIndex, id: u32) -> Option<Seq<char>> {
    let key = ModIdModel::Workshop(id);
    if index.details@.dom().contains(key) {
        match index.details@[key] {
            ModDetails::Workshop(details) => match details.hcontent_file {
                Some(manifest) => Some(manifest@),
                None => None,
            },
            ModDetails::Local(_) => None,
        }
    } else {
        None
    }
}

/// The sizes of all items together, each counted once.
pub open spec fn total_size(index: ModIndex, ids: Seq<u32>) -> nat
    decreases ids.len(),
{
    if ids.len() == 0 {
        0
    } else {
        let front = total_size(index, ids.drop_last());
        if ids.drop_last().contains(ids.last()) {
            front
        } else {
            match size_of(index, ids.last()) {
                Some(n) => front + n,
                None => front,
            }
        }
    }
}

/// Whether an item is listed: its size and its content are known.
pub open spec fn is_listed(index: ModIndex, ids: Seq<u32>, key: u64) -> bool {
    &&& key <= u32::MAX
    &&& ids.contains(key as u32)
    &&& size_of(index, key as u32) is Some
    &&& content_of(index, key as u32) is Some
}

proof fn lemma_total_grows(index: ModIndex, ids: Seq<u32>, k: int)
    requires
        0 <= k <= ids.len(),
    ensures
        total_size(index, ids.take(k)) <= total_size(index, ids),
    decreases ids.len() - k,
{
    if k < ids.len() {
        lemma_total_grows(index, ids, k + 1);
        assert(ids.take(k + 1).drop_last() =~= ids.take(k));
    } else {
        assert(ids.take(k) =~= ids);
    }
}

/// Steam's record of the items in the library.
pub fn build_manifest(library_ids: &Vec<u32>, index: &ModIndex, now: u64) -> (r: AppWorkshopManifest)
    requires
        total_size(*index, library_ids@) <= u64::MAX,
    ensures
        r.app_id == 268500,
        r.size_on_disk == total_size(*index, library_ids@),
        !r.needs_update,
        !r.needs_download,
        r.time_last_updated == 0,
        r.time_last_app_ran == 0,
        r.last_build_id == 0,
        forall|key: u64|
            #![trigger r.workshop_items_installed@.dom().contains(key)]
            r.workshop_items_installed@.dom().contains(key) <==> is_listed(
                *index,
                library_ids@,
                key,
            ),
        forall|key: u64|
            #![trigger r.workshop_item_details@.dom().contains(key)]
            r.workshop_item_details@.dom().contains(key) <==> is_listed(*index, library_ids@, key),
        forall|key: u64|
            #![trigger r.workshop_items_installed@[key]]
            is_listed(*index, library_ids@, key) ==> ({
                let item = r.workshop_items_installed@[key];
                &&& Some(item.size as nat) == size_of(*index, key as u32)
                &&& item.time_updated == 0
                &&& Some(item.manifest@) == content_of(*index, key as u32)
            }),
        forall|key: u64|
            #![trigger r.workshop_item_details@[key]]
            is_listed(*index, library_ids@, key) ==> ({
                let details = r.workshop_item_details@[key];
                &&& Some(details.manifest@) == content_of(*index, key as u32)
                &&& details.time_updated == 0
                &&& details.time_touched == now
                &&& Some(details.bytes_downloaded as nat) == size_of(*index, key as u32)
                &&& details.bytes_to_download == 0
                &&& details.latest_time_updated == 0
                &&& Some(details.latest_manifest@) == content_of(*index, key as u32)
            }),
{
    let mut installed: BTreeMap<u64, ManifestWorkshopItem> = BTreeMap::new();
    let mut listed: BTreeMap<u64, ManifestWorkshopItemDetails> = BTreeMap::new();
    let mut size: u64 = 0;
    let mut i: usize = 0;
    while i < library_ids.len()
        invariant
            0 <= i <= library_ids@.len(),
            total_size(*index, library_ids@) <= u64::MAX,
            size == total_size(*index, library_ids@.take(i as int)),
            forall|key: u64|
                #![trigger installed@.dom().contains(key)]
                installed@.dom().contains(key) <==> is_listed(
                    *index,
                    library_ids@.take(i as int),
                    key,
                ),
            forall|key: u64|
                #![trigger listed@.dom().contains(key)]
                listed@.dom().contains(key) <==> is_listed(
                    *index,
                    library_ids@.take(i as int),
                    key,
                ),
            forall|key: u64|
                #![trigger installed@[key]]
                installed@.dom().contains(key) ==> ({
                    let item = installed@[key];
                    &&& Some(item.size as nat) == size_of(*index, key as u32)
                    &&& item.time_updated == 0
                    &&& Some(item.manifest@) == content_of(*index, key as u32)
                }),
            forall|key: u64|
                #![trigger listed@[key]]
                listed@.dom().contains(key) ==> ({
                    let details = listed@[key];
                    &&& Some(details.manifest@) == content_of(*index, key as u32)
                    &&& details.time_updated == 0
                    &&& details.time_touched == now
                    &&& Some(details.bytes_downloaded as nat) == size_of(*index, key as u32)
                    &&& details.bytes_to_download == 0
                    &&& details.latest_time_updated == 0
                    &&& Some(details.latest_manifest@) == content_of(*index, key as u32)
                }),
        decreases library_ids@.len() - i,
    {
        let id: u32 = library_ids[i];
        let ghost front = library_ids@.take(i as int);
        let ghost next = library_ids@.take(i + 1);
        proof {
            assert(next.drop_last() =~= front);
            assert(next.last() == id);
            lemma_total_grows(*index, library_ids@, i + 1);
            assert(next =~= front.push(id));
            assert forall|key: u64| is_listed(*index, next, key) <==> is_listed(*index, front, key)
                || (key == id as u64 && size_of(*index, id) is Some && content_of(
                *index,
                id,
            ) is Some) by {
                if key <= u32::MAX {
                    assert(next.contains(key as u32) <==> front.contains(key as u32) || key as u32
                        == id) by {
                        if front.contains(key as u32) {
                            let k = choose|k: int| 0 <= k < front.len() && front[k] == key as u32;
                            assert(next[k] == key as u32);
                        }
                        if key as u32 == id {
                            assert(next[i as int] == id);
                        }
                    }
                }
            }
        }
        let known = was_seen(library_ids, i, id);
        let key = ModId::Workshop(id);
        if let Some(ModDetails::Workshop(details)) = index.details.get(&key) {
            if let Some(bytes) = parse_unsigned_text(details.file_size.as_str(), u64::MAX) {
                if !known {
                    size = size + bytes;
                }
                if let Some(manifest) = &details.hcontent_file {
                    installed.insert(
                        id as u64,
                        ManifestWorkshopItem {
                            size: bytes,
                            time_updated: 0,
                            manifest: manifest.clone(),
                        },
                    );
                    listed.insert(
                        id as u64,
                        ManifestWorkshopItemDetails {
                            manifest: manifest.clone(),
                            time_updated: 0,
                            time_touched: now,
                            bytes_downloaded: bytes,
                            bytes_to_download: 0,
                            latest_time_updated: 0,
                            latest_manifest: manifest.clone(),
                        },
                    );
                }
            }
        }
        i += 1;
    }
    assert(library_ids@.take(i as int) =~= library_ids@);
    AppWorkshopManifest {
        app_id: XCOM_APPID as u64,
        size_on_disk: size,
        needs_update: false,
        needs_download: false,
        time_last_updated: 0,
        time_last_app_ran: 0,
        last_build_id: 0,
        workshop_items_installed: installed,
        workshop_item_details: listed,
    }
}

/// Whether one of the first `end` numbers is `id`.
fn was_seen(ids: &Vec<u32>, end: usize, id: u32) -> (r: bool)
    requires
        end <= ids@.len(),
    ensures
        r == ids@.take(end as int).contains(id),
{
    let mut i: usize = 0;
    while i < end
        invariant
            0 <= i <= end <= ids@.len(),
            forall|k: int| 0 <= k < i ==> ids@[k] != id,
        decreases end - i,
    {
        if ids[i] == id {
            assert(ids@.take(end as int)[i as int] == id);
            return true;
        }
        i += 1;
    }
    false
}

} // verus!
