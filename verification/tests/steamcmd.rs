use lxcomm::files::{ModDetails, WorkshopDetails};
use lxcomm::library::missing::ModIndex;
use lxcomm::steamcmd::runs::{
    DownloadEvent, DownloadRun, DownloadStep, LoginEvent, LoginRun, LoginStep,
};
use lxcomm::steamcmd::session::Session;
use lxcomm::steamcmd::{
    build_manifest, cached_login_line, download_command, download_ended, download_line,
    find_command, find_cursor_reposition, force_install_dir_command, full_login_line, input_after,
    join_answer, line_after, login_cached_command, login_command, no_prompt_command, redact_line,
    which_steamcmd, Attempts, Candidate, DownloadLine, Error, ExitCode, LineWait, LoginLine,
    OutputReader, SessionError, SessionEvent, SessionFlags, SteamCMDExitCommand,
};
use lxcomm::table::Table;
use lxcomm::xcom_mod::ModId;

fn lines_of(events: &[SessionEvent]) -> Vec<String> {
    events
        .iter()
        .filter_map(|e| match e {
            SessionEvent::Line(line) => Some(line.clone()),
            _ => None,
        })
        .collect()
}

#[test]
fn output_is_passed_on_in_lines() {
    let mut reader = OutputReader::new();
    let events = reader.receive(b"\x1b[1mLoading\x1b[0m Steam API\r\npar");
    assert_eq!(lines_of(&events), vec!["Loading Steam API"]);
    assert_eq!(reader.scratch, b"par");
    assert!(!reader.waiting);
    let events = reader.receive(b"tial\nSteam>");
    assert_eq!(lines_of(&events), vec!["partial"]);
    assert!(matches!(events.last(), Some(SessionEvent::Waiting)));
    assert!(reader.waiting);
}

#[test]
fn cursor_moves_end_lines() {
    assert!(find_cursor_reposition(b"ab\x1b[12;1Hcd").is_some());
    assert_eq!(find_cursor_reposition(b"plain"), None);
}

#[test]
fn broken_utf8_is_still_shown() {
    let mut reader = OutputReader::new();
    let events = reader.receive(b"a\xffb\n");
    assert_eq!(lines_of(&events), vec!["a\u{fffd}b"]);
}

#[test]
fn logins_are_redacted_in_lines() {
    let shown = redact_line("login someone secret".to_string());
    assert_eq!(shown, Some("login [REDACTED]".to_string()));
    let mut reader = OutputReader::new();
    let events = reader.receive(b"login someone secret\n");
    assert!(lines_of(&events).iter().all(|line| !line.contains("secret")));
    assert_eq!(redact_line("hello".to_string()), Some("hello".to_string()));
}

#[test]
fn commands_need_a_session_that_waits() {
    let ready = SessionFlags { waiting: true, killed: false, logged_in: false };
    assert_eq!(ready.send_command("quit").unwrap(), "quit\n");
    let busy = SessionFlags { waiting: false, killed: true, logged_in: false };
    assert_eq!(busy.send_command("quit"), Err(SessionError::Busy));
    let dead = SessionFlags { waiting: true, killed: true, logged_in: false };
    assert_eq!(dead.send_command("quit"), Err(SessionError::Killed));
    assert_eq!(dead.input_ready(), Some(false));
    assert_eq!(ready.input_ready(), Some(true));
}

#[test]
fn waits_end_with_events() {
    assert_eq!(input_after(&Some(SessionEvent::Waiting)), Some(true));
    assert_eq!(input_after(&Some(SessionEvent::Shutdown)), Some(false));
    assert_eq!(input_after(&None), Some(false));
    assert_eq!(input_after(&Some(SessionEvent::Line("x".into()))), None);
    assert!(matches!(line_after(Some(SessionEvent::Line("x".into()))), LineWait::Got(l) if l == "x"));
    assert!(matches!(line_after(Some(SessionEvent::Waiting)), LineWait::Waiting));
    assert!(matches!(line_after(None), LineWait::Ended));
}

#[test]
fn commands_are_written_out() {
    assert_eq!(find_command("workshop"), "find \"workshop\"");
    assert_eq!(force_install_dir_command("/d"), "force_install_dir /d");
    assert_eq!(no_prompt_command(), "@NoPromptForPassword 1");
    assert_eq!(login_cached_command("me"), "login me");
    assert_eq!(login_command("me", "pw", "c"), "login \"me\" \"pw\" \"c\"");
    assert_eq!(download_command(268500, 42), "workshop_download_item 268500 42");
    assert_eq!(join_answer(&vec!["a".into(), "b".into()]), "\na\nb");
    assert_eq!(SteamCMDExitCommand::default().to_bytes(), vec![b"quit".to_vec()]);
    assert_eq!(
        SteamCMDExitCommand::LogoutAndQuit.to_bytes(),
        vec![b"logout".to_vec(), b"quit".to_vec()]
    );
}

#[test]
fn lines_tell_how_a_login_went() {
    let failed = "FAILED (No cached credentials and @NoPromptForPassword is set)";
    assert_eq!(cached_login_line(failed), LoginLine::Failed);
    assert_eq!(full_login_line(failed), LoginLine::Irrelevant);
    assert_eq!(cached_login_line("Waiting for client config...OK"), LoginLine::LoggedIn);
    assert_eq!(full_login_line("x...ERROR (Invalid Password)"), LoginLine::Failed);
}

#[test]
fn lines_tell_how_a_download_went() {
    assert!(matches!(download_line("Success. Downloaded".into()), DownloadLine::Succeeded));
    assert!(matches!(download_line("ERROR! Timeout".into()), DownloadLine::Failed(l) if l == "ERROR! Timeout"));
    assert!(matches!(download_line("Downloading".into()), DownloadLine::Irrelevant));
    let waiting = SessionFlags { waiting: true, killed: false, logged_in: true };
    assert!(matches!(
        download_ended(&waiting, &vec!["a".into(), "b".into()]),
        Error::Message(m)
            if m == "Some unhandled error occurred while downloading, dumping buffer:\na\nb"
    ));
    let dead = SessionFlags { waiting: true, killed: true, logged_in: true };
    assert!(matches!(
        download_ended(&dead, &Vec::new()),
        Error::Session(SessionError::Killed)
    ));
}

#[test]
fn downloads_are_tried_again() {
    let mut attempts = Attempts::new(2);
    assert!(attempts.try_again(true));
    assert!(!attempts.try_again(false));
    assert!(attempts.try_again(true));
    assert!(!attempts.try_again(true));
}

fn run_to(run: DownloadRun, steps: usize) -> DownloadRun {
    let mut run = run;
    for _ in 0..steps {
        run = run.advance(DownloadEvent::Done);
    }
    run
}

#[test]
fn downloads_go_step_by_step() {
    let run = run_to(DownloadRun::new(7, 1), 4);
    assert_eq!(run.step, DownloadStep::ReadLine);
    let run = run.advance(DownloadEvent::Line("Downloading item".into()));
    assert_eq!(run.step, DownloadStep::ReadLine);
    let run = run.advance(DownloadEvent::Line("ERROR! Timeout".into()));
    assert_eq!(run.step, DownloadStep::RemoveManifest);
    let run = run.advance(DownloadEvent::Done);
    assert_eq!(run.step, DownloadStep::MakeDirectory);
    let run = run_to(run, 4).advance(DownloadEvent::Line("Success".into()));
    assert_eq!(run.step, DownloadStep::WriteMetadata);
    let run = run.advance(DownloadEvent::Done);
    assert_eq!(run.step, DownloadStep::Ended);
    assert!(run.failure.is_none());
}

#[test]
fn downloads_fail_in_the_end() {
    let run = DownloadRun::new(7, 0).advance(DownloadEvent::Failed(Error::NoSession));
    assert_eq!(run.step, DownloadStep::Ended);
    assert!(matches!(
        run.failure,
        Some(Error::DownloadFailure(cause, 7)) if matches!(*cause, Error::NoSession)
    ));
}

fn login_to(cached: bool, line: &str) -> LoginRun {
    let mut run = LoginRun::new(cached);
    while run.step != LoginStep::ReadLine {
        run = run.advance(LoginEvent::Done);
    }
    run.advance(LoginEvent::Line(line.into()))
}

#[test]
fn logins_go_step_by_step() {
    let run = login_to(true, "Waiting for client config...OK");
    assert_eq!(run.step, LoginStep::AwaitEnd(true));
    assert_eq!(run.advance(LoginEvent::Done).step, LoginStep::LoggedIn);
    let refused =
        login_to(true, "FAILED (No cached credentials and @NoPromptForPassword is set)");
    assert_eq!(refused.step, LoginStep::AwaitEnd(false));
    let refused = refused.advance(LoginEvent::Done);
    assert_eq!(refused.step, LoginStep::Failed);
    assert!(matches!(refused.failure, Some(Error::LoginFailure)));
    let wrong = login_to(false, "...ERROR (Invalid Password)");
    assert_eq!(wrong.step, LoginStep::Failed);
    let gone = LoginRun::new(false).advance(LoginEvent::Failed(Error::NoSession));
    assert!(matches!(gone.failure, Some(Error::NoSession)));
}

fn candidate(path: &str, exists: bool) -> Option<Candidate> {
    Some(Candidate { path: path.into(), exists })
}

#[test]
fn steamcmd_is_looked_for() {
    assert_eq!(
        which_steamcmd(candidate("/given", true), candidate("/path", true), None).unwrap(),
        "/given"
    );
    assert_eq!(
        which_steamcmd(None, None, candidate("/script", true)).unwrap(),
        "/script"
    );
    assert!(matches!(
        which_steamcmd(candidate("/given", false), candidate("/path", true), None),
        Err(Error::MissingExecutable)
    ));
    assert!(matches!(which_steamcmd(None, None, None), Err(Error::MissingExecutable)));
}

#[test]
fn manifests_list_what_is_known() {
    let mut index = ModIndex { metadata: Table::new(), details: Table::new() };
    let known = WorkshopDetails {
        published_file_id: "5".into(),
        title: "Five".into(),
        creator: 76,
        file_description: None,
        short_description: None,
        file_size: "1000".into(),
        hcontent_file: Some("77".into()),
        preview_url: String::new(),
        time_updated: 12,
        children: Vec::new(),
        tags: Vec::new(),
    };
    index.details.insert(ModId::Workshop(5), ModDetails::Workshop(known));
    let manifest = build_manifest(&vec![5, 6, 5], &index, 99);
    assert_eq!(manifest.app_id, 268500);
    assert_eq!(manifest.size_on_disk, 1000);
    assert_eq!(manifest.workshop_items_installed.len(), 1);
    let item = &manifest.workshop_items_installed[&5];
    assert_eq!(item.size, 1000);
    assert_eq!(item.manifest, "77");
    assert_eq!(item.time_updated, 0);
    assert_eq!(manifest.workshop_item_details[&5].time_touched, 99);
}

#[test]
fn exit_codes_have_numbers() {
    assert_eq!(ExitCode::COMMITTING.code(), 0x101);
}

#[test]
fn sessions_keep_the_lines_that_they_print() {
    let mut session = Session::new();
    assert!(session.buffer_empty());
    assert!(!session.is_waiting());
    assert!(matches!(session.send_command("find"), Err(SessionError::Busy)));
    let events = session.receive(b"one\r\ntwo\r\nlogin me secret\r\nSteam>");
    assert_eq!(events.len(), 4);
    assert!(session.is_waiting());
    assert_eq!(session.send_command("find").ok(), Some("find\n".to_string()));
    assert_eq!(
        session.force_install_dir("/d").ok(),
        Some("force_install_dir /d\n".to_string())
    );
    assert_eq!(session.consume_line(), Some("one".to_string()));
    match session.download_failure() {
        Error::Message(text) => assert_eq!(
            text,
            "Some unhandled error occurred while downloading, dumping buffer:\n\
             two\nlogin [REDACTED]"
        ),
        other => panic!("{other:?}"),
    }
    assert_eq!(session.take_answer(), "\ntwo\nlogin [REDACTED]");
    assert_eq!(session.consume_line(), None);
    session.receive(b"quit\r\nthree\r\n");
    assert!(!session.is_waiting());
    assert_eq!(session.consume_buffer(), vec!["three".to_string()]);
    session.receive(b"four\r\n");
    session.clear_buffer();
    assert!(session.buffer_empty());
    assert!(!session.is_killed() && !session.is_logged_in());
    assert!(matches!(session.shut_down(), SessionEvent::Shutdown));
    assert!(session.is_killed());
    assert!(matches!(session.download_failure(), Error::Session(SessionError::Killed)));
    session.receive(b"Steam>");
    assert!(matches!(session.send_command("quit"), Err(SessionError::Killed)));
}
