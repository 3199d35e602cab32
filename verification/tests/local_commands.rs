use punchclock::client::{
    base_url, parse_pid, signal_message, start_refusal, status_line, AgentConfig, DaemonProbe, RepoEntry,
};
use punchclock::daemon::{
    assistant_args, classify_reply, parse_task_file, server_report, task_file_content, task_step, ServerReport, TaskOutcome,
};
use punchclock::protocol::{
    AgentSummary, MessageStatusListResponse, MessageStatusResponse, TaskItem, TaskListResponse, TeamResponse,
};
use punchclock::repos::{add_name, new_entry, RepoError, Repos};
use punchclock::tables::{ack_table, dash_line, pad_right, repo_table, roster_table, task_table};
use punchclock::text::split_words;
use punchclock::tui::{is_quit_key, line_tone, plain_lines, spinner_glyph, DaemonState, StatusLine, Tone, TuiEvent};

fn s(x: &str) -> String {
    x.to_string()
}

fn agent(id: &str, name: &str, desc: &str) -> AgentSummary {
    AgentSummary { id: s(id), name: s(name), description: s(desc), last_heartbeat: s("t") }
}

fn entry(path: &str, enabled: bool) -> RepoEntry {
    RepoEntry { path: s(path), description: s("d"), enabled, claude_flags: s("") }
}

fn config(name: &str, desc: &str, flags: &str) -> AgentConfig {
    AgentConfig { agent_id: None, name: s(name), description: s(desc), server: s("http://x"), claude_flags: s(flags) }
}

#[test]
fn words_split_on_any_white_space() {
    assert_eq!(split_words("  --a  b\t\nc "), vec![s("--a"), s("b"), s("c")]);
    assert_eq!(split_words(""), Vec::<String>::new());
    assert_eq!(split_words(" \u{3000} "), Vec::<String>::new());
    assert_eq!(split_words("x\u{a0}y"), vec![s("x"), s("y")]);
}

#[test]
fn assistant_is_run_with_the_prompt_and_flags() {
    assert_eq!(assistant_args("do it", ""), vec![s("-p"), s("do it")]);
    assert_eq!(
        assistant_args("do it", " --allowedTools Edit,Write  --verbose"),
        vec![s("-p"), s("do it"), s("--allowedTools"), s("Edit,Write"), s("--verbose")]
    );
}

#[test]
fn reports_follow_the_outcome() {
    match server_report(classify_reply("BLOCKED:  need a key ", "helper"), "BLOCKED:  need a key ") {
        ServerReport::Block { reason } => assert_eq!(reason, "need a key"),
        other => panic!("unexpected {other:?}"),
    }
    match server_report(TaskOutcome::Done, "all good") {
        ServerReport::Finish { status, result } => {
            assert_eq!(status, "done");
            assert_eq!(result, "all good");
        }
        other => panic!("unexpected {other:?}"),
    }
    match server_report(TaskOutcome::Failed, "[failed x]") {
        ServerReport::Finish { status, result } => {
            assert_eq!(status, "failed");
            assert_eq!(result, "[failed x]");
        }
        other => panic!("unexpected {other:?}"),
    }
    assert_eq!(TaskOutcome::Blocked.dest_dir(), ".task/blocked");
    assert_eq!(TaskOutcome::Done.dest_dir(), ".task/done");
    assert_eq!(TaskOutcome::Failed.dest_dir(), ".task/done");
}

#[test]
fn status_line_cases() {
    let team = TeamResponse { agents: vec![agent("a1", "alpha", ""), agent("b2", "beta", "")] };
    assert_eq!(
        status_line(&None, &team, DaemonProbe::NotRunning),
        "NOT REGISTERED — run `punchclock agent run` to register"
    );
    assert_eq!(status_line(&Some(s("b2")), &team, DaemonProbe::Alive(42)), "ONLINE   b2  beta  (daemon PID 42)");
    assert_eq!(
        status_line(&Some(s("b2")), &team, DaemonProbe::Dead),
        "ONLINE   b2  beta  (daemon dead (stale PID file))"
    );
    assert_eq!(status_line(&Some(s("a1")), &team, DaemonProbe::NotRunning), "ONLINE   a1  alpha  (daemon not running)");
    assert_eq!(
        status_line(&Some(s("zz")), &team, DaemonProbe::Alive(7)),
        "OFFLINE  zz  (daemon PID 7 running but agent not on team (server restarted?))"
    );
    assert_eq!(status_line(&Some(s("zz")), &team, DaemonProbe::Dead), "OFFLINE  zz  (daemon dead (stale PID file))");
    assert_eq!(
        status_line(&Some(s("zz")), &team, DaemonProbe::NotRunning),
        "OFFLINE  zz  (daemon not running — use `punchclock agent start`)"
    );
}

#[test]
fn pid_files_and_signals() {
    assert_eq!(parse_pid(" 1234\n"), Some(1234));
    assert_eq!(parse_pid("+7"), Some(7));
    assert_eq!(parse_pid("4294967295"), Some(4294967295));
    assert_eq!(parse_pid("4294967296"), None);
    assert_eq!(parse_pid("12a"), None);
    assert_eq!(parse_pid(""), None);
    assert_eq!(parse_pid("+"), None);
    assert_eq!(parse_pid("-1"), None);
    assert_eq!(signal_message(9, true), "sent SIGTERM to PID 9");
    assert_eq!(signal_message(9, false), "daemon was not running (stale PID 9) — cleaned up");
    assert_eq!(
        start_refusal(DaemonProbe::Alive(5)),
        Some(s("daemon already running (PID 5) — use `punchclock agent stop` first"))
    );
    assert_eq!(start_refusal(DaemonProbe::Dead), None);
    assert_eq!(start_refusal(DaemonProbe::NotRunning), None);
    assert_eq!(base_url("http://h:1//"), "http://h:1");
    assert_eq!(base_url("http://h:1"), "http://h:1");
}

#[test]
fn display_panels() {
    assert_eq!(spinner_glyph(0), "⠋");
    assert_eq!(spinner_glyph(13), "⠸");
    assert_eq!(line_tone("✓ [t] done"), Tone::Green);
    assert_eq!(line_tone("↑ connected"), Tone::Green);
    assert_eq!(line_tone("✗ [t] failed"), Tone::Red);
    assert_eq!(line_tone("⚡ [t] blocked: r"), Tone::Red);
    assert_eq!(line_tone("↓ server unreachable"), Tone::Red);
    assert_eq!(line_tone("⊘ [t] skipped"), Tone::Gray);
    assert_eq!(line_tone("← [bob]"), Tone::Magenta);
    assert_eq!(line_tone("→ reply"), Tone::Magenta);
    assert_eq!(line_tone("plain"), Tone::Plain);
    assert_eq!(line_tone(""), Tone::Plain);

    let mut d = DaemonState::default();
    assert!(d.header().is_none());
    assert!(matches!(d.status_panel().as_slice(), [StatusLine::Idle]));
    d.apply(TuiEvent::AgentInfo { name: s("a"), id: s("i"), server: s("http://s") });
    let h = d.header().unwrap();
    assert_eq!((h.0.as_str(), h.1.as_str(), h.2.as_str(), h.3), ("a", "  (i)", "http://s", "○ OFFLINE"));
    d.apply(TuiEvent::ServerStatus(true));
    assert_eq!(d.header().unwrap().3, "● ONLINE");
    d.apply(TuiEvent::TaskStart { id: s("t1"), title: s("Fix") });
    d.tick();
    d.tick();
    match d.status_panel().as_slice() {
        [StatusLine::Spinner { glyph, text }, StatusLine::Task { label, title }] => {
            assert_eq!(glyph, "⠹");
            assert_eq!(text, "starting [t1]…");
            assert_eq!(label, "[t1]");
            assert_eq!(title, "Fix");
        }
        other => panic!("unexpected {other:?}"),
    }
    d.spinner_frame = usize::MAX;
    d.tick();
    assert_eq!(d.spinner_frame, 0);
    // the log is newest first; the closing lines read it oldest first
    assert_eq!(d.closing_lines(), vec![s("↑ connected to http://s"), s("⚙ [t1] Fix")]);
    for i in 0..40 {
        d.apply(TuiEvent::Log(format!("l{i}")));
    }
    // the thirty most recent lines, oldest first
    let closing = d.closing_lines();
    assert_eq!(closing.len(), 30);
    assert_eq!(closing[0], "l10");
    assert_eq!(closing[29], "l39");

    assert!(is_quit_key(Some('q'), false));
    assert!(is_quit_key(Some('c'), true));
    assert!(!is_quit_key(Some('c'), false));
    assert!(!is_quit_key(None, true));
}

#[test]
fn plain_display_lines() {
    let (lines, stop) = plain_lines(TuiEvent::AgentInfo { name: s("a"), id: s("i"), server: s("http://s") }, "helper");
    assert_eq!(lines, vec![s("agent    : a (i)"), s("server   : http://s"), s("routing messages + tasks → helper CLI\n")]);
    assert!(!stop);
    let (lines, _) = plain_lines(TuiEvent::TaskStart { id: s("t"), title: s("T") }, "helper");
    assert_eq!(lines, vec![s("⚙ task [t] T"), s("  helper working on [t]…")]);
    let (lines, _) = plain_lines(TuiEvent::TaskDone { id: s("t"), status: s("done"), chars: 3 }, "helper");
    assert_eq!(lines, vec![s("✓ task [t] done (3 chars)")]);
    let (lines, _) = plain_lines(TuiEvent::Triaging { count: 2 }, "helper");
    assert_eq!(lines, vec![s("📋 triaging 2 pending tasks…")]);
    let (lines, _) = plain_lines(TuiEvent::TaskSkip { id: s("t"), reason: s("r") }, "helper");
    assert_eq!(lines, vec![s("⊘ skipped [t]: r")]);
    let (lines, _) = plain_lines(TuiEvent::TaskBlock { id: s("t"), reason: s("r") }, "helper");
    assert_eq!(lines, vec![s("⚡ blocked [t]: r")]);
    let (lines, _) = plain_lines(TuiEvent::MsgRecv { from: s("bob") }, "helper");
    assert_eq!(lines, vec![s("← [bob]")]);
    let (lines, _) = plain_lines(TuiEvent::MsgSent { chars: 12 }, "helper");
    assert_eq!(lines, vec![s("→ reply (12 chars)")]);
    let (lines, _) = plain_lines(TuiEvent::ServerStatus(true), "helper");
    assert!(lines.is_empty());
    let (lines, _) = plain_lines(TuiEvent::SpinnerUpdate(s("x")), "helper");
    assert!(lines.is_empty());
    let (lines, stop) = plain_lines(TuiEvent::Shutdown, "helper");
    assert_eq!(lines, vec![s("\nshutting down…")]);
    assert!(stop);
}

#[test]
fn repos_keep_name_order() {
    let mut r = Repos::new();
    assert_eq!(r.add(s("beta"), entry("/b", true)), Ok(()));
    assert_eq!(r.add(s("alpha"), entry("/a", true)), Ok(()));
    assert_eq!(r.add(s("gamma"), entry("/g", true)), Ok(()));
    assert_eq!(r.add(s("beta"), entry("/other", true)), Err(RepoError::AlreadyExists));
    assert_eq!(r.len(), 3);
    let names: Vec<String> = (0..r.len()).map(|i| r.at(i).0.clone()).collect();
    assert_eq!(names, vec![s("alpha"), s("beta"), s("gamma")]);
    assert_eq!(r.at(1).1.path, "/b");
    assert!(r.contains("gamma"));
    assert!(!r.contains("delta"));

    assert_eq!(r.set_enabled("beta", false), Ok(()));
    assert!(!r.at(1).1.enabled);
    assert_eq!(r.set_enabled("delta", false), Err(RepoError::NotFound));
    assert_eq!(r.set_enabled("beta", true), Ok(()));
    assert!(r.at(1).1.enabled);

    let removed = r.remove("alpha").unwrap();
    assert_eq!(removed.path, "/a");
    assert!(matches!(r.remove("alpha"), Err(RepoError::NotFound)));
    assert_eq!(r.len(), 2);
    assert_eq!(r.at(0).0, "beta");

    r.insert(s("beta"), entry("/b2", false));
    assert_eq!(r.len(), 2);
    assert_eq!(r.at(0).1.path, "/b2");

    assert_eq!(RepoError::AlreadyExists.message("x"), "agent \"x\" already exists — use --name to pick a different one");
    assert_eq!(RepoError::NotFound.message("x"), "agent \"x\" not found");
}

#[test]
fn import_skips_taken_names() {
    let mut r = Repos::new();
    r.add(s("one"), entry("/one", false)).unwrap();
    let found = vec![
        (s("/x/one"), config("one", "first", "")),
        (s("/x/two"), config("two", "second", "--f")),
        (s("/y/two"), config("two", "again", "")),
    ];
    assert_eq!(r.import_all(found.clone()), (1, 2));
    assert_eq!(r.len(), 2);
    let one = r.at(0).1;
    assert_eq!((one.path.as_str(), one.enabled), ("/one", false));
    let two = r.at(1).1;
    assert_eq!((two.path.as_str(), two.description.as_str(), two.enabled, two.claude_flags.as_str()), ("/x/two", "second", true, "--f"));
    // a second import finds every name taken
    assert_eq!(r.import_all(found), (0, 3));
    assert_eq!(r.len(), 2);
}

#[test]
fn add_defaults() {
    assert_eq!(add_name(Some(s("n")), Some(s("dir"))), "n");
    assert_eq!(add_name(None, Some(s("dir"))), "dir");
    assert_eq!(add_name(None, None), "unnamed");
    let e = new_entry(s("/p"), None, Some(s("--x")));
    assert_eq!((e.path.as_str(), e.description.as_str(), e.enabled, e.claude_flags.as_str()), ("/p", "", true, "--x"));
}

#[test]
fn printed_tables() {
    assert_eq!(pad_right("ab", 5), "ab   ");
    assert_eq!(pad_right("abcdef", 3), "abcdef");
    assert_eq!(pad_right("é", 2), "é ");
    assert_eq!(dash_line(3), "---");

    assert_eq!(roster_table(&TeamResponse { agents: vec![] }), vec![s("no agents online")]);
    let t = roster_table(&TeamResponse { agents: vec![agent("id1", "n1", "desc")] });
    assert_eq!(t[0], format!("{:<36}  {:<20}  description", "id", "name"));
    assert_eq!(t[1], "-".repeat(80));
    assert_eq!(t[2], format!("{:<36}  {:<20}  {}", "id1", "n1", "desc"));

    assert_eq!(ack_table(&MessageStatusListResponse { messages: vec![] }), vec![s("no messages")]);
    let t = ack_table(&MessageStatusListResponse {
        messages: vec![MessageStatusResponse { id: s("m1"), acked: true }, MessageStatusResponse { id: s("m2"), acked: false }],
    });
    assert_eq!(t, vec![format!("{:<36}  acked", "id"), "-".repeat(50), format!("{:<36}  yes", "m1"), format!("{:<36}  no", "m2")]);

    assert_eq!(task_table(&TaskListResponse { tasks: vec![] }), vec![s("no tasks")]);
    let item = TaskItem {
        id: s("t1"),
        agent_id: s("a"),
        title: s("Title"),
        body: s("b"),
        status: s("queued"),
        created_at: s("2024-01-01T00:00:00+00:00"),
        started_at: None,
        finished_at: None,
        result: None,
    };
    let t = task_table(&TaskListResponse { tasks: vec![item] });
    assert_eq!(t[0], format!("{:<36}  {:<12}  {:<24}  title", "id", "status", "created"));
    assert_eq!(t[1], "-".repeat(90));
    assert_eq!(t[2], format!("{:<36}  {:<12}  {:<24}  {}", "t1", "queued", "2024-01-01T00:00:00+00:00", "Title"));

    let mut r = Repos::new();
    assert_eq!(repo_table(&r), vec![s("no repos registered — use \"punchclock add <path>\" to add one")]);
    r.add(s("b"), entry("/b", false)).unwrap();
    r.add(s("a"), entry("/a", true)).unwrap();
    let t = repo_table(&r);
    assert_eq!(
        t,
        vec![
            format!("{:<30}  {:<8}  path", "name", "enabled"),
            "-".repeat(80),
            format!("{:<30}  {:<8}  {}", "a", "yes", "/a"),
            format!("{:<30}  {:<8}  {}", "b", "no", "/b"),
        ]
    );
}

#[test]
fn task_steps() {
    let st = task_step("BLOCKED:  need the API key \n", "helper");
    assert_eq!(st.outcome, TaskOutcome::Blocked);
    assert_eq!((st.dest_dir, st.heading, st.appended.as_str()), (".task/blocked", "Blocked", "need the API key"));
    match st.report {
        ServerReport::Block { reason } => assert_eq!(reason, "need the API key"),
        other => panic!("unexpected {other:?}"),
    }
    let st = task_step("all done\n", "helper");
    assert_eq!(st.outcome, TaskOutcome::Done);
    assert_eq!((st.dest_dir, st.heading, st.appended.as_str()), (".task/done", "Result", "all done\n"));
    match st.report {
        ServerReport::Finish { status, result } => assert_eq!((status.as_str(), result.as_str()), ("done", "all done\n")),
        other => panic!("unexpected {other:?}"),
    }
    let st = task_step("[helper exited exit status: 2] boom", "helper");
    assert_eq!(st.outcome, TaskOutcome::Failed);
    assert_eq!((st.dest_dir, st.heading, st.appended.as_str()), (".task/done", "Result", "[helper exited exit status: 2] boom"));
    match st.report {
        ServerReport::Finish { status, .. } => assert_eq!(status, "failed"),
        other => panic!("unexpected {other:?}"),
    }
}

#[test]
fn dropped_task_files() {
    let text = "# Add input validation to signup form\n\nThe signup form has no validation.\nAdd it.\n";
    assert_eq!(
        parse_task_file(text),
        (s("Add input validation to signup form"), s("The signup form has no validation.\nAdd it."))
    );
    assert_eq!(parse_task_file("just do this\n"), (s(""), s("just do this")));
    assert_eq!(parse_task_file("#not a heading\nx"), (s(""), s("#not a heading\nx")));
    assert_eq!(parse_task_file("# Only a title"), (s("Only a title"), s("")));
    assert_eq!(parse_task_file(""), (s(""), s("")));
    // what the daemon writes reads back
    assert_eq!(parse_task_file(&task_file_content("Fix", "the bug")), (s("Fix"), s("the bug")));
    assert_eq!(parse_task_file(&task_file_content("Fix", "")), (s("Fix"), s("")));
}
