use punchclock::client::{
    bind_port, default_server, default_true, find_by_name, looks_like_agent_id, repo_name_from_remote,
    resolve_id, AgentConfig,
};
use punchclock::daemon::{blocked_reason, classify_reply, exit_note, spawn_note, task_file_content, task_file_name, with_section, TaskOutcome};
use punchclock::protocol::{AgentSummary, TeamResponse};
use punchclock::setup::{config_from_answers, gitignore_with_entry, interpolate};
use punchclock::tui::{DaemonState, TuiEvent, MAX_LOG};

fn s(x: &str) -> String {
    x.to_string()
}

fn cfg(id: Option<&str>) -> AgentConfig {
    AgentConfig {
        agent_id: id.map(s),
        name: s("n"),
        description: s("d"),
        server: s("http://x"),
        claude_flags: s(""),
    }
}

#[test]
fn defaults() {
    assert_eq!(default_server(), "http://localhost:8421");
    assert!(default_true());
}

#[test]
fn load_optional_keeps_only_a_loaded_config() {
    assert!(AgentConfig::load_optional(None).is_none());
    assert!(AgentConfig::load_optional(Some(Err(s("bad toml")))).is_none());
    let c = AgentConfig::load_optional(Some(Ok(cfg(Some("id1"))))).unwrap();
    assert_eq!(c.agent_id, Some(s("id1")));
}

#[test]
fn resolve_id_prefers_the_argument() {
    assert_eq!(resolve_id(Some(s("given")), &Some(cfg(Some("local")))), Some(s("given")));
    assert_eq!(resolve_id(None, &Some(cfg(Some("local")))), Some(s("local")));
    assert_eq!(resolve_id(None, &Some(cfg(None))), None);
    assert_eq!(resolve_id(None, &None), None);
}

#[test]
fn agent_id_shape() {
    assert!(looks_like_agent_id("123e4567-e89b-12d3-a456-426614174000"));
    assert!(!looks_like_agent_id("alice"));
    assert!(!looks_like_agent_id("123e4567e89b-12d3-a456-4266141740000"));
    // 36 characters but more than 36 bytes
    assert!(!looks_like_agent_id("é23e4567-e89b-12d3-a456-426614174000"));
}

#[test]
fn find_agent_by_name_on_roster() {
    let team = TeamResponse {
        agents: vec![
            AgentSummary { id: s("1"), name: s("alice"), description: s(""), last_heartbeat: s("") },
            AgentSummary { id: s("2"), name: s("bob"), description: s(""), last_heartbeat: s("") },
            AgentSummary { id: s("3"), name: s("bob"), description: s(""), last_heartbeat: s("") },
        ],
    };
    assert_eq!(find_by_name(&team, &s("bob")), Some(s("2")));
    assert_eq!(find_by_name(&team, &s("carol")), None);
}

#[test]
fn repo_name_from_remote_url() {
    assert_eq!(repo_name_from_remote("git@github.com:me/punchclock.git\n"), Some(s("punchclock")));
    assert_eq!(repo_name_from_remote("https://x.org/a/b.git.git"), Some(s("b")));
    assert_eq!(repo_name_from_remote("plain"), Some(s("plain")));
    assert_eq!(repo_name_from_remote("https://x.org/a/"), None);
    assert_eq!(repo_name_from_remote("   "), None);
}

#[test]
fn bind_port_from_base_url() {
    assert_eq!(bind_port("http://localhost:8421"), 8421);
    assert_eq!(bind_port("http://localhost:9000/"), 9000);
    assert_eq!(bind_port("http://localhost:+77//"), 77);
    assert_eq!(bind_port("http://localhost"), 8421);
    assert_eq!(bind_port("http://localhost:70000"), 8421);
    assert_eq!(bind_port("http://localhost:65535"), 65535);
    assert_eq!(bind_port("http://h:"), 8421);
}

#[test]
fn reply_classification() {
    assert_eq!(classify_reply("BLOCKED: need a key", "helper"), TaskOutcome::Blocked);
    assert_eq!(classify_reply("[helper exited exit status: 1] oops", "helper"), TaskOutcome::Failed);
    assert_eq!(classify_reply("[other exited exit status: 1] oops", "helper"), TaskOutcome::Done);
    assert_eq!(classify_reply("[failed to spawn helper: x]", "helper"), TaskOutcome::Failed);
    assert_eq!(classify_reply("all good", "helper"), TaskOutcome::Done);
    let note = exit_note("helper", "exit status: 1", "oops");
    assert_eq!(note, "[helper exited exit status: 1] oops");
    assert_eq!(classify_reply(&note, "helper"), TaskOutcome::Failed);
    let note = spawn_note("helper", "not found");
    assert_eq!(note, "[failed to spawn helper: not found]");
    assert_eq!(classify_reply(&note, "helper"), TaskOutcome::Failed);
    assert_eq!(TaskOutcome::Blocked.status(), "blocked");
    assert_eq!(TaskOutcome::Blocked.heading(), "Blocked");
    assert_eq!(TaskOutcome::Failed.status(), "failed");
    assert_eq!(TaskOutcome::Failed.heading(), "Result");
    assert_eq!(TaskOutcome::Done.status(), "done");
    assert!(TaskOutcome::Blocked.is_blocked());
    assert_eq!(blocked_reason("BLOCKED:  need a key \n"), "need a key");
    assert_eq!(blocked_reason(" other "), "other");
}

#[test]
fn task_file_texts() {
    let c = task_file_content("Title", "Body");
    assert_eq!(c, "# Title\n\nBody\n");
    assert_eq!(with_section(&c, "Result", "ok"), "# Title\n\nBody\n\n## Result\n\nok\n");
    assert_eq!(task_file_name("abc"), "abc.md");
}

#[test]
fn template_interpolation() {
    let vars = [("repo_name", "punchclock")];
    assert_eq!(interpolate("Agent for {{repo_name}}", &vars), "Agent for punchclock");
    assert_eq!(interpolate("{{repo_name}}{{other}}", &vars), "punchclock{{other}}");
    assert_eq!(interpolate("{{a}}", &[("a", "{{b}}"), ("b", "x")]), "x");
}

#[test]
fn config_from_init_answers() {
    let answers = vec![
        (s("agent_name"), s("first")),
        (s("server"), s("http://s:1")),
        (s("agent_name"), s("second")),
    ];
    let c = config_from_answers(&answers, s("repo"));
    assert_eq!(c.name, "second");
    assert_eq!(c.description, "");
    assert_eq!(c.server, "http://s:1");
    assert_eq!(c.claude_flags, "");
    assert_eq!(c.agent_id, None);
    let d = config_from_answers(&vec![], s("repo"));
    assert_eq!(d.name, "repo");
    assert_eq!(d.server, "http://localhost:8421");
}

#[test]
fn gitignore_entry() {
    assert_eq!(gitignore_with_entry(""), Some(s(".punchclock\n")));
    assert_eq!(gitignore_with_entry("target"), Some(s("target\n.punchclock\n")));
    assert_eq!(gitignore_with_entry("target\n"), Some(s("target\n.punchclock\n")));
    assert_eq!(gitignore_with_entry("a\n  .punchclock \r\nb"), None);
    assert_eq!(gitignore_with_entry(".punchclockx\n"), Some(s(".punchclockx\n.punchclock\n")));
}

#[test]
fn display_state_follows_events() {
    let mut d = DaemonState::default();
    d.apply(TuiEvent::AgentInfo { name: s("a"), id: s("i"), server: s("http://s") });
    d.apply(TuiEvent::ServerStatus(true));
    assert!(d.online);
    assert_eq!(d.log[0], "↑ connected to http://s");
    d.apply(TuiEvent::ServerStatus(true));
    assert_eq!(d.log.len(), 1);
    d.apply(TuiEvent::TaskStart { id: s("t1"), title: s("Fix") });
    assert_eq!(d.log[0], "⚙ [t1] Fix");
    assert_eq!(d.spinner_text, "starting [t1]…");
    assert_eq!(d.current_task_id, "t1");
    d.apply(TuiEvent::TaskDone { id: s("t1"), status: s("done"), chars: 42 });
    assert_eq!(d.log[0], "✓ [t1] done (42 chars)");
    assert_eq!(d.current_task_id, "");
    assert_eq!(d.spinner_text, "");
    d.apply(TuiEvent::TaskDone { id: s("t2"), status: s("failed"), chars: 0 });
    assert_eq!(d.log[0], "✗ [t2] failed (0 chars)");
    d.apply(TuiEvent::Triaging { count: 3 });
    assert_eq!(d.spinner_text, "📋 triaging 3 tasks…");
    d.apply(TuiEvent::TaskSkip { id: s("t"), reason: s("r") });
    assert_eq!(d.log[0], "⊘ [t] skipped: r");
    d.apply(TuiEvent::TaskBlock { id: s("t"), reason: s("r") });
    assert_eq!(d.log[0], "⚡ [t] blocked: r");
    d.apply(TuiEvent::MsgRecv { from: s("bob") });
    assert_eq!(d.log[0], "← [bob]");
    d.apply(TuiEvent::MsgSent { chars: 7 });
    assert_eq!(d.log[0], "→ reply (7 chars)");
    d.apply(TuiEvent::ServerStatus(false));
    assert_eq!(d.log[0], "↓ server unreachable, working offline");
    d.apply(TuiEvent::SpinnerUpdate(s("spin")));
    assert_eq!(d.spinner_text, "spin");
    d.apply(TuiEvent::Shutdown);
    assert_eq!(d.log.len(), 9);
}

#[test]
fn display_log_is_capped() {
    let mut d = DaemonState::default();
    for i in 0..(MAX_LOG + 5) {
        d.apply(TuiEvent::Log(format!("line {i}")));
    }
    assert_eq!(d.log.len(), MAX_LOG);
    assert_eq!(d.log[0], format!("line {}", MAX_LOG + 4));
    assert_eq!(d.log[MAX_LOG - 1], "line 5");
}

#[test]
fn second_init_leaves_gitignore_alone() {
    for start in ["", "target", "target\n", "a\n.punchclock\n", "x\r\n"] {
        let once = gitignore_with_entry(start).unwrap_or_else(|| start.to_string());
        assert_eq!(gitignore_with_entry(&once), None);
    }
}
