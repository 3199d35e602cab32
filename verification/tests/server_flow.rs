use punchclock::model::TaskStatus;
use punchclock::protocol::{TaskSyncItem, TaskSyncRequest};
use punchclock::server::{AppState, ServerConfig};

const SEC: i64 = 1_000_000_000;
const T0: i64 = 1_700_000_000 * SEC;

fn s(x: &str) -> String {
    x.to_string()
}

/// A fresh identifier, drawn as the server draws them.
fn fresh() -> String {
    uuid::Uuid::new_v4().to_string()
}

/// The current instant, read as the server reads it.
fn now() -> i64 {
    punchclock::clock::instant_from(chrono::Utc::now().timestamp_nanos_opt())
}

/// register → heartbeat → team → send → recv round-trip
#[test]
fn test_register_heartbeat_team_send_recv() {
    let mut srv = AppState::new(ServerConfig::default());

    let alice_id = srv.register_at(fresh(), s("alice"), s("first agent"), None, now()).agent_id;
    let bob_id = srv.register_at(fresh(), s("bob"), s("second agent"), None, now()).agent_id;

    // Heartbeat for alice.
    assert!(srv.heartbeat_at(alice_id.clone(), None, None, None, now()).is_ok());

    // Both appear on the roster.
    let team = srv.team_at(now());
    assert_eq!(team.agents.len(), 2);
    let names: Vec<&str> = team.agents.iter().map(|a| a.name.as_str()).collect();
    assert!(names.contains(&"alice"));
    assert!(names.contains(&"bob"));

    // Alice sends a message to bob.
    assert!(srv.send_message_at(bob_id.clone(), alice_id.clone(), s("hello bob"), fresh(), now()).is_ok());

    // Bob receives it.
    let inbox = srv.recv_messages(&bob_id);
    assert_eq!(inbox.messages.len(), 1);
    assert_eq!(inbox.messages[0].body, "hello bob");
    assert_eq!(inbox.messages[0].from, alice_id);

    // A second drain is empty.
    let inbox2 = srv.recv_messages(&bob_id);
    assert_eq!(inbox2.messages.len(), 0);
}

/// The reaper removes an agent whose heartbeat has expired.
#[test]
fn test_reaper_removes_stale_agent() {
    let config = ServerConfig { heartbeat_timeout_secs: 1, reaper_interval_secs: 1, max_inbox: 100 };
    let mut srv = AppState::new(config);

    let id = srv.register_at(s("agent-1"), s("ephemeral"), s("will be reaped"), None, T0).agent_id;

    // Online right after registration.
    assert_eq!(srv.team_at(T0).agents.len(), 1);

    // No heartbeat for 3 s, then a reaper pass.
    let expired = srv.reap_at(T0 + 3 * SEC);
    assert_eq!(expired, vec![id.clone()]);

    assert_eq!(srv.team_at(T0 + 3 * SEC).agents.len(), 0);

    // A heartbeat without name and description is refused.
    let r = srv.heartbeat_at(id.clone(), None, None, None, T0 + 3 * SEC);
    assert_eq!(r.unwrap_err().error, format!("agent {} not found", id));
}

/// The inbox is capped at max_inbox: the oldest message is dropped on overflow.
#[test]
fn test_inbox_cap_drops_oldest() {
    let config = ServerConfig { heartbeat_timeout_secs: 30, reaper_interval_secs: 10, max_inbox: 100 };
    let mut srv = AppState::new(config);

    let id = srv.register_at(fresh(), s("capped"), s("inbox cap test"), None, now()).agent_id;

    for i in 0..=100_u32 {
        let body = format!("msg-{i}");
        let from = format!("sender-{i}");
        assert!(srv.send_message_at(id.clone(), from, body, fresh(), now()).is_ok());
    }

    let inbox = srv.recv_messages(&id);
    assert_eq!(inbox.messages.len(), 100);
    assert_eq!(inbox.messages[0].body, "msg-1");
    assert_eq!(inbox.messages[99].body, "msg-100");
}

#[test]
fn heartbeat_reregisters_a_reaped_agent() {
    let config = ServerConfig { heartbeat_timeout_secs: 1, reaper_interval_secs: 1, max_inbox: 100 };
    let mut srv = AppState::new(config);
    srv.register_at(s("a1"), s("alpha"), s("first"), None, T0);
    srv.reap_at(T0 + 5 * SEC);
    assert_eq!(srv.team_at(T0 + 5 * SEC).agents.len(), 0);
    let r = srv.heartbeat_at(s("a1"), Some(s("alpha")), Some(s("first")), None, T0 + 6 * SEC);
    assert!(r.is_ok());
    let team = srv.team_at(T0 + 6 * SEC);
    assert_eq!(team.agents.len(), 1);
    assert_eq!(team.agents[0].id, "a1");
    assert_eq!(team.agents[0].name, "alpha");
    // its inbox is back too
    assert!(srv.send_message_at(s("a1"), s("x"), s("hi"), s("m1"), T0 + 6 * SEC).is_ok());
}

#[test]
fn team_filters_by_timeout_boundary() {
    let mut srv = AppState::new(ServerConfig::default());
    srv.register_at(s("a"), s("a"), s("d"), None, T0);
    // online strictly after now - 30 s
    assert_eq!(srv.team_at(T0 + 30 * SEC - 1).agents.len(), 1);
    assert_eq!(srv.team_at(T0 + 30 * SEC).agents.len(), 0);
    // the reaper removes at the boundary
    let gone = srv.reap_at(T0 + 30 * SEC);
    assert_eq!(gone, vec![s("a")]);
}

#[test]
fn team_reports_heartbeat_as_rfc3339() {
    let mut srv = AppState::new(ServerConfig::default());
    srv.register_at(s("a"), s("n"), s("d"), None, 0);
    let team = srv.team_at(1);
    assert_eq!(team.agents[0].last_heartbeat, "1970-01-01T00:00:00+00:00");
    srv.heartbeat_at(s("a"), None, None, None, 1_500_000_000).unwrap();
    assert_eq!(srv.team_at(1_500_000_000).agents[0].last_heartbeat, "1970-01-01T00:00:01.500+00:00");
}

#[test]
fn send_to_unknown_agent_is_refused() {
    let mut srv = AppState::new(ServerConfig::default());
    let r = srv.send_message_at(s("nobody"), s("me"), s("hi"), s("m0"), T0);
    assert_eq!(r.unwrap_err().error, "agent nobody not found");
}

#[test]
fn recv_of_unknown_agent_is_empty() {
    let mut srv = AppState::new(ServerConfig::default());
    assert_eq!(srv.recv_messages(&s("ghost")).messages.len(), 0);
}

#[test]
fn inbox_cap_of_one_keeps_latest() {
    let config = ServerConfig { heartbeat_timeout_secs: 30, reaper_interval_secs: 10, max_inbox: 1 };
    let mut srv = AppState::new(config);
    srv.register_at(s("a"), s("n"), s("d"), None, T0);
    srv.send_message_at(s("a"), s("x"), s("first"), s("m1"), T0).unwrap();
    srv.send_message_at(s("a"), s("x"), s("second"), s("m2"), T0).unwrap();
    // the evicted message's acknowledgement entry is gone too
    let status = srv.message_status(&s("a"));
    assert_eq!(status.messages.len(), 1);
    assert_eq!(status.messages[0].id, "m2");
    let inbox = srv.recv_messages(&s("a"));
    assert_eq!(inbox.messages.len(), 1);
    assert_eq!(inbox.messages[0].body, "second");
}

#[test]
fn ack_and_status() {
    let mut srv = AppState::new(ServerConfig::default());
    srv.register_at(s("a"), s("n"), s("d"), None, T0);
    srv.send_message_at(s("a"), s("x"), s("one"), s("m1"), T0).unwrap();
    srv.send_message_at(s("a"), s("x"), s("two"), s("m2"), T0).unwrap();
    assert!(srv.ack_message(s("a"), s("m1")).is_ok());
    let st = srv.message_status(&s("a"));
    assert_eq!(st.messages.len(), 2);
    assert_eq!((st.messages[0].id.as_str(), st.messages[0].acked), ("m1", true));
    assert_eq!((st.messages[1].id.as_str(), st.messages[1].acked), ("m2", false));
    // the drained items carry the acknowledgement
    let inbox = srv.recv_messages(&s("a"));
    assert!(inbox.messages[0].acked);
    assert!(!inbox.messages[1].acked);
    assert_eq!(inbox.messages[0].id, "m1");
    // refusals
    assert_eq!(srv.ack_message(s("a"), s("zz")).unwrap_err().error, "message zz not found");
    assert_eq!(srv.ack_message(s("b"), s("m1")).unwrap_err().error, "agent b not found");
    assert_eq!(srv.message_status(&s("b")).messages.len(), 0);
}

#[test]
fn broadcast_reaches_online_agents_only() {
    let mut srv = AppState::new(ServerConfig::default());
    srv.register_at(s("old"), s("o"), s("d"), None, T0);
    srv.register_at(s("a"), s("a"), s("d"), None, T0 + 100 * SEC);
    srv.register_at(s("b"), s("b"), s("d"), None, T0 + 100 * SEC);
    let ids = vec![s("m1"), s("m2")];
    let ats = vec![T0 + 101 * SEC, T0 + 101 * SEC];
    let r = srv.broadcast_at(&s("me"), &s("hello all"), T0 + 101 * SEC, &ids, &ats);
    assert_eq!(r.delivered, 2);
    assert_eq!(srv.recv_messages(&s("a")).messages[0].id, "m1");
    assert_eq!(srv.recv_messages(&s("b")).messages[0].id, "m2");
    assert_eq!(srv.recv_messages(&s("old")).messages.len(), 0);
    let n = srv.live_count_at(T0 + 102 * SEC);
    assert_eq!(n, 2);
    let ids: Vec<String> = (0..n).map(|_| fresh()).collect();
    let ats = vec![T0 + 102 * SEC; n];
    let r2 = srv.broadcast_at(&s("me"), &s("again"), T0 + 102 * SEC, &ids, &ats);
    assert_eq!(r2.delivered, 2);
    assert_eq!(srv.live_count_at(T0 + 200 * SEC), 0);
}

#[test]
fn register_replaces_inbox() {
    let mut srv = AppState::new(ServerConfig::default());
    srv.register_at(s("a"), s("n"), s("d"), None, T0);
    srv.send_message_at(s("a"), s("x"), s("one"), s("m1"), T0).unwrap();
    srv.register_at(s("a"), s("n2"), s("d2"), None, T0 + SEC);
    assert_eq!(srv.recv_messages(&s("a")).messages.len(), 0);
    let team = srv.team_at(T0 + SEC);
    assert_eq!(team.agents.len(), 1);
    assert_eq!(team.agents[0].name, "n2");
}

#[test]
fn tasks_push_claim_finish() {
    let mut srv = AppState::new(ServerConfig::default());
    srv.register_at(s("a"), s("n"), s("d"), None, T0);
    assert_eq!(srv.task_push_at(s("zz"), s("t"), s("b"), s("t0"), T0).unwrap_err().error, "agent zz not found");
    let t2 = srv.task_push_at(s("a"), s("second"), s("b2"), s("t2"), T0 + 2 * SEC).unwrap();
    assert_eq!(t2.status, "queued");
    assert_eq!(t2.started_at, None);
    srv.task_push_at(s("a"), s("first"), s("b1"), s("t1"), T0 + SEC).unwrap();
    srv.task_push_at(s("a"), s("also first"), s("b3"), s("t3"), T0 + SEC).unwrap();

    // earliest first; ties in insertion order
    let c1 = srv.task_claim_at(&s("a"), T0 + 10 * SEC).unwrap();
    assert_eq!(c1.id, "t1");
    assert_eq!(c1.status, "in_progress");
    assert!(c1.started_at.is_some());
    let c2 = srv.task_claim_at(&s("a"), T0 + 11 * SEC).unwrap();
    assert_eq!(c2.id, "t3");
    let c3 = srv.task_claim_at(&s("a"), T0 + 12 * SEC).unwrap();
    assert_eq!(c3.id, "t2");
    assert_eq!(srv.task_claim_at(&s("a"), T0 + 13 * SEC).unwrap_err().error, "no queued tasks");

    let f = srv.task_finish_at(&s("t1"), "failed", Some(s("boom")), T0 + 20 * SEC).unwrap();
    assert_eq!(f.status, "failed");
    assert_eq!(f.result, Some(s("boom")));
    let d = srv.task_finish_at(&s("t3"), "whatever", None, T0 + 20 * SEC).unwrap();
    assert_eq!(d.status, "done");
    let b = srv.task_block(&s("t2"), s("needs input")).unwrap();
    assert_eq!(b.status, "blocked");
    assert_eq!(b.result, Some(s("needs input")));
    assert_eq!(srv.task_finish_at(&s("nope"), "done", None, T0).unwrap_err().error, "task nope not found");
    assert_eq!(srv.task_block(&s("nope"), s("r")).unwrap_err().error, "task nope not found");
}

#[test]
fn task_list_sorts_memory_tasks_by_creation() {
    let mut srv = AppState::new(ServerConfig::default());
    srv.register_at(s("a"), s("n"), s("d"), None, T0);
    srv.register_at(s("b"), s("n"), s("d"), None, T0);
    srv.task_push_at(s("a"), s("late"), s(""), s("t9"), T0 + 9 * SEC).unwrap();
    srv.task_push_at(s("b"), s("other"), s(""), s("tb"), T0).unwrap();
    srv.task_push_at(s("a"), s("early"), s(""), s("t1"), T0 + SEC).unwrap();
    let list = srv.task_list(&s("a"));
    let ids: Vec<&str> = list.tasks.iter().map(|t| t.id.as_str()).collect();
    assert_eq!(ids, vec!["t1", "t9"]);
    assert_eq!(srv.task_list(&s("nobody")).tasks.len(), 0);
}

#[test]
fn task_sync_snapshot_wins_and_hash_dedups() {
    let mut srv = AppState::new(ServerConfig::default());
    srv.register_at(s("a"), s("n"), s("d"), None, T0);
    srv.task_push_at(s("a"), s("mem"), s(""), s("m"), T0).unwrap();
    let req = TaskSyncRequest {
        agent_id: s("a"),
        hash: 7,
        tasks: vec![
            TaskSyncItem { id: s("x"), title: s("X"), status: s("done"), modified_at: s("2024-02-01") },
            TaskSyncItem { id: s("y"), title: s("Y"), status: s("todo"), modified_at: s("2024-01-01") },
            TaskSyncItem { id: s("z"), title: s("Z"), status: s("todo"), modified_at: s("2024-01-01") },
        ],
    };
    assert!(srv.task_sync(&req).is_ok());
    let list = srv.task_list(&s("a"));
    let ids: Vec<&str> = list.tasks.iter().map(|t| t.id.as_str()).collect();
    assert_eq!(ids, vec!["y", "z", "x"]);
    assert_eq!(list.tasks[0].agent_id, "a");
    assert_eq!(list.tasks[0].body, "");
    assert_eq!(list.tasks[0].created_at, "2024-01-01");

    // the same hash is ignored
    let same = TaskSyncRequest { agent_id: s("a"), hash: 7, tasks: vec![] };
    assert!(srv.task_sync(&same).is_ok());
    assert_eq!(srv.task_list(&s("a")).tasks.len(), 3);
    // a new hash with no tasks empties the snapshot: memory tasks show again
    let empty = TaskSyncRequest { agent_id: s("a"), hash: 8, tasks: vec![] };
    assert!(srv.task_sync(&empty).is_ok());
    assert_eq!(srv.task_list(&s("a")).tasks[0].id, "m");
    let unknown = TaskSyncRequest { agent_id: s("q"), hash: 1, tasks: vec![] };
    assert_eq!(srv.task_sync(&unknown).unwrap_err().error, "agent q not found");
}

#[test]
fn fresh_identifiers_have_the_uuid_shape() {
    let mut srv = AppState::default();
    let id = srv.register_at(fresh(), s("x"), s("y"), None, now()).agent_id;
    assert_eq!(id.len(), 36);
    assert!(punchclock::client::looks_like_agent_id(&id));
    let t = srv.task_push_at(id.clone(), s("t"), s("b"), fresh(), now()).unwrap();
    assert_eq!(t.id.len(), 36);
    assert_ne!(t.id, id);
}

#[test]
fn default_config_values() {
    let c = ServerConfig::default();
    assert_eq!((c.heartbeat_timeout_secs, c.reaper_interval_secs, c.max_inbox), (30, 10, 100));
    let st = AppState::default();
    assert_eq!(st.config().max_inbox, 100);
}

#[test]
fn status_texts() {
    assert_eq!(TaskStatus::Queued.as_str(), "queued");
    assert_eq!(TaskStatus::InProgress.as_str(), "in_progress");
    assert_eq!(TaskStatus::Done.as_str(), "done");
    assert_eq!(TaskStatus::Failed.as_str(), "failed");
    assert_eq!(TaskStatus::Blocked.as_str(), "blocked");
}

#[test]
fn rfc3339_formats_nanoseconds() {
    assert_eq!(punchclock::clock::rfc3339(0), "1970-01-01T00:00:00+00:00");
    assert_eq!(punchclock::clock::rfc3339(1_000_001_000), "1970-01-01T00:00:01.000001+00:00");
    assert_eq!(punchclock::clock::instant_from(None), i64::MAX);
    assert!(now() > T0);
}

#[test]
fn registration_keeps_the_repo_path() {
    let mut srv = AppState::new(ServerConfig::default());
    srv.register_at(s("a"), s("n"), s("d"), Some(s("/home/me/repo")), T0);
    let rec = srv.agent_record(&s("a")).unwrap();
    assert_eq!(rec.repo_path, Some(s("/home/me/repo")));
    assert_eq!((rec.name.as_str(), rec.description.as_str(), rec.last_heartbeat), ("n", "d", T0));
    srv.register_at(s("b"), s("n"), s("d"), None, T0);
    assert_eq!(srv.agent_record(&s("b")).unwrap().repo_path, None);
    assert!(srv.agent_record(&s("zz")).is_none());
    // a reaped agent that comes back by heartbeat gives its path again
    srv.reap_at(T0 + 30 * SEC);
    assert!(srv.agent_record(&s("a")).is_none());
    srv.heartbeat_at(s("a"), Some(s("n")), Some(s("d")), Some(s("/elsewhere")), T0 + 40 * SEC).unwrap();
    assert_eq!(srv.agent_record(&s("a")).unwrap().repo_path, Some(s("/elsewhere")));
    // a known agent's heartbeat changes only its time
    srv.heartbeat_at(s("a"), Some(s("x")), Some(s("y")), Some(s("/other")), T0 + 41 * SEC).unwrap();
    let rec = srv.agent_record(&s("a")).unwrap();
    assert_eq!((rec.name.as_str(), rec.repo_path.as_deref(), rec.last_heartbeat), ("n", Some("/elsewhere"), T0 + 41 * SEC));
}

#[test]
fn send_answers_the_new_message() {
    let mut srv = AppState::new(ServerConfig::default());
    srv.register_at(s("a"), s("n"), s("d"), None, T0);
    let m = srv.send_message_at(s("a"), s("x"), s("hi"), s("m1"), T0).unwrap();
    assert_eq!((m.id.as_str(), m.from.as_str(), m.body.as_str(), m.acked), ("m1", "x", "hi", false));
    assert_eq!(m.timestamp, punchclock::clock::rfc3339(T0));
    let inbox = srv.recv_messages(&s("a"));
    assert_eq!(inbox.messages.len(), 1);
    assert_eq!((inbox.messages[0].id.as_str(), inbox.messages[0].timestamp.as_str()), ("m1", m.timestamp.as_str()));
    let second = srv.send_message_at(s("a"), s("x"), s("again"), fresh(), now()).unwrap();
    assert_eq!(second.id.len(), 36);
    assert!(!second.acked);
    assert_eq!(srv.recv_messages(&s("a")).messages[0].id, second.id);
}
