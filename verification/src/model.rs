//! The abstract state of the server, and what each request does to it.
//!
//! Keyed collections are sequences of entries whose keys occur at most once; the
//! position of an entry is irrelevant to lookups, and the roster and broadcasts
//! visit entries in sequence order.
use vstd::prelude::*;
use crate::clock::{rfc3339_of, within};
use crate::protocol::{AgentSummaryV, MessageItemV, TaskItemV, TaskSyncItemV};
use crate::text::lex_le;

verus! {

/// Where a task stands.
#[derive(Debug, Clone, Copy, PartialEq, Eq, Structural)]
pub enum TaskStatus {
    Queued,
    InProgress,
    Done,
    Failed,
    Blocked,
}

/// The text by which a status is reported.
pub open spec fn status_text(s: TaskStatus) -> Seq<char> {
    match s {
        TaskStatus::Queued => seq!['q', 'u', 'e', 'u', 'e', 'd'],
        TaskStatus::InProgress => seq!['i', 'n', '_', 'p', 'r', 'o', 'g', 'r', 'e', 's', 's'],
        TaskStatus::Done => seq!['d', 'o', 'n', 'e'],
        TaskStatus::Failed => seq!['f', 'a', 'i', 'l', 'e', 'd'],
        TaskStatus::Blocked => seq!['b', 'l', 'o', 'c', 'k', 'e', 'd'],
    }
}

/// A registered agent.
pub struct AgentV {
    pub id: Seq<char>,
    pub name: Seq<char>,
    pub description: Seq<char>,
    /// Where the agent's repository lives, when it said so.
    pub repo_path: Option<Seq<char>>,
    pub last_heartbeat: i64,
    pub task_snapshot: Seq<TaskItemV>,
    pub task_snapshot_hash: u64,
}

/// A message waiting in an inbox.
pub struct MessageV {
    pub id: Seq<char>,
    pub from: Seq<char>,
    pub body: Seq<char>,
    pub timestamp: i64,
    pub acked: bool,
}

/// A task held in server memory.
pub struct TaskV {
    pub id: Seq<char>,
    pub agent_id: Seq<char>,
    pub title: Seq<char>,
    pub body: Seq<char>,
    pub status: TaskStatus,
    pub created_at: i64,
    pub started_at: Option<i64>,
    pub finished_at: Option<i64>,
    pub result: Option<Seq<char>>,
}

/// The whole server state: agents, their inboxes, tasks, and per-agent tables of
/// message acknowledgements.
pub struct StateV {
    pub agents: Seq<AgentV>,
    pub inboxes: Seq<(Seq<char>, Seq<MessageV>)>,
    pub tasks: Seq<TaskV>,
    pub acks: Seq<(Seq<char>, Seq<(Seq<char>, bool)>)>,
}

// ── keyed sequences of pairs ────────────────────────────────────────────────

pub open spec fn has_key<X>(s: Seq<(Seq<char>, X)>, k: Seq<char>) -> bool {
    exists|i: int| 0 <= i < s.len() && (#[trigger] s[i]).0 == k
}

pub open spec fn key_pos<X>(s: Seq<(Seq<char>, X)>, k: Seq<char>) -> int {
    if has_key(s, k) {
        choose|i: int| 0 <= i < s.len() && (#[trigger] s[i]).0 == k
    } else {
        -1
    }
}

pub open spec fn unique_keys<X>(s: Seq<(Seq<char>, X)>) -> bool {
    forall|i: int, j: int|
        0 <= i < s.len() && 0 <= j < s.len() && i != j ==> (#[trigger] s[i]).0 != (#[trigger] s[j]).0
}

/// The value under `k`, if any.
pub open spec fn get<X>(s: Seq<(Seq<char>, X)>, k: Seq<char>) -> Option<X> {
    if has_key(s, k) {
        Some(s[key_pos(s, k)].1)
    } else {
        None
    }
}

/// Sets the value under `k`, adding the key at the end when it is new.
pub open spec fn put<X>(s: Seq<(Seq<char>, X)>, k: Seq<char>, v: X) -> Seq<(Seq<char>, X)> {
    if has_key(s, k) {
        s.update(key_pos(s, k), (k, v))
    } else {
        s.push((k, v))
    }
}

/// Removes the entry under `k`, if any.
pub open spec fn drop_key<X>(s: Seq<(Seq<char>, X)>, k: Seq<char>) -> Seq<(Seq<char>, X)> {
    if has_key(s, k) {
        s.remove(key_pos(s, k))
    } else {
        s
    }
}

pub proof fn lemma_key_pos<X>(s: Seq<(Seq<char>, X)>, k: Seq<char>, i: int)
    requires
        unique_keys(s),
        0 <= i < s.len(),
        s[i].0 == k,
    ensures
        has_key(s, k),
        key_pos(s, k) == i,
{
    assert(has_key(s, k));
}

pub proof fn lemma_put_unique<X>(s: Seq<(Seq<char>, X)>, k: Seq<char>, v: X)
    requires
        unique_keys(s),
    ensures
        unique_keys(put(s, k, v)),
        has_key(put(s, k, v), k),
        get(put(s, k, v), k) == Some(v),
        forall|k2: Seq<char>| k2 != k ==> get(#[trigger] put(s, k, v), k2) == get(s, k2),
        forall|k2: Seq<char>| #[trigger] has_key(put(s, k, v), k2) <==> (k2 == k || has_key(s, k2)),
{
    let t = put(s, k, v);
    if has_key(s, k) {
        let p = key_pos(s, k);
        assert(t[p].0 == k);
        lemma_key_pos(t, k, p);
        assert forall|k2: Seq<char>| k2 != k implies get(t, k2) == get(s, k2) by {
            if has_key(s, k2) {
                let q = key_pos(s, k2);
                assert(t[q] == s[q]);
                lemma_key_pos(t, k2, q);
            }
            if has_key(t, k2) {
                let q = key_pos(t, k2);
                assert(s[q] == t[q]);
            }
        }
        assert forall|k2: Seq<char>| #[trigger] has_key(t, k2) <==> (k2 == k || has_key(s, k2)) by {
            if has_key(s, k2) {
                let q = key_pos(s, k2);
                if k2 != k { assert(t[q] == s[q]); }
            }
            if has_key(t, k2) && k2 != k {
                let q = key_pos(t, k2);
                assert(s[q] == t[q]);
            }
        }
    } else {
        lemma_key_pos(t, k, s.len() as int);
        assert forall|k2: Seq<char>| k2 != k implies get(t, k2) == get(s, k2) by {
            if has_key(s, k2) {
                let q = key_pos(s, k2);
                assert(t[q] == s[q]);
                lemma_key_pos(t, k2, q);
            }
            if has_key(t, k2) {
                let q = key_pos(t, k2);
                assert(s[q] == t[q]);
            }
        }
        assert forall|k2: Seq<char>| #[trigger] has_key(t, k2) <==> (k2 == k || has_key(s, k2)) by {
            if has_key(s, k2) {
                let q = key_pos(s, k2);
                assert(t[q] == s[q]);
            }
            if has_key(t, k2) && k2 != k {
                let q = key_pos(t, k2);
                assert(s[q] == t[q]);
            }
        }
    }
}

pub proof fn lemma_drop_unique<X>(s: Seq<(Seq<char>, X)>, k: Seq<char>)
    requires
        unique_keys(s),
    ensures
        unique_keys(drop_key(s, k)),
        !has_key(drop_key(s, k), k),
        forall|k2: Seq<char>| k2 != k ==> get(#[trigger] drop_key(s, k), k2) == get(s, k2),
        forall|k2: Seq<char>| #[trigger] has_key(drop_key(s, k), k2) <==> (k2 != k && has_key(s, k2)),
{
    let t = drop_key(s, k);
    if has_key(s, k) {
        let p = key_pos(s, k);
        assert forall|k2: Seq<char>| k2 != k implies get(t, k2) == get(s, k2) by {
            if has_key(s, k2) {
                let q = key_pos(s, k2);
                if q < p {
                    assert(t[q] == s[q]);
                    lemma_key_pos(t, k2, q);
                } else {
                    assert(t[q - 1] == s[q]);
                    lemma_key_pos(t, k2, q - 1);
                }
            }
            if has_key(t, k2) {
                let q = key_pos(t, k2);
                if q < p {
                    assert(s[q] == t[q]);
                } else {
                    assert(s[q + 1] == t[q]);
                }
            }
        }
        assert forall|k2: Seq<char>| #[trigger] has_key(t, k2) <==> (k2 != k && has_key(s, k2)) by {
            if has_key(s, k2) && k2 != k {
                let q = key_pos(s, k2);
                if q < p {
                    assert(t[q] == s[q]);
                } else {
                    assert(t[q - 1] == s[q]);
                }
            }
            if has_key(t, k2) {
                let q = key_pos(t, k2);
                if q < p {
                    assert(s[q] == t[q]);
                } else {
                    assert(s[q + 1] == t[q]);
                }
            }
        }
    }
}

// ── agents and tasks, keyed by their `id` ───────────────────────────────────

pub open spec fn has_agent(s: Seq<AgentV>, id: Seq<char>) -> bool {
    exists|i: int| 0 <= i < s.len() && (#[trigger] s[i]).id == id
}

pub open spec fn agent_pos(s: Seq<AgentV>, id: Seq<char>) -> int {
    if has_agent(s, id) {
        choose|i: int| 0 <= i < s.len() && (#[trigger] s[i]).id == id
    } else {
        -1
    }
}

pub open spec fn unique_agents(s: Seq<AgentV>) -> bool {
    forall|i: int, j: int|
        0 <= i < s.len() && 0 <= j < s.len() && i != j ==> (#[trigger] s[i]).id != (#[trigger] s[j]).id
}

pub proof fn lemma_agent_pos(s: Seq<AgentV>, id: Seq<char>, i: int)
    requires
        unique_agents(s),
        0 <= i < s.len(),
        s[i].id == id,
    ensures
        has_agent(s, id),
        agent_pos(s, id) == i,
{
    assert(has_agent(s, id));
}

pub open spec fn has_task(s: Seq<TaskV>, id: Seq<char>) -> bool {
    exists|i: int| 0 <= i < s.len() && (#[trigger] s[i]).id == id
}

pub open spec fn task_pos(s: Seq<TaskV>, id: Seq<char>) -> int {
    if has_task(s, id) {
        choose|i: int| 0 <= i < s.len() && (#[trigger] s[i]).id == id
    } else {
        -1
    }
}

pub open spec fn unique_tasks(s: Seq<TaskV>) -> bool {
    forall|i: int, j: int|
        0 <= i < s.len() && 0 <= j < s.len() && i != j ==> (#[trigger] s[i]).id != (#[trigger] s[j]).id
}

pub proof fn lemma_task_pos(s: Seq<TaskV>, id: Seq<char>, i: int)
    requires
        unique_tasks(s),
        0 <= i < s.len(),
        s[i].id == id,
    ensures
        has_task(s, id),
        task_pos(s, id) == i,
{
    assert(has_task(s, id));
}

// ── the state ───────────────────────────────────────────────────────────────

impl StateV {
    /// Every key occurs once: agents, inboxes, tasks, acknowledgement tables and
    /// the entries of each table.
    pub open spec fn wf(self) -> bool {
        &&& unique_agents(self.agents)
        &&& unique_keys(self.inboxes)
        &&& unique_tasks(self.tasks)
        &&& unique_keys(self.acks)
        &&& forall|i: int| 0 <= i < self.acks.len() ==> unique_keys(#[trigger] self.acks[i].1)
    }

    /// The inbox of `id`, if it has one.
    pub open spec fn inbox(self, id: Seq<char>) -> Option<Seq<MessageV>> {
        get(self.inboxes, id)
    }

    /// The acknowledgement table of `id`, empty when it has none.
    pub open spec fn book(self, id: Seq<char>) -> Seq<(Seq<char>, bool)> {
        book_of(self.acks, id)
    }

    pub open spec fn agent(self, id: Seq<char>) -> AgentV {
        self.agents[agent_pos(self.agents, id)]
    }

    pub open spec fn task(self, id: Seq<char>) -> TaskV {
        self.tasks[task_pos(self.tasks, id)]
    }
}

/// The acknowledgement table of `id`, empty when it has none.
pub open spec fn book_of(acks: Seq<(Seq<char>, Seq<(Seq<char>, bool)>)>, id: Seq<char>) -> Seq<(Seq<char>, bool)> {
    match get(acks, id) {
        Some(b) => b,
        None => Seq::empty(),
    }
}

/// The agent that a registration creates.
pub open spec fn new_agent(id: Seq<char>, name: Seq<char>, description: Seq<char>, repo_path: Option<Seq<char>>, now: i64) -> AgentV {
    AgentV {
        id,
        name,
        description,
        repo_path,
        last_heartbeat: now,
        task_snapshot: Seq::empty(),
        task_snapshot_hash: 0,
    }
}

/// Registration: the agent is stored under `id` (replacing any agent of that id)
/// with its repository path, if given, and a fresh heartbeat, and its inbox is
/// (re)set to empty.
pub open spec fn register(s: StateV, id: Seq<char>, name: Seq<char>, description: Seq<char>, repo_path: Option<Seq<char>>, now: i64) -> StateV {
    StateV {
        agents: if has_agent(s.agents, id) {
            s.agents.update(agent_pos(s.agents, id), new_agent(id, name, description, repo_path, now))
        } else {
            s.agents.push(new_agent(id, name, description, repo_path, now))
        },
        inboxes: put(s.inboxes, id, Seq::empty()),
        ..s
    }
}

/// Whether a heartbeat for `id` is accepted: the agent is known, or a name and a
/// description come with it so that it can be registered again.
pub open spec fn heartbeat_accepted(s: StateV, id: Seq<char>, name: Option<Seq<char>>, description: Option<Seq<char>>) -> bool {
    has_agent(s.agents, id) || (name is Some && description is Some)
}

/// A heartbeat: a known agent's heartbeat is set to `now`; an unknown agent that
/// names itself and describes itself is registered again, with the repository
/// path it gives, keeping any inbox it still has. Otherwise nothing changes.
pub open spec fn heartbeat(
    s: StateV,
    id: Seq<char>,
    name: Option<Seq<char>>,
    description: Option<Seq<char>>,
    repo_path: Option<Seq<char>>,
    now: i64,
) -> StateV {
    if has_agent(s.agents, id) {
        let p = agent_pos(s.agents, id);
        StateV { agents: s.agents.update(p, AgentV { last_heartbeat: now, ..s.agents[p] }), ..s }
    } else if name is Some && description is Some {
        StateV {
            agents: s.agents.push(new_agent(id, name->0, description->0, repo_path, now)),
            inboxes: if has_key(s.inboxes, id) { s.inboxes } else { s.inboxes.push((id, Seq::empty())) },
            ..s
        }
    } else {
        s
    }
}

/// Whether an agent is online: its last heartbeat lies within the timeout.
pub open spec fn online(a: AgentV, now: i64, timeout_secs: i64) -> bool {
    within(a.last_heartbeat as int, now as int, timeout_secs as int)
}

pub open spec fn summary(a: AgentV) -> AgentSummaryV {
    AgentSummaryV {
        id: a.id,
        name: a.name,
        description: a.description,
        last_heartbeat: rfc3339_of(a.last_heartbeat),
    }
}

/// The agents that are online, in roster order.
pub open spec fn online_agents(s: StateV, now: i64, timeout_secs: i64) -> Seq<AgentV> {
    s.agents.filter(|a: AgentV| online(a, now, timeout_secs))
}

/// The roster: every online agent, in roster order.
pub open spec fn team(s: StateV, now: i64, timeout_secs: i64) -> Seq<AgentSummaryV> {
    online_agents(s, now, timeout_secs).map_values(|a: AgentV| summary(a))
}

/// Whether a delivery to `to` first drops the oldest message: the inbox is full.
pub open spec fn evicts(q: Seq<MessageV>, max: usize) -> bool {
    q.len() >= max && q.len() > 0
}

/// Puts a message into the inbox of `to` (which has one). When the inbox already
/// holds `max` messages or more, its oldest message is dropped first, together
/// with that message's acknowledgement entry. The new message is recorded as
/// unacknowledged.
pub open spec fn deliver(
    s: StateV,
    to: Seq<char>,
    from: Seq<char>,
    body: Seq<char>,
    msg_id: Seq<char>,
    at: i64,
    max: usize,
) -> StateV {
    let q = s.inbox(to)->0;
    let dropped = evicts(q, max);
    let q1 = if dropped { q.drop_first() } else { q };
    let acks1 = if dropped && has_key(s.acks, to) {
        put(s.acks, to, drop_key(s.book(to), q[0].id))
    } else {
        s.acks
    };
    let book1 = match get(acks1, to) {
        Some(b) => b,
        None => Seq::empty(),
    };
    StateV {
        inboxes: put(s.inboxes, to, q1.push(MessageV { id: msg_id, from, body, timestamp: at, acked: false })),
        acks: put(acks1, to, put(book1, msg_id, false)),
        ..s
    }
}

/// Delivers to each target that has an inbox, in order; the `k`-th target's
/// message gets identifier `ids[k]` and timestamp `ats[k]`.
pub open spec fn deliver_all(
    s: StateV,
    targets: Seq<Seq<char>>,
    from: Seq<char>,
    body: Seq<char>,
    ids: Seq<Seq<char>>,
    ats: Seq<i64>,
    max: usize,
) -> StateV
    decreases targets.len(),
{
    if targets.len() == 0 {
        s
    } else {
        let k = targets.len() - 1;
        let s1 = deliver_all(s, targets.drop_last(), from, body, ids, ats, max);
        if has_key(s1.inboxes, targets[k]) {
            deliver(s1, targets[k], from, body, ids[k], ats[k], max)
        } else {
            s1
        }
    }
}

/// How many of the targets have an inbox.
pub open spec fn count_with_inbox(s: StateV, targets: Seq<Seq<char>>) -> nat
    decreases targets.len(),
{
    if targets.len() == 0 {
        0
    } else {
        count_with_inbox(s, targets.drop_last()) + if has_key(s.inboxes, targets.last()) { 1nat } else { 0 }
    }
}

/// The identifiers of the online agents, in roster order.
pub open spec fn live_ids(s: StateV, now: i64, timeout_secs: i64) -> Seq<Seq<char>> {
    online_agents(s, now, timeout_secs).map_values(|a: AgentV| a.id)
}

/// Whether a message is acknowledged in a table; absent entries count as not.
pub open spec fn acked_in(book: Seq<(Seq<char>, bool)>, msg_id: Seq<char>) -> bool {
    match get(book, msg_id) {
        Some(b) => b,
        None => false,
    }
}

pub open spec fn message_item(m: MessageV, book: Seq<(Seq<char>, bool)>) -> MessageItemV {
    MessageItemV {
        id: m.id,
        from: m.from,
        body: m.body,
        timestamp: rfc3339_of(m.timestamp),
        acked: acked_in(book, m.id),
    }
}

/// What draining the inbox of `id` hands out: its messages, oldest first, each
/// with its acknowledgement state; nothing when there is no inbox.
pub open spec fn drained(s: StateV, id: Seq<char>) -> Seq<MessageItemV> {
    match s.inbox(id) {
        Some(q) => q.map_values(|m: MessageV| message_item(m, s.book(id))),
        None => Seq::empty(),
    }
}

/// Draining empties the inbox of `id`, if it has one.
pub open spec fn drain(s: StateV, id: Seq<char>) -> StateV {
    if has_key(s.inboxes, id) {
        StateV { inboxes: put(s.inboxes, id, Seq::empty()), ..s }
    } else {
        s
    }
}

/// Why an acknowledgement is refused, if it is.
pub enum AckRefusal {
    UnknownAgent,
    UnknownMessage,
}

pub open spec fn ack_refusal(s: StateV, agent: Seq<char>, msg_id: Seq<char>) -> Option<AckRefusal> {
    if !has_key(s.acks, agent) {
        Some(AckRefusal::UnknownAgent)
    } else if !has_key(s.book(agent), msg_id) {
        Some(AckRefusal::UnknownMessage)
    } else {
        None
    }
}

/// Acknowledging marks the message acknowledged in its agent's table.
pub open spec fn ack(s: StateV, agent: Seq<char>, msg_id: Seq<char>) -> StateV {
    if ack_refusal(s, agent, msg_id) is None {
        StateV { acks: put(s.acks, agent, put(s.book(agent), msg_id, true)), ..s }
    } else {
        s
    }
}

// ── tasks ───────────────────────────────────────────────────────────────────

pub open spec fn opt_rfc3339(t: Option<i64>) -> Option<Seq<char>> {
    match t {
        Some(n) => Some(rfc3339_of(n)),
        None => None,
    }
}

/// How a task is shown to clients.
pub open spec fn task_item(t: TaskV) -> TaskItemV {
    TaskItemV {
        id: t.id,
        agent_id: t.agent_id,
        title: t.title,
        body: t.body,
        status: status_text(t.status),
        created_at: rfc3339_of(t.created_at),
        started_at: opt_rfc3339(t.started_at),
        finished_at: opt_rfc3339(t.finished_at),
        result: t.result,
    }
}

/// The task that a push creates.
pub open spec fn new_task(id: Seq<char>, agent: Seq<char>, title: Seq<char>, body: Seq<char>, now: i64) -> TaskV {
    TaskV {
        id,
        agent_id: agent,
        title,
        body,
        status: TaskStatus::Queued,
        created_at: now,
        started_at: None,
        finished_at: None,
        result: None,
    }
}

/// Pushing a task for a known agent stores it queued under `id`.
pub open spec fn push_task(s: StateV, id: Seq<char>, agent: Seq<char>, title: Seq<char>, body: Seq<char>, now: i64) -> StateV {
    if has_agent(s.agents, agent) {
        StateV {
            tasks: if has_task(s.tasks, id) {
                s.tasks.update(task_pos(s.tasks, id), new_task(id, agent, title, body, now))
            } else {
                s.tasks.push(new_task(id, agent, title, body, now))
            },
            ..s
        }
    } else {
        s
    }
}

/// How a reported task file is listed.
pub open spec fn synced_item(agent: Seq<char>, t: TaskSyncItemV) -> TaskItemV {
    TaskItemV {
        id: t.id,
        agent_id: agent,
        title: t.title,
        body: Seq::empty(),
        status: t.status,
        created_at: t.modified_at,
        started_at: None,
        finished_at: None,
        result: None,
    }
}

/// A report of task files replaces the agent's snapshot, unless its hash equals
/// the one already held.
pub open spec fn sync_tasks(s: StateV, agent: Seq<char>, hash: u64, items: Seq<TaskSyncItemV>) -> StateV {
    if has_agent(s.agents, agent) && s.agent(agent).task_snapshot_hash != hash {
        let p = agent_pos(s.agents, agent);
        StateV {
            agents: s.agents.update(p, AgentV {
                task_snapshot_hash: hash,
                task_snapshot: items.map_values(|t: TaskSyncItemV| synced_item(agent, t)),
                ..s.agents[p]
            }),
            ..s
        }
    } else {
        s
    }
}

/// The tasks that `task/list` orders for an agent: its reported snapshot when that
/// is not empty, otherwise its tasks in server memory.
pub open spec fn listed_tasks(s: StateV, agent: Seq<char>) -> Seq<TaskItemV> {
    let snap = if has_agent(s.agents, agent) { s.agent(agent).task_snapshot } else { Seq::empty() };
    if snap.len() > 0 {
        snap
    } else {
        s.tasks.filter(|t: TaskV| t.agent_id == agent).map_values(|t: TaskV| task_item(t))
    }
}

pub open spec fn queued_for(t: TaskV, agent: Seq<char>) -> bool {
    t.agent_id == agent && t.status == TaskStatus::Queued
}

/// Position `i` holds the next task to claim: a queued task of `agent` created no
/// later than any other, and strictly earlier than those before it.
pub open spec fn is_next_queued(tasks: Seq<TaskV>, agent: Seq<char>, i: int) -> bool {
    &&& 0 <= i < tasks.len()
    &&& queued_for(tasks[i], agent)
    &&& forall|j: int|
        0 <= j < tasks.len() && #[trigger] queued_for(tasks[j], agent) ==> tasks[i].created_at <= tasks[j].created_at
            && (j < i ==> tasks[i].created_at < tasks[j].created_at)
}

pub open spec fn has_queued(tasks: Seq<TaskV>, agent: Seq<char>) -> bool {
    exists|j: int| 0 <= j < tasks.len() && #[trigger] queued_for(tasks[j], agent)
}

pub open spec fn next_queued(tasks: Seq<TaskV>, agent: Seq<char>) -> int {
    choose|i: int| is_next_queued(tasks, agent, i)
}

/// Claiming sets the next queued task of `agent` in progress, started at `now`.
pub open spec fn claim(s: StateV, agent: Seq<char>, now: i64) -> StateV {
    if has_queued(s.tasks, agent) {
        let i = next_queued(s.tasks, agent);
        StateV {
            tasks: s.tasks.update(i, TaskV { status: TaskStatus::InProgress, started_at: Some(now), ..s.tasks[i] }),
            ..s
        }
    } else {
        s
    }
}

/// Finishing a known task marks it failed (when asked so) or done, at `now`, with
/// the given result.
pub open spec fn finish(s: StateV, id: Seq<char>, failed: bool, result: Option<Seq<char>>, now: i64) -> StateV {
    if has_task(s.tasks, id) {
        let i = task_pos(s.tasks, id);
        StateV {
            tasks: s.tasks.update(i, TaskV {
                status: if failed { TaskStatus::Failed } else { TaskStatus::Done },
                finished_at: Some(now),
                result,
                ..s.tasks[i]
            }),
            ..s
        }
    } else {
        s
    }
}

/// Blocking a known task marks it blocked, with the reason as its result.
pub open spec fn block(s: StateV, id: Seq<char>, reason: Seq<char>) -> StateV {
    if has_task(s.tasks, id) {
        let i = task_pos(s.tasks, id);
        StateV {
            tasks: s.tasks.update(i, TaskV { status: TaskStatus::Blocked, result: Some(reason), ..s.tasks[i] }),
            ..s
        }
    } else {
        s
    }
}

// ── expiry ──────────────────────────────────────────────────────────────────

/// Whether `id` belongs to an agent whose heartbeat has run out.
pub open spec fn expired_id(s: StateV, id: Seq<char>, now: i64, timeout_secs: i64) -> bool {
    exists|i: int| 0 <= i < s.agents.len() && (#[trigger] s.agents[i]).id == id && !online(s.agents[i], now, timeout_secs)
}

/// The reaper removes every agent whose heartbeat has run out, and its inbox.
pub open spec fn reap(s: StateV, now: i64, timeout_secs: i64) -> StateV {
    StateV {
        agents: online_agents(s, now, timeout_secs),
        inboxes: s.inboxes.filter(|p: (Seq<char>, Seq<MessageV>)| !expired_id(s, p.0, now, timeout_secs)),
        ..s
    }
}

} // verus!

verus! {

/// A delivery changes no inbox's presence.
pub proof fn lemma_deliver_keys(
    s: StateV,
    to: Seq<char>,
    from: Seq<char>,
    body: Seq<char>,
    msg_id: Seq<char>,
    at: i64,
    max: usize,
)
    requires
        s.wf(),
        has_key(s.inboxes, to),
    ensures
        forall|t: Seq<char>| #[trigger] has_key(deliver(s, to, from, body, msg_id, at, max).inboxes, t) == has_key(s.inboxes, t),
{
    let q = s.inbox(to)->0;
    let q1 = if evicts(q, max) { q.drop_first() } else { q };
    lemma_put_unique(s.inboxes, to, q1.push(MessageV { id: msg_id, from, body, timestamp: at, acked: false }));
}

} // verus!

verus! {

/// `out` is `input` ordered by creation text, ties kept in input order: `perm[k]`
/// is the position in `input` of `out[k]`.
pub open spec fn stable_sorted_by_created(input: Seq<TaskItemV>, out: Seq<TaskItemV>, perm: Seq<int>) -> bool {
    &&& out.len() == input.len()
    &&& perm.len() == out.len()
    &&& forall|k: int| 0 <= k < out.len() ==> 0 <= #[trigger] perm[k] < input.len() && out[k] == input[perm[k]]
    &&& forall|k1: int, k2: int| 0 <= k1 < k2 < out.len() ==> #[trigger] perm[k1] != #[trigger] perm[k2]
    &&& forall|k1: int, k2: int|
        0 <= k1 < k2 < out.len() ==> lex_le((#[trigger] out[k1]).created_at, (#[trigger] out[k2]).created_at)
    &&& forall|k1: int, k2: int|
        0 <= k1 < k2 < out.len() && (#[trigger] out[k1]).created_at == (#[trigger] out[k2]).created_at ==> perm[k1] < perm[k2]
}

/// What `task/list` answers: the listed tasks of the agent, ordered by creation
/// text, ties in listing order.
pub open spec fn is_task_list(s: StateV, agent: Seq<char>, out: Seq<TaskItemV>) -> bool {
    exists|perm: Seq<int>| #[trigger] stable_sorted_by_created(listed_tasks(s, agent), out, perm)
}

} // verus!

verus! {

pub proof fn lemma_filter_unique_agents(s: Seq<AgentV>, pred: spec_fn(AgentV) -> bool)
    requires
        unique_agents(s),
    ensures
        unique_agents(s.filter(pred)),
        forall|a: AgentV| #[trigger] s.filter(pred).contains(a) ==> s.contains(a),
    decreases s.len(),
{
    reveal(Seq::filter);
    if s.len() > 0 {
        let d = s.drop_last();
        assert(unique_agents(d));
        lemma_filter_unique_agents(d, pred);
        let f = d.filter(pred);
        if pred(s.last()) {
            assert forall|a: AgentV| #[trigger] f.contains(a) implies a.id != s.last().id by {
                let k = choose|k: int| 0 <= k < d.len() && d[k] == a;
                assert(s[k] == a);
            }
            assert forall|i: int, j: int|
                0 <= i < f.push(s.last()).len() && 0 <= j < f.push(s.last()).len() && i != j
                implies (#[trigger] f.push(s.last())[i]).id != (#[trigger] f.push(s.last())[j]).id by {
                if i < f.len() && j < f.len() {
                } else if i < f.len() {
                    assert(f.contains(f[i]));
                } else {
                    assert(f.contains(f[j]));
                }
            }
        }
        assert forall|a: AgentV| #[trigger] s.filter(pred).contains(a) implies s.contains(a) by {
            if f.contains(a) {
                let k = choose|k: int| 0 <= k < d.len() && d[k] == a;
                assert(s[k] == a);
            } else {
                assert(s[s.len() - 1] == a);
            }
        }
    }
}

pub proof fn lemma_filter_unique_keys<X>(s: Seq<(Seq<char>, X)>, pred: spec_fn((Seq<char>, X)) -> bool)
    requires
        unique_keys(s),
    ensures
        unique_keys(s.filter(pred)),
        forall|p: (Seq<char>, X)| #[trigger] s.filter(pred).contains(p) ==> s.contains(p),
    decreases s.len(),
{
    reveal(Seq::filter);
    if s.len() > 0 {
        let d = s.drop_last();
        assert(unique_keys(d));
        lemma_filter_unique_keys(d, pred);
        let f = d.filter(pred);
        if pred(s.last()) {
            assert forall|p: (Seq<char>, X)| #[trigger] f.contains(p) implies p.0 != s.last().0 by {
                let k = choose|k: int| 0 <= k < d.len() && d[k] == p;
                assert(s[k] == p);
            }
            assert forall|i: int, j: int|
                0 <= i < f.push(s.last()).len() && 0 <= j < f.push(s.last()).len() && i != j
                implies (#[trigger] f.push(s.last())[i]).0 != (#[trigger] f.push(s.last())[j]).0 by {
                if i < f.len() && j < f.len() {
                } else if i < f.len() {
                    assert(f.contains(f[i]));
                } else {
                    assert(f.contains(f[j]));
                }
            }
        }
        assert forall|p: (Seq<char>, X)| #[trigger] s.filter(pred).contains(p) implies s.contains(p) by {
            if f.contains(p) {
                let k = choose|k: int| 0 <= k < d.len() && d[k] == p;
                assert(s[k] == p);
            } else {
                assert(s[s.len() - 1] == p);
            }
        }
    }
}

} // verus!
