//! The server's in-memory state and the requests that read and change it.
use std::collections::VecDeque;
use vstd::prelude::*;
use crate::clock;
use crate::model::{
    AgentV, MessageV, StateV, TaskStatus, TaskV, deliver, drop_key, evicts, get, has_agent, has_key,
    has_task, heartbeat, heartbeat_accepted, lemma_agent_pos, lemma_drop_unique, lemma_key_pos,
    lemma_put_unique, new_agent, put, register, unique_agents, unique_keys, drain, drained,
    message_item, acked_in, ack, ack_refusal, AckRefusal, book_of, team, online, summary,
    online_agents, live_ids, deliver_all, count_with_inbox, lemma_deliver_keys, task_item, push_task,
    new_task, lemma_task_pos, unique_tasks, sync_tasks, synced_item, claim, is_next_queued, has_queued,
    next_queued, queued_for, finish, block, status_text, opt_rfc3339, stable_sorted_by_created,
    listed_tasks, is_task_list, reap, expired_id, lemma_filter_unique_agents, lemma_filter_unique_keys,
};
use crate::protocol::{
    items_view, copy_opt, TaskSyncItemV, RegisterResponse, ErrorBody, TaskItem, opt_view, InboxResponse, MessageItem, MessageStatusListResponse,
    MessageStatusResponse, TeamResponse, AgentSummary, AgentSummaryV, BroadcastResponse, TaskSyncRequest,
    TaskSyncItem, TaskItemV, TaskListResponse, MessageItemV,
};
use crate::text::{concat3, lex_le, lemma_lex_refl, lemma_lex_total, lemma_lex_trans, str_le};

verus! {

/// The message a send answers: its identifier, sender, body and time stamp, not
/// yet acknowledged.
pub open spec fn sent_item(id: Seq<char>, from: Seq<char>, body: Seq<char>, at: i64) -> MessageItemV {
    MessageItemV { id, from, body, timestamp: clock::rfc3339_of(at), acked: false }
}

/// Timing and capacity settings of a server.
pub struct ServerConfig {
    pub heartbeat_timeout_secs: i64,
    pub reaper_interval_secs: u64,
    pub max_inbox: usize,
}

impl Default for ServerConfig {
    /// A heartbeat timeout of 30 s, a reaper pass every 10 s, inboxes of 100.
    fn default() -> (r: Self)
        ensures
            r.heartbeat_timeout_secs == 30,
            r.reaper_interval_secs == 10,
            r.max_inbox == 100,
    {
        ServerConfig { heartbeat_timeout_secs: 30, reaper_interval_secs: 10, max_inbox: 100 }
    }
}

/// A registered agent.
pub struct AgentRecord {
    pub id: String,
    pub name: String,
    pub description: String,
    pub repo_path: Option<String>,
    pub last_heartbeat: i64,
    pub task_snapshot: Vec<TaskItem>,
    pub task_snapshot_hash: u64,
}

impl View for AgentRecord {
    type V = AgentV;

    open spec fn view(&self) -> AgentV {
        AgentV {
            id: self.id@,
            name: self.name@,
            description: self.description@,
            repo_path: opt_view(self.repo_path),
            last_heartbeat: self.last_heartbeat,
            task_snapshot: self.task_snapshot@.map_values(|t: TaskItem| t@),
            task_snapshot_hash: self.task_snapshot_hash,
        }
    }
}

struct Message {
    id: String,
    from: String,
    body: String,
    timestamp: i64,
    acked: bool,
}

impl View for Message {
    type V = MessageV;

    closed spec fn view(&self) -> MessageV {
        MessageV { id: self.id@, from: self.from@, body: self.body@, timestamp: self.timestamp, acked: self.acked }
    }
}

struct Inbox {
    agent_id: String,
    messages: VecDeque<Message>,
}

impl View for Inbox {
    type V = (Seq<char>, Seq<MessageV>);

    closed spec fn view(&self) -> (Seq<char>, Seq<MessageV>) {
        (self.agent_id@, self.messages@.map_values(|m: Message| m@))
    }
}

struct AckEntry {
    message_id: String,
    acked: bool,
}

impl View for AckEntry {
    type V = (Seq<char>, bool);

    closed spec fn view(&self) -> (Seq<char>, bool) {
        (self.message_id@, self.acked)
    }
}

struct AckBook {
    agent_id: String,
    entries: Vec<AckEntry>,
}

impl View for AckBook {
    type V = (Seq<char>, Seq<(Seq<char>, bool)>);

    closed spec fn view(&self) -> (Seq<char>, Seq<(Seq<char>, bool)>) {
        (self.agent_id@, self.entries@.map_values(|e: AckEntry| e@))
    }
}

struct TaskRecord {
    id: String,
    agent_id: String,
    title: String,
    body: String,
    status: TaskStatus,
    created_at: i64,
    started_at: Option<i64>,
    finished_at: Option<i64>,
    result: Option<String>,
}

impl View for TaskRecord {
    type V = TaskV;

    closed spec fn view(&self) -> TaskV {
        TaskV {
            id: self.id@,
            agent_id: self.agent_id@,
            title: self.title@,
            body: self.body@,
            status: self.status,
            created_at: self.created_at,
            started_at: self.started_at,
            finished_at: self.finished_at,
            result: opt_view(self.result),
        }
    }
}

/// The tables behind a server: its settings, agents, inboxes, tasks and
/// acknowledgements. Kept well formed by `AppState`.
struct Tables {
    config: ServerConfig,
    agents: Vec<AgentRecord>,
    inboxes: Vec<Inbox>,
    tasks: Vec<TaskRecord>,
    message_acks: Vec<AckBook>,
}

impl View for Tables {
    type V = StateV;

    open spec fn view(&self) -> StateV {
        self.state()
    }
}

/// Whether a finishing status asks for the task to be marked failed.
pub open spec fn asks_failure(status: Seq<char>) -> bool {
    status == "failed"@
}

/// The text of a refusal: `"<what> <id> not found"`.
pub open spec fn not_found_text(what: Seq<char>, id: Seq<char>) -> Seq<char> {
    what + id + " not found"@
}

fn not_found(what: &str, id: &str) -> (e: ErrorBody)
    ensures
        e.error@ == not_found_text(what@, id@),
{
    ErrorBody { error: concat3(what, id, " not found") }
}

impl Tables {
    /// The settings the server runs with.
    pub closed spec fn settings(&self) -> ServerConfig {
        self.config
    }

    pub closed spec fn state(&self) -> StateV {
        StateV {
            agents: self.agents@.map_values(|a: AgentRecord| a@),
            inboxes: self.inboxes@.map_values(|b: Inbox| b@),
            tasks: self.tasks@.map_values(|t: TaskRecord| t@),
            acks: self.message_acks@.map_values(|b: AckBook| b@),
        }
    }

    /// An empty server with the given settings.
    pub fn new(config: ServerConfig) -> (r: Self)
        ensures
            r@.wf(),
            r@.agents.len() == 0,
            r@.inboxes.len() == 0,
            r@.tasks.len() == 0,
            r@.acks.len() == 0,
            r.settings() == config,
    {
        let r = Tables { config, agents: Vec::new(), inboxes: Vec::new(), tasks: Vec::new(), message_acks: Vec::new() };
        assert(r@.agents =~= Seq::empty());
        assert(r@.inboxes =~= Seq::empty());
        assert(r@.tasks =~= Seq::empty());
        assert(r@.acks =~= Seq::empty());
        r
    }

    /// The record of agent `id`, if it is registered.
    pub fn agent_record(&self, id: &String) -> (r: Option<&AgentRecord>)
        requires
            self@.wf(),
        ensures
            match r {
                Some(a) => has_agent(self@.agents, id@) && a@ == self@.agent(id@),
                None => !has_agent(self@.agents, id@),
            },
    {
        match self.find_agent(id) {
            Some(i) => {
                proof { lemma_agent_pos(self@.agents, id@, i as int); }
                Some(&self.agents[i])
            },
            None => None,
        }
    }

    fn find_agent(&self, id: &String) -> (r: Option<usize>)
        ensures
            match r {
                Some(i) => i < self@.agents.len() && self@.agents[i as int].id == id@,
                None => !has_agent(self@.agents, id@),
            },
    {
        let mut i: usize = 0;
        while i < self.agents.len()
            invariant
                i <= self.agents@.len(),
                forall|j: int| 0 <= j < i ==> self@.agents[j].id != id@,
            decreases self.agents@.len() - i,
        {
            if self.agents[i].id == *id {
                return Some(i);
            }
            i = i + 1;
        }
        None
    }

    fn find_inbox(&self, id: &String) -> (r: Option<usize>)
        ensures
            match r {
                Some(i) => i < self@.inboxes.len() && self@.inboxes[i as int].0 == id@,
                None => !has_key(self@.inboxes, id@),
            },
    {
        let mut i: usize = 0;
        while i < self.inboxes.len()
            invariant
                i <= self.inboxes@.len(),
                forall|j: int| 0 <= j < i ==> self@.inboxes[j].0 != id@,
            decreases self.inboxes@.len() - i,
        {
            if self.inboxes[i].agent_id == *id {
                return Some(i);
            }
            i = i + 1;
        }
        None
    }

    fn find_book(&self, id: &String) -> (r: Option<usize>)
        ensures
            match r {
                Some(i) => i < self@.acks.len() && self@.acks[i as int].0 == id@,
                None => !has_key(self@.acks, id@),
            },
    {
        let mut i: usize = 0;
        while i < self.message_acks.len()
            invariant
                i <= self.message_acks@.len(),
                forall|j: int| 0 <= j < i ==> self@.acks[j].0 != id@,
            decreases self.message_acks@.len() - i,
        {
            if self.message_acks[i].agent_id == *id {
                return Some(i);
            }
            i = i + 1;
        }
        None
    }

    fn find_task(&self, id: &String) -> (r: Option<usize>)
        ensures
            match r {
                Some(i) => i < self@.tasks.len() && self@.tasks[i as int].id == id@,
                None => !has_task(self@.tasks, id@),
            },
    {
        let mut i: usize = 0;
        while i < self.tasks.len()
            invariant
                i <= self.tasks@.len(),
                forall|j: int| 0 <= j < i ==> self@.tasks[j].id != id@,
            decreases self.tasks@.len() - i,
        {
            if self.tasks[i].id == *id {
                return Some(i);
            }
            i = i + 1;
        }
        None
    }

    /// Registers an agent under `id` at instant `now`; see `model::register`.
    pub fn register_at(&mut self, id: String, name: String, description: String, repo_path: Option<String>, now: i64) -> (r: RegisterResponse)
        requires
            old(self)@.wf(),
        ensures
            final(self)@.wf(),
            final(self)@ == register(old(self)@, id@, name@, description@, opt_view(repo_path), now),
            final(self).settings() == old(self).settings(),
            r.agent_id@ == id@,
    {
        let ghost s0 = self@;
        let rec = AgentRecord {
            id: id.clone(),
            name,
            description,
            repo_path,
            last_heartbeat: now,
            task_snapshot: Vec::new(),
            task_snapshot_hash: 0,
        };
        assert(rec@.task_snapshot =~= Seq::empty());
        assert(rec@ == new_agent(id@, rec.name@, rec.description@, rec@.repo_path, now));
        match self.find_agent(&id) {
            Some(i) => {
                proof { lemma_agent_pos(s0.agents, id@, i as int); }
                self.agents.set(i, rec);
                assert(self@.agents =~= s0.agents.update(i as int, rec@));
            },
            None => {
                self.agents.push(rec);
                assert(self@.agents =~= s0.agents.push(rec@));
            },
        }
        let ghost s1 = self@;
        assert(unique_agents(s1.agents));
        let inbox = Inbox { agent_id: id.clone(), messages: VecDeque::new() };
        assert(inbox@.1 =~= Seq::empty());
        match self.find_inbox(&id) {
            Some(i) => {
                proof { lemma_key_pos(s1.inboxes, id@, i as int); }
                self.inboxes.set(i, inbox);
                assert(self@.inboxes =~= s1.inboxes.update(i as int, inbox@));
            },
            None => {
                self.inboxes.push(inbox);
                assert(self@.inboxes =~= s1.inboxes.push(inbox@));
            },
        }
        proof { lemma_put_unique(s1.inboxes, id@, Seq::<MessageV>::empty()); }
        assert(self@.tasks =~= s0.tasks);
        assert(self@.acks =~= s0.acks);
        RegisterResponse { agent_id: id }
    }

    /// A heartbeat for `agent_id` at instant `now`; see `model::heartbeat`. Refused,
    /// with `agent <id> not found`, for an unknown agent that does not give both
    /// a name and a description.
    pub fn heartbeat_at(
        &mut self,
        agent_id: String,
        name: Option<String>,
        description: Option<String>,
        repo_path: Option<String>,
        now: i64,
    ) -> (r: Result<(), ErrorBody>)
        requires
            old(self)@.wf(),
        ensures
            final(self)@.wf(),
            final(self)@ == heartbeat(old(self)@, agent_id@, opt_view(name), opt_view(description), opt_view(repo_path), now),
            final(self).settings() == old(self).settings(),
            r is Ok <==> heartbeat_accepted(old(self)@, agent_id@, opt_view(name), opt_view(description)),
            r matches Err(e) ==> e.error@ == not_found_text("agent "@, agent_id@),
    {
        let ghost s0 = self@;
        match self.find_agent(&agent_id) {
            Some(i) => {
                proof { lemma_agent_pos(s0.agents, agent_id@, i as int); }
                self.agents[i].last_heartbeat = now;
                assert(self@.agents =~= s0.agents.update(i as int, AgentV { last_heartbeat: now, ..s0.agents[i as int] }));
                assert(self@.inboxes =~= s0.inboxes);
                assert(self@.tasks =~= s0.tasks);
                assert(self@.acks =~= s0.acks);
                return Ok(());
            },
            None => {},
        }
        match (name, description) {
            (Some(name), Some(desc)) => {
                let rec = AgentRecord {
                    id: agent_id.clone(),
                    name,
                    description: desc,
                    repo_path,
                    last_heartbeat: now,
                    task_snapshot: Vec::new(),
                    task_snapshot_hash: 0,
                };
                assert(rec@.task_snapshot =~= Seq::empty());
                self.agents.push(rec);
                assert(self@.agents =~= s0.agents.push(rec@));
                let ghost s1 = self@;
                match self.find_inbox(&agent_id) {
                    Some(_) => {},
                    None => {
                        let inbox = Inbox { agent_id: agent_id.clone(), messages: VecDeque::new() };
                        assert(inbox@.1 =~= Seq::empty());
                        self.inboxes.push(inbox);
                        assert(self@.inboxes =~= s1.inboxes.push(inbox@));
                        proof { lemma_put_unique(s1.inboxes, agent_id@, Seq::<MessageV>::empty()); }
                    },
                }
                assert(self@.tasks =~= s0.tasks);
                assert(self@.acks =~= s0.acks);
                Ok(())
            },
            _ => Err(not_found("agent ", agent_id.as_str())),
        }
    }
}


fn find_entry(entries: &Vec<AckEntry>, mid: &String) -> (r: Option<usize>)
    ensures
        match r {
            Some(i) => i < entries@.len() && entries@[i as int]@.0 == mid@,
            None => !has_key(entries@.map_values(|e: AckEntry| e@), mid@),
        },
{
    let ghost v = entries@.map_values(|e: AckEntry| e@);
    let mut i: usize = 0;
    while i < entries.len()
        invariant
            i <= entries@.len(),
            v == entries@.map_values(|e: AckEntry| e@),
            forall|j: int| 0 <= j < i ==> v[j].0 != mid@,
        decreases entries@.len() - i,
    {
        if entries[i].message_id == *mid {
            return Some(i);
        }
        i = i + 1;
    }
    None
}

spec fn books_view(books: Seq<AckBook>) -> Seq<(Seq<char>, Seq<(Seq<char>, bool)>)> {
    books.map_values(|b: AckBook| b@)
}

/// Whether message `mid` is acknowledged in the table of `id`, found at `b`.
fn acked_lookup(books: &Vec<AckBook>, b: Option<usize>, id: &String, mid: &String) -> (r: bool)
    requires
        unique_keys(books_view(books@)),
        forall|i: int| 0 <= i < books@.len() ==> unique_keys(#[trigger] books_view(books@)[i].1),
        match b {
            Some(i) => i < books@.len() && books_view(books@)[i as int].0 == id@,
            None => !has_key(books_view(books@), id@),
        },
    ensures
        r == acked_in(book_of(books_view(books@), id@), mid@),
{
    match b {
        Some(i) => {
            proof { lemma_key_pos(books_view(books@), id@, i as int); }
            let book = &books[i];
            assert(book@ == books_view(books@)[i as int]);
            match find_entry(&book.entries, mid) {
                Some(e) => {
                    proof { lemma_key_pos(book@.1, mid@, e as int); }
                    book.entries[e].acked
                },
                None => false,
            }
        },
        None => false,
    }
}

impl Tables {
    /// Sets entry `mid` of the acknowledgement table of `to` to `val`, creating
    /// the table or the entry as needed.
    fn ack_put(&mut self, to: &String, mid: String, val: bool)
        requires
            old(self)@.wf(),
        ensures
            final(self)@.wf(),
            final(self)@ == (StateV { acks: put(old(self)@.acks, to@, put(old(self)@.book(to@), mid@, val)), ..old(self)@ }),
            final(self).settings() == old(self).settings(),
    {
        let ghost s0 = self@;
        let ghost mv = mid@;
        match self.find_book(to) {
            Some(b) => {
                proof { lemma_key_pos(s0.acks, to@, b as int); }
                let mut book = self.message_acks.remove(b);
                let ghost old_book = book@.1;
                assert(old_book == s0.book(to@));
                assert(unique_keys(old_book));
                match find_entry(&book.entries, &mid) {
                    Some(e) => {
                        proof { lemma_key_pos(old_book, mv, e as int); }
                        book.entries.set(e, AckEntry { message_id: mid, acked: val });
                        assert(book@.1 =~= old_book.update(e as int, (mv, val)));
                    },
                    None => {
                        book.entries.push(AckEntry { message_id: mid, acked: val });
                        assert(book@.1 =~= old_book.push((mv, val)));
                    },
                }
                proof { lemma_put_unique(old_book, mv, val); }
                assert(book@ == (to@, put(old_book, mv, val)));
                self.message_acks.insert(b, book);
                assert(self@.acks =~= s0.acks.update(b as int, (to@, put(old_book, mv, val))));
            },
            None => {
                let mut entries: Vec<AckEntry> = Vec::new();
                entries.push(AckEntry { message_id: mid, acked: val });
                let book = AckBook { agent_id: to.clone(), entries };
                assert(s0.book(to@) =~= Seq::empty());
                assert(book@.1 =~= Seq::<(Seq<char>, bool)>::empty().push((mv, val)));
                proof { lemma_put_unique(Seq::<(Seq<char>, bool)>::empty(), mv, val); }
                self.message_acks.push(book);
                assert(self@.acks =~= s0.acks.push(book@));
            },
        }
        proof {
            lemma_put_unique(s0.acks, to@, put(s0.book(to@), mv, val));
            let a = self@.acks;
            assert forall|i: int| 0 <= i < a.len() implies unique_keys(#[trigger] a[i].1) by {
                if a[i].0 != to@ {
                    lemma_key_pos(a, a[i].0, i);
                    assert(get(a, a[i].0) == get(s0.acks, a[i].0));
                    let q = choose|q: int| 0 <= q < s0.acks.len() && (#[trigger] s0.acks[q]).0 == a[i].0;
                    lemma_key_pos(s0.acks, a[i].0, q);
                } else {
                    lemma_key_pos(a, to@, i);
                    lemma_put_unique(s0.book(to@), mv, val);
                }
            }
        }
        assert(self@.agents =~= s0.agents);
        assert(self@.inboxes =~= s0.inboxes);
        assert(self@.tasks =~= s0.tasks);
    }

    /// Removes entry `mid` from the acknowledgement table of `to`, if both exist.
    fn ack_drop(&mut self, to: &String, mid: &String)
        requires
            old(self)@.wf(),
        ensures
            final(self)@.wf(),
            final(self)@ == (StateV {
                acks: if has_key(old(self)@.acks, to@) {
                    put(old(self)@.acks, to@, drop_key(old(self)@.book(to@), mid@))
                } else {
                    old(self)@.acks
                },
                ..old(self)@
            }),
            final(self).settings() == old(self).settings(),
    {
        let ghost s0 = self@;
        let ghost mv = mid@;
        match self.find_book(to) {
            Some(b) => {
                proof { lemma_key_pos(s0.acks, to@, b as int); }
                let mut book = self.message_acks.remove(b);
                let ghost old_book = book@.1;
                assert(old_book == s0.book(to@));
                match find_entry(&book.entries, mid) {
                    Some(e) => {
                        proof { lemma_key_pos(old_book, mv, e as int); }
                        book.entries.remove(e);
                        assert(book@.1 =~= old_book.remove(e as int));
                    },
                    None => {},
                }
                proof { lemma_drop_unique(old_book, mv); }
                assert(book@ == (to@, drop_key(old_book, mv)));
                self.message_acks.insert(b, book);
                assert(self@.acks =~= s0.acks.update(b as int, (to@, drop_key(old_book, mv))));
                proof {
                    lemma_put_unique(s0.acks, to@, drop_key(old_book, mv));
                    let a = self@.acks;
                    assert forall|i: int| 0 <= i < a.len() implies unique_keys(#[trigger] a[i].1) by {
                        if i != b {
                            assert(a[i] == s0.acks[i]);
                        }
                    }
                }
            },
            None => {},
        }
        assert(self@.agents =~= s0.agents);
        assert(self@.inboxes =~= s0.inboxes);
        assert(self@.tasks =~= s0.tasks);
        assert(self@.acks =~= (if has_key(s0.acks, to@) { put(s0.acks, to@, drop_key(s0.book(to@), mv)) } else { s0.acks }));
    }

    /// Puts a message into the inbox at position `p`, which belongs to `to`.
    fn deliver_to(&mut self, p: usize, to: &String, from: String, body: String, msg_id: String, at: i64)
        requires
            old(self)@.wf(),
            p < old(self)@.inboxes.len(),
            old(self)@.inboxes[p as int].0 == to@,
        ensures
            final(self)@.wf(),
            final(self)@ == deliver(old(self)@, to@, from@, body@, msg_id@, at, old(self).settings().max_inbox),
            final(self).settings() == old(self).settings(),
    {
        let ghost s0 = self@;
        let max = self.config.max_inbox;
        proof { lemma_key_pos(s0.inboxes, to@, p as int); }
        let ghost q = s0.inbox(to@)->0;
        let mut ib = self.inboxes.remove(p);
        assert(ib@.1 == q);
        assert(self@.inboxes =~= s0.inboxes.remove(p as int));
        assert(unique_keys(self@.inboxes));
        let ghost s_mid = self@;
        let ghost dropped = evicts(q, max);
        if ib.messages.len() >= max {
            match ib.messages.pop_front() {
                Some(old_msg) => {
                    assert(old_msg@ == q[0]);
                    self.ack_drop(to, &old_msg.id);
                },
                None => {},
            }
        }
        let ghost q1 = if dropped { q.drop_first() } else { q };
        assert(ib@.1 =~= q1);
        let ghost s1 = self@;
        assert(s1.inboxes == s_mid.inboxes);
        let ghost m = MessageV { id: msg_id@, from: from@, body: body@, timestamp: at, acked: false };
        let ghost mid = msg_id@;
        let msg = Message { id: msg_id.clone(), from, body, timestamp: at, acked: false };
        assert(msg@ == m);
        ib.messages.push_back(msg);
        assert(ib@.1 =~= q1.push(m));
        assert(ib@ == (to@, q1.push(m)));
        self.inboxes.insert(p, ib);
        assert(self@.inboxes =~= s1.inboxes.insert(p as int, (to@, q1.push(m))));
        assert(s0.inboxes.remove(p as int).insert(p as int, (to@, q1.push(m))) =~= s0.inboxes.update(p as int, (to@, q1.push(m))));
        assert(self@.inboxes =~= s0.inboxes.update(p as int, (to@, q1.push(m))));
        proof { lemma_put_unique(s0.inboxes, to@, q1.push(m)); }
        assert(self@.acks == s1.acks);
        self.ack_put(to, msg_id, false);
        assert(self@.agents =~= s0.agents);
        assert(self@.tasks =~= s0.tasks);
    }

    /// Sends a message to `to` with identifier `msg_id` at instant `at`; see
    /// `model::deliver`. Answers the new message, unacknowledged. Refused, with
    /// `agent <to> not found`, when `to` has no inbox.
    pub fn send_message_at(&mut self, to: String, from: String, body: String, msg_id: String, at: i64) -> (r: Result<MessageItem, ErrorBody>)
        requires
            old(self)@.wf(),
        ensures
            final(self)@.wf(),
            final(self).settings() == old(self).settings(),
            r is Ok <==> has_key(old(self)@.inboxes, to@),
            r is Ok ==> final(self)@ == deliver(old(self)@, to@, from@, body@, msg_id@, at, old(self).settings().max_inbox),
            r matches Ok(m) ==> m@ == sent_item(msg_id@, from@, body@, at),
            r matches Err(e) ==> final(self)@ == old(self)@ && e.error@ == not_found_text("agent "@, to@),
    {
        match self.find_inbox(&to) {
            Some(p) => {
                let item = MessageItem {
                    id: msg_id.clone(),
                    from: from.clone(),
                    body: body.clone(),
                    timestamp: clock::rfc3339(at),
                    acked: false,
                };
                self.deliver_to(p, &to, from, body, msg_id, at);
                Ok(item)
            },
            None => Err(not_found("agent ", to.as_str())),
        }
    }

    /// Drains the inbox of `agent_id`: hands out its messages, oldest first, each
    /// with its acknowledgement state, and leaves the inbox empty. An agent without
    /// an inbox gets an empty list.
    pub fn recv_messages(&mut self, agent_id: &String) -> (r: InboxResponse)
        requires
            old(self)@.wf(),
        ensures
            final(self)@.wf(),
            final(self).settings() == old(self).settings(),
            final(self)@ == drain(old(self)@, agent_id@),
            r.messages@.map_values(|m: MessageItem| m@) == drained(old(self)@, agent_id@),
    {
        let ghost s0 = self@;
        let b = self.find_book(agent_id);
        let mut items: Vec<MessageItem> = Vec::new();
        match self.find_inbox(agent_id) {
            Some(p) => {
                proof { lemma_key_pos(s0.inboxes, agent_id@, p as int); }
                let ghost q = s0.inbox(agent_id@)->0;
                let ghost book = s0.book(agent_id@);
                let mut ib = self.inboxes.remove(p);
                let mut pending: VecDeque<Message> = VecDeque::new();
                std::mem::swap(&mut pending, &mut ib.messages);
                assert(pending@.map_values(|m: Message| m@) == q);
                let ghost total = pending@.len();
                let ghost orig = pending@;
                while pending.len() > 0
                    invariant
                        self@.acks == s0.acks,
                        s0.wf(),
                        match b {
                            Some(i) => i < s0.acks.len() && s0.acks[i as int].0 == agent_id@,
                            None => !has_key(s0.acks, agent_id@),
                        },
                        self.message_acks@ == old(self).message_acks@,
                        book == s0.book(agent_id@),
                        orig.map_values(|m: Message| m@) == q,
                        total == orig.len(),
                        pending@.len() <= total,
                        pending@ == orig.subrange(total - pending@.len(), total as int),
                        items@.len() == total - pending@.len(),
                        forall|k: int| 0 <= k < items@.len() ==> (#[trigger] items@[k])@ == message_item(q[k], book),
                    decreases pending@.len(),
                {
                    let m = pending.pop_front().unwrap();
                    let ghost k = items@.len() as int;
                    assert(m == orig[k]);
                    assert(m@ == q[k]);
                    let acked = acked_lookup(&self.message_acks, b, agent_id, &m.id);
                    let item = MessageItem {
                        id: m.id,
                        from: m.from,
                        body: m.body,
                        timestamp: clock::rfc3339(m.timestamp),
                        acked,
                    };
                    items.push(item);
                    assert(pending@ =~= orig.subrange(total - pending@.len(), total as int));
                }
                assert(ib@.1 =~= Seq::empty());
                self.inboxes.insert(p, ib);
                assert(self@.inboxes =~= s0.inboxes.update(p as int, (agent_id@, Seq::empty())));
                proof { lemma_put_unique(s0.inboxes, agent_id@, Seq::<MessageV>::empty()); }
                assert(items@.map_values(|m: MessageItem| m@) =~= q.map_values(|m: MessageV| message_item(m, book)));
            },
            None => {
                assert(items@.map_values(|m: MessageItem| m@) =~= Seq::empty());
            },
        }
        assert(self@.agents =~= s0.agents);
        assert(self@.tasks =~= s0.tasks);
        assert(self@.acks =~= s0.acks);
        InboxResponse { messages: items }
    }

}


impl Tables {
    /// Acknowledges message `message_id` of `agent_id`. Refused with
    /// `agent <id> not found` when the agent has no acknowledgement table, and with
    /// `message <id> not found` when its table has no such message.
    pub fn ack_message(&mut self, agent_id: String, message_id: String) -> (r: Result<(), ErrorBody>)
        requires
            old(self)@.wf(),
        ensures
            final(self)@.wf(),
            final(self).settings() == old(self).settings(),
            final(self)@ == ack(old(self)@, agent_id@, message_id@),
            r is Ok <==> ack_refusal(old(self)@, agent_id@, message_id@) is None,
            r matches Err(e) ==> match ack_refusal(old(self)@, agent_id@, message_id@) {
                Some(AckRefusal::UnknownAgent) => e.error@ == not_found_text("agent "@, agent_id@),
                Some(AckRefusal::UnknownMessage) => e.error@ == not_found_text("message "@, message_id@),
                None => false,
            },
    {
        let ghost s0 = self@;
        match self.find_book(&agent_id) {
            Some(b) => {
                proof { lemma_key_pos(s0.acks, agent_id@, b as int); }
                let found = find_entry(&self.message_acks[b].entries, &message_id);
                assert(self.message_acks@[b as int]@.1 == s0.book(agent_id@));
                match found {
                    Some(e) => {
                        proof { lemma_key_pos(s0.book(agent_id@), message_id@, e as int); }
                        self.ack_put(&agent_id, message_id, true);
                        Ok(())
                    },
                    None => Err(not_found("message ", message_id.as_str())),
                }
            },
            None => Err(not_found("agent ", agent_id.as_str())),
        }
    }

    /// The acknowledgement state of every message in the table of `agent_id`
    /// (empty when it has none).
    pub fn message_status(&self, agent_id: &String) -> (r: MessageStatusListResponse)
        requires
            self@.wf(),
        ensures
            r.messages@.map_values(|m: MessageStatusResponse| m@) == self@.book(agent_id@),
    {
        let mut out: Vec<MessageStatusResponse> = Vec::new();
        match self.find_book(agent_id) {
            Some(b) => {
                proof { lemma_key_pos(self@.acks, agent_id@, b as int); }
                let book = &self.message_acks[b];
                let ghost bv = self@.book(agent_id@);
                assert(book@.1 == bv);
                let mut i: usize = 0;
                while i < book.entries.len()
                    invariant
                        i <= book.entries@.len(),
                        book@.1 == bv,
                        out@.map_values(|m: MessageStatusResponse| m@) =~= bv.take(i as int),
                    decreases book.entries@.len() - i,
                {
                    let e = &book.entries[i];
                    out.push(MessageStatusResponse { id: e.message_id.clone(), acked: e.acked });
                    assert(bv.take(i + 1) =~= bv.take(i as int).push(bv[i as int]));
                    i = i + 1;
                }
                assert(bv.take(i as int) =~= bv);
            },
            None => {},
        }
        MessageStatusListResponse { messages: out }
    }

    /// The roster at instant `now`: every online agent, in roster order.
    pub fn team_at(&self, now: i64) -> (r: TeamResponse)
        ensures
            r.agents@.map_values(|a: AgentSummary| a@) == team(self@, now, self.settings().heartbeat_timeout_secs),
    {
        let timeout = self.config.heartbeat_timeout_secs;
        let ghost all = self@.agents;
        let ghost pred = |a: AgentV| online(a, now, timeout);
        let mut out: Vec<AgentSummary> = Vec::new();
        let mut i: usize = 0;
        while i < self.agents.len()
            invariant
                i <= self.agents@.len(),
                all == self@.agents,
                pred == (|a: AgentV| online(a, now, timeout)),
                timeout == self.settings().heartbeat_timeout_secs,
                out@.map_values(|a: AgentSummary| a@) =~= all.take(i as int).filter(pred).map_values(|a: AgentV| summary(a)),
            decreases self.agents@.len() - i,
        {
            let a = &self.agents[i];
            let ghost prev = all.take(i as int).filter(pred);
            proof { reveal(Seq::filter); }
            assert(all.take(i + 1).drop_last() =~= all.take(i as int));
            assert(all.take(i + 1).last() == all[i as int]);
            assert(all.take(i + 1).filter(pred) == if pred(all[i as int]) { prev.push(all[i as int]) } else { prev });
            assert(a@ == all[i as int]);
            assert(pred(all[i as int]) == online(all[i as int], now, timeout));
            let ghost out0 = out@;
            if clock::is_within(a.last_heartbeat, now, timeout) {
                let sm = AgentSummary {
                    id: a.id.clone(),
                    name: a.name.clone(),
                    description: a.description.clone(),
                    last_heartbeat: clock::rfc3339(a.last_heartbeat),
                };
                assert(sm@ == summary(all[i as int]));
                out.push(sm);
                assert(out@.map_values(|a: AgentSummary| a@) =~= out0.map_values(|a: AgentSummary| a@).push(sm@));
                assert(prev.push(all[i as int]).map_values(|a: AgentV| summary(a)) =~= prev.map_values(|a: AgentV| summary(a)).push(summary(all[i as int])));
            }
            i = i + 1;
        }
        assert(all.take(i as int) =~= all);
        TeamResponse { agents: out }
    }

    /// The identifiers of the agents online at `now`, in roster order.
    fn live_at(&self, now: i64) -> (r: Vec<String>)
        ensures
            r@.map_values(|s: String| s@) == live_ids(self@, now, self.settings().heartbeat_timeout_secs),
    {
        let timeout = self.config.heartbeat_timeout_secs;
        let ghost all = self@.agents;
        let ghost pred = |a: AgentV| online(a, now, timeout);
        let mut out: Vec<String> = Vec::new();
        let mut i: usize = 0;
        while i < self.agents.len()
            invariant
                i <= self.agents@.len(),
                all == self@.agents,
                pred == (|a: AgentV| online(a, now, timeout)),
                timeout == self.settings().heartbeat_timeout_secs,
                out@.map_values(|s: String| s@) =~= all.take(i as int).filter(pred).map_values(|a: AgentV| a.id),
            decreases self.agents@.len() - i,
        {
            let a = &self.agents[i];
            let ghost prev = all.take(i as int).filter(pred);
            proof { reveal(Seq::filter); }
            assert(all.take(i + 1).drop_last() =~= all.take(i as int));
            assert(all.take(i + 1).last() == all[i as int]);
            assert(all.take(i + 1).filter(pred) == if pred(all[i as int]) { prev.push(all[i as int]) } else { prev });
            assert(a@ == all[i as int]);
            assert(pred(all[i as int]) == online(all[i as int], now, timeout));
            let ghost out0 = out@;
            if clock::is_within(a.last_heartbeat, now, timeout) {
                let id = a.id.clone();
                out.push(id);
                assert(out@.map_values(|s: String| s@) =~= out0.map_values(|s: String| s@).push(id@));
                assert(prev.push(all[i as int]).map_values(|a: AgentV| a.id) =~= prev.map_values(|a: AgentV| a.id).push(all[i as int].id));
            }
            i = i + 1;
        }
        assert(all.take(i as int) =~= all);
        out
    }

    /// How many agents are online at `now`: the number of identifiers and time
    /// stamps a broadcast at `now` needs.
    pub fn live_count_at(&self, now: i64) -> (n: usize)
        ensures
            n == live_ids(self@, now, self.settings().heartbeat_timeout_secs).len(),
    {
        self.live_at(now).len()
    }

    /// Broadcasts at instant `now`: delivers to every agent online at `now` that has
    /// an inbox, in roster order, the `k`-th online agent's message getting
    /// identifier `ids[k]` and timestamp `ats[k]`; returns how many were reached.
    pub fn broadcast_at(&mut self, from: &String, body: &String, now: i64, ids: &Vec<String>, ats: &Vec<i64>) -> (r: BroadcastResponse)
        requires
            old(self)@.wf(),
            ids@.len() >= live_ids(old(self)@, now, old(self).settings().heartbeat_timeout_secs).len(),
            ats@.len() >= live_ids(old(self)@, now, old(self).settings().heartbeat_timeout_secs).len(),
        ensures
            final(self)@.wf(),
            final(self).settings() == old(self).settings(),
            final(self)@ == deliver_all(
                old(self)@,
                live_ids(old(self)@, now, old(self).settings().heartbeat_timeout_secs),
                from@,
                body@,
                ids@.map_values(|s: String| s@),
                ats@,
                old(self).settings().max_inbox,
            ),
            r.delivered == count_with_inbox(old(self)@, live_ids(old(self)@, now, old(self).settings().heartbeat_timeout_secs)),
    {
        let ghost s0 = self@;
        let live = self.live_at(now);
        let ghost targets = live@.map_values(|s: String| s@);
        let ghost idv = ids@.map_values(|s: String| s@);
        let max = self.config.max_inbox;
        let mut delivered: usize = 0;
        let mut k: usize = 0;
        while k < live.len()
            invariant
                k <= live@.len(),
                targets == live@.map_values(|s: String| s@),
                idv == ids@.map_values(|s: String| s@),
                ids@.len() >= live@.len(),
                ats@.len() >= live@.len(),
                self@.wf(),
                self.settings() == old(self).settings(),
                max == self.settings().max_inbox,
                self@ == deliver_all(s0, targets.take(k as int), from@, body@, idv, ats@, max),
                delivered == count_with_inbox(s0, targets.take(k as int)),
                delivered <= k,
                forall|t: Seq<char>| #[trigger] has_key(self@.inboxes, t) == has_key(s0.inboxes, t),
            decreases live@.len() - k,
        {
            let ghost sk = self@;
            assert(targets.take(k + 1).drop_last() =~= targets.take(k as int));
            assert(targets.take(k + 1)[k as int] == targets[k as int]);
            match self.find_inbox(&live[k]) {
                Some(p) => {
                    self.deliver_to(p, &live[k], from.clone(), body.clone(), ids[k].clone(), ats[k]);
                    proof {
                        lemma_key_pos(sk.inboxes, targets[k as int], p as int);
                        lemma_deliver_keys(sk, targets[k as int], from@, body@, idv[k as int], ats@[k as int], max);
                    }
                    delivered = delivered + 1;
                },
                None => {},
            }
            k = k + 1;
        }
        assert(targets.take(k as int) =~= targets);
        BroadcastResponse { delivered }
    }
}


impl TaskStatus {
    /// The text by which the status is reported.
    pub fn as_str(&self) -> (r: &'static str)
        ensures
            r@ == status_text(*self),
    {
        proof {
            reveal_strlit("queued");
            reveal_strlit("in_progress");
            reveal_strlit("done");
            reveal_strlit("failed");
            reveal_strlit("blocked");
        }
        match self {
            TaskStatus::Queued => "queued",
            TaskStatus::InProgress => "in_progress",
            TaskStatus::Done => "done",
            TaskStatus::Failed => "failed",
            TaskStatus::Blocked => "blocked",
        }
    }
}

fn opt_time_text(t: Option<i64>) -> (r: Option<String>)
    ensures
        opt_view(r) == opt_rfc3339(t),
{
    match t {
        Some(n) => Some(clock::rfc3339(n)),
        None => None,
    }
}

fn task_item_from_record(r: &TaskRecord) -> (item: TaskItem)
    ensures
        item@ == task_item(r@),
{
    TaskItem {
        id: r.id.clone(),
        agent_id: r.agent_id.clone(),
        title: r.title.clone(),
        body: r.body.clone(),
        status: r.status.as_str().to_owned(),
        created_at: clock::rfc3339(r.created_at),
        started_at: opt_time_text(r.started_at),
        finished_at: opt_time_text(r.finished_at),
        result: copy_opt(&r.result),
    }
}

impl Tables {
    /// Pushes a task with identifier `task_id`, created at `now`, for `agent_id`;
    /// see `model::push_task`. Refused with `agent <id> not found` for an unknown agent.
    pub fn task_push_at(&mut self, agent_id: String, title: String, body: String, task_id: String, now: i64) -> (r: Result<TaskItem, ErrorBody>)
        requires
            old(self)@.wf(),
        ensures
            final(self)@.wf(),
            final(self).settings() == old(self).settings(),
            final(self)@ == push_task(old(self)@, task_id@, agent_id@, title@, body@, now),
            r is Ok <==> has_agent(old(self)@.agents, agent_id@),
            r matches Ok(item) ==> item@ == task_item(new_task(task_id@, agent_id@, title@, body@, now)),
            r matches Err(e) ==> e.error@ == not_found_text("agent "@, agent_id@),
    {
        let ghost s0 = self@;
        if self.find_agent(&agent_id).is_none() {
            return Err(not_found("agent ", agent_id.as_str()));
        }
        let rec = TaskRecord {
            id: task_id.clone(),
            agent_id,
            title,
            body,
            status: TaskStatus::Queued,
            created_at: now,
            started_at: None,
            finished_at: None,
            result: None,
        };
        let item = task_item_from_record(&rec);
        match self.find_task(&task_id) {
            Some(i) => {
                proof { lemma_task_pos(s0.tasks, task_id@, i as int); }
                self.tasks.set(i, rec);
                assert(self@.tasks =~= s0.tasks.update(i as int, rec@));
            },
            None => {
                self.tasks.push(rec);
                assert(self@.tasks =~= s0.tasks.push(rec@));
            },
        }
        assert(self@.agents =~= s0.agents);
        assert(self@.inboxes =~= s0.inboxes);
        assert(self@.acks =~= s0.acks);
        Ok(item)
    }

    /// Takes a daemon's report of its task files; see `model::sync_tasks`. Refused
    /// with `agent <id> not found` for an unknown agent.
    pub fn task_sync(&mut self, req: &TaskSyncRequest) -> (r: Result<(), ErrorBody>)
        requires
            old(self)@.wf(),
        ensures
            final(self)@.wf(),
            final(self).settings() == old(self).settings(),
            final(self)@ == sync_tasks(old(self)@, req.agent_id@, req.hash, req.tasks@.map_values(|t: TaskSyncItem| t@)),
            r is Ok <==> has_agent(old(self)@.agents, req.agent_id@),
            r matches Err(e) ==> e.error@ == not_found_text("agent "@, req.agent_id@),
    {
        let ghost s0 = self@;
        let ghost items = req.tasks@.map_values(|t: TaskSyncItem| t@);
        match self.find_agent(&req.agent_id) {
            Some(i) => {
                proof { lemma_agent_pos(s0.agents, req.agent_id@, i as int); }
                if self.agents[i].task_snapshot_hash == req.hash {
                    return Ok(());
                }
                let mut snap: Vec<TaskItem> = Vec::new();
                let mut k: usize = 0;
                while k < req.tasks.len()
                    invariant
                        k <= req.tasks@.len(),
                        items == req.tasks@.map_values(|t: TaskSyncItem| t@),
                        snap@.map_values(|t: TaskItem| t@) =~= items.take(k as int).map_values(|t: TaskSyncItemV| synced_item(req.agent_id@, t)),
                    decreases req.tasks@.len() - k,
                {
                    let t = &req.tasks[k];
                    let item = TaskItem {
                        id: t.id.clone(),
                        agent_id: req.agent_id.clone(),
                        title: t.title.clone(),
                        body: String::new(),
                        status: t.status.clone(),
                        created_at: t.modified_at.clone(),
                        started_at: None,
                        finished_at: None,
                        result: None,
                    };
                    assert(item@ == synced_item(req.agent_id@, items[k as int]));
                    let ghost snap0 = snap@;
                    snap.push(item);
                    assert(snap@.map_values(|t: TaskItem| t@) =~= snap0.map_values(|t: TaskItem| t@).push(item@));
                    assert(items.take(k + 1) =~= items.take(k as int).push(items[k as int]));
                    k = k + 1;
                }
                assert(items.take(k as int) =~= items);
                self.agents[i].task_snapshot_hash = req.hash;
                self.agents[i].task_snapshot = snap;
                assert(self@.agents =~= s0.agents.update(i as int, AgentV {
                    task_snapshot_hash: req.hash,
                    task_snapshot: items.map_values(|t: TaskSyncItemV| synced_item(req.agent_id@, t)),
                    ..s0.agents[i as int]
                }));
                assert(self@.inboxes =~= s0.inboxes);
                assert(self@.tasks =~= s0.tasks);
                assert(self@.acks =~= s0.acks);
                Ok(())
            },
            None => Err(not_found("agent ", req.agent_id.as_str())),
        }
    }

    /// Claims, at instant `now`, the next queued task of `agent_id`: the earliest
    /// created (the first of those created together). Refused with
    /// `no queued tasks` when it has none.
    pub fn task_claim_at(&mut self, agent_id: &String, now: i64) -> (r: Result<TaskItem, ErrorBody>)
        requires
            old(self)@.wf(),
        ensures
            final(self)@.wf(),
            final(self).settings() == old(self).settings(),
            final(self)@ == claim(old(self)@, agent_id@, now),
            r is Ok <==> has_queued(old(self)@.tasks, agent_id@),
            r matches Ok(item) ==> item@ == task_item(final(self)@.tasks[next_queued(old(self)@.tasks, agent_id@)]),
            r matches Err(e) ==> e.error@ == "no queued tasks"@,
    {
        let ghost s0 = self@;
        let mut best: Option<usize> = None;
        let mut i: usize = 0;
        while i < self.tasks.len()
            invariant
                i <= self.tasks@.len(),
                self@ == s0,
                match best {
                    Some(b) => {
                        &&& b < i
                        &&& queued_for(s0.tasks[b as int], agent_id@)
                        &&& forall|j: int| 0 <= j < i && #[trigger] queued_for(s0.tasks[j], agent_id@)
                            ==> s0.tasks[b as int].created_at <= s0.tasks[j].created_at
                                && (j < b ==> s0.tasks[b as int].created_at < s0.tasks[j].created_at)
                    },
                    None => forall|j: int| 0 <= j < i ==> !#[trigger] queued_for(s0.tasks[j], agent_id@),
                },
            decreases self.tasks@.len() - i,
        {
            let t = &self.tasks[i];
            assert(t@ == s0.tasks[i as int]);
            if t.agent_id == *agent_id && t.status == TaskStatus::Queued {
                match best {
                    Some(b) => {
                        if t.created_at < self.tasks[b].created_at {
                            best = Some(i);
                        }
                    },
                    None => {
                        best = Some(i);
                    },
                }
            }
            i = i + 1;
        }
        match best {
            Some(b) => {
                assert(is_next_queued(s0.tasks, agent_id@, b as int));
                assert(has_queued(s0.tasks, agent_id@));
                proof {
                    let c = next_queued(s0.tasks, agent_id@);
                    assert(is_next_queued(s0.tasks, agent_id@, c));
                    assert(queued_for(s0.tasks[c], agent_id@));
                    assert(queued_for(s0.tasks[b as int], agent_id@));
                }
                self.tasks[b].status = TaskStatus::InProgress;
                self.tasks[b].started_at = Some(now);
                assert(self@.tasks =~= s0.tasks.update(b as int, TaskV {
                    status: TaskStatus::InProgress,
                    started_at: Some(now),
                    ..s0.tasks[b as int]
                }));
                assert(self@.agents =~= s0.agents);
                assert(self@.inboxes =~= s0.inboxes);
                assert(self@.acks =~= s0.acks);
                let item = task_item_from_record(&self.tasks[b]);
                Ok(item)
            },
            None => {
                proof { reveal_strlit("no queued tasks"); }
                Err(ErrorBody { error: "no queued tasks".to_owned() })
            },
        }
    }

    /// Finishes task `task_id` at instant `now`: failed when `status` is `failed`,
    /// done otherwise; see `model::finish`. Refused with `task <id> not found`.
    pub fn task_finish_at(&mut self, task_id: &String, status: &str, result: Option<String>, now: i64) -> (r: Result<TaskItem, ErrorBody>)
        requires
            old(self)@.wf(),
        ensures
            final(self)@.wf(),
            final(self).settings() == old(self).settings(),
            final(self)@ == finish(old(self)@, task_id@, asks_failure(status@), opt_view(result), now),
            r is Ok <==> has_task(old(self)@.tasks, task_id@),
            r matches Ok(item) ==> item@ == task_item(final(self)@.task(task_id@)),
            r matches Err(e) ==> e.error@ == not_found_text("task "@, task_id@),
    {
        let ghost s0 = self@;
        match self.find_task(task_id) {
            Some(i) => {
                proof { lemma_task_pos(s0.tasks, task_id@, i as int); }
                let failed = crate::text::str_eq(status, "failed");
                self.tasks[i].status = if failed { TaskStatus::Failed } else { TaskStatus::Done };
                self.tasks[i].finished_at = Some(now);
                self.tasks[i].result = result;
                assert(self@.tasks =~= s0.tasks.update(i as int, TaskV {
                    status: if failed { TaskStatus::Failed } else { TaskStatus::Done },
                    finished_at: Some(now),
                    result: opt_view(result),
                    ..s0.tasks[i as int]
                }));
                assert(self@.agents =~= s0.agents);
                assert(self@.inboxes =~= s0.inboxes);
                assert(self@.acks =~= s0.acks);
                proof { lemma_task_pos(self@.tasks, task_id@, i as int); }
                Ok(task_item_from_record(&self.tasks[i]))
            },
            None => Err(not_found("task ", task_id.as_str())),
        }
    }

    /// Marks task `task_id` blocked for `reason`; see `model::block`. Refused with
    /// `task <id> not found`.
    pub fn task_block(&mut self, task_id: &String, reason: String) -> (r: Result<TaskItem, ErrorBody>)
        requires
            old(self)@.wf(),
        ensures
            final(self)@.wf(),
            final(self).settings() == old(self).settings(),
            final(self)@ == block(old(self)@, task_id@, reason@),
            r is Ok <==> has_task(old(self)@.tasks, task_id@),
            r matches Ok(item) ==> item@ == task_item(final(self)@.task(task_id@)),
            r matches Err(e) ==> e.error@ == not_found_text("task "@, task_id@),
    {
        let ghost s0 = self@;
        match self.find_task(task_id) {
            Some(i) => {
                proof { lemma_task_pos(s0.tasks, task_id@, i as int); }
                self.tasks[i].status = TaskStatus::Blocked;
                self.tasks[i].result = Some(reason);
                assert(self@.tasks =~= s0.tasks.update(i as int, TaskV {
                    status: TaskStatus::Blocked,
                    result: Some(reason@),
                    ..s0.tasks[i as int]
                }));
                assert(self@.agents =~= s0.agents);
                assert(self@.inboxes =~= s0.inboxes);
                assert(self@.acks =~= s0.acks);
                proof { lemma_task_pos(self@.tasks, task_id@, i as int); }
                Ok(task_item_from_record(&self.tasks[i]))
            },
            None => Err(not_found("task ", task_id.as_str())),
        }
    }
}


/// Orders tasks by their creation text, keeping ties in their given order.
fn sort_by_created(items: Vec<TaskItem>) -> (out: Vec<TaskItem>)
    ensures
        exists|perm: Seq<int>|
            #[trigger] stable_sorted_by_created(items_view(items@), items_view(out@), perm),
{
    let ghost input = items_view(items@);
    let mut rest = items;
    let mut out: Vec<TaskItem> = Vec::new();
    let ghost mut perm: Seq<int> = Seq::empty();
    let ghost mut i: int = 0;
    while rest.len() > 0
        invariant
            0 <= i <= input.len(),
            rest@.map_values(|t: TaskItem| t@) == input.skip(i),
            out@.len() == i,
            perm.len() == i,
            forall|k: int| 0 <= k < i ==> 0 <= #[trigger] perm[k] < i && out@[k]@ == input[perm[k]],
            forall|k1: int, k2: int| 0 <= k1 < k2 < i ==> #[trigger] perm[k1] != #[trigger] perm[k2],
            forall|k1: int, k2: int|
                0 <= k1 < k2 < i ==> lex_le((#[trigger] out@[k1])@.created_at, (#[trigger] out@[k2])@.created_at),
            forall|k1: int, k2: int|
                0 <= k1 < k2 < i && (#[trigger] out@[k1])@.created_at == (#[trigger] out@[k2])@.created_at ==> perm[k1] < perm[k2],
        decreases rest@.len(),
    {
        let ghost rv = rest@.map_values(|t: TaskItem| t@);
        assert(rv.len() > 0);
        assert(rv.len() == input.len() - i);
        assert(input.skip(i)[0] == input[i]);
        let x = rest.remove(0);
        assert(x@ == rv[0]);
        assert(x@ == input[i]);
        assert(rest@.map_values(|t: TaskItem| t@) =~= rv.drop_first());
        assert(rv.drop_first() =~= input.skip(i + 1));
        let mut j: usize = 0;
        while j < out.len() && str_le(out[j].created_at.as_str(), x.created_at.as_str())
            invariant
                j <= out@.len(),
                forall|m: int| 0 <= m < j ==> lex_le((#[trigger] out@[m])@.created_at, x@.created_at),
            decreases out@.len() - j,
        {
            j = j + 1;
        }
        let ghost old_out = out@;
        let ghost old_perm = perm;
        let ghost xk = x@.created_at;
        proof {
            if j < old_out.len() {
                lemma_lex_total(old_out[j as int]@.created_at, xk);
                assert(!lex_le(old_out[j as int]@.created_at, xk));
                assert(lex_le(xk, old_out[j as int]@.created_at));
                assert forall|m: int| j <= m < old_out.len() implies !lex_le((#[trigger] old_out[m])@.created_at, xk)
                    && lex_le(xk, old_out[m]@.created_at) by {
                    if m > j {
                        assert(lex_le(old_out[j as int]@.created_at, old_out[m]@.created_at));
                        if lex_le(old_out[m]@.created_at, xk) {
                            lemma_lex_trans(old_out[j as int]@.created_at, old_out[m]@.created_at, xk);
                        }
                        lemma_lex_trans(xk, old_out[j as int]@.created_at, old_out[m]@.created_at);
                    }
                }
            }
        }
        out.insert(j, x);
        proof {
            perm = old_perm.insert(j as int, i);
            lemma_lex_refl(xk);
            assert forall|k: int| 0 <= k < i + 1 implies 0 <= #[trigger] perm[k] < i + 1 && out@[k]@ == input[perm[k]] by {
                if k < j {
                    assert(out@[k] == old_out[k]);
                } else if k > j {
                    assert(out@[k] == old_out[k - 1]);
                }
            }
            assert forall|k1: int, k2: int| 0 <= k1 < k2 < i + 1 implies #[trigger] perm[k1] != #[trigger] perm[k2] by {
                if k1 != j && k2 != j {
                    let a = if k1 < j { k1 } else { k1 - 1 };
                    let b = if k2 < j { k2 } else { k2 - 1 };
                    assert(perm[k1] == old_perm[a]);
                    assert(perm[k2] == old_perm[b]);
                } else if k1 == j {
                    assert(perm[k2] == old_perm[k2 - 1]);
                } else {
                    if k1 < j { assert(perm[k1] == old_perm[k1]); } else { assert(perm[k1] == old_perm[k1 - 1]); }
                }
            }
            assert forall|k1: int, k2: int| 0 <= k1 < k2 < i + 1 implies
                lex_le((#[trigger] out@[k1])@.created_at, (#[trigger] out@[k2])@.created_at) by {
                if k1 != j && k2 != j {
                    let a = if k1 < j { k1 } else { k1 - 1 };
                    let b = if k2 < j { k2 } else { k2 - 1 };
                    assert(out@[k1] == old_out[a]);
                    assert(out@[k2] == old_out[b]);
                } else if k1 == j {
                    assert(out@[k2] == old_out[k2 - 1]);
                } else {
                    assert(out@[k1] == old_out[k1]);
                }
            }
            assert forall|k1: int, k2: int| 0 <= k1 < k2 < i + 1 && (#[trigger] out@[k1])@.created_at == (#[trigger] out@[k2])@.created_at
                implies perm[k1] < perm[k2] by {
                if k1 != j && k2 != j {
                    let a = if k1 < j { k1 } else { k1 - 1 };
                    let b = if k2 < j { k2 } else { k2 - 1 };
                    assert(out@[k1] == old_out[a]);
                    assert(out@[k2] == old_out[b]);
                    assert(perm[k1] == old_perm[a]);
                    assert(perm[k2] == old_perm[b]);
                } else if k1 == j {
                    assert(out@[k2] == old_out[k2 - 1]);
                    assert(!lex_le(old_out[k2 - 1]@.created_at, xk));
                } else {
                    assert(out@[k1] == old_out[k1]);
                    assert(perm[k1] == old_perm[k1]);
                }
            }
            i = i + 1;
        }
    }
    assert(input.skip(i).len() == 0);
    assert(i == input.len());
    assert(items_view(out@).len() == input.len());
    assert(forall|k: int| 0 <= k < out@.len() ==> items_view(out@)[k] == #[trigger] out@[k]@);
    assert(stable_sorted_by_created(input, items_view(out@), perm));
    out
}


impl Tables {
    /// The tasks of `agent_id`: its reported snapshot when it has a non-empty one,
    /// otherwise its tasks in server memory, ordered by creation text (ties kept
    /// in that order).
    pub fn task_list(&self, agent_id: &String) -> (r: TaskListResponse)
        requires
            self@.wf(),
        ensures
            is_task_list(self@, agent_id@, items_view(r.tasks@)),
    {
        let ghost s0 = self@;
        let mut items: Vec<TaskItem> = Vec::new();
        let ghost snap: Seq<TaskItemV> = if has_agent(s0.agents, agent_id@) { s0.agent(agent_id@).task_snapshot } else { Seq::empty() };
        match self.find_agent(agent_id) {
            Some(i) => {
                proof { lemma_agent_pos(s0.agents, agent_id@, i as int); }
                let a = &self.agents[i];
                assert(a@ == s0.agent(agent_id@));
                let mut k: usize = 0;
                while k < a.task_snapshot.len()
                    invariant
                        k <= a.task_snapshot@.len(),
                        a@.task_snapshot == snap,
                        items_view(items@) =~= snap.take(k as int),
                    decreases a.task_snapshot@.len() - k,
                {
                    let t = a.task_snapshot[k].copy();
                    let ghost items0 = items@;
                    items.push(t);
                    assert(items_view(items@) =~= items_view(items0).push(t@));
                    assert(snap.take(k + 1) =~= snap.take(k as int).push(snap[k as int]));
                    k = k + 1;
                }
                assert(snap.take(k as int) =~= snap);
            },
            None => {
                assert(items_view(items@) =~= snap);
            },
        }
        if items.len() == 0 {
            let ghost all = s0.tasks;
            let ghost pred = |t: TaskV| t.agent_id == agent_id@;
            let mut k: usize = 0;
            while k < self.tasks.len()
                invariant
                    k <= self.tasks@.len(),
                    all == self@.tasks,
                    pred == (|t: TaskV| t.agent_id == agent_id@),
                    items_view(items@) =~= all.take(k as int).filter(pred).map_values(|t: TaskV| task_item(t)),
                decreases self.tasks@.len() - k,
            {
                let t = &self.tasks[k];
                let ghost prev = all.take(k as int).filter(pred);
                proof { reveal(Seq::filter); }
                assert(all.take(k + 1).drop_last() =~= all.take(k as int));
                assert(all.take(k + 1).last() == all[k as int]);
                assert(all.take(k + 1).filter(pred) == if pred(all[k as int]) { prev.push(all[k as int]) } else { prev });
                assert(t@ == all[k as int]);
                let ghost items0 = items@;
                if t.agent_id == *agent_id {
                    let item = task_item_from_record(t);
                    items.push(item);
                    assert(items_view(items@) =~= items_view(items0).push(item@));
                    assert(prev.push(all[k as int]).map_values(|t: TaskV| task_item(t)) =~= prev.map_values(|t: TaskV| task_item(t)).push(task_item(all[k as int])));
                }
                k = k + 1;
            }
            assert(all.take(k as int) =~= all);
        }
        assert(items_view(items@) == listed_tasks(s0, agent_id@));
        let sorted = sort_by_created(items);
        TaskListResponse { tasks: sorted }
    }

    /// One pass of the reaper at instant `now`: removes every agent whose heartbeat
    /// has run out, and its inbox; see `model::reap`. Returns the removed identifiers.
    pub fn reap_at(&mut self, now: i64) -> (expired: Vec<String>)
        requires
            old(self)@.wf(),
        ensures
            final(self)@.wf(),
            final(self).settings() == old(self).settings(),
            final(self)@ == reap(old(self)@, now, old(self).settings().heartbeat_timeout_secs),
            forall|id: Seq<char>| expired_id(old(self)@, id, now, old(self).settings().heartbeat_timeout_secs)
                <==> #[trigger] listed(expired@, id),
    {
        let ghost s0 = self@;
        let timeout = self.config.heartbeat_timeout_secs;
        let ghost pred = |a: AgentV| online(a, now, timeout);
        let mut rest: Vec<AgentRecord> = Vec::new();
        std::mem::swap(&mut rest, &mut self.agents);
        let ghost all = s0.agents;
        assert(rest@.map_values(|a: AgentRecord| a@) == all);
        let mut kept: Vec<AgentRecord> = Vec::new();
        let mut expired: Vec<String> = Vec::new();
        let ghost mut i: int = 0;
        while rest.len() > 0
            invariant
                0 <= i <= all.len(),
                pred == (|a: AgentV| online(a, now, timeout)),
                timeout == old(self).settings().heartbeat_timeout_secs,
                rest@.map_values(|a: AgentRecord| a@) == all.skip(i),
                kept@.map_values(|a: AgentRecord| a@) =~= all.take(i).filter(pred),
                forall|id: Seq<char>| #![trigger expired_among(all, i, id, now, timeout)] #![trigger listed(expired@, id)]
                    expired_among(all, i, id, now, timeout) <==> listed(expired@, id),
            decreases rest@.len(),
        {
            let ghost rv = rest@.map_values(|a: AgentRecord| a@);
            assert(rv.len() > 0);
            assert(all.skip(i)[0] == all[i]);
            let a = rest.remove(0);
            assert(a@ == all[i]);
            assert(rest@.map_values(|a: AgentRecord| a@) =~= rv.drop_first());
            assert(rv.drop_first() =~= all.skip(i + 1));
            let ghost prev = all.take(i).filter(pred);
            proof { reveal(Seq::filter); }
            assert(all.take(i + 1).drop_last() =~= all.take(i));
            assert(all.take(i + 1).last() == all[i]);
            assert(all.take(i + 1).filter(pred) == if pred(all[i]) { prev.push(all[i]) } else { prev });
            assert(pred(all[i]) == online(all[i], now, timeout));
            let ghost kept0 = kept@;
            let ghost exp0 = expired@;
            if clock::is_within(a.last_heartbeat, now, timeout) {
                kept.push(a);
                assert(kept@.map_values(|a: AgentRecord| a@) =~= kept0.map_values(|a: AgentRecord| a@).push(all[i]));
                assert forall|id: Seq<char>| #![trigger expired_among(all, i + 1, id, now, timeout)] #![trigger listed(expired@, id)]
                    expired_among(all, i + 1, id, now, timeout) <==> listed(expired@, id) by {
                    if expired_among(all, i + 1, id, now, timeout) {
                        let j = choose|j: int| 0 <= j < i + 1 && (#[trigger] all[j]).id == id && !online(all[j], now, timeout);
                        assert(j < i);
                        assert(expired_among(all, i, id, now, timeout));
                    }
                    if expired_among(all, i, id, now, timeout) {
                        let j = choose|j: int| 0 <= j < i && (#[trigger] all[j]).id == id && !online(all[j], now, timeout);
                        assert(expired_among(all, i + 1, id, now, timeout));
                    }
                }
            } else {
                let ghost aid = a.id@;
                expired.push(a.id);
                assert(expired@[exp0.len() as int]@ == aid);
                assert forall|id: Seq<char>| #![trigger expired_among(all, i + 1, id, now, timeout)] #![trigger listed(expired@, id)]
                    expired_among(all, i + 1, id, now, timeout) <==> listed(expired@, id) by {
                    if listed(expired@, id) {
                        let k = choose|k: int| 0 <= k < expired@.len() && #[trigger] expired@[k]@ == id;
                        if k < exp0.len() {
                            assert(exp0[k]@ == id);
                            assert(listed(exp0, id));
                            let j = choose|j: int| 0 <= j < i && (#[trigger] all[j]).id == id && !online(all[j], now, timeout);
                            assert(expired_among(all, i + 1, id, now, timeout));
                        } else {
                            assert(all[i].id == id);
                            assert(expired_among(all, i + 1, id, now, timeout));
                        }
                    }
                    if expired_among(all, i + 1, id, now, timeout) {
                        let j = choose|j: int| 0 <= j < i + 1 && (#[trigger] all[j]).id == id && !online(all[j], now, timeout);
                        if j < i {
                            assert(expired_among(all, i, id, now, timeout));
                            assert(listed(exp0, id));
                            let k = choose|k: int| 0 <= k < exp0.len() && #[trigger] exp0[k]@ == id;
                            assert(expired@[k] == exp0[k]);
                        } else {
                            assert(expired@[exp0.len() as int]@ == id);
                        }
                        assert(listed(expired@, id));
                    }
                }
            }
            proof { i = i + 1; }
        }
        assert(all.skip(i).len() == 0);
        assert(all.take(i) =~= all);
        self.agents = kept;
        proof { lemma_filter_unique_agents(all, pred); }
        assert forall|id: Seq<char>| expired_id(s0, id, now, timeout) <==> #[trigger] listed(expired@, id) by {
            assert(expired_id(s0, id, now, timeout) == expired_among(all, i, id, now, timeout));
        }

        // the inboxes of the expired agents go too
        let ghost ib_all = s0.inboxes;
        let ghost ipred = |p: (Seq<char>, Seq<MessageV>)| !expired_id(s0, p.0, now, timeout);
        let mut irest: Vec<Inbox> = Vec::new();
        std::mem::swap(&mut irest, &mut self.inboxes);
        assert(irest@.map_values(|b: Inbox| b@) == ib_all);
        let mut ikept: Vec<Inbox> = Vec::new();
        let ghost mut n: int = 0;
        while irest.len() > 0
            invariant
                0 <= n <= ib_all.len(),
                ipred == (|p: (Seq<char>, Seq<MessageV>)| !expired_id(s0, p.0, now, timeout)),
                timeout == old(self).settings().heartbeat_timeout_secs,
                irest@.map_values(|b: Inbox| b@) == ib_all.skip(n),
                ikept@.map_values(|b: Inbox| b@) =~= ib_all.take(n).filter(ipred),
                forall|id: Seq<char>| expired_id(s0, id, now, timeout) <==> #[trigger] listed(expired@, id),
            decreases irest@.len(),
        {
            let ghost rv = irest@.map_values(|b: Inbox| b@);
            assert(rv.len() > 0);
            assert(ib_all.skip(n)[0] == ib_all[n]);
            let b = irest.remove(0);
            assert(b@ == ib_all[n]);
            assert(irest@.map_values(|b: Inbox| b@) =~= rv.drop_first());
            assert(rv.drop_first() =~= ib_all.skip(n + 1));
            let ghost prev = ib_all.take(n).filter(ipred);
            proof { reveal(Seq::filter); }
            assert(ib_all.take(n + 1).drop_last() =~= ib_all.take(n));
            assert(ib_all.take(n + 1).last() == ib_all[n]);
            assert(ib_all.take(n + 1).filter(ipred) == if ipred(ib_all[n]) { prev.push(ib_all[n]) } else { prev });
            let gone = contains_id(&expired, &b.agent_id);
            assert(gone == listed(expired@, ib_all[n].0));
            let ghost ik0 = ikept@;
            if !gone {
                ikept.push(b);
                assert(ikept@.map_values(|b: Inbox| b@) =~= ik0.map_values(|b: Inbox| b@).push(ib_all[n]));
            }
            proof { n = n + 1; }
        }
        assert(ib_all.skip(n).len() == 0);
        assert(ib_all.take(n) =~= ib_all);
        self.inboxes = ikept;
        proof { lemma_filter_unique_keys(ib_all, ipred); }
        assert(self@.tasks =~= s0.tasks);
        assert(self@.acks =~= s0.acks);
        assert(self@.agents == all.filter(pred));
        assert(self@.inboxes == ib_all.filter(ipred));
        expired
    }
}

/// Whether some agent among the first `n` has the identifier `id` and has run out.
spec fn expired_among(all: Seq<AgentV>, n: int, id: Seq<char>, now: i64, timeout: i64) -> bool {
    exists|j: int| 0 <= j < n && (#[trigger] all[j]).id == id && !online(all[j], now, timeout)
}

/// Whether `id` is among the strings of `ids`.
pub open spec fn listed(ids: Seq<String>, id: Seq<char>) -> bool {
    exists|k: int| 0 <= k < ids.len() && (#[trigger] ids[k])@ == id
}

/// Whether `id` occurs in `ids`.
fn contains_id(ids: &Vec<String>, id: &String) -> (r: bool)
    ensures
        r == listed(ids@, id@),
{
    let mut k: usize = 0;
    while k < ids.len()
        invariant
            k <= ids@.len(),
            forall|j: int| 0 <= j < k ==> (#[trigger] ids@[j])@ != id@,
        decreases ids@.len() - k,
    {
        if ids[k] == *id {
            return true;
        }
        k = k + 1;
    }
    false
}

/// Everything the server holds: agents, inboxes, tasks and acknowledgements, with
/// the settings it runs with. Its tables are well formed at all times: every
/// agent, inbox and acknowledgement table appears once per identifier.
pub struct AppState {
    tables: Tables,
}

impl View for AppState {
    type V = StateV;

    closed spec fn view(&self) -> StateV {
        self.tables@
    }
}

impl Default for AppState {
    /// An empty server with the default settings.
    fn default() -> (r: Self)
        ensures
            r@.wf(),
            r@.agents.len() == 0,
            r@.inboxes.len() == 0,
            r@.tasks.len() == 0,
            r@.acks.len() == 0,
            r.settings().heartbeat_timeout_secs == 30,
            r.settings().reaper_interval_secs == 10,
            r.settings().max_inbox == 100,
    {
        AppState::new(ServerConfig::default())
    }
}

impl AppState {
    #[verifier::type_invariant]
    spec fn well_formed(&self) -> bool {
        self.tables@.wf()
    }

    /// The settings the server runs with.
    pub closed spec fn settings(&self) -> ServerConfig {
        self.tables.settings()
    }

    /// The settings the server runs with.
    pub fn config(&self) -> (r: &ServerConfig)
        ensures
            *r == self.settings(),
    {
        &self.tables.config
    }

    /// An empty server with the given settings.
    pub fn new(config: ServerConfig) -> (r: Self)
        ensures
            r@.wf(),
            r@.agents.len() == 0,
            r@.inboxes.len() == 0,
            r@.tasks.len() == 0,
            r@.acks.len() == 0,
            r.settings() == config,
    {
        AppState { tables: Tables::new(config) }
    }

    /// The record of agent `id`, if it is registered.
    pub fn agent_record(&self, id: &String) -> (r: Option<&AgentRecord>)
        ensures
            match r {
                Some(a) => has_agent(self@.agents, id@) && a@ == self@.agent(id@),
                None => !has_agent(self@.agents, id@),
            },
    {
        proof { use_type_invariant(self); }
        self.tables.agent_record(id)
    }

    /// Registers an agent under `id` at instant `now`; see `model::register`.
    pub fn register_at(&mut self, id: String, name: String, description: String, repo_path: Option<String>, now: i64) -> (r: RegisterResponse)
        ensures
            final(self)@.wf(),
            final(self)@ == register(old(self)@, id@, name@, description@, opt_view(repo_path), now),
            final(self).settings() == old(self).settings(),
            r.agent_id@ == id@,
    {
        proof { use_type_invariant(&*self); }
        let mut t = Tables::new(ServerConfig { heartbeat_timeout_secs: 0, reaper_interval_secs: 0, max_inbox: 0 });
        std::mem::swap(&mut t, &mut self.tables);
        let r = t.register_at(id, name, description, repo_path, now);
        std::mem::swap(&mut t, &mut self.tables);
        r
    }

    /// A heartbeat for `agent_id` at instant `now`; see `model::heartbeat`. Refused,
    /// with `agent <id> not found`, for an unknown agent that does not give both
    /// a name and a description.
    pub fn heartbeat_at(
        &mut self,
        agent_id: String,
        name: Option<String>,
        description: Option<String>,
        repo_path: Option<String>,
        now: i64,
    ) -> (r: Result<(), ErrorBody>)
        ensures
            final(self)@.wf(),
            final(self)@ == heartbeat(old(self)@, agent_id@, opt_view(name), opt_view(description), opt_view(repo_path), now),
            final(self).settings() == old(self).settings(),
            r is Ok <==> heartbeat_accepted(old(self)@, agent_id@, opt_view(name), opt_view(description)),
            r matches Err(e) ==> e.error@ == not_found_text("agent "@, agent_id@),
    {
        proof { use_type_invariant(&*self); }
        let mut t = Tables::new(ServerConfig { heartbeat_timeout_secs: 0, reaper_interval_secs: 0, max_inbox: 0 });
        std::mem::swap(&mut t, &mut self.tables);
        let r = t.heartbeat_at(agent_id, name, description, repo_path, now);
        std::mem::swap(&mut t, &mut self.tables);
        r
    }

    /// Sends a message to `to` with identifier `msg_id` at instant `at`; see
    /// `model::deliver`. Answers the new message, unacknowledged. Refused, with
    /// `agent <to> not found`, when `to` has no inbox.
    pub fn send_message_at(&mut self, to: String, from: String, body: String, msg_id: String, at: i64) -> (r: Result<MessageItem, ErrorBody>)
        ensures
            final(self)@.wf(),
            final(self).settings() == old(self).settings(),
            r is Ok <==> has_key(old(self)@.inboxes, to@),
            r is Ok ==> final(self)@ == deliver(old(self)@, to@, from@, body@, msg_id@, at, old(self).settings().max_inbox),
            r matches Ok(m) ==> m@ == sent_item(msg_id@, from@, body@, at),
            r matches Err(e) ==> final(self)@ == old(self)@ && e.error@ == not_found_text("agent "@, to@),
    {
        proof { use_type_invariant(&*self); }
        let mut t = Tables::new(ServerConfig { heartbeat_timeout_secs: 0, reaper_interval_secs: 0, max_inbox: 0 });
        std::mem::swap(&mut t, &mut self.tables);
        let r = t.send_message_at(to, from, body, msg_id, at);
        std::mem::swap(&mut t, &mut self.tables);
        r
    }

    /// Drains the inbox of `agent_id`: hands out its messages, oldest first, each
    /// with its acknowledgement state, and leaves the inbox empty. An agent without
    /// an inbox gets an empty list.
    pub fn recv_messages(&mut self, agent_id: &String) -> (r: InboxResponse)
        ensures
            final(self)@.wf(),
            final(self).settings() == old(self).settings(),
            final(self)@ == drain(old(self)@, agent_id@),
            r.messages@.map_values(|m: MessageItem| m@) == drained(old(self)@, agent_id@),
    {
        proof { use_type_invariant(&*self); }
        let mut t = Tables::new(ServerConfig { heartbeat_timeout_secs: 0, reaper_interval_secs: 0, max_inbox: 0 });
        std::mem::swap(&mut t, &mut self.tables);
        let r = t.recv_messages(agent_id);
        std::mem::swap(&mut t, &mut self.tables);
        r
    }

    /// Acknowledges message `message_id` of `agent_id`. Refused with
    /// `agent <id> not found` when the agent has no acknowledgement table, and with
    /// `message <id> not found` when its table has no such message.
    pub fn ack_message(&mut self, agent_id: String, message_id: String) -> (r: Result<(), ErrorBody>)
        ensures
            final(self)@.wf(),
            final(self).settings() == old(self).settings(),
            final(self)@ == ack(old(self)@, agent_id@, message_id@),
            r is Ok <==> ack_refusal(old(self)@, agent_id@, message_id@) is None,
            r matches Err(e) ==> match ack_refusal(old(self)@, agent_id@, message_id@) {
                Some(AckRefusal::UnknownAgent) => e.error@ == not_found_text("agent "@, agent_id@),
                Some(AckRefusal::UnknownMessage) => e.error@ == not_found_text("message "@, message_id@),
                None => false,
            },
    {
        proof { use_type_invariant(&*self); }
        let mut t = Tables::new(ServerConfig { heartbeat_timeout_secs: 0, reaper_interval_secs: 0, max_inbox: 0 });
        std::mem::swap(&mut t, &mut self.tables);
        let r = t.ack_message(agent_id, message_id);
        std::mem::swap(&mut t, &mut self.tables);
        r
    }

    /// The acknowledgement state of every message in the table of `agent_id`
    /// (empty when it has none).
    pub fn message_status(&self, agent_id: &String) -> (r: MessageStatusListResponse)
        ensures
            r.messages@.map_values(|m: MessageStatusResponse| m@) == self@.book(agent_id@),
    {
        proof { use_type_invariant(self); }
        self.tables.message_status(agent_id)
    }

    /// The roster at instant `now`: every online agent, in roster order.
    pub fn team_at(&self, now: i64) -> (r: TeamResponse)
        ensures
            r.agents@.map_values(|a: AgentSummary| a@) == team(self@, now, self.settings().heartbeat_timeout_secs),
    {
        proof { use_type_invariant(self); }
        self.tables.team_at(now)
    }

    /// How many agents are online at `now`: the number of identifiers and time
    /// stamps a broadcast at `now` needs.
    pub fn live_count_at(&self, now: i64) -> (n: usize)
        ensures
            n == live_ids(self@, now, self.settings().heartbeat_timeout_secs).len(),
    {
        proof { use_type_invariant(self); }
        self.tables.live_count_at(now)
    }

    /// Broadcasts at instant `now`: delivers to every agent online at `now` that has
    /// an inbox, in roster order, the `k`-th online agent's message getting
    /// identifier `ids[k]` and timestamp `ats[k]`; returns how many were reached.
    pub fn broadcast_at(&mut self, from: &String, body: &String, now: i64, ids: &Vec<String>, ats: &Vec<i64>) -> (r: BroadcastResponse)
        requires
            ids@.len() >= live_ids(old(self)@, now, old(self).settings().heartbeat_timeout_secs).len(),
            ats@.len() >= live_ids(old(self)@, now, old(self).settings().heartbeat_timeout_secs).len(),
        ensures
            final(self)@.wf(),
            final(self).settings() == old(self).settings(),
            final(self)@ == deliver_all(
                old(self)@,
                live_ids(old(self)@, now, old(self).settings().heartbeat_timeout_secs),
                from@,
                body@,
                ids@.map_values(|s: String| s@),
                ats@,
                old(self).settings().max_inbox,
            ),
            r.delivered == count_with_inbox(old(self)@, live_ids(old(self)@, now, old(self).settings().heartbeat_timeout_secs)),
    {
        proof { use_type_invariant(&*self); }
        let mut t = Tables::new(ServerConfig { heartbeat_timeout_secs: 0, reaper_interval_secs: 0, max_inbox: 0 });
        std::mem::swap(&mut t, &mut self.tables);
        let r = t.broadcast_at(from, body, now, ids, ats);
        std::mem::swap(&mut t, &mut self.tables);
        r
    }

    /// Pushes a task with identifier `task_id`, created at `now`, for `agent_id`;
    /// see `model::push_task`. Refused with `agent <id> not found` for an unknown agent.
    pub fn task_push_at(&mut self, agent_id: String, title: String, body: String, task_id: String, now: i64) -> (r: Result<TaskItem, ErrorBody>)
        ensures
            final(self)@.wf(),
            final(self).settings() == old(self).settings(),
            final(self)@ == push_task(old(self)@, task_id@, agent_id@, title@, body@, now),
            r is Ok <==> has_agent(old(self)@.agents, agent_id@),
            r matches Ok(item) ==> item@ == task_item(new_task(task_id@, agent_id@, title@, body@, now)),
            r matches Err(e) ==> e.error@ == not_found_text("agent "@, agent_id@),
    {
        proof { use_type_invariant(&*self); }
        let mut t = Tables::new(ServerConfig { heartbeat_timeout_secs: 0, reaper_interval_secs: 0, max_inbox: 0 });
        std::mem::swap(&mut t, &mut self.tables);
        let r = t.task_push_at(agent_id, title, body, task_id, now);
        std::mem::swap(&mut t, &mut self.tables);
        r
    }

    /// Takes a daemon's report of its task files; see `model::sync_tasks`. Refused
    /// with `agent <id> not found` for an unknown agent.
    pub fn task_sync(&mut self, req: &TaskSyncRequest) -> (r: Result<(), ErrorBody>)
        ensures
            final(self)@.wf(),
            final(self).settings() == old(self).settings(),
            final(self)@ == sync_tasks(old(self)@, req.agent_id@, req.hash, req.tasks@.map_values(|t: TaskSyncItem| t@)),
            r is Ok <==> has_agent(old(self)@.agents, req.agent_id@),
            r matches Err(e) ==> e.error@ == not_found_text("agent "@, req.agent_id@),
    {
        proof { use_type_invariant(&*self); }
        let mut t = Tables::new(ServerConfig { heartbeat_timeout_secs: 0, reaper_interval_secs: 0, max_inbox: 0 });
        std::mem::swap(&mut t, &mut self.tables);
        let r = t.task_sync(req);
        std::mem::swap(&mut t, &mut self.tables);
        r
    }

    /// Claims, at instant `now`, the next queued task of `agent_id`: the earliest
    /// created (the first of those created together). Refused with
    /// `no queued tasks` when it has none.
    pub fn task_claim_at(&mut self, agent_id: &String, now: i64) -> (r: Result<TaskItem, ErrorBody>)
        ensures
            final(self)@.wf(),
            final(self).settings() == old(self).settings(),
            final(self)@ == claim(old(self)@, agent_id@, now),
            r is Ok <==> has_queued(old(self)@.tasks, agent_id@),
            r matches Ok(item) ==> item@ == task_item(final(self)@.tasks[next_queued(old(self)@.tasks, agent_id@)]),
            r matches Err(e) ==> e.error@ == "no queued tasks"@,
    {
        proof { use_type_invariant(&*self); }
        let mut t = Tables::new(ServerConfig { heartbeat_timeout_secs: 0, reaper_interval_secs: 0, max_inbox: 0 });
        std::mem::swap(&mut t, &mut self.tables);
        let r = t.task_claim_at(agent_id, now);
        std::mem::swap(&mut t, &mut self.tables);
        r
    }

    /// Finishes task `task_id` at instant `now`: failed when `status` is `failed`,
    /// done otherwise; see `model::finish`. Refused with `task <id> not found`.
    pub fn task_finish_at(&mut self, task_id: &String, status: &str, result: Option<String>, now: i64) -> (r: Result<TaskItem, ErrorBody>)
        ensures
            final(self)@.wf(),
            final(self).settings() == old(self).settings(),
            final(self)@ == finish(old(self)@, task_id@, asks_failure(status@), opt_view(result), now),
            r is Ok <==> has_task(old(self)@.tasks, task_id@),
            r matches Ok(item) ==> item@ == task_item(final(self)@.task(task_id@)),
            r matches Err(e) ==> e.error@ == not_found_text("task "@, task_id@),
    {
        proof { use_type_invariant(&*self); }
        let mut t = Tables::new(ServerConfig { heartbeat_timeout_secs: 0, reaper_interval_secs: 0, max_inbox: 0 });
        std::mem::swap(&mut t, &mut self.tables);
        let r = t.task_finish_at(task_id, status, result, now);
        std::mem::swap(&mut t, &mut self.tables);
        r
    }

    /// Marks task `task_id` blocked for `reason`; see `model::block`. Refused with
    /// `task <id> not found`.
    pub fn task_block(&mut self, task_id: &String, reason: String) -> (r: Result<TaskItem, ErrorBody>)
        ensures
            final(self)@.wf(),
            final(self).settings() == old(self).settings(),
            final(self)@ == block(old(self)@, task_id@, reason@),
            r is Ok <==> has_task(old(self)@.tasks, task_id@),
            r matches Ok(item) ==> item@ == task_item(final(self)@.task(task_id@)),
            r matches Err(e) ==> e.error@ == not_found_text("task "@, task_id@),
    {
        proof { use_type_invariant(&*self); }
        let mut t = Tables::new(ServerConfig { heartbeat_timeout_secs: 0, reaper_interval_secs: 0, max_inbox: 0 });
        std::mem::swap(&mut t, &mut self.tables);
        let r = t.task_block(task_id, reason);
        std::mem::swap(&mut t, &mut self.tables);
        r
    }

    /// The tasks of `agent_id`: its reported snapshot when it has a non-empty one,
    /// otherwise its tasks in server memory, ordered by creation text (ties kept
    /// in that order).
    pub fn task_list(&self, agent_id: &String) -> (r: TaskListResponse)
        ensures
            is_task_list(self@, agent_id@, items_view(r.tasks@)),
    {
        proof { use_type_invariant(self); }
        self.tables.task_list(agent_id)
    }

    /// One pass of the reaper at instant `now`: removes every agent whose heartbeat
    /// has run out, and its inbox; see `model::reap`. Returns the removed identifiers.
    pub fn reap_at(&mut self, now: i64) -> (expired: Vec<String>)
        ensures
            final(self)@.wf(),
            final(self).settings() == old(self).settings(),
            final(self)@ == reap(old(self)@, now, old(self).settings().heartbeat_timeout_secs),
            forall|id: Seq<char>| expired_id(old(self)@, id, now, old(self).settings().heartbeat_timeout_secs)
                <==> #[trigger] listed(expired@, id),
    {
        proof { use_type_invariant(&*self); }
        let mut t = Tables::new(ServerConfig { heartbeat_timeout_secs: 0, reaper_interval_secs: 0, max_inbox: 0 });
        std::mem::swap(&mut t, &mut self.tables);
        let r = t.reap_at(now);
        std::mem::swap(&mut t, &mut self.tables);
        r
    }
}

} // verus!
