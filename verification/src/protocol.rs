//! The bodies that the server and its clients exchange.
use vstd::prelude::*;

verus! {

/// Answer to a registration: the identifier the agent goes by from now on.
#[derive(Debug, Clone)]
pub struct RegisterResponse {
    pub agent_id: String,
}

/// One online agent, as the roster shows it.
#[derive(Debug, Clone)]
pub struct AgentSummary {
    pub id: String,
    pub name: String,
    pub description: String,
    pub last_heartbeat: String,
}

/// The roster of online agents.
#[derive(Debug, Clone)]
pub struct TeamResponse {
    pub agents: Vec<AgentSummary>,
}

/// One message handed out of an inbox.
#[derive(Debug, Clone)]
pub struct MessageItem {
    pub id: String,
    pub from: String,
    pub body: String,
    pub timestamp: String,
    pub acked: bool,
}

/// The messages drained from an inbox, oldest first.
#[derive(Debug, Clone)]
pub struct InboxResponse {
    pub messages: Vec<MessageItem>,
}

/// How many inboxes a broadcast reached.
#[derive(Debug, Clone)]
pub struct BroadcastResponse {
    pub delivered: usize,
}

/// A task as clients see it.
#[derive(Debug, Clone)]
pub struct TaskItem {
    pub id: String,
    pub agent_id: String,
    pub title: String,
    pub body: String,
    pub status: String,
    pub created_at: String,
    pub started_at: Option<String>,
    pub finished_at: Option<String>,
    pub result: Option<String>,
}

/// A list of tasks.
#[derive(Debug, Clone)]
pub struct TaskListResponse {
    pub tasks: Vec<TaskItem>,
}

/// One task file as a daemon reports it.
#[derive(Debug, Clone)]
pub struct TaskSyncItem {
    pub id: String,
    pub title: String,
    pub status: String,
    pub modified_at: String,
}

/// A daemon's report of its task files, with a hash of the report.
#[derive(Debug, Clone)]
pub struct TaskSyncRequest {
    pub agent_id: String,
    pub hash: u64,
    pub tasks: Vec<TaskSyncItem>,
}

/// Whether one message has been acknowledged.
#[derive(Debug, Clone)]
pub struct MessageStatusResponse {
    pub id: String,
    pub acked: bool,
}

/// The acknowledgement state of an agent's messages.
#[derive(Debug, Clone)]
pub struct MessageStatusListResponse {
    pub messages: Vec<MessageStatusResponse>,
}

/// The body of a refusal.
#[derive(Debug, Clone)]
pub struct ErrorBody {
    pub error: String,
}

pub open spec fn opt_view(o: Option<String>) -> Option<Seq<char>> {
    match o {
        Some(s) => Some(s@),
        None => None,
    }
}

/// A copy of an optional string.
pub fn copy_opt(o: &Option<String>) -> (r: Option<String>)
    ensures
        opt_view(r) == opt_view(*o),
{
    match o {
        Some(s) => Some(s.clone()),
        None => None,
    }
}

/// The abstract content of a `TaskItem`.
pub struct TaskItemV {
    pub id: Seq<char>,
    pub agent_id: Seq<char>,
    pub title: Seq<char>,
    pub body: Seq<char>,
    pub status: Seq<char>,
    pub created_at: Seq<char>,
    pub started_at: Option<Seq<char>>,
    pub finished_at: Option<Seq<char>>,
    pub result: Option<Seq<char>>,
}

impl View for TaskItem {
    type V = TaskItemV;

    open spec fn view(&self) -> TaskItemV {
        TaskItemV {
            id: self.id@,
            agent_id: self.agent_id@,
            title: self.title@,
            body: self.body@,
            status: self.status@,
            created_at: self.created_at@,
            started_at: opt_view(self.started_at),
            finished_at: opt_view(self.finished_at),
            result: opt_view(self.result),
        }
    }
}

/// The abstract content of a list of tasks.
pub open spec fn items_view(v: Seq<TaskItem>) -> Seq<TaskItemV> {
    v.map_values(|t: TaskItem| t@)
}

impl TaskItem {
    /// A field-by-field copy.
    pub fn copy(&self) -> (r: TaskItem)
        ensures
            r@ == self@,
    {
        TaskItem {
            id: self.id.clone(),
            agent_id: self.agent_id.clone(),
            title: self.title.clone(),
            body: self.body.clone(),
            status: self.status.clone(),
            created_at: self.created_at.clone(),
            started_at: copy_opt(&self.started_at),
            finished_at: copy_opt(&self.finished_at),
            result: copy_opt(&self.result),
        }
    }
}

/// The abstract content of an `AgentSummary`.
pub struct AgentSummaryV {
    pub id: Seq<char>,
    pub name: Seq<char>,
    pub description: Seq<char>,
    pub last_heartbeat: Seq<char>,
}

impl View for AgentSummary {
    type V = AgentSummaryV;

    open spec fn view(&self) -> AgentSummaryV {
        AgentSummaryV {
            id: self.id@,
            name: self.name@,
            description: self.description@,
            last_heartbeat: self.last_heartbeat@,
        }
    }
}

/// The abstract content of a `MessageItem`.
pub struct MessageItemV {
    pub id: Seq<char>,
    pub from: Seq<char>,
    pub body: Seq<char>,
    pub timestamp: Seq<char>,
    pub acked: bool,
}

impl View for MessageItem {
    type V = MessageItemV;

    open spec fn view(&self) -> MessageItemV {
        MessageItemV {
            id: self.id@,
            from: self.from@,
            body: self.body@,
            timestamp: self.timestamp@,
            acked: self.acked,
        }
    }
}

/// The abstract content of a `TaskSyncItem`.
pub struct TaskSyncItemV {
    pub id: Seq<char>,
    pub title: Seq<char>,
    pub status: Seq<char>,
    pub modified_at: Seq<char>,
}

impl View for TaskSyncItem {
    type V = TaskSyncItemV;

    open spec fn view(&self) -> TaskSyncItemV {
        TaskSyncItemV {
            id: self.id@,
            title: self.title@,
            status: self.status@,
            modified_at: self.modified_at@,
        }
    }
}

impl View for MessageStatusResponse {
    type V = (Seq<char>, bool);

    open spec fn view(&self) -> (Seq<char>, bool) {
        (self.id@, self.acked)
    }
}

} // verus!
