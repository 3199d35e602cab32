//! Properties of the library that span several requests or hold of every state.
use vstd::prelude::*;
use crate::client::{count_char, looks_like_id};
use crate::ids::{is_hyphenated_uuid, is_lower_hex};
use crate::ratelimit::{after_check, has_room, prune, stale};
use crate::tui::{closing_lines, pushed, MAX_LOG};
use crate::repos::{after_import, count_new, first_named, updated};
use crate::client::RepoV;
use crate::text::{is_white_space, trim, trim_end, trim_start, words, words_from};
use crate::setup::{gitignore_update, has_line, is_line};
use crate::tables::pad;
use crate::daemon::{
    appended_of, blocked_reason_of, exit_marker, line_end, task_file_text, task_parts, exit_note_text, outcome_of, report_of, spawn_note_text, TaskOutcome,
};
use vstd::string::StringSliceAdditionalSpecFns;
use crate::model::{
    StateV, MessageV, AgentV, TaskV, TaskStatus, deliver, drained, evicts, get, put, drop_key, has_key,
    key_pos, unique_keys, lemma_key_pos, lemma_put_unique, lemma_drop_unique, book_of, acked_in,
    message_item, has_agent, agent_pos, lemma_agent_pos, unique_agents, heartbeat, heartbeat_accepted,
    register, online, new_agent, reap, expired_id, online_agents, claim, has_queued, next_queued,
    is_next_queued, queued_for, push_task, new_task, has_task, task_pos, lemma_task_pos, unique_tasks,
    finish, ack, ack_refusal, sync_tasks, count_with_inbox, listed_tasks, task_item, block, status_text,
    team, deliver_all, lemma_deliver_keys,
};
use crate::protocol::{TaskItemV, TaskSyncItemV};
use crate::clock::rfc3339_of;

verus! {

/// The inner tables of `acks` have unique keys.
pub open spec fn books_unique(acks: Seq<(Seq<char>, Seq<(Seq<char>, bool)>)>) -> bool {
    forall|i: int| 0 <= i < acks.len() ==> unique_keys(#[trigger] acks[i].1)
}

proof fn lemma_book_unique(acks: Seq<(Seq<char>, Seq<(Seq<char>, bool)>)>, k: Seq<char>)
    requires
        unique_keys(acks),
        books_unique(acks),
    ensures
        unique_keys(book_of(acks, k)),
{
    if has_key(acks, k) {
        let p = key_pos(acks, k);
        assert(unique_keys(acks[p].1));
    }
}

proof fn lemma_put_books(acks: Seq<(Seq<char>, Seq<(Seq<char>, bool)>)>, k: Seq<char>, b: Seq<(Seq<char>, bool)>)
    requires
        unique_keys(acks),
        books_unique(acks),
        unique_keys(b),
    ensures
        unique_keys(put(acks, k, b)),
        books_unique(put(acks, k, b)),
        book_of(put(acks, k, b), k) == b,
        forall|k2: Seq<char>| k2 != k ==> book_of(#[trigger] put(acks, k, b), k2) == book_of(acks, k2),
{
    lemma_put_unique(acks, k, b);
    let t = put(acks, k, b);
    assert forall|i: int| 0 <= i < t.len() implies unique_keys(#[trigger] t[i].1) by {
        lemma_key_pos(t, t[i].0, i);
        if t[i].0 == k {
        } else {
            assert(get(t, t[i].0) == get(acks, t[i].0));
            lemma_book_unique(acks, t[i].0);
        }
    }
    assert forall|k2: Seq<char>| k2 != k implies book_of(#[trigger] put(acks, k, b), k2) == book_of(acks, k2) by {
        assert(get(t, k2) == get(acks, k2));
    }
}

/// A delivery keeps the state well formed: every key stays unique.
pub proof fn law_deliver_keeps_wf(s: StateV, to: Seq<char>, from: Seq<char>, body: Seq<char>, id: Seq<char>, at: i64, max: usize)
    requires
        s.wf(),
        has_key(s.inboxes, to),
    ensures
        deliver(s, to, from, body, id, at, max).wf(),
{
    let q = s.inbox(to)->0;
    let q1 = if evicts(q, max) { q.drop_first() } else { q };
    lemma_put_unique(s.inboxes, to, q1.push(MessageV { id, from, body, timestamp: at, acked: false }));
    let acks1 = if evicts(q, max) && has_key(s.acks, to) {
        put(s.acks, to, drop_key(s.book(to), q[0].id))
    } else {
        s.acks
    };
    if evicts(q, max) && has_key(s.acks, to) {
        lemma_book_unique(s.acks, to);
        lemma_drop_unique(s.book(to), q[0].id);
        lemma_put_books(s.acks, to, drop_key(s.book(to), q[0].id));
    }
    lemma_book_unique(acks1, to);
    lemma_put_unique(book_of(acks1, to), id, false);
    lemma_put_books(acks1, to, put(book_of(acks1, to), id, false));
}

/// The inbox cap. A delivery appends the message, unacknowledged, to the
/// recipient's inbox; when the inbox already holds `max` messages or more, its
/// oldest message is dropped first. An inbox holding at most `max` messages
/// (with `max` at least 1) still does afterwards.
pub proof fn law_inbox_cap(s: StateV, to: Seq<char>, from: Seq<char>, body: Seq<char>, id: Seq<char>, at: i64, max: usize)
    requires
        s.wf(),
        has_key(s.inboxes, to),
    ensures
        ({
            let q = s.inbox(to)->0;
            let after = deliver(s, to, from, body, id, at, max).inbox(to);
            &&& after == Some((if q.len() >= max && q.len() > 0 { q.drop_first() } else { q }).push(
                MessageV { id, from, body, timestamp: at, acked: false },
            ))
            &&& (max >= 1 && q.len() <= max ==> after->0.len() <= max)
        }),
{
    let q = s.inbox(to)->0;
    let q1 = if evicts(q, max) { q.drop_first() } else { q };
    lemma_put_unique(s.inboxes, to, q1.push(MessageV { id, from, body, timestamp: at, acked: false }));
}

/// A read gives back what was written. Draining an inbox after a delivery hands
/// out the delivered message last, with its identifier, sender and body, as not
/// acknowledged, exactly as the send answered it (`sent_item`); before it come the
/// messages that were waiting, in order (less the oldest when the inbox was full).
pub proof fn law_deliver_then_drain(s: StateV, to: Seq<char>, from: Seq<char>, body: Seq<char>, id: Seq<char>, at: i64, max: usize)
    requires
        s.wf(),
        has_key(s.inboxes, to),
    ensures
        ({
            let q = s.inbox(to)->0;
            let kept = if q.len() >= max && q.len() > 0 { q.drop_first() } else { q };
            let d = drained(deliver(s, to, from, body, id, at, max), to);
            &&& d.len() == kept.len() + 1
            &&& d.last().id == id
            &&& d.last().from == from
            &&& d.last().body == body
            &&& !d.last().acked
            &&& d.last() == crate::server::sent_item(id, from, body, at)
            &&& forall|k: int| 0 <= k < kept.len() ==> (#[trigger] d[k]).id == kept[k].id && d[k].from == kept[k].from && d[k].body == kept[k].body
        }),
{
    let s2 = deliver(s, to, from, body, id, at, max);
    let q = s.inbox(to)->0;
    let q1 = if evicts(q, max) { q.drop_first() } else { q };
    let m = MessageV { id, from, body, timestamp: at, acked: false };
    lemma_put_unique(s.inboxes, to, q1.push(m));
    assert(s2.inbox(to) == Some(q1.push(m)));
    let acks1 = if evicts(q, max) && has_key(s.acks, to) {
        put(s.acks, to, drop_key(s.book(to), q[0].id))
    } else {
        s.acks
    };
    if evicts(q, max) && has_key(s.acks, to) {
        lemma_book_unique(s.acks, to);
        lemma_drop_unique(s.book(to), q[0].id);
        lemma_put_books(s.acks, to, drop_key(s.book(to), q[0].id));
    }
    lemma_book_unique(acks1, to);
    lemma_put_unique(book_of(acks1, to), id, false);
    lemma_put_books(acks1, to, put(book_of(acks1, to), id, false));
    assert(s2.book(to) == put(book_of(acks1, to), id, false));
    assert(acked_in(s2.book(to), id) == false);
}

/// An agent that has just been registered is known, with the name, description
/// and repository path it gave, online for any positive timeout, and has an
/// empty inbox.
pub proof fn law_register_online(
    s: StateV,
    id: Seq<char>,
    name: Seq<char>,
    description: Seq<char>,
    repo_path: Option<Seq<char>>,
    now: i64,
    timeout_secs: i64,
)
    requires
        s.wf(),
        timeout_secs > 0,
    ensures
        has_agent(register(s, id, name, description, repo_path, now).agents, id),
        register(s, id, name, description, repo_path, now).agent(id) == new_agent(id, name, description, repo_path, now),
        online(register(s, id, name, description, repo_path, now).agent(id), now, timeout_secs),
        register(s, id, name, description, repo_path, now).inbox(id) == Some(Seq::<MessageV>::empty()),
{
    let r = register(s, id, name, description, repo_path, now);
    if has_agent(s.agents, id) {
        let p = agent_pos(s.agents, id);
        assert(unique_agents(r.agents));
        lemma_agent_pos(r.agents, id, p);
    } else {
        assert forall|i: int, j: int| 0 <= i < r.agents.len() && 0 <= j < r.agents.len() && i != j
            implies (#[trigger] r.agents[i]).id != (#[trigger] r.agents[j]).id by {
            if i == s.agents.len() { assert(r.agents[j] == s.agents[j]); }
            if j == s.agents.len() { assert(r.agents[i] == s.agents[i]); }
        }
        lemma_agent_pos(r.agents, id, s.agents.len() as int);
    }
    lemma_put_unique(s.inboxes, id, Seq::<MessageV>::empty());
}

/// Heartbeats keep an agent online. After an accepted heartbeat at `now` the agent
/// is known and counts as online at any later instant within the timeout; this
/// covers an agent that the reaper removed and that names and describes itself
/// again, which comes back with that name, description and repository path.
pub proof fn law_heartbeat_online(
    s: StateV,
    id: Seq<char>,
    name: Option<Seq<char>>,
    description: Option<Seq<char>>,
    repo_path: Option<Seq<char>>,
    now: i64,
    later: i64,
    timeout_secs: i64,
)
    requires
        s.wf(),
        heartbeat_accepted(s, id, name, description),
        now <= later,
        crate::clock::within(now as int, later as int, timeout_secs as int),
    ensures
        has_agent(heartbeat(s, id, name, description, repo_path, now).agents, id),
        heartbeat(s, id, name, description, repo_path, now).agent(id).last_heartbeat == now,
        online(heartbeat(s, id, name, description, repo_path, now).agent(id), later, timeout_secs),
        !has_agent(s.agents, id) ==> heartbeat(s, id, name, description, repo_path, now).agent(id)
            == new_agent(id, name->0, description->0, repo_path, now),
{
    let r = heartbeat(s, id, name, description, repo_path, now);
    if has_agent(s.agents, id) {
        let p = agent_pos(s.agents, id);
        assert(unique_agents(r.agents));
        lemma_agent_pos(r.agents, id, p);
    } else {
        assert forall|i: int, j: int| 0 <= i < r.agents.len() && 0 <= j < r.agents.len() && i != j
            implies (#[trigger] r.agents[i]).id != (#[trigger] r.agents[j]).id by {
            if i == s.agents.len() { assert(r.agents[j] == s.agents[j]); }
            if j == s.agents.len() { assert(r.agents[i] == s.agents[i]); }
        }
        lemma_agent_pos(r.agents, id, s.agents.len() as int);
    }
}


/// The reaper removes exactly the agents whose heartbeat has run out. After a pass
/// every agent left is online, every agent that was online is still there, and an
/// agent that ran out is gone with its inbox, so that its plain heartbeat (without
/// name and description) is refused.
pub proof fn law_reap(s: StateV, now: i64, timeout_secs: i64)
    requires
        s.wf(),
    ensures
        forall|i: int| 0 <= i < reap(s, now, timeout_secs).agents.len()
            ==> online(#[trigger] reap(s, now, timeout_secs).agents[i], now, timeout_secs),
        forall|i: int| 0 <= i < s.agents.len() && online(#[trigger] s.agents[i], now, timeout_secs)
            ==> reap(s, now, timeout_secs).agents.contains(s.agents[i]),
        forall|id: Seq<char>| #[trigger] expired_id(s, id, now, timeout_secs) ==> {
            &&& !has_agent(reap(s, now, timeout_secs).agents, id)
            &&& !has_key(reap(s, now, timeout_secs).inboxes, id)
            &&& !heartbeat_accepted(reap(s, now, timeout_secs), id, None, None)
        },
{
    let pred = |a: AgentV| online(a, now, timeout_secs);
    let r = reap(s, now, timeout_secs);
    assert forall|i: int| 0 <= i < r.agents.len() implies online(#[trigger] r.agents[i], now, timeout_secs) by {
        s.agents.lemma_filter_pred(pred, i);
    }
    assert forall|i: int| 0 <= i < s.agents.len() && online(#[trigger] s.agents[i], now, timeout_secs)
        implies r.agents.contains(s.agents[i]) by {
        s.agents.lemma_filter_contains(pred, i);
    }
    let ipred = |p: (Seq<char>, Seq<MessageV>)| !expired_id(s, p.0, now, timeout_secs);
    assert forall|id: Seq<char>| #[trigger] expired_id(s, id, now, timeout_secs) implies {
        &&& !has_agent(r.agents, id)
        &&& !has_key(r.inboxes, id)
        &&& !heartbeat_accepted(r, id, None, None)
    } by {
        let j = choose|j: int| 0 <= j < s.agents.len() && (#[trigger] s.agents[j]).id == id && !online(s.agents[j], now, timeout_secs);
        if has_agent(r.agents, id) {
            let i = choose|i: int| 0 <= i < r.agents.len() && (#[trigger] r.agents[i]).id == id;
            s.agents.lemma_filter_pred(pred, i);
            s.agents.lemma_filter_contains_rev(pred, r.agents[i]);
            let k = choose|k: int| 0 <= k < s.agents.len() && s.agents[k] == r.agents[i];
            assert(k == j);
        }
        if has_key(r.inboxes, id) {
            let i = choose|i: int| 0 <= i < r.inboxes.len() && (#[trigger] r.inboxes[i]).0 == id;
            s.inboxes.lemma_filter_pred(ipred, i);
        }
    }
}

/// Among the queued tasks of an agent there is a first one created earliest.
pub proof fn lemma_next_queued_exists(tasks: Seq<TaskV>, agent: Seq<char>, n: int)
    requires
        0 <= n <= tasks.len(),
        exists|j: int| 0 <= j < n && #[trigger] queued_for(tasks[j], agent),
    ensures
        exists|i: int| {
            &&& 0 <= i < n
            &&& queued_for(tasks[i], agent)
            &&& forall|j: int| 0 <= j < n && #[trigger] queued_for(tasks[j], agent)
                ==> tasks[i].created_at <= tasks[j].created_at && (j < i ==> tasks[i].created_at < tasks[j].created_at)
        },
    decreases n,
{
    if exists|j: int| 0 <= j < n - 1 && #[trigger] queued_for(tasks[j], agent) {
        lemma_next_queued_exists(tasks, agent, n - 1);
        let i = choose|i: int| {
            &&& 0 <= i < n - 1
            &&& queued_for(tasks[i], agent)
            &&& forall|j: int| 0 <= j < n - 1 && #[trigger] queued_for(tasks[j], agent)
                ==> tasks[i].created_at <= tasks[j].created_at && (j < i ==> tasks[i].created_at < tasks[j].created_at)
        };
        if queued_for(tasks[n - 1], agent) && tasks[n - 1].created_at < tasks[i].created_at {
            assert(forall|j: int| 0 <= j < n && #[trigger] queued_for(tasks[j], agent)
                ==> tasks[n - 1].created_at <= tasks[j].created_at && (j < n - 1 ==> tasks[n - 1].created_at < tasks[j].created_at));
        } else {
            assert(forall|j: int| 0 <= j < n && #[trigger] queued_for(tasks[j], agent)
                ==> tasks[i].created_at <= tasks[j].created_at && (j < i ==> tasks[i].created_at < tasks[j].created_at));
        }
    } else {
        assert(queued_for(tasks[n - 1], agent));
        assert(forall|j: int| 0 <= j < n && #[trigger] queued_for(tasks[j], agent)
            ==> tasks[n - 1].created_at <= tasks[j].created_at && (j < n - 1 ==> tasks[n - 1].created_at < tasks[j].created_at));
    }
}

/// The next queued task is well defined whenever an agent has a queued task.
pub proof fn lemma_next_queued(tasks: Seq<TaskV>, agent: Seq<char>)
    requires
        has_queued(tasks, agent),
    ensures
        is_next_queued(tasks, agent, next_queued(tasks, agent)),
{
    lemma_next_queued_exists(tasks, agent, tasks.len() as int);
    let i = choose|i: int| {
        &&& 0 <= i < tasks.len()
        &&& queued_for(tasks[i], agent)
        &&& forall|j: int| 0 <= j < tasks.len() && #[trigger] queued_for(tasks[j], agent)
            ==> tasks[i].created_at <= tasks[j].created_at && (j < i ==> tasks[i].created_at < tasks[j].created_at)
    };
    assert(is_next_queued(tasks, agent, i));
}

/// A claimed task leaves the queue: it is in progress, started at the claim, and
/// claiming again never hands it out a second time.
pub proof fn law_claim_once(s: StateV, agent: Seq<char>, now: i64)
    requires
        has_queued(s.tasks, agent),
    ensures
        ({
            let i = next_queued(s.tasks, agent);
            let s1 = claim(s, agent, now);
            &&& is_next_queued(s.tasks, agent, i)
            &&& s1.tasks[i].status == TaskStatus::InProgress
            &&& s1.tasks[i].started_at == Some(now)
            &&& !queued_for(s1.tasks[i], agent)
            &&& (has_queued(s1.tasks, agent) ==> next_queued(s1.tasks, agent) != i)
        }),
{
    lemma_next_queued(s.tasks, agent);
    let i = next_queued(s.tasks, agent);
    let s1 = claim(s, agent, now);
    if has_queued(s1.tasks, agent) {
        lemma_next_queued(s1.tasks, agent);
        let i2 = next_queued(s1.tasks, agent);
        assert(queued_for(s1.tasks[i2], agent));
    }
}

/// A task pushed for an agent with nothing else queued is the one its agent
/// claims next.
pub proof fn law_push_then_claim(s: StateV, id: Seq<char>, agent: Seq<char>, title: Seq<char>, body: Seq<char>, now: i64)
    requires
        s.wf(),
        has_agent(s.agents, agent),
        !has_queued(s.tasks, agent),
        !has_task(s.tasks, id),
    ensures
        has_queued(push_task(s, id, agent, title, body, now).tasks, agent),
        push_task(s, id, agent, title, body, now).tasks[next_queued(push_task(s, id, agent, title, body, now).tasks, agent)]
            == new_task(id, agent, title, body, now),
{
    let t = push_task(s, id, agent, title, body, now).tasks;
    let n = s.tasks.len() as int;
    assert(t == s.tasks.push(new_task(id, agent, title, body, now)));
    assert(queued_for(t[n], agent));
    assert(has_queued(t, agent));
    lemma_next_queued(t, agent);
    let i = next_queued(t, agent);
    assert(is_next_queued(t, agent, i));
    if i < n {
        assert(queued_for(s.tasks[i], agent));
    }
}

/// Finishing a known task marks it failed when asked for `failed`, done otherwise,
/// with the time and result given; blocking marks it blocked with the reason.
pub proof fn law_finish_and_block(s: StateV, id: Seq<char>, failed: bool, result: Option<Seq<char>>, reason: Seq<char>, now: i64)
    requires
        s.wf(),
        has_task(s.tasks, id),
    ensures
        has_task(finish(s, id, failed, result, now).tasks, id),
        finish(s, id, failed, result, now).task(id).status == (if failed { TaskStatus::Failed } else { TaskStatus::Done }),
        finish(s, id, failed, result, now).task(id).finished_at == Some(now),
        finish(s, id, failed, result, now).task(id).result == result,
        block(s, id, reason).task(id).status == TaskStatus::Blocked,
        block(s, id, reason).task(id).result == Some(reason),
{
    let p = task_pos(s.tasks, id);
    let f = finish(s, id, failed, result, now).tasks;
    assert(unique_tasks(f));
    lemma_task_pos(f, id, p);
    let b = block(s, id, reason).tasks;
    assert(unique_tasks(b));
    lemma_task_pos(b, id, p);
}

/// An acknowledged message reads as acknowledged.
pub proof fn law_ack_then_status(s: StateV, agent: Seq<char>, msg_id: Seq<char>)
    requires
        s.wf(),
        ack_refusal(s, agent, msg_id) is None,
    ensures
        acked_in(ack(s, agent, msg_id).book(agent), msg_id),
{
    lemma_book_unique(s.acks, agent);
    lemma_put_unique(s.book(agent), msg_id, true);
    lemma_put_books(s.acks, agent, crate::model::put(s.book(agent), msg_id, true));
}

/// A broadcast reaches at most one inbox per target.
pub proof fn law_broadcast_count(s: StateV, targets: Seq<Seq<char>>)
    ensures
        count_with_inbox(s, targets) <= targets.len(),
    decreases targets.len(),
{
    if targets.len() > 0 {
        law_broadcast_count(s, targets.drop_last());
    }
}

/// A report whose hash equals the one held changes nothing: reporting the same
/// task files twice is the same as reporting them once.
pub proof fn law_sync_idempotent(s: StateV, agent: Seq<char>, hash: u64, items: Seq<crate::protocol::TaskSyncItemV>, again: Seq<crate::protocol::TaskSyncItemV>)
    requires
        s.wf(),
    ensures
        sync_tasks(sync_tasks(s, agent, hash, items), agent, hash, again) == sync_tasks(s, agent, hash, items),
{
    let s1 = sync_tasks(s, agent, hash, items);
    if has_agent(s.agents, agent) {
        let p = agent_pos(s.agents, agent);
        assert(unique_agents(s1.agents));
        lemma_agent_pos(s1.agents, agent, p);
    }
}

/// A task pushed for an agent without a reported snapshot is among the tasks
/// listed for it.
pub proof fn law_push_then_list(s: StateV, id: Seq<char>, agent: Seq<char>, title: Seq<char>, body: Seq<char>, now: i64)
    requires
        s.wf(),
        has_agent(s.agents, agent),
        s.agent(agent).task_snapshot.len() == 0,
        !has_task(s.tasks, id),
    ensures
        listed_tasks(push_task(s, id, agent, title, body, now), agent).contains(task_item(new_task(id, agent, title, body, now))),
{
    let s1 = push_task(s, id, agent, title, body, now);
    let n = s.tasks.len() as int;
    assert(s1.tasks == s.tasks.push(new_task(id, agent, title, body, now)));
    assert(s1.agents == s.agents);
    let pred = |t: TaskV| t.agent_id == agent;
    s1.tasks.lemma_filter_contains(pred, n);
    let f = s1.tasks.filter(pred);
    let k = choose|k: int| 0 <= k < f.len() && f[k] == s1.tasks[n];
    assert(f.map_values(|t: TaskV| task_item(t))[k] == task_item(new_task(id, agent, title, body, now)));
}


/// Stamps in the order they were taken.
pub open spec fn sorted_stamps(q: Seq<u64>) -> bool {
    forall|i: int, j: int| 0 <= i <= j < q.len() ==> q[i] <= q[j]
}

/// The sliding window. With stamps in order, pruning removes exactly the stale
/// ones: what remains is a suffix of the stamps, none of it stale, and every stamp
/// before it is stale. So a request is let through exactly when fewer than `max`
/// requests were let through within the window. A bucket never holds more than
/// `max` stamps, and its stamps stay in order while requests come in order.
pub proof fn law_sliding_window(q: Seq<u64>, now: u64, max: usize, window_secs: u64)
    requires
        sorted_stamps(q),
    ensures
        prune(q, now, window_secs).len() <= q.len(),
        prune(q, now, window_secs) == q.skip(q.len() - prune(q, now, window_secs).len()),
        forall|k: int| 0 <= k < prune(q, now, window_secs).len() ==> !stale(#[trigger] prune(q, now, window_secs)[k], now, window_secs),
        forall|k: int| 0 <= k < q.len() - prune(q, now, window_secs).len() ==> stale(#[trigger] q[k], now, window_secs),
        q.len() <= max ==> after_check(q, now, max, window_secs).len() <= max,
        (forall|k: int| 0 <= k < q.len() ==> #[trigger] q[k] <= now) ==> sorted_stamps(after_check(q, now, max, window_secs)),
    decreases q.len(),
{
    let p = prune(q, now, window_secs);
    if q.len() > 0 && stale(q[0], now, window_secs) {
        let d = q.drop_first();
        assert(sorted_stamps(d));
        law_sliding_window(d, now, max, window_secs);
        assert(p == prune(d, now, window_secs));
        assert(d.skip(d.len() - p.len()) =~= q.skip(q.len() - p.len()));
        assert forall|k: int| 0 <= k < q.len() - p.len() implies stale(#[trigger] q[k], now, window_secs) by {
            if k > 0 {
                assert(q[k] == d[k - 1]);
            }
        }
    } else {
        assert(p == q);
        assert(q.skip(0) =~= q);
        if q.len() > 0 {
            assert forall|k: int| 0 <= k < p.len() implies !stale(#[trigger] p[k], now, window_secs) by {
                assert(q[0] <= q[k]);
            }
        }
    }
    let p2 = prune(q, now, window_secs);
    if forall|k: int| 0 <= k < q.len() ==> #[trigger] q[k] <= now {
        assert forall|i: int, j: int| 0 <= i <= j < p2.len() implies p2[i] <= p2[j] by {
            assert(p2[i] == q[q.len() - p2.len() + i]);
            assert(p2[j] == q[q.len() - p2.len() + j]);
        }
        if has_room(q, now, max, window_secs) {
            let a = p2.push(now);
            assert forall|i: int, j: int| 0 <= i <= j < a.len() implies a[i] <= a[j] by {
                if j == p2.len() && i < p2.len() {
                    assert(p2[i] == q[q.len() - p2.len() + i]);
                }
            }
        }
    }
}

proof fn lemma_hyphen_count(s: Seq<char>, n: int)
    requires
        is_hyphenated_uuid(s),
        0 <= n <= 36,
    ensures
        count_char(s.take(n), '-') == (if n > 8 { 1int } else { 0 }) + (if n > 13 { 1int } else { 0 })
            + (if n > 18 { 1int } else { 0 }) + (if n > 23 { 1int } else { 0 }),
    decreases n,
{
    if n > 0 {
        lemma_hyphen_count(s, n - 1);
        assert(s.take(n).drop_last() =~= s.take(n - 1));
        assert(s.take(n).last() == s[n - 1]);
        let c = s[n - 1];
        if !(n - 1 == 8 || n - 1 == 13 || n - 1 == 18 || n - 1 == 23) {
            assert(is_lower_hex(c));
        }
    } else {
        assert(s.take(0) =~= Seq::<char>::empty());
    }
}

/// Identifiers the server hands out are taken by the client for identifiers, not
/// names: every hyphenated UUID is 36 bytes long with four `-`.
pub proof fn law_fresh_ids_recognized(s: &str)
    requires
        is_hyphenated_uuid(s@),
    ensures
        looks_like_id(s),
{
    lemma_hyphen_count(s@, 36);
    assert(s@.take(36) =~= s@);
    assert forall|i: int| 0 <= i < s@.len() implies '\0' <= #[trigger] s@[i] <= '\u{7f}' by {
        if !(i == 8 || i == 13 || i == 18 || i == 23) {
            assert(is_lower_hex(s@[i]));
        }
    }
    assert(vstd::utf8::is_ascii_chars(s@));
    vstd::utf8::is_ascii_chars_encode_utf8(s@);
}

/// The display log keeps at most `MAX_LOG` lines, newest first: a new line goes to
/// the front and the older lines follow in their order.
pub proof fn law_log_cap(log: Seq<Seq<char>>, line: Seq<char>)
    ensures
        pushed(log, line).len() <= MAX_LOG,
        pushed(log, line)[0] == line,
        forall|k: int| 0 < k < pushed(log, line).len() ==> #[trigger] pushed(log, line)[k] == log[k - 1],
{
}


/// The daemon's own failure notes are never taken for a finished or blocked
/// task: an exit note or a spawn note of the program always fails the task.
pub proof fn law_notes_fail(program: Seq<char>, status: Seq<char>, stderr: Seq<char>, error: Seq<char>)
    ensures
        outcome_of(exit_note_text(program, status, stderr), program) == TaskOutcome::Failed,
        outcome_of(spawn_note_text(program, error), program) == TaskOutcome::Failed,
{
    reveal_strlit("BLOCKED:");
    reveal_strlit("[");
    reveal_strlit(" exited");
    reveal_strlit(" exited ");
    reveal_strlit("[failed");
    reveal_strlit("[failed to spawn ");
    let e = exit_note_text(program, status, stderr);
    let m = exit_marker(program);
    assert(e[0] == '[');
    assert("BLOCKED:"@[0] == 'B');
    assert(!"BLOCKED:"@.is_prefix_of(e)) by {
        if "BLOCKED:"@.is_prefix_of(e) {
            assert(e[0] == "BLOCKED:"@[0]);
        }
    }
    assert(m.len() <= e.len());
    assert(e.take(m.len() as int) =~= m);
    assert(m.is_prefix_of(e));
    let sp = spawn_note_text(program, error);
    assert(sp[0] == '[');
    assert(!"BLOCKED:"@.is_prefix_of(sp)) by {
        if "BLOCKED:"@.is_prefix_of(sp) {
            assert(sp[0] == "BLOCKED:"@[0]);
        }
    }
    assert(sp.take(7) =~= "[failed"@);
    assert("[failed"@.is_prefix_of(sp));
}


proof fn lemma_first_named(items: Seq<(Seq<char>, RepoV)>, x: Seq<char>)
    ensures
        first_named(items, x) is Some <==> exists|i: int| 0 <= i < items.len() && (#[trigger] items[i]).0 == x,
    decreases items.len(),
{
    if items.len() > 0 {
        let p = items.drop_last();
        lemma_first_named(p, x);
        if first_named(p, x) is Some {
            let i = choose|i: int| 0 <= i < p.len() && (#[trigger] p[i]).0 == x;
            assert(items[i].0 == x);
        }
        if exists|i: int| 0 <= i < items.len() && (#[trigger] items[i]).0 == x {
            let i = choose|i: int| 0 <= i < items.len() && (#[trigger] items[i]).0 == x;
            if i < items.len() - 1 {
                assert(p[i].0 == x);
            }
        }
    }
}

proof fn lemma_count_new_zero(s: Seq<(Seq<char>, RepoV)>, items: Seq<(Seq<char>, RepoV)>)
    requires
        forall|i: int| 0 <= i < items.len() ==> has_key(s, (#[trigger] items[i]).0),
    ensures
        count_new(s, items) == 0,
    decreases items.len(),
{
    if items.len() > 0 {
        let p = items.drop_last();
        assert forall|i: int| 0 <= i < p.len() implies has_key(s, (#[trigger] p[i]).0) by {
            assert(p[i] == items[i]);
        }
        lemma_count_new_zero(s, p);
        assert(has_key(s, items[items.len() - 1].0));
    }
}

/// Importing the same repositories twice changes nothing the second time: every
/// name found is then taken, so none is imported and each entry stays.
pub proof fn law_import_twice(
    s0: Seq<(Seq<char>, RepoV)>,
    items: Seq<(Seq<char>, RepoV)>,
    s1: Seq<(Seq<char>, RepoV)>,
)
    requires
        forall|x: Seq<char>| #[trigger] get(s1, x) == after_import(s0, items, x),
    ensures
        count_new(s1, items) == 0,
        forall|x: Seq<char>| #[trigger] after_import(s1, items, x) == get(s1, x),
{
    assert forall|i: int| 0 <= i < items.len() implies has_key(s1, (#[trigger] items[i]).0) by {
        let n = items[i].0;
        lemma_first_named(items, n);
        assert(get(s1, n) == after_import(s0, items, n));
    }
    lemma_count_new_zero(s1, items);
    assert forall|x: Seq<char>| #[trigger] after_import(s1, items, x) == get(s1, x) by {
        if !has_key(s1, x) {
            lemma_first_named(items, x);
            if first_named(items, x) is Some {
                let i = choose|i: int| 0 <= i < items.len() && (#[trigger] items[i]).0 == x;
                assert(has_key(s1, items[i].0));
            }
        }
    }
}

/// Pausing an enabled agent and resuming it gives back the set as it was.
pub proof fn law_pause_resume(
    s0: Seq<(Seq<char>, RepoV)>,
    name: Seq<char>,
    s1: Seq<(Seq<char>, RepoV)>,
    s2: Seq<(Seq<char>, RepoV)>,
)
    requires
        has_key(s0, name),
        get(s0, name).unwrap().enabled,
        forall|x: Seq<char>| #[trigger] get(s1, x) == updated(s0, name, RepoV { enabled: false, ..get(s0, name).unwrap() }, x),
        forall|x: Seq<char>| #[trigger] get(s2, x) == updated(s1, name, RepoV { enabled: true, ..get(s1, name).unwrap() }, x),
    ensures
        forall|x: Seq<char>| #[trigger] get(s2, x) == get(s0, x),
{
    assert(get(s1, name) == updated(s0, name, RepoV { enabled: false, ..get(s0, name).unwrap() }, name));
    assert forall|x: Seq<char>| #[trigger] get(s2, x) == get(s0, x) by {
        assert(get(s1, x) == updated(s0, name, RepoV { enabled: false, ..get(s0, name).unwrap() }, x));
    }
}

/// A word: not empty, and without white space.
pub open spec fn clean_word(w: Seq<char>) -> bool {
    w.len() > 0 && forall|k: int| 0 <= k < w.len() ==> !is_white_space(#[trigger] w[k])
}

proof fn lemma_words_from_clean(s: Seq<char>, cur: Seq<char>)
    requires
        forall|k: int| 0 <= k < cur.len() ==> !is_white_space(#[trigger] cur[k]),
    ensures
        forall|i: int| 0 <= i < words_from(s, cur).len() ==> clean_word(#[trigger] words_from(s, cur)[i]),
    decreases s.len(),
{
    let r = words_from(s, cur);
    if s.len() == 0 {
        if cur.len() > 0 {
            assert(r =~= seq![cur]);
            assert(clean_word(cur));
        }
    } else if is_white_space(s[0]) {
        let rest = words_from(s.drop_first(), Seq::empty());
        lemma_words_from_clean(s.drop_first(), Seq::empty());
        if cur.len() > 0 {
            assert(r == seq![cur] + rest);
            assert forall|i: int| 0 <= i < r.len() implies clean_word(#[trigger] r[i]) by {
                if i == 0 {
                    assert(r[0] == cur);
                } else {
                    assert(r[i] == rest[i - 1]);
                }
            }
        } else {
            assert(r == rest);
        }
    } else {
        let c2 = cur.push(s[0]);
        assert forall|k: int| 0 <= k < c2.len() implies !is_white_space(#[trigger] c2[k]) by {
            if k < cur.len() { assert(c2[k] == cur[k]); }
        }
        lemma_words_from_clean(s.drop_first(), c2);
        assert(r == words_from(s.drop_first(), c2));
    }
}

/// The words of a flag list are never empty and hold no white space.
pub proof fn law_words_clean(s: Seq<char>)
    ensures
        forall|i: int| 0 <= i < words(s).len() ==> clean_word(#[trigger] words(s)[i]),
{
    lemma_words_from_clean(s, Seq::empty());
}

/// A padded cell is as wide as the column, or as the text when that is wider,
/// and starts with the text.
pub proof fn law_pad(s: Seq<char>, w: nat)
    ensures
        pad(s, w).len() == if s.len() >= w { s.len() } else { w },
        pad(s, w).take(s.len() as int) == s,
{
    assert(pad(s, w).take(s.len() as int) =~= s);
}


/// Running `init` twice adds `.punchclock` to `.gitignore` once: after the first
/// update (or when none was needed) the text has a line reading `.punchclock`,
/// so a second update finds nothing to add and leaves the text as it is.
pub proof fn law_gitignore_once(existing: Seq<char>)
    ensures
        ({
            let after = match gitignore_update(existing) {
                Some(t) => t,
                None => existing,
            };
            gitignore_update(after) is None
        }),
{
    reveal_strlit(".punchclock");
    reveal_strlit(".punchclock\n");
    reveal_strlit("\n");
    if let Some(t) = gitignore_update(existing) {
        let p = if existing.len() > 0 && existing.last() != '\n' { existing + "\n"@ } else { existing };
        assert(t =~= p + ".punchclock\n"@);
        let a = p.len() as int;
        let b = a + 11;
        let entry = ".punchclock"@;
        assert(t.subrange(a, b) =~= entry);
        assert(t[b] == '\n');
        assert(a == 0 || t[a - 1] == '\n') by {
            if a > 0 {
                if existing.len() > 0 && existing.last() != '\n' {
                    assert(t[a - 1] == p[a - 1]);
                } else {
                    assert(t[a - 1] == existing.last());
                }
            }
        }
        assert forall|k: int| a <= k < b implies t[k] != '\n' by {
            assert(t[k] == entry[k - a]);
        }
        assert(is_line(t, a, b));
        assert(!is_white_space(entry[0]));
        assert(trim_start(entry) == entry);
        assert(entry.last() == 'k');
        assert(!is_white_space(entry.last()));
        assert(trim_end(entry) == entry);
        assert(trim(t.subrange(a, b)) == entry);
        assert(has_line(t, entry));
    }
}

/// The text appended to a blocked task's file is the reason reported to the
/// server; for any other task it is the whole reply, reported as the result.
pub proof fn law_step_texts(reply: Seq<char>, program: Seq<char>)
    ensures
        ({
            let o = outcome_of(reply, program);
            &&& o == TaskOutcome::Blocked ==> appended_of(o, reply) == report_of(o, reply).1
                && appended_of(o, reply) == blocked_reason_of(reply)
            &&& o != TaskOutcome::Blocked ==> appended_of(o, reply) == report_of(o, reply).2
                && appended_of(o, reply) == reply
        }),
{
}


/// The text neither starts nor ends with white space.
pub open spec fn bare(t: Seq<char>) -> bool {
    t.len() == 0 || (!is_white_space(t[0]) && !is_white_space(t.last()))
}

proof fn lemma_trim_bare(t: Seq<char>)
    requires
        bare(t),
    ensures
        trim(t) == t,
{
    assert(trim_start(t) == t);
    assert(trim_end(t) == t);
}

proof fn lemma_line_end(p: Seq<char>, q: Seq<char>)
    requires
        forall|k: int| 0 <= k < p.len() ==> p[k] != '\n',
        q.len() > 0,
        q[0] == '\n',
    ensures
        line_end(p + q) == p.len(),
    decreases p.len(),
{
    if p.len() > 0 {
        assert((p + q).drop_first() =~= p.drop_first() + q);
        lemma_line_end(p.drop_first(), q);
    } else {
        assert(p + q =~= q);
    }
}

/// A task file the daemon writes reads back as the title and body it was written
/// with, when the title is a single line and neither text starts or ends with
/// white space.
pub proof fn law_task_file_round_trip(title: Seq<char>, body: Seq<char>)
    requires
        forall|k: int| 0 <= k < title.len() ==> title[k] != '\n',
        bare(title),
        bare(body),
    ensures
        task_parts(task_file_text(title, body)) == (title, body),
{
    reveal_strlit("# ");
    reveal_strlit("\n\n");
    reveal_strlit("\n");
    let text = task_file_text(title, body);
    let head = "# "@ + title;
    let tail = "\n\n"@ + body + "\n"@;
    assert(text =~= head + tail);
    assert forall|k: int| 0 <= k < head.len() implies head[k] != '\n' by {
        if k >= 2 { assert(head[k] == title[k - 2]); }
    }
    lemma_line_end(head, tail);
    let e = head.len() as int;
    assert("# "@.is_prefix_of(text)) by {
        assert(text.take(2) =~= "# "@);
    }
    assert(text.subrange(2, e) =~= title);
    lemma_trim_bare(title);
    assert(text.skip(e) =~= tail);
    // the leading newlines and the trailing one go, the body stays
    assert(tail.drop_first().drop_first() =~= body + "\n"@);
    assert(tail[0] == '\n' && is_white_space(tail[0]));
    assert(trim_start(tail) == trim_start(tail.drop_first()));
    assert(tail.drop_first()[0] == '\n');
    assert(trim_start(tail.drop_first()) == trim_start(tail.drop_first().drop_first()));
    assert(trim_start(tail) == trim_start(body + "\n"@));
    if body.len() == 0 {
        assert(body + "\n"@ =~= "\n"@);
        assert(trim_start("\n"@) == trim_start("\n"@.drop_first()));
        assert("\n"@.drop_first() =~= Seq::<char>::empty());
        assert(trim(tail) =~= Seq::<char>::empty());
    } else {
        assert((body + "\n"@)[0] == body[0]);
        assert(trim_start(body + "\n"@) == body + "\n"@);
        assert((body + "\n"@).drop_last() =~= body);
        assert(trim_end(body + "\n"@) == trim_end(body));
        lemma_trim_bare(body);
        assert(trim_end(body) == body);
    }
}


/// When the display closes it shows what happened last: at most thirty lines,
/// the newest line of the log at the end and each line after the one logged
/// before it.
pub proof fn law_closing_recent(log: Seq<Seq<char>>)
    ensures
        closing_lines(log).len() == if log.len() > 30 { 30 } else { log.len() as int },
        log.len() > 0 ==> closing_lines(log).last() == log[0],
        forall|k: int| 0 <= k < closing_lines(log).len() ==> #[trigger] closing_lines(log)[k]
            == log[closing_lines(log).len() - 1 - k],
{
}


/// Finishing a task with the status text `failed` marks it failed; any other text,
/// such as the `done` that the daemon sends for a task that went well, marks it
/// done. The listed status reads `failed` or `done` accordingly.
pub proof fn law_finish_status(s: StateV, id: Seq<char>, status: Seq<char>, result: Option<Seq<char>>, now: i64)
    requires
        s.wf(),
        has_task(s.tasks, id),
    ensures
        finish(s, id, crate::server::asks_failure(status), result, now).task(id).status
            == (if status == "failed"@ { TaskStatus::Failed } else { TaskStatus::Done }),
        status_text(finish(s, id, crate::server::asks_failure(status), result, now).task(id).status)
            == (if status == "failed"@ { "failed"@ } else { "done"@ }),
        status == "done"@ ==> finish(s, id, crate::server::asks_failure(status), result, now).task(id).status
            == TaskStatus::Done,
{
    reveal_strlit("failed");
    reveal_strlit("done");
    law_finish_and_block(s, id, crate::server::asks_failure(status), result, Seq::empty(), now);
    assert("done"@ != "failed"@) by {
        assert("done"@.len() != "failed"@.len());
    }
    assert(status_text(TaskStatus::Failed) =~= "failed"@);
    assert(status_text(TaskStatus::Done) =~= "done"@);
}

/// The roster lists every online agent once, in roster order, each entry with that
/// agent's own identifier, name and description and its last heartbeat; and only
/// online agents of the server appear on it.
pub proof fn law_team_entries(s: StateV, now: i64, timeout_secs: i64)
    ensures
        team(s, now, timeout_secs).len() == online_agents(s, now, timeout_secs).len(),
        forall|i: int| 0 <= i < team(s, now, timeout_secs).len() ==> (#[trigger] team(s, now, timeout_secs)[i]).id
            == online_agents(s, now, timeout_secs)[i].id
            && team(s, now, timeout_secs)[i].name == online_agents(s, now, timeout_secs)[i].name
            && team(s, now, timeout_secs)[i].description == online_agents(s, now, timeout_secs)[i].description
            && team(s, now, timeout_secs)[i].last_heartbeat == rfc3339_of(online_agents(s, now, timeout_secs)[i].last_heartbeat)
            && online(online_agents(s, now, timeout_secs)[i], now, timeout_secs)
            && s.agents.contains(online_agents(s, now, timeout_secs)[i]),
        forall|j: int| 0 <= j < s.agents.len() && online(#[trigger] s.agents[j], now, timeout_secs) ==> (exists|i: int|
            0 <= i < team(s, now, timeout_secs).len() && (#[trigger] team(s, now, timeout_secs)[i]).id == s.agents[j].id
                && team(s, now, timeout_secs)[i].name == s.agents[j].name
                && team(s, now, timeout_secs)[i].description == s.agents[j].description
                && team(s, now, timeout_secs)[i].last_heartbeat == rfc3339_of(s.agents[j].last_heartbeat)),
{
    let pred = |a: AgentV| online(a, now, timeout_secs);
    let oa = online_agents(s, now, timeout_secs);
    let t = team(s, now, timeout_secs);
    assert forall|i: int| 0 <= i < t.len() implies (#[trigger] t[i]).id == oa[i].id && t[i].name == oa[i].name
        && t[i].description == oa[i].description && t[i].last_heartbeat == rfc3339_of(oa[i].last_heartbeat)
        && online(oa[i], now, timeout_secs) && s.agents.contains(oa[i]) by {
        s.agents.lemma_filter_pred(pred, i);
        s.agents.lemma_filter_contains_rev(pred, oa[i]);
    }
    assert forall|j: int| 0 <= j < s.agents.len() && online(#[trigger] s.agents[j], now, timeout_secs) implies (exists|i: int|
        0 <= i < t.len() && (#[trigger] t[i]).id == s.agents[j].id && t[i].name == s.agents[j].name
            && t[i].description == s.agents[j].description
            && t[i].last_heartbeat == rfc3339_of(s.agents[j].last_heartbeat)) by {
        s.agents.lemma_filter_contains(pred, j);
        let i = choose|i: int| 0 <= i < oa.len() && oa[i] == s.agents[j];
        assert(t[i] == crate::model::summary(oa[i]));
    }
}

/// After a report of task files with a new hash from a known agent, the tasks
/// listed for it are exactly the files reported, in the order reported, each with
/// the identifier, title and status it was reported with and its modification
/// time as its creation time.
pub proof fn law_sync_then_list(s: StateV, agent: Seq<char>, hash: u64, items: Seq<TaskSyncItemV>)
    requires
        s.wf(),
        has_agent(s.agents, agent),
        s.agent(agent).task_snapshot_hash != hash,
        items.len() > 0,
    ensures
        listed_tasks(sync_tasks(s, agent, hash, items), agent).len() == items.len(),
        forall|k: int| 0 <= k < items.len() ==> #[trigger] listed_tasks(sync_tasks(s, agent, hash, items), agent)[k]
            == (TaskItemV {
                id: items[k].id,
                agent_id: agent,
                title: items[k].title,
                body: Seq::empty(),
                status: items[k].status,
                created_at: items[k].modified_at,
                started_at: None,
                finished_at: None,
                result: None,
            }),
{
    let s1 = sync_tasks(s, agent, hash, items);
    let p = agent_pos(s.agents, agent);
    lemma_agent_pos(s.agents, agent, p);
    assert(unique_agents(s1.agents)) by {
        assert forall|i: int, j: int| 0 <= i < s1.agents.len() && 0 <= j < s1.agents.len() && i != j
            implies (#[trigger] s1.agents[i]).id != (#[trigger] s1.agents[j]).id by {
            assert(s1.agents[i].id == s.agents[i].id);
            assert(s1.agents[j].id == s.agents[j].id);
        }
    }
    lemma_agent_pos(s1.agents, agent, p);
    assert(has_agent(s1.agents, agent));
}

/// Each inbox's presence and the state's well-formedness survive a broadcast.
proof fn lemma_deliver_all_keys(
    s: StateV,
    targets: Seq<Seq<char>>,
    from: Seq<char>,
    body: Seq<char>,
    ids: Seq<Seq<char>>,
    ats: Seq<i64>,
    max: usize,
)
    requires
        s.wf(),
    ensures
        deliver_all(s, targets, from, body, ids, ats, max).wf(),
        forall|t: Seq<char>| #[trigger] has_key(deliver_all(s, targets, from, body, ids, ats, max).inboxes, t) == has_key(s.inboxes, t),
    decreases targets.len(),
{
    if targets.len() > 0 {
        let k = targets.len() - 1;
        lemma_deliver_all_keys(s, targets.drop_last(), from, body, ids, ats, max);
        let s1 = deliver_all(s, targets.drop_last(), from, body, ids, ats, max);
        if has_key(s1.inboxes, targets[k]) {
            law_deliver_keeps_wf(s1, targets[k], from, body, ids[k], ats[k], max);
            lemma_deliver_keys(s1, targets[k], from, body, ids[k], ats[k], max);
        }
    }
}

/// A delivery to one inbox leaves every other inbox as it was.
proof fn lemma_deliver_other(s: StateV, to: Seq<char>, from: Seq<char>, body: Seq<char>, id: Seq<char>, at: i64, max: usize, t: Seq<char>)
    requires
        s.wf(),
        has_key(s.inboxes, to),
        t != to,
    ensures
        deliver(s, to, from, body, id, at, max).inbox(t) == s.inbox(t),
{
    let q = s.inbox(to)->0;
    let q1 = if evicts(q, max) { q.drop_first() } else { q };
    lemma_put_unique(s.inboxes, to, q1.push(MessageV { id, from, body, timestamp: at, acked: false }));
}

/// A broadcast to distinct targets leaves, in the inbox of each target that has
/// one, as its newest message the broadcast itself: from the broadcast's sender,
/// with its body, under that target's identifier and time stamp, not yet
/// acknowledged. Draining that inbox hands this message out last.
pub proof fn law_broadcast_delivers(
    s: StateV,
    targets: Seq<Seq<char>>,
    from: Seq<char>,
    body: Seq<char>,
    ids: Seq<Seq<char>>,
    ats: Seq<i64>,
    max: usize,
)
    requires
        s.wf(),
        forall|i: int, j: int| 0 <= i < j < targets.len() ==> targets[i] != targets[j],
        ids.len() >= targets.len(),
        ats.len() >= targets.len(),
    ensures
        forall|k: int| 0 <= k < targets.len() && has_key(s.inboxes, #[trigger] targets[k]) ==> {
            let r = deliver_all(s, targets, from, body, ids, ats, max);
            &&& r.inbox(targets[k]) is Some
            &&& r.inbox(targets[k])->0.len() > 0
            &&& r.inbox(targets[k])->0.last() == (MessageV { id: ids[k], from, body, timestamp: ats[k], acked: false })
            &&& drained(r, targets[k]).len() > 0
            &&& drained(r, targets[k]).last().from == from
            &&& drained(r, targets[k]).last().body == body
            &&& drained(r, targets[k]).last().id == ids[k]
        },
    decreases targets.len(),
{
    if targets.len() > 0 {
        let n = targets.len() - 1;
        let d = targets.drop_last();
        law_broadcast_delivers(s, d, from, body, ids, ats, max);
        lemma_deliver_all_keys(s, d, from, body, ids, ats, max);
        let s1 = deliver_all(s, d, from, body, ids, ats, max);
        let r = deliver_all(s, targets, from, body, ids, ats, max);
        assert forall|k: int| 0 <= k < targets.len() && has_key(s.inboxes, #[trigger] targets[k]) implies {
            &&& r.inbox(targets[k]) is Some
            &&& r.inbox(targets[k])->0.len() > 0
            &&& r.inbox(targets[k])->0.last() == (MessageV { id: ids[k], from, body, timestamp: ats[k], acked: false })
            &&& drained(r, targets[k]).len() > 0
            &&& drained(r, targets[k]).last().from == from
            &&& drained(r, targets[k]).last().body == body
            &&& drained(r, targets[k]).last().id == ids[k]
        } by {
            assert(has_key(s1.inboxes, targets[n]) == has_key(s.inboxes, targets[n]));
            if k == n {
                let q = s1.inbox(targets[n])->0;
                let q1 = if evicts(q, max) { q.drop_first() } else { q };
                let m = MessageV { id: ids[n], from, body, timestamp: ats[n], acked: false };
                lemma_put_unique(s1.inboxes, targets[n], q1.push(m));
                assert(r.inbox(targets[n]) == Some(q1.push(m)));
            } else {
                assert(d[k] == targets[k]);
                assert(targets[k] != targets[n]);
                if has_key(s1.inboxes, targets[n]) {
                    lemma_deliver_other(s1, targets[n], from, body, ids[n], ats[n], max, targets[k]);
                }
                assert(r.inbox(targets[k]) == s1.inbox(targets[k]));
            }
        }
    }
}

/// The reaper leaves alone every agent whose heartbeat has not run out: its
/// record stays on the roster and its inbox, with every message in it, stays as
/// it was.
pub proof fn law_reap_keeps_live(s: StateV, now: i64, timeout_secs: i64)
    requires
        s.wf(),
    ensures
        forall|id: Seq<char>| !expired_id(s, id, now, timeout_secs) ==>
            #[trigger] reap(s, now, timeout_secs).inbox(id) == s.inbox(id),
        forall|j: int| 0 <= j < s.agents.len() && online(#[trigger] s.agents[j], now, timeout_secs)
            ==> reap(s, now, timeout_secs).agents.contains(s.agents[j]),
{
    let r = reap(s, now, timeout_secs);
    let ipred = |p: (Seq<char>, Seq<MessageV>)| !expired_id(s, p.0, now, timeout_secs);
    let f = s.inboxes.filter(ipred);
    crate::model::lemma_filter_unique_keys(s.inboxes, ipred);
    assert forall|id: Seq<char>| !expired_id(s, id, now, timeout_secs) implies #[trigger] r.inbox(id) == s.inbox(id) by {
        if has_key(s.inboxes, id) {
            let i = key_pos(s.inboxes, id);
            lemma_key_pos(s.inboxes, id, i);
            s.inboxes.lemma_filter_contains(ipred, i);
            let j = choose|j: int| 0 <= j < f.len() && f[j] == s.inboxes[i];
            lemma_key_pos(f, id, j);
        } else if has_key(f, id) {
            let j = key_pos(f, id);
            lemma_key_pos(f, id, j);
            assert(f.contains(f[j]));
            assert(s.inboxes.contains(f[j]));
            let i = choose|i: int| 0 <= i < s.inboxes.len() && s.inboxes[i] == f[j];
            assert(s.inboxes[i].0 == id);
        }
    }
    law_reap(s, now, timeout_secs);
}

} // verus!
