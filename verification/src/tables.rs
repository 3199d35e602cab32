//! The tables the command-line client prints.
use vstd::prelude::*;
use crate::protocol::{
    AgentSummary, AgentSummaryV, MessageStatusListResponse, MessageStatusResponse, TaskItem, TaskItemV,
    TaskListResponse, TeamResponse,
};
use crate::repos::Repos;
use crate::client::RepoV;
use crate::text::{chars_of, concat, concat3, push_char, views};

verus! {

/// `s` padded with spaces on the right to `w` characters (`{:<w}`).
pub open spec fn pad(s: Seq<char>, w: nat) -> Seq<char> {
    if s.len() >= w { s } else { s + Seq::new((w - s.len()) as nat, |i: int| ' ') }
}

/// `n` dashes.
pub open spec fn dashes(n: nat) -> Seq<char> {
    Seq::new(n, |i: int| '-')
}

pub fn pad_right(s: &str, w: usize) -> (r: String)
    ensures
        r@ == pad(s@, w as nat),
{
    let n = chars_of(s).len();
    let mut r = s.to_owned();
    let mut k: usize = n;
    while k < w
        invariant
            n == s@.len(),
            n <= k <= w || (n > w && k == n),
            r@ == s@ + Seq::new((k - n) as nat, |i: int| ' '),
        decreases w - k,
    {
        let ghost before = r@;
        push_char(&mut r, ' ');
        assert(r@ =~= s@ + Seq::new((k + 1 - n) as nat, |i: int| ' '));
        k = k + 1;
    }
    assert(r@ =~= pad(s@, w as nat));
    r
}

pub fn dash_line(n: usize) -> (r: String)
    ensures
        r@ == dashes(n as nat),
{
    let mut r = String::new();
    let mut k: usize = 0;
    while k < n
        invariant
            k <= n,
            r@ == dashes(k as nat),
        decreases n - k,
    {
        push_char(&mut r, '-');
        assert(r@ =~= dashes((k + 1) as nat));
        k = k + 1;
    }
    r
}

/// A table: its lines when there are no rows, else a header, a rule and a line
/// per row.
pub open spec fn table(empty: Seq<char>, header: Seq<char>, rule: nat, rows: Seq<Seq<char>>) -> Seq<Seq<char>> {
    if rows.len() == 0 { seq![empty] } else { seq![header, dashes(rule)] + rows }
}

// ── `ps` ───────────────────────────────────────────────────────────────────

pub open spec fn agent_row(a: AgentSummaryV) -> Seq<char> {
    pad(a.id, 36) + "  "@ + pad(a.name, 20) + "  "@ + a.description
}

/// The roster: id, name and description of each online agent.
pub open spec fn roster_lines(team: Seq<AgentSummaryV>) -> Seq<Seq<char>> {
    table(
        "no agents online"@,
        pad("id"@, 36) + "  "@ + pad("name"@, 20) + "  description"@,
        80,
        Seq::new(team.len(), |i: int| agent_row(team[i])),
    )
}

pub fn roster_table(team: &TeamResponse) -> (r: Vec<String>)
    ensures
        views(r@) == roster_lines(team.agents@.map_values(|a: AgentSummary| a@)),
{
    let ghost t = team.agents@.map_values(|a: AgentSummary| a@);
    let mut r: Vec<String> = Vec::new();
    if team.agents.len() == 0 {
        r.push("no agents online".to_owned());
        assert(views(r@) =~= roster_lines(t));
        return r;
    }
    let a = pad_right("id", 36);
    let b = pad_right("name", 20);
    let h = concat3(a.as_str(), "  ", b.as_str());
    r.push(concat(h.as_str(), "  description"));
    r.push(dash_line(80));
    let ghost head = views(r@);
    let mut k: usize = 0;
    while k < team.agents.len()
        invariant
            k <= t.len(),
            t == team.agents@.map_values(|a: AgentSummary| a@),
            views(r@) == head + Seq::new(k as nat, |i: int| agent_row(t[i])),
        decreases t.len() - k,
    {
        let ag = &team.agents[k];
        let c = pad_right(ag.id.as_str(), 36);
        let d = pad_right(ag.name.as_str(), 20);
        let e = concat3(c.as_str(), "  ", d.as_str());
        let line = concat3(e.as_str(), "  ", ag.description.as_str());
        assert(line@ =~= agent_row(t[k as int]));
        let ghost before = views(r@);
        let ghost lv = line@;
        r.push(line);
        assert(views(r@) =~= before.push(lv));
        assert(Seq::new((k + 1) as nat, |i: int| agent_row(t[i])) =~= Seq::new(k as nat, |i: int| agent_row(t[i])).push(lv));
        assert(views(r@) =~= head + Seq::new((k + 1) as nat, |i: int| agent_row(t[i])));
        k = k + 1;
    }
    assert(views(r@) =~= roster_lines(t));
    r
}

// ── `message status` ───────────────────────────────────────────────────────

pub open spec fn ack_row(m: (Seq<char>, bool)) -> Seq<char> {
    pad(m.0, 36) + "  "@ + if m.1 { "yes"@ } else { "no"@ }
}

/// Each message's identifier and whether it has been acknowledged.
pub open spec fn ack_lines(ms: Seq<(Seq<char>, bool)>) -> Seq<Seq<char>> {
    table("no messages"@, pad("id"@, 36) + "  acked"@, 50, Seq::new(ms.len(), |i: int| ack_row(ms[i])))
}

pub fn ack_table(res: &MessageStatusListResponse) -> (r: Vec<String>)
    ensures
        views(r@) == ack_lines(res.messages@.map_values(|m: MessageStatusResponse| m@)),
{
    let ghost t = res.messages@.map_values(|m: MessageStatusResponse| m@);
    let mut r: Vec<String> = Vec::new();
    if res.messages.len() == 0 {
        r.push("no messages".to_owned());
        assert(views(r@) =~= ack_lines(t));
        return r;
    }
    let a = pad_right("id", 36);
    r.push(concat(a.as_str(), "  acked"));
    r.push(dash_line(50));
    let ghost head = views(r@);
    let mut k: usize = 0;
    while k < res.messages.len()
        invariant
            k <= t.len(),
            t == res.messages@.map_values(|m: MessageStatusResponse| m@),
            views(r@) == head + Seq::new(k as nat, |i: int| ack_row(t[i])),
        decreases t.len() - k,
    {
        let m = &res.messages[k];
        let c = pad_right(m.id.as_str(), 36);
        let line = concat3(c.as_str(), "  ", if m.acked { "yes" } else { "no" });
        assert(line@ =~= ack_row(t[k as int]));
        let ghost before = views(r@);
        let ghost lv = line@;
        r.push(line);
        assert(views(r@) =~= before.push(lv));
        assert(Seq::new((k + 1) as nat, |i: int| ack_row(t[i])) =~= Seq::new(k as nat, |i: int| ack_row(t[i])).push(lv));
        assert(views(r@) =~= head + Seq::new((k + 1) as nat, |i: int| ack_row(t[i])));
        k = k + 1;
    }
    assert(views(r@) =~= ack_lines(t));
    r
}

// ── `task list` ────────────────────────────────────────────────────────────

pub open spec fn task_row(t: TaskItemV) -> Seq<char> {
    pad(t.id, 36) + "  "@ + pad(t.status, 12) + "  "@ + pad(t.created_at, 24) + "  "@ + t.title
}

/// Each task's identifier, status, creation time and title.
pub open spec fn task_lines(ts: Seq<TaskItemV>) -> Seq<Seq<char>> {
    table(
        "no tasks"@,
        pad("id"@, 36) + "  "@ + pad("status"@, 12) + "  "@ + pad("created"@, 24) + "  title"@,
        90,
        Seq::new(ts.len(), |i: int| task_row(ts[i])),
    )
}

pub fn task_table(res: &TaskListResponse) -> (r: Vec<String>)
    ensures
        views(r@) == task_lines(res.tasks@.map_values(|t: TaskItem| t@)),
{
    let ghost t = res.tasks@.map_values(|t: TaskItem| t@);
    let mut r: Vec<String> = Vec::new();
    if res.tasks.len() == 0 {
        r.push("no tasks".to_owned());
        assert(views(r@) =~= task_lines(t));
        return r;
    }
    let a = pad_right("id", 36);
    let b = pad_right("status", 12);
    let c = pad_right("created", 24);
    let h = concat3(a.as_str(), "  ", b.as_str());
    let h2 = concat3(h.as_str(), "  ", c.as_str());
    r.push(concat(h2.as_str(), "  title"));
    r.push(dash_line(90));
    let ghost head = views(r@);
    let mut k: usize = 0;
    while k < res.tasks.len()
        invariant
            k <= t.len(),
            t == res.tasks@.map_values(|t: TaskItem| t@),
            views(r@) == head + Seq::new(k as nat, |i: int| task_row(t[i])),
        decreases t.len() - k,
    {
        let it = &res.tasks[k];
        let p = pad_right(it.id.as_str(), 36);
        let q = pad_right(it.status.as_str(), 12);
        let s = pad_right(it.created_at.as_str(), 24);
        let l1 = concat3(p.as_str(), "  ", q.as_str());
        let l2 = concat3(l1.as_str(), "  ", s.as_str());
        let line = concat3(l2.as_str(), "  ", it.title.as_str());
        assert(line@ =~= task_row(t[k as int]));
        let ghost before = views(r@);
        let ghost lv = line@;
        r.push(line);
        assert(views(r@) =~= before.push(lv));
        assert(Seq::new((k + 1) as nat, |i: int| task_row(t[i])) =~= Seq::new(k as nat, |i: int| task_row(t[i])).push(lv));
        assert(views(r@) =~= head + Seq::new((k + 1) as nat, |i: int| task_row(t[i])));
        k = k + 1;
    }
    assert(views(r@) =~= task_lines(t));
    r
}

// ── `ls` ───────────────────────────────────────────────────────────────────

pub open spec fn repo_row(e: (Seq<char>, RepoV)) -> Seq<char> {
    pad(e.0, 30) + "  "@ + pad(if e.1.enabled { "yes"@ } else { "no"@ }, 8) + "  "@ + e.1.path
}

/// Each managed repository, in name order: name, whether enabled, path.
pub open spec fn repo_lines(rs: Seq<(Seq<char>, RepoV)>) -> Seq<Seq<char>> {
    table(
        "no repos registered — use \"punchclock add <path>\" to add one"@,
        pad("name"@, 30) + "  "@ + pad("enabled"@, 8) + "  path"@,
        80,
        Seq::new(rs.len(), |i: int| repo_row(rs[i])),
    )
}

pub fn repo_table(repos: &Repos) -> (r: Vec<String>)
    ensures
        views(r@) == repo_lines(repos@),
{
    let ghost t = repos@;
    let mut r: Vec<String> = Vec::new();
    if repos.len() == 0 {
        r.push("no repos registered — use \"punchclock add <path>\" to add one".to_owned());
        assert(views(r@) =~= repo_lines(t));
        return r;
    }
    let a = pad_right("name", 30);
    let b = pad_right("enabled", 8);
    let h = concat3(a.as_str(), "  ", b.as_str());
    r.push(concat(h.as_str(), "  path"));
    r.push(dash_line(80));
    let ghost head = views(r@);
    let mut k: usize = 0;
    while k < repos.len()
        invariant
            k <= t.len(),
            t == repos@,
            views(r@) == head + Seq::new(k as nat, |i: int| repo_row(t[i])),
        decreases t.len() - k,
    {
        let (name, entry) = repos.at(k);
        let p = pad_right(name.as_str(), 30);
        let q = pad_right(if entry.enabled { "yes" } else { "no" }, 8);
        let l1 = concat3(p.as_str(), "  ", q.as_str());
        let line = concat3(l1.as_str(), "  ", entry.path.as_str());
        assert(line@ =~= repo_row(t[k as int]));
        let ghost before = views(r@);
        let ghost lv = line@;
        r.push(line);
        assert(views(r@) =~= before.push(lv));
        assert(Seq::new((k + 1) as nat, |i: int| repo_row(t[i])) =~= Seq::new(k as nat, |i: int| repo_row(t[i])).push(lv));
        assert(views(r@) =~= head + Seq::new((k + 1) as nat, |i: int| repo_row(t[i])));
        k = k + 1;
    }
    assert(views(r@) =~= repo_lines(t));
    r
}

} // verus!
