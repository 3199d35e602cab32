//! What the agent daemon decides about a task once the assistant program has
//! answered, and the text it writes into task files.
use vstd::prelude::*;
use crate::text::{
    chars_of, concat, concat3, split_words, starts_with, string_from_range, strip_prefix, trim, trimmed, views, words,
};

verus! {

/// How a task ended, read from the assistant's reply.
#[derive(Debug, Clone, Copy, PartialEq, Eq, Structural)]
pub enum TaskOutcome {
    Done,
    Failed,
    Blocked,
}

/// The note the daemon writes in place of a reply when the assistant program
/// `program` ran but exited unsuccessfully: `[<program> exited <status>] <stderr>`.
pub open spec fn exit_note_text(program: Seq<char>, status: Seq<char>, stderr: Seq<char>) -> Seq<char> {
    "["@ + program + " exited "@ + status + "] "@ + stderr
}

/// The note the daemon writes when the assistant program could not be started:
/// `[failed to spawn <program>: <error>]`.
pub open spec fn spawn_note_text(program: Seq<char>, error: Seq<char>) -> Seq<char> {
    "[failed to spawn "@ + program + ": "@ + error + "]"@
}

/// The start of every exit note for `program`.
pub open spec fn exit_marker(program: Seq<char>) -> Seq<char> {
    "["@ + program + " exited"@
}

/// A reply that begins `BLOCKED:` blocks the task; one that begins with the exit
/// marker of `program` or with `[failed` (the daemon's own failure notes) fails it;
/// any other reply completes it.
pub open spec fn outcome_of(reply: Seq<char>, program: Seq<char>) -> TaskOutcome {
    if "BLOCKED:"@.is_prefix_of(reply) {
        TaskOutcome::Blocked
    } else if exit_marker(program).is_prefix_of(reply) || "[failed"@.is_prefix_of(reply) {
        TaskOutcome::Failed
    } else {
        TaskOutcome::Done
    }
}

pub fn exit_note(program: &str, status: &str, stderr: &str) -> (r: String)
    ensures
        r@ == exit_note_text(program@, status@, stderr@),
{
    let a = concat3("[", program, " exited ");
    let b = concat3(status, "] ", stderr);
    let r = concat(a.as_str(), b.as_str());
    assert(r@ =~= exit_note_text(program@, status@, stderr@));
    r
}

pub fn spawn_note(program: &str, error: &str) -> (r: String)
    ensures
        r@ == spawn_note_text(program@, error@),
{
    let a = concat3("[failed to spawn ", program, ": ");
    let r = concat3(a.as_str(), error, "]");
    assert(r@ =~= spawn_note_text(program@, error@));
    r
}

/// Classifies the reply that `program` gave for a task.
pub fn classify_reply(reply: &str, program: &str) -> (r: TaskOutcome)
    ensures
        r == outcome_of(reply@, program@),
{
    let marker = concat3("[", program, " exited");
    if starts_with(reply, "BLOCKED:") {
        TaskOutcome::Blocked
    } else if starts_with(reply, marker.as_str()) || starts_with(reply, "[failed") {
        TaskOutcome::Failed
    } else {
        TaskOutcome::Done
    }
}


/// The arguments the assistant program is run with for a prompt: `-p`, the
/// prompt, then the words of the configured extra flags.
pub fn assistant_args(prompt: &str, flags: &str) -> (r: Vec<String>)
    ensures
        views(r@) == seq!["-p"@, prompt@] + words(flags@),
{
    let mut r: Vec<String> = Vec::new();
    r.push("-p".to_owned());
    r.push(prompt.to_owned());
    let extra = split_words(flags);
    let ghost head = views(r@);
    let mut i: usize = 0;
    while i < extra.len()
        invariant
            i <= extra@.len(),
            head == seq!["-p"@, prompt@],
            views(r@) == head + views(extra@).take(i as int),
        decreases extra@.len() - i,
    {
        let ghost before = views(r@);
        r.push(extra[i].clone());
        assert(views(r@) =~= before.push(extra@[i as int]@));
        assert(views(extra@).take(i + 1) =~= views(extra@).take(i as int).push(extra@[i as int]@));
        i = i + 1;
    }
    assert(views(extra@).take(i as int) =~= views(extra@));
    r
}

/// What the daemon tells the server once a task has run: a blocked task is
/// reported with its reason, any other with its status and the whole reply.
#[derive(Debug)]
pub enum ServerReport {
    Block { reason: String },
    Finish { status: String, result: String },
}

/// The directory under the repository that a task file moves to.
pub open spec fn dest_dir_of(outcome: TaskOutcome) -> Seq<char> {
    match outcome {
        TaskOutcome::Blocked => ".task/blocked"@,
        _ => ".task/done"@,
    }
}

/// The report for a reply that ended as `outcome`.
pub open spec fn report_of(outcome: TaskOutcome, reply: Seq<char>) -> (Seq<char>, Seq<char>, Seq<char>) {
    match outcome {
        TaskOutcome::Blocked => ("block"@, blocked_reason_of(reply), Seq::empty()),
        TaskOutcome::Done => ("finish"@, "done"@, reply),
        TaskOutcome::Failed => ("finish"@, "failed"@, reply),
    }
}

impl ServerReport {
    /// The kind of report and its two texts (`block`, reason, nothing; or
    /// `finish`, status, result).
    pub open spec fn parts(&self) -> (Seq<char>, Seq<char>, Seq<char>) {
        match self {
            ServerReport::Block { reason } => ("block"@, reason@, Seq::empty()),
            ServerReport::Finish { status, result } => ("finish"@, status@, result@),
        }
    }
}

/// The report the daemon sends for `reply`, which ended as `outcome`.
pub fn server_report(outcome: TaskOutcome, reply: &str) -> (r: ServerReport)
    ensures
        r.parts() == report_of(outcome, reply@),
{
    match outcome {
        TaskOutcome::Blocked => ServerReport::Block { reason: blocked_reason(reply) },
        TaskOutcome::Done => ServerReport::Finish { status: "done".to_owned(), result: reply.to_owned() },
        TaskOutcome::Failed => ServerReport::Finish { status: "failed".to_owned(), result: reply.to_owned() },
    }
}


/// Everything the daemon does with a task once the assistant has replied: how it
/// ended, the directory its file moves to, the heading and text appended to the
/// file, and the report to the server.
#[derive(Debug)]
pub struct TaskStep {
    pub outcome: TaskOutcome,
    pub dest_dir: &'static str,
    pub heading: &'static str,
    pub appended: String,
    pub report: ServerReport,
}

/// The text appended under the heading: the trimmed reason for a blocked task,
/// the whole reply otherwise.
pub open spec fn appended_of(outcome: TaskOutcome, reply: Seq<char>) -> Seq<char> {
    match outcome {
        TaskOutcome::Blocked => blocked_reason_of(reply),
        _ => reply,
    }
}

/// The heading the reply goes under for an outcome.
pub open spec fn heading_of(outcome: TaskOutcome) -> Seq<char> {
    match outcome {
        TaskOutcome::Blocked => "Blocked"@,
        _ => "Result"@,
    }
}

/// The step for the reply that `program` gave: a reply starting `BLOCKED:` moves
/// the file to `.task/blocked`, appends the trimmed reason under `Blocked` and
/// reports a block with that reason; any other reply moves it to `.task/done`,
/// appends the whole reply under `Result` and reports it as finished, `failed`
/// for the daemon's own failure notes and `done` otherwise.
pub fn task_step(reply: &str, program: &str) -> (r: TaskStep)
    ensures
        r.outcome == outcome_of(reply@, program@),
        r.dest_dir@ == dest_dir_of(r.outcome),
        r.heading@ == heading_of(r.outcome),
        r.appended@ == appended_of(r.outcome, reply@),
        r.report.parts() == report_of(r.outcome, reply@),
{
    let outcome = classify_reply(reply, program);
    let appended = match outcome {
        TaskOutcome::Blocked => blocked_reason(reply),
        _ => reply.to_owned(),
    };
    TaskStep {
        outcome,
        dest_dir: outcome.dest_dir(),
        heading: outcome.heading(),
        appended,
        report: server_report(outcome, reply),
    }
}


/// Where the first line of `s` ends: the position of its first newline, or its
/// length when there is none.
pub open spec fn line_end(s: Seq<char>) -> nat
    decreases s.len(),
{
    if s.len() == 0 || s[0] == '\n' {
        0
    } else {
        1 + line_end(s.drop_first())
    }
}

/// The title and body of a task file dropped into `.task/todo`: a first line
/// `# <title>` gives the title, and what follows it the body, both trimmed; a
/// file without such a heading is all body, with an empty title.
pub open spec fn task_parts(text: Seq<char>) -> (Seq<char>, Seq<char>) {
    let e = line_end(text) as int;
    if "# "@.is_prefix_of(text) {
        (trim(text.subrange(2, e)), trim(text.skip(e)))
    } else {
        (Seq::empty(), trim(text))
    }
}

/// Reads the title and body of a task file.
pub fn parse_task_file(text: &str) -> (r: (String, String))
    ensures
        (r.0@, r.1@) == task_parts(text@),
{
    let cs = chars_of(text);
    let mut e: usize = 0;
    assert(text@.skip(0) =~= text@);
    while e < cs.len() && cs[e] != '\n'
        invariant
            e <= cs@.len(),
            cs@ == text@,
            line_end(text@) == e + line_end(text@.skip(e as int)),
        decreases cs@.len() - e,
    {
        assert(text@.skip(e as int).drop_first() =~= text@.skip(e + 1));
        e = e + 1;
    }
    assert(line_end(text@) == e);
    if starts_with(text, "# ") {
        proof {
            reveal_strlit("# ");
            assert(text@[1] == ' ');
            assert(text@[0] == '#');
            if e < 2 {
                assert(text@.skip(e as int)[0] == text@[e as int]);
            }
        }
        let head = string_from_range(&cs, 2, e);
        let rest = string_from_range(&cs, e, cs.len());
        assert(rest@ =~= text@.skip(e as int));
        (trimmed(head.as_str()), trimmed(rest.as_str()))
    } else {
        (String::new(), trimmed(text))
    }
}

impl TaskOutcome {
    /// The status reported to the server.
    pub fn status(&self) -> (r: &'static str)
        ensures
            r@ == match *self {
                TaskOutcome::Done => "done"@,
                TaskOutcome::Failed => "failed"@,
                TaskOutcome::Blocked => "blocked"@,
            },
    {
        match self {
            TaskOutcome::Done => "done",
            TaskOutcome::Failed => "failed",
            TaskOutcome::Blocked => "blocked",
        }
    }

    /// The heading under which the reply is appended to the task file.
    pub fn heading(&self) -> (r: &'static str)
        ensures
            r@ == match *self {
                TaskOutcome::Blocked => "Blocked"@,
                _ => "Result"@,
            },
    {
        match self {
            TaskOutcome::Blocked => "Blocked",
            _ => "Result",
        }
    }

    /// The directory the task file moves to.
    pub fn dest_dir(&self) -> (r: &'static str)
        ensures
            r@ == dest_dir_of(*self),
    {
        match self {
            TaskOutcome::Blocked => ".task/blocked",
            _ => ".task/done",
        }
    }

    /// Whether the task file moves to `.task/blocked/` rather than `.task/done/`.
    pub fn is_blocked(&self) -> (r: bool)
        ensures
            r == (*self == TaskOutcome::Blocked),
    {
        match self {
            TaskOutcome::Blocked => true,
            _ => false,
        }
    }
}

/// The reason reported for a blocked task: the reply after `BLOCKED:` (the whole
/// reply when it does not start so), trimmed.
pub open spec fn blocked_reason_of(reply: Seq<char>) -> Seq<char> {
    if "BLOCKED:"@.is_prefix_of(reply) {
        trim(reply.skip("BLOCKED:"@.len() as int))
    } else {
        trim(reply)
    }
}

pub fn blocked_reason(reply: &str) -> (r: String)
    ensures
        r@ == blocked_reason_of(reply@),
{
    match strip_prefix(reply, "BLOCKED:") {
        Some(rest) => trimmed(rest.as_str()),
        None => trimmed(reply),
    }
}

/// The content of a task file: `# <title>`, a blank line, the body.
pub open spec fn task_file_text(title: Seq<char>, body: Seq<char>) -> Seq<char> {
    "# "@ + title + "\n\n"@ + body + "\n"@
}

pub fn task_file_content(title: &str, body: &str) -> (r: String)
    ensures
        r@ == task_file_text(title@, body@),
{
    let head = concat3("# ", title, "\n\n");
    let rest = concat(body, "\n");
    concat(head.as_str(), rest.as_str())
}

/// A task file with a section appended: a blank line, `## <heading>`, a blank
/// line, the text.
pub open spec fn with_section_text(content: Seq<char>, heading: Seq<char>, text: Seq<char>) -> Seq<char> {
    content + "\n## "@ + heading + "\n\n"@ + text + "\n"@
}

pub fn with_section(content: &str, heading: &str, text: &str) -> (r: String)
    ensures
        r@ == with_section_text(content@, heading@, text@),
{
    let a = concat3(content, "\n## ", heading);
    let b = concat3("\n\n", text, "\n");
    let r = concat(a.as_str(), b.as_str());
    assert(r@ =~= with_section_text(content@, heading@, text@));
    r
}

/// The name of a task's file: its identifier with `.md`.
pub fn task_file_name(id: &str) -> (r: String)
    ensures
        r@ == id@ + ".md"@,
{
    concat(id, ".md")
}

} // verus!
