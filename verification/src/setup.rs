//! What `agent init` computes: template defaults, the configuration built from the
//! answers, and the `.gitignore` entry.
use vstd::prelude::*;
use crate::client::{AgentConfig, default_server, default_server_text};
use crate::text::{chars_of, concat3, replace, replace_all, str_eq, string_from_range, trim, trimmed};

verus! {

/// The placeholder `{{key}}`.
pub open spec fn placeholder(key: Seq<char>) -> Seq<char> {
    seq!['{', '{'] + key + seq!['}', '}']
}

/// `s` with the placeholder of each variable replaced by its value, the variables
/// taken in order.
pub open spec fn interpolated(s: Seq<char>, vars: Seq<(Seq<char>, Seq<char>)>) -> Seq<char>
    decreases vars.len(),
{
    if vars.len() == 0 {
        s
    } else {
        replace_all(interpolated(s, vars.drop_last()), placeholder(vars.last().0), vars.last().1)
    }
}

pub open spec fn vars_view(vars: Seq<(&str, &str)>) -> Seq<(Seq<char>, Seq<char>)> {
    vars.map_values(|p: (&str, &str)| (p.0@, p.1@))
}

/// Fills the `{{key}}` placeholders of a template text.
pub fn interpolate(s: &str, vars: &[(&str, &str)]) -> (r: String)
    ensures
        r@ == interpolated(s@, vars_view(vars@)),
{
    let mut out = s.to_owned();
    let mut i: usize = 0;
    proof {
        reveal_strlit("{{");
        reveal_strlit("}}");
    }
    assert(vars_view(vars@).take(0) =~= Seq::<(Seq<char>, Seq<char>)>::empty());
    while i < vars.len()
        invariant
            i <= vars@.len(),
            out@ == interpolated(s@, vars_view(vars@).take(i as int)),
        decreases vars@.len() - i,
    {
        proof {
            reveal_strlit("{{");
            reveal_strlit("}}");
        }
        let (k, v) = vars[i];
        let key = concat3("{{", k, "}}");
        assert(key@ =~= placeholder(k@));
        let next = replace(out.as_str(), key.as_str(), v);
        let ghost vv = vars_view(vars@);
        assert(vv.take(i + 1).drop_last() =~= vv.take(i as int));
        assert(vv.take(i + 1).last() == (k@, v@));
        out = next;
        i = i + 1;
    }
    assert(vars_view(vars@).take(i as int) =~= vars_view(vars@));
    out
}

/// The answer last given for `key`, if any.
pub open spec fn answer(answers: Seq<(Seq<char>, Seq<char>)>, key: Seq<char>) -> Option<Seq<char>>
    decreases answers.len(),
{
    if answers.len() == 0 {
        None
    } else if answers.last().0 == key {
        Some(answers.last().1)
    } else {
        answer(answers.drop_last(), key)
    }
}

pub open spec fn answers_view(answers: Seq<(String, String)>) -> Seq<(Seq<char>, Seq<char>)> {
    answers.map_values(|p: (String, String)| (p.0@, p.1@))
}

fn find_answer(answers: &Vec<(String, String)>, key: &str) -> (r: Option<String>)
    ensures
        crate::protocol::opt_view(r) == answer(answers_view(answers@), key@),
{
    let ghost av = answers_view(answers@);
    let mut i: usize = answers.len();
    assert(av.take(i as int) =~= av);
    while i > 0
        invariant
            i <= answers@.len(),
            av == answers_view(answers@),
            answer(av, key@) == answer(av.take(i as int), key@),
        decreases i,
    {
        let ghost t = av.take(i as int);
        assert(t.last() == (answers@[i - 1].0@, answers@[i - 1].1@));
        if str_eq(answers[i - 1].0.as_str(), key) {
            return Some(answers[i - 1].1.clone());
        }
        assert(t.drop_last() =~= av.take(i - 1));
        i = i - 1;
    }
    None
}

/// The configuration that the answers to `agent init` give: the answers for
/// `agent_name`, `description`, `server` and `claude_flags` (the last answer for
/// a key counting), defaulting to the repository name, empty, the default server
/// and empty.
pub open spec fn config_from(answers: Seq<(Seq<char>, Seq<char>)>, repo_name: Seq<char>) -> (Seq<char>, Seq<char>, Seq<char>, Seq<char>) {
    (
        match answer(answers, "agent_name"@) { Some(v) => v, None => repo_name },
        match answer(answers, "description"@) { Some(v) => v, None => Seq::empty() },
        match answer(answers, "server"@) { Some(v) => v, None => default_server_text() },
        match answer(answers, "claude_flags"@) { Some(v) => v, None => Seq::empty() },
    )
}

pub fn config_from_answers(answers: &Vec<(String, String)>, repo_name: String) -> (c: AgentConfig)
    ensures
        c.agent_id is None,
        (c.name@, c.description@, c.server@, c.claude_flags@) == config_from(answers_view(answers@), repo_name@),
{
    let name = match find_answer(answers, "agent_name") { Some(v) => v, None => repo_name };
    let description = match find_answer(answers, "description") { Some(v) => v, None => String::new() };
    let server = match find_answer(answers, "server") { Some(v) => v, None => default_server() };
    let claude_flags = match find_answer(answers, "claude_flags") { Some(v) => v, None => String::new() };
    AgentConfig { agent_id: None, name, description, server, claude_flags }
}

/// `s[a..b]` is one line of `s`.
pub open spec fn is_line(s: Seq<char>, a: int, b: int) -> bool {
    &&& 0 <= a <= b <= s.len()
    &&& (a == 0 || s[a - 1] == '\n')
    &&& (b == s.len() || s[b] == '\n')
    &&& forall|k: int| a <= k < b ==> s[k] != '\n'
}

/// Whether some line of `s`, trimmed, reads `entry`.
pub open spec fn has_line(s: Seq<char>, entry: Seq<char>) -> bool {
    exists|a: int, b: int| #[trigger] is_line(s, a, b) && trim(s.subrange(a, b)) == entry
}

/// The `.gitignore` text with `.punchclock` added on a line of its own, or `None`
/// when a line already reads `.punchclock`.
pub open spec fn gitignore_update(existing: Seq<char>) -> Option<Seq<char>> {
    if has_line(existing, ".punchclock"@) {
        None
    } else if existing.len() > 0 && existing.last() != '\n' {
        Some(existing + "\n"@ + ".punchclock\n"@)
    } else {
        Some(existing + ".punchclock\n"@)
    }
}

pub fn gitignore_with_entry(existing: &str) -> (r: Option<String>)
    ensures
        crate::protocol::opt_view(r) == gitignore_update(existing@),
{
    let cs = chars_of(existing);
    let ghost s = existing@;
    let mut start: usize = 0;
    loop
        invariant
            cs@ == s,
            s == existing@,
            start <= cs@.len(),
            start == 0 || s[start - 1] == '\n',
            forall|a: int, b: int| #[trigger] is_line(s, a, b) && a < start ==> trim(s.subrange(a, b)) != ".punchclock"@,
        ensures
            !has_line(s, ".punchclock"@),
        decreases cs@.len() - start,
    {
        let mut end = start;
        while end < cs.len() && cs[end] != '\n'
            invariant
                start <= end <= cs@.len(),
                cs@ == s,
                forall|k: int| start <= k < end ==> s[k] != '\n',
            decreases cs@.len() - end,
        {
            end = end + 1;
        }
        assert(is_line(s, start as int, end as int));
        let line = string_from_range(&cs, start, end);
        let t = trimmed(line.as_str());
        if str_eq(t.as_str(), ".punchclock") {
            assert(has_line(s, ".punchclock"@));
            return None;
        }
        assert forall|a: int, b: int| #[trigger] is_line(s, a, b) && a < end + 1 implies trim(s.subrange(a, b)) != ".punchclock"@ by {
            if a >= start {
                if a > start {
                    assert(s[a - 1] == '\n');
                }
                assert(a == start);
                if b < end { assert(s[b] == '\n'); }
                if b > end { assert(s[end as int] == '\n'); }
            }
        }
        if end == cs.len() {
            assert(!has_line(s, ".punchclock"@)) by {
                if has_line(s, ".punchclock"@) {
                    let (a, b) = choose|a: int, b: int| #[trigger] is_line(s, a, b) && trim(s.subrange(a, b)) == ".punchclock"@;
                    assert(a <= s.len());
                }
            }
            break;
        }
        start = end + 1;
    }
    let mut out = existing.to_owned();
    if cs.len() > 0 && cs[cs.len() - 1] != '\n' {
        out.append("\n");
    }
    out.append(".punchclock\n");
    Some(out)
}

} // verus!
