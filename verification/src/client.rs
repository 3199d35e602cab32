//! What the command-line client and its daemon decide, apart from their I/O.
use vstd::prelude::*;
use vstd::string::StringSliceAdditionalSpecFns;
use crate::ids::is_hyphenated_uuid;
use crate::protocol::{TeamResponse, AgentSummary, AgentSummaryV};
use crate::text::{
    chars_of, concat, concat3, decimal, decimal_string, is_white_space, lemma_lex_refl, string_from_range,
    str_eq, trim, trimmed,
};

verus! {

/// The server a client talks to when nothing else says otherwise.
pub open spec fn default_server_text() -> Seq<char> {
    "http://localhost:8421"@
}

/// `http://localhost:8421`.
pub fn default_server() -> (r: String)
    ensures
        r@ == default_server_text(),
{
    "http://localhost:8421".to_owned()
}

/// Repositories are enabled unless said otherwise.
pub fn default_true() -> (r: bool)
    ensures
        r,
{
    true
}

/// The settings of one repository's agent (`.punchclock`).
#[derive(Debug, Clone)]
pub struct AgentConfig {
    pub agent_id: Option<String>,
    pub name: String,
    pub description: String,
    pub server: String,
    pub claude_flags: String,
}

/// The client's global settings.
#[derive(Debug, Clone)]
pub struct GlobalConfig {
    pub server: String,
}

/// A repository managed by the multi-repository daemon.
#[derive(Debug, Clone)]
pub struct RepoEntry {
    pub path: String,
    pub description: String,
    pub enabled: bool,
    pub claude_flags: String,
}

/// The abstract content of a `RepoEntry`.
pub struct RepoV {
    pub path: Seq<char>,
    pub description: Seq<char>,
    pub enabled: bool,
    pub claude_flags: Seq<char>,
}

impl View for RepoEntry {
    type V = RepoV;

    open spec fn view(&self) -> RepoV {
        RepoV {
            path: self.path@,
            description: self.description@,
            enabled: self.enabled,
            claude_flags: self.claude_flags@,
        }
    }
}

impl AgentConfig {
    /// The configuration of the current repository, when there is a repository
    /// (`Some`) and its configuration could be read (`Ok`); `None` otherwise.
    pub fn load_optional(loaded: Option<Result<AgentConfig, String>>) -> (r: Option<AgentConfig>)
        ensures
            r == match loaded {
                Some(Ok(c)) => Some(c),
                _ => None,
            },
    {
        match loaded {
            Some(Ok(c)) => Some(c),
            _ => None,
        }
    }
}

/// The identifier a command acts for: the one given, else the one in the
/// repository's configuration.
pub fn resolve_id(provided: Option<String>, local: &Option<AgentConfig>) -> (r: Option<String>)
    ensures
        r == match provided {
            Some(p) => Some(p),
            None => match local {
                Some(c) => c.agent_id,
                None => None,
            },
        },
{
    match provided {
        Some(p) => Some(p),
        None => match local {
            Some(c) => match &c.agent_id {
                Some(id) => Some(id.clone()),
                None => None,
            },
            None => None,
        },
    }
}

// ── identifiers and names ───────────────────────────────────────────────────

/// How many times `c` occurs in `s`.
pub open spec fn count_char(s: Seq<char>, c: char) -> nat
    decreases s.len(),
{
    if s.len() == 0 {
        0
    } else {
        count_char(s.drop_last(), c) + if s.last() == c { 1nat } else { 0 }
    }
}

/// The test by which the client takes an argument for an agent identifier rather
/// than a name: 36 bytes holding exactly four `-`.
pub open spec fn looks_like_id(s: &str) -> bool {
    s.spec_bytes().len() == 36 && count_char(s@, '-') == 4
}

/// The number of bytes `c` takes in UTF-8.
fn utf8_width(c: char) -> (w: usize)
    ensures
        w == vstd::utf8::encode_scalar(c as u32).len(),
{
    let v = c as u32;
    proof { vstd::utf8::char_is_scalar(c); }
    if v <= 0x7f {
        1
    } else if v <= 0x7ff {
        2
    } else if v <= 0xffff {
        3
    } else {
        4
    }
}

pub fn looks_like_agent_id(s: &str) -> (r: bool)
    ensures
        r == looks_like_id(s),
{
    let cs = chars_of(s);
    // the UTF-8 length of the characters from `i` on, counted from the back and
    // capped once it passes 36
    let mut bytes: usize = 0;
    let mut i: usize = cs.len();
    assert(s@.skip(i as int) =~= Seq::<char>::empty());
    while i > 0 && bytes <= 36
        invariant
            i <= cs@.len(),
            cs@ == s@,
            bytes == vstd::utf8::encode_utf8(s@.skip(i as int)).len(),
            bytes <= 40,
        decreases i,
    {
        let w = utf8_width(cs[i - 1]);
        assert(s@.skip(i - 1).drop_first() =~= s@.skip(i as int));
        assert(s@.skip(i - 1)[0] == cs@[i - 1]);
        bytes = bytes + w;
        i = i - 1;
    }
    proof {
        // the bytes of the whole string are at least those of its tail
        lemma_utf8_len_suffix(s@, i as int);
        assert(s@.skip(0) =~= s@);
    }
    if i > 0 {
        assert(vstd::utf8::encode_utf8(s@).len() > 36);
        return false;
    }
    assert(vstd::utf8::encode_utf8(s@).len() == bytes);
    if bytes != 36 {
        return false;
    }
    let mut n: usize = 0;
    let mut k: usize = 0;
    while k < cs.len()
        invariant
            k <= cs@.len(),
            cs@ == s@,
            n == count_char(s@.take(k as int), '-'),
            n <= k,
        decreases cs@.len() - k,
    {
        assert(s@.take(k + 1).drop_last() =~= s@.take(k as int));
        if cs[k] == '-' {
            n = n + 1;
        }
        k = k + 1;
    }
    assert(s@.take(k as int) =~= s@);
    n == 4
}

/// A sequence takes at least as many UTF-8 bytes as any of its tails, and more
/// when the tail is shorter.
proof fn lemma_utf8_len_suffix(s: Seq<char>, i: int)
    requires
        0 <= i <= s.len(),
    ensures
        vstd::utf8::encode_utf8(s.skip(i)).len() + i <= vstd::utf8::encode_utf8(s).len(),
    decreases i,
{
    if i > 0 {
        lemma_utf8_len_suffix(s, i - 1);
        assert(s.skip(i - 1).drop_first() =~= s.skip(i));
        assert(s.skip(i - 1)[0] == s[i - 1]);
        assert(vstd::utf8::encode_scalar(s[i - 1] as u32).len() >= 1);
    } else {
        assert(s.skip(0) =~= s);
    }
}

/// The identifier of the first agent of the roster named `name`.
pub open spec fn id_of_name(team: Seq<AgentSummaryV>, name: Seq<char>) -> Option<Seq<char>> {
    if exists|i: int| 0 <= i < team.len() && (#[trigger] team[i]).name == name {
        let i = choose|i: int|
            0 <= i < team.len() && (#[trigger] team[i]).name == name && forall|j: int| 0 <= j < i ==> team[j].name != name;
        Some(team[i].id)
    } else {
        None
    }
}

/// Finds an agent of the roster by name.
pub fn find_by_name(team: &TeamResponse, name: &String) -> (r: Option<String>)
    ensures
        crate::protocol::opt_view(r) == id_of_name(team.agents@.map_values(|a: AgentSummary| a@), name@),
{
    let ghost t = team.agents@.map_values(|a: AgentSummary| a@);
    let mut i: usize = 0;
    while i < team.agents.len()
        invariant
            i <= team.agents@.len(),
            t == team.agents@.map_values(|a: AgentSummary| a@),
            forall|j: int| 0 <= j < i ==> t[j].name != name@,
        decreases team.agents@.len() - i,
    {
        if team.agents[i].name == *name {
            assert(t[i as int].name == name@);
            proof {
                let k = choose|k: int|
                    0 <= k < t.len() && (#[trigger] t[k]).name == name@ && forall|j: int| 0 <= j < k ==> t[j].name != name@;
                assert(k == i) by {
                    if k < i { }
                    if k > i { assert(t[i as int].name == name@); }
                }
            }
            return Some(team.agents[i].id.clone());
        }
        i = i + 1;
    }
    None
}

// ── the repository name from its remote ────────────────────────────────────

/// `s` with every trailing copy of `suffix` removed (`str::trim_end_matches`).
pub open spec fn strip_suffixes(s: Seq<char>, suffix: Seq<char>) -> Seq<char>
    decreases s.len(),
{
    if suffix.len() > 0 && s.len() >= suffix.len() && s.skip(s.len() - suffix.len()) == suffix {
        strip_suffixes(s.take(s.len() - suffix.len()), suffix)
    } else {
        s
    }
}

/// The text after the last `c` of `s` (all of `s` when there is none).
pub open spec fn after_last(s: Seq<char>, c: char) -> Seq<char>
    decreases s.len(),
{
    if s.len() == 0 {
        s
    } else if s.last() == c {
        Seq::empty()
    } else {
        after_last(s.drop_last(), c).push(s.last())
    }
}

/// The name of a repository from the output of `git remote get-url origin`: the
/// last path segment of the trimmed URL without trailing `.git`; `None` when the
/// URL or that segment is empty.
pub open spec fn repo_name_of(output: Seq<char>) -> Option<Seq<char>> {
    let url = trim(output);
    let part = after_last(strip_suffixes(url, ".git"@), '/');
    if url.len() == 0 || part.len() == 0 {
        None
    } else {
        Some(part)
    }
}

/// The end of `cs` once every trailing copy of `suffix` is removed.
fn strip_suffixes_end(cs: &Vec<char>, suffix: &Vec<char>) -> (end: usize)
    requires
        suffix@.len() > 0,
    ensures
        end <= cs@.len(),
        strip_suffixes(cs@, suffix@) == cs@.take(end as int),
{
    let n = suffix.len();
    let mut end: usize = cs.len();
    assert(cs@.take(end as int) =~= cs@);
    loop
        invariant
            end <= cs@.len(),
            n == suffix@.len(),
            n > 0,
            strip_suffixes(cs@, suffix@) == strip_suffixes(cs@.take(end as int), suffix@),
        decreases end,
    {
        let ghost t = cs@.take(end as int);
        if end < n {
            assert(strip_suffixes(t, suffix@) == t);
            return end;
        }
        let mut k: usize = 0;
        let mut same = true;
        while k < n
            invariant
                k <= n,
                n == suffix@.len(),
                n <= end <= cs@.len(),
                t == cs@.take(end as int),
                same == forall|m: int| 0 <= m < k ==> cs@[end - n + m] == suffix@[m],
            decreases n - k,
        {
            if cs[end - n + k] != suffix[k] {
                same = false;
            }
            k = k + 1;
        }
        if same {
            assert(t.skip(t.len() - n) =~= suffix@);
            assert(t.take(t.len() - n) =~= cs@.take(end - n));
            end = end - n;
        } else {
            proof {
                if t.skip(t.len() - n) == suffix@ {
                    let m = choose|m: int| 0 <= m < n && cs@[end - n + m] != suffix@[m];
                    assert(t.skip(t.len() - n)[m] == cs@[end - n + m]);
                }
            }
            return end;
        }
    }
}

/// Where the text after the last `c` of `cs[..end]` starts.
fn after_last_start(cs: &Vec<char>, end: usize, c: char) -> (start: usize)
    requires
        end <= cs@.len(),
    ensures
        start <= end,
        after_last(cs@.take(end as int), c) == cs@.subrange(start as int, end as int),
{
    let ghost t = cs@.take(end as int);
    let mut start: usize = end;
    assert(t.take(start as int) =~= t);
    assert(after_last(t, c) =~= after_last(t.take(start as int), c) + t.subrange(start as int, end as int));
    while start > 0 && cs[start - 1] != c
        invariant
            start <= end <= cs@.len(),
            t == cs@.take(end as int),
            after_last(t, c) == after_last(t.take(start as int), c) + t.subrange(start as int, end as int),
        decreases start,
    {
        let ghost p = t.take(start as int);
        assert(p.drop_last() =~= t.take(start - 1));
        assert(p.last() == cs@[start - 1]);
        assert(t.subrange(start - 1, end as int) =~= seq![p.last()] + t.subrange(start as int, end as int));
        start = start - 1;
    }
    proof {
        let p = t.take(start as int);
        assert(after_last(p, c) =~= Seq::<char>::empty());
    }
    assert(t.subrange(start as int, end as int) =~= cs@.subrange(start as int, end as int));
    start
}

pub fn repo_name_from_remote(output: &str) -> (r: Option<String>)
    ensures
        crate::protocol::opt_view(r) == repo_name_of(output@),
{
    let url = trimmed(output);
    let cs = chars_of(url.as_str());
    if cs.len() == 0 {
        return None;
    }
    let suffix = chars_of(".git");
    proof {
        reveal_strlit(".git");
        assert(".git"@.len() == 4);
    }
    let end = strip_suffixes_end(&cs, &suffix);
    let start = after_last_start(&cs, end, '/');
    if start == end {
        return None;
    }
    Some(string_from_range(&cs, start, end))
}

// ── the server address ──────────────────────────────────────────────────────

/// The value of a decimal digit string.
pub open spec fn digits_value(s: Seq<char>) -> nat
    decreases s.len(),
{
    if s.len() == 0 {
        0
    } else {
        (digits_value(s.drop_last()) * 10 + (s.last() as int - '0' as int)) as nat
    }
}

pub open spec fn all_digits(s: Seq<char>) -> bool {
    forall|i: int| 0 <= i < s.len() ==> '0' <= #[trigger] s[i] && s[i] <= '9'
}

/// What `str::parse::<u16>` gives: an optional `+`, then at least one decimal
/// digit, with a value of at most 65535.
pub open spec fn parse_u16(s: Seq<char>) -> Option<u16> {
    let d = if s.len() > 0 && s[0] == '+' { s.drop_first() } else { s };
    if d.len() > 0 && all_digits(d) && digits_value(d) <= 65535 {
        Some(digits_value(d) as u16)
    } else {
        None
    }
}

/// The port a server binds: the number after the last `:` of its base URL
/// (trailing `/` removed), 8421 when that is not a port number.
pub open spec fn bind_port_of(base: Seq<char>) -> u16 {
    match parse_u16(after_last(strip_suffixes(base, "/"@), ':')) {
        Some(p) => p,
        None => 8421,
    }
}

proof fn lemma_digits_prefix(s: Seq<char>, i: int)
    requires
        0 <= i < s.len(),
        all_digits(s),
    ensures
        digits_value(s.take(i + 1)) == digits_value(s.take(i)) * 10 + (s[i] as int - '0' as int),
{
    assert(s.take(i + 1).drop_last() =~= s.take(i));
}

proof fn lemma_digits_grow(s: Seq<char>, i: int)
    requires
        0 <= i <= s.len(),
        all_digits(s),
    ensures
        digits_value(s.take(i)) <= digits_value(s),
    decreases s.len() - i,
{
    if i < s.len() {
        lemma_digits_prefix(s, i);
        lemma_digits_grow(s, i + 1);
    } else {
        assert(s.take(i) =~= s);
    }
}

/// The port a server with base URL `base` binds.
pub fn bind_port(base: &str) -> (r: u16)
    ensures
        r == bind_port_of(base@),
{
    let cs = chars_of(base);
    let slash = chars_of("/");
    proof {
        reveal_strlit("/");
        assert("/"@.len() == 1);
    }
    let end = strip_suffixes_end(&cs, &slash);
    let start = after_last_start(&cs, end, ':');
    let ghost part = cs@.subrange(start as int, end as int);
    assert(after_last(strip_suffixes(base@, "/"@), ':') == part);
    // an optional '+'
    let mut i = start;
    if i < end && cs[i] == '+' {
        i = i + 1;
    }
    let ghost d = cs@.subrange(i as int, end as int);
    assert(d =~= if part.len() > 0 && part[0] == '+' { part.drop_first() } else { part });
    assert(bind_port_of(base@) == (if d.len() > 0 && all_digits(d) && digits_value(d) <= 65535 { digits_value(d) as u16 } else { 8421u16 }));
    if i == end {
        assert(d.len() == 0);
        return 8421;
    }
    let mut v: u32 = 0;
    let mut k: usize = i;
    assert(d.take(0) =~= Seq::<char>::empty());
    while k < end
        invariant
            i <= k <= end <= cs@.len(),
            i < end,
            d == cs@.subrange(i as int, end as int),
            bind_port_of(base@) == (if d.len() > 0 && all_digits(d) && digits_value(d) <= 65535 { digits_value(d) as u16 } else { 8421u16 }),
            v <= 65535,
            all_digits(d.take(k - i)),
            v == digits_value(d.take(k - i)),
        decreases end - k,
    {
        let c = cs[k];
        assert(d[k - i] == c);
        if c < '0' || c > '9' {
            assert(!all_digits(d));
            return 8421;
        }
        let dv = (c as u32) - ('0' as u32);
        proof {
            assert(d.take(k + 1 - i).drop_last() =~= d.take(k - i));
            assert(all_digits(d.take(k + 1 - i)));
        }
        if v > 6553 || (v == 6553 && dv > 5) {
            proof {
                assert(digits_value(d.take(k + 1 - i)) > 65535);
                if all_digits(d) {
                    lemma_digits_grow(d, k + 1 - i);
                }
            }
            return 8421;
        }
        v = v * 10 + dv;
        k = k + 1;
    }
    assert(d.take(k - i) =~= d);
    v as u16
}



// ── the daemon's PID file ───────────────────────────────────────────────────

/// What `str::parse::<u32>` gives: an optional `+`, then at least one decimal
/// digit, with a value below 2^32.
pub open spec fn parse_u32(s: Seq<char>) -> Option<u32> {
    let d = if s.len() > 0 && s[0] == '+' { s.drop_first() } else { s };
    if d.len() > 0 && all_digits(d) && digits_value(d) <= u32::MAX {
        Some(digits_value(d) as u32)
    } else {
        None
    }
}

/// The PID a PID file holds: its trimmed text read as a `u32`; `None` when the
/// file is corrupt.
pub fn parse_pid(text: &str) -> (r: Option<u32>)
    ensures
        r == parse_u32(trim(text@)),
{
    let t = trimmed(text);
    let cs = chars_of(t.as_str());
    let ghost s = cs@;
    let mut i: usize = 0;
    if i < cs.len() && cs[i] == '+' {
        i = 1;
    }
    let ghost d = cs@.skip(i as int);
    assert(d =~= if s.len() > 0 && s[0] == '+' { s.drop_first() } else { s });
    if i == cs.len() {
        assert(d.len() == 0);
        return None;
    }
    let mut v: u64 = 0;
    let mut k: usize = i;
    assert(d.take(0) =~= Seq::<char>::empty());
    while k < cs.len()
        invariant
            i <= k <= cs@.len(),
            i < cs@.len(),
            s == cs@,
            s == trim(text@),
            d == cs@.skip(i as int),
            d =~= if s.len() > 0 && s[0] == '+' { s.drop_first() } else { s },
            v <= u32::MAX,
            all_digits(d.take(k - i)),
            v == digits_value(d.take(k - i)),
        decreases cs@.len() - k,
    {
        let c = cs[k];
        assert(d[k - i] == c);
        if c < '0' || c > '9' {
            assert(!all_digits(d));
            return None;
        }
        let dv = (c as u64) - ('0' as u64);
        proof {
            assert(d.take(k + 1 - i).drop_last() =~= d.take(k - i));
            assert(all_digits(d.take(k + 1 - i)));
        }
        v = v * 10 + dv;
        if v > 0xffff_ffff {
            proof {
                assert(digits_value(d.take(k + 1 - i)) > u32::MAX);
                if all_digits(d) {
                    lemma_digits_grow(d, k + 1 - i);
                }
            }
            return None;
        }
        k = k + 1;
    }
    assert(d.take(k - i) =~= d);
    Some(v as u32)
}

/// The message for a signal sent to the daemon `pid`: delivered, or the process
/// was already gone and its PID file is cleaned up.
pub fn signal_message(pid: u32, delivered: bool) -> (r: String)
    ensures
        r@ == if delivered {
            "sent SIGTERM to PID "@ + decimal(pid as nat)
        } else {
            "daemon was not running (stale PID "@ + decimal(pid as nat) + ") — cleaned up"@
        },
{
    let n = decimal_string(pid as usize);
    if delivered {
        concat("sent SIGTERM to PID ", n.as_str())
    } else {
        concat3("daemon was not running (stale PID ", n.as_str(), ") — cleaned up")
    }
}

/// Why a daemon may not be started: one is already running. A dead daemon's PID
/// file is stale and does not stand in the way.
pub fn start_refusal(daemon: DaemonProbe) -> (r: Option<String>)
    ensures
        crate::protocol::opt_view(r) == match daemon {
            DaemonProbe::Alive(pid) => Some(
                "daemon already running (PID "@ + decimal(pid as nat) + ") — use `punchclock agent stop` first"@,
            ),
            _ => None::<Seq<char>>,
        },
{
    match daemon {
        DaemonProbe::Alive(pid) => {
            let n = decimal_string(pid as usize);
            Some(concat3("daemon already running (PID ", n.as_str(), ") — use `punchclock agent stop` first"))
        },
        _ => None,
    }
}

/// The base URL of a server: its address without trailing `/`.
pub fn base_url(server: &str) -> (r: String)
    ensures
        r@ == strip_suffixes(server@, "/"@),
{
    let cs = chars_of(server);
    let slash = chars_of("/");
    proof {
        reveal_strlit("/");
        assert("/"@.len() == 1);
    }
    let end = strip_suffixes_end(&cs, &slash);
    string_from_range(&cs, 0, end)
}

// ── the agent's status line ─────────────────────────────────────────────────

/// What is known of the background daemon of a repository: no PID file, a PID
/// file whose process is gone, or a live process.
#[derive(Debug, Clone, Copy, PartialEq, Eq, Structural)]
pub enum DaemonProbe {
    NotRunning,
    Dead,
    Alive(u32),
}

/// The index of the first agent of the roster with identifier `id`.
pub open spec fn first_with_id(team: Seq<AgentSummaryV>, id: Seq<char>) -> Option<int> {
    if exists|i: int| 0 <= i < team.len() && (#[trigger] team[i]).id == id {
        Some(choose|i: int|
            0 <= i < team.len() && (#[trigger] team[i]).id == id && forall|j: int| 0 <= j < i ==> team[j].id != id)
    } else {
        None
    }
}

/// The line `agent status` prints: whether the repository's agent is registered
/// and on the roster, and what became of its daemon.
pub open spec fn status_line_of(agent_id: Option<Seq<char>>, team: Seq<AgentSummaryV>, daemon: DaemonProbe) -> Seq<char> {
    match agent_id {
        None => "NOT REGISTERED — run `punchclock agent run` to register"@,
        Some(id) => match first_with_id(team, id) {
            Some(i) => "ONLINE   "@ + team[i].id + "  "@ + team[i].name + "  ("@ + match daemon {
                DaemonProbe::Alive(pid) => "daemon PID "@ + decimal(pid as nat),
                DaemonProbe::Dead => "daemon dead (stale PID file)"@,
                DaemonProbe::NotRunning => "daemon not running"@,
            } + ")"@,
            None => "OFFLINE  "@ + id + "  ("@ + match daemon {
                DaemonProbe::Alive(pid) => "daemon PID "@ + decimal(pid as nat) + " running but agent not on team (server restarted?)"@,
                DaemonProbe::Dead => "daemon dead (stale PID file)"@,
                DaemonProbe::NotRunning => "daemon not running — use `punchclock agent start`"@,
            } + ")"@,
        },
    }
}

/// Finds the first agent of the roster with identifier `id`.
pub fn find_by_id(team: &TeamResponse, id: &String) -> (r: Option<usize>)
    ensures
        match r {
            Some(i) => i < team.agents@.len()
                && first_with_id(team.agents@.map_values(|a: AgentSummary| a@), id@) == Some(i as int),
            None => first_with_id(team.agents@.map_values(|a: AgentSummary| a@), id@) is None,
        },
{
    let ghost t = team.agents@.map_values(|a: AgentSummary| a@);
    let mut i: usize = 0;
    while i < team.agents.len()
        invariant
            i <= team.agents@.len(),
            t == team.agents@.map_values(|a: AgentSummary| a@),
            forall|j: int| 0 <= j < i ==> t[j].id != id@,
        decreases team.agents@.len() - i,
    {
        if team.agents[i].id == *id {
            assert(t[i as int].id == id@);
            proof {
                let k = choose|k: int|
                    0 <= k < t.len() && (#[trigger] t[k]).id == id@ && forall|j: int| 0 <= j < k ==> t[j].id != id@;
                assert(k == i) by {
                    if k < i { }
                    if k > i { assert(t[i as int].id == id@); }
                }
            }
            return Some(i);
        }
        i = i + 1;
    }
    None
}

/// The status line for the repository's agent.
pub fn status_line(agent_id: &Option<String>, team: &TeamResponse, daemon: DaemonProbe) -> (r: String)
    ensures
        r@ == status_line_of(
            crate::protocol::opt_view(*agent_id),
            team.agents@.map_values(|a: AgentSummary| a@),
            daemon,
        ),
{
    let ghost t = team.agents@.map_values(|a: AgentSummary| a@);
    match agent_id {
        None => "NOT REGISTERED — run `punchclock agent run` to register".to_owned(),
        Some(id) => match find_by_id(team, id) {
            Some(i) => {
                let a = &team.agents[i];
                assert(t[i as int] == a@);
                let d = match daemon {
                    DaemonProbe::Alive(pid) => concat("daemon PID ", decimal_string(pid as usize).as_str()),
                    DaemonProbe::Dead => "daemon dead (stale PID file)".to_owned(),
                    DaemonProbe::NotRunning => "daemon not running".to_owned(),
                };
                let head = concat3("ONLINE   ", a.id.as_str(), "  ");
                let mid = concat3(head.as_str(), a.name.as_str(), "  (");
                let r = concat3(mid.as_str(), d.as_str(), ")");
                assert(r@ =~= status_line_of(crate::protocol::opt_view(*agent_id), t, daemon));
                r
            },
            None => {
                let d = match daemon {
                    DaemonProbe::Alive(pid) => concat3(
                        "daemon PID ",
                        decimal_string(pid as usize).as_str(),
                        " running but agent not on team (server restarted?)",
                    ),
                    DaemonProbe::Dead => "daemon dead (stale PID file)".to_owned(),
                    DaemonProbe::NotRunning => "daemon not running — use `punchclock agent start`".to_owned(),
                };
                let head = concat3("OFFLINE  ", id.as_str(), "  (");
                let r = concat3(head.as_str(), d.as_str(), ")");
                assert(r@ =~= status_line_of(crate::protocol::opt_view(*agent_id), t, daemon));
                r
            },
        },
    }
}

} // verus!
