//! The daemon's status display: the events it is told of and the state they build.
use std::collections::VecDeque;
use vstd::prelude::*;
use crate::text::{chars_of, concat, concat3, decimal, decimal_string, str_eq, views};

verus! {

/// Lines of log kept, newest first.
pub const MAX_LOG: usize = 200;

/// What the daemon tells its display.
#[derive(Debug)]
pub enum TuiEvent {
    AgentInfo { name: String, id: String, server: String },
    ServerStatus(bool),
    Triaging { count: usize },
    TaskStart { id: String, title: String },
    SpinnerUpdate(String),
    TaskDone { id: String, status: String, chars: usize },
    TaskSkip { id: String, reason: String },
    TaskBlock { id: String, reason: String },
    MsgRecv { from: String },
    MsgSent { chars: usize },
    Log(String),
    Shutdown,
}

/// What the display shows.
pub struct DaemonState {
    pub agent_name: String,
    pub agent_id: String,
    pub server: String,
    pub online: bool,
    pub current_task_id: String,
    pub current_task_title: String,
    pub spinner_text: String,
    pub log: VecDeque<String>,
    pub spinner_frame: usize,
}

/// The abstract content of a `DaemonState`.
pub struct DaemonV {
    pub agent_name: Seq<char>,
    pub agent_id: Seq<char>,
    pub server: Seq<char>,
    pub online: bool,
    pub current_task_id: Seq<char>,
    pub current_task_title: Seq<char>,
    pub spinner_text: Seq<char>,
    pub log: Seq<Seq<char>>,
    pub spinner_frame: usize,
}

impl View for DaemonState {
    type V = DaemonV;

    open spec fn view(&self) -> DaemonV {
        DaemonV {
            agent_name: self.agent_name@,
            agent_id: self.agent_id@,
            server: self.server@,
            online: self.online,
            current_task_id: self.current_task_id@,
            current_task_title: self.current_task_title@,
            spinner_text: self.spinner_text@,
            log: self.log@.map_values(|s: String| s@),
            spinner_frame: self.spinner_frame,
        }
    }
}

/// The log after a line is added: the line first, older lines after it, at most
/// `MAX_LOG` lines.
pub open spec fn pushed(log: Seq<Seq<char>>, line: Seq<char>) -> Seq<Seq<char>> {
    let l = seq![line] + log;
    if l.len() > MAX_LOG { l.take(MAX_LOG as int) } else { l }
}

pub open spec fn with_line(d: DaemonV, line: Seq<char>) -> DaemonV {
    DaemonV { log: pushed(d.log, line), ..d }
}

/// What an event does to the display.
pub open spec fn applied(d: DaemonV, e: TuiEvent) -> DaemonV {
    match e {
        TuiEvent::AgentInfo { name, id, server } => DaemonV { agent_name: name@, agent_id: id@, server: server@, ..d },
        TuiEvent::ServerStatus(online) => {
            let d1 = DaemonV { online, ..d };
            if online && !d.online {
                with_line(d1, "↑ connected to "@ + d.server)
            } else if !online && d.online {
                with_line(d1, "↓ server unreachable, working offline"@)
            } else {
                d1
            }
        },
        TuiEvent::Triaging { count } => DaemonV {
            spinner_text: "📋 triaging "@ + decimal(count as nat) + " tasks…"@,
            current_task_id: Seq::empty(),
            current_task_title: Seq::empty(),
            ..d
        },
        TuiEvent::TaskStart { id, title } => DaemonV {
            current_task_id: id@,
            current_task_title: title@,
            spinner_text: "starting ["@ + id@ + "]…"@,
            ..with_line(d, "⚙ ["@ + id@ + "] "@ + title@)
        },
        TuiEvent::SpinnerUpdate(text) => DaemonV { spinner_text: text@, ..d },
        TuiEvent::TaskDone { id, status, chars } => {
            let icon = if status@ == "done"@ { "✓"@ } else { "✗"@ };
            let d1 = with_line(d, icon + " ["@ + id@ + "] "@ + status@ + " ("@ + decimal(chars as nat) + " chars)"@);
            if d.current_task_id == id@ {
                DaemonV { current_task_id: Seq::empty(), current_task_title: Seq::empty(), spinner_text: Seq::empty(), ..d1 }
            } else {
                d1
            }
        },
        TuiEvent::TaskSkip { id, reason } => with_line(d, "⊘ ["@ + id@ + "] skipped: "@ + reason@),
        TuiEvent::TaskBlock { id, reason } => with_line(d, "⚡ ["@ + id@ + "] blocked: "@ + reason@),
        TuiEvent::MsgRecv { from } => with_line(d, "← ["@ + from@ + "]"@),
        TuiEvent::MsgSent { chars } => with_line(d, "→ reply ("@ + decimal(chars as nat) + " chars)"@),
        TuiEvent::Log(s) => with_line(d, s@),
        TuiEvent::Shutdown => d,
    }
}

impl Default for DaemonState {
    /// Nothing known yet: empty texts, offline, an empty log.
    fn default() -> (r: Self)
        ensures
            r@.agent_name.len() == 0,
            r@.agent_id.len() == 0,
            r@.server.len() == 0,
            !r@.online,
            r@.current_task_id.len() == 0,
            r@.current_task_title.len() == 0,
            r@.spinner_text.len() == 0,
            r@.log.len() == 0,
            r@.spinner_frame == 0,
    {
        DaemonState {
            agent_name: String::new(),
            agent_id: String::new(),
            server: String::new(),
            online: false,
            current_task_id: String::new(),
            current_task_title: String::new(),
            spinner_text: String::new(),
            log: VecDeque::new(),
            spinner_frame: 0,
        }
    }
}

impl DaemonState {
    /// Adds a line at the front of the log, dropping the oldest lines beyond `MAX_LOG`.
    pub fn push_log(&mut self, s: String)
        ensures
            final(self)@ == with_line(old(self)@, s@),
    {
        let ghost d0 = self@;
        let ghost line = s@;
        self.log.push_front(s);
        assert(self@.log =~= seq![line] + d0.log);
        let ghost full = seq![line] + d0.log;
        while self.log.len() > MAX_LOG
            invariant
                self@.log == full.take(self@.log.len() as int),
                self@.log.len() <= full.len(),
                self@ == (DaemonV { log: self@.log, ..d0 }),
                full.len() > MAX_LOG ==> self@.log.len() >= MAX_LOG,
                full.len() <= MAX_LOG ==> self@.log.len() == full.len(),
            decreases self@.log.len(),
        {
            let ghost before = self@.log;
            self.log.pop_back();
            assert(self@.log =~= before.drop_last());
            assert(full.take(self@.log.len() as int) =~= before.drop_last());
        }
        assert(self@.log =~= pushed(d0.log, line));
    }

    /// Updates the display for an event.
    pub fn apply(&mut self, event: TuiEvent)
        ensures
            final(self)@ == applied(old(self)@, event),
    {
        let ghost d0 = self@;
        match event {
            TuiEvent::AgentInfo { name, id, server } => {
                self.agent_name = name;
                self.agent_id = id;
                self.server = server;
            },
            TuiEvent::ServerStatus(online) => {
                let was = self.online;
                self.online = online;
                if online && !was {
                    let line = concat("↑ connected to ", self.server.as_str());
                    self.push_log(line);
                } else if !online && was {
                    self.push_log("↓ server unreachable, working offline".to_owned());
                }
            },
            TuiEvent::Triaging { count } => {
                let n = decimal_string(count);
                self.spinner_text = concat3("📋 triaging ", n.as_str(), " tasks…");
                self.current_task_id = String::new();
                self.current_task_title = String::new();
            },
            TuiEvent::TaskStart { id, title } => {
                let head = concat3("⚙ [", id.as_str(), "] ");
                let line = concat(head.as_str(), title.as_str());
                self.push_log(line);
                self.spinner_text = concat3("starting [", id.as_str(), "]…");
                self.current_task_id = id;
                self.current_task_title = title;
            },
            TuiEvent::SpinnerUpdate(text) => {
                self.spinner_text = text;
            },
            TuiEvent::TaskDone { id, status, chars } => {
                let icon = if str_eq(status.as_str(), "done") { "✓" } else { "✗" };
                let a = concat3(icon, " [", id.as_str());
                let b = concat3(a.as_str(), "] ", status.as_str());
                let n = decimal_string(chars);
                let c = concat3(b.as_str(), " (", n.as_str());
                let line = concat(c.as_str(), " chars)");
                assert(line@ =~= icon@ + " ["@ + id@ + "] "@ + status@ + " ("@ + decimal(chars as nat) + " chars)"@);
                self.push_log(line);
                if self.current_task_id == id {
                    self.current_task_id = String::new();
                    self.current_task_title = String::new();
                    self.spinner_text = String::new();
                }
            },
            TuiEvent::TaskSkip { id, reason } => {
                let head = concat3("⊘ [", id.as_str(), "] skipped: ");
                self.push_log(concat(head.as_str(), reason.as_str()));
            },
            TuiEvent::TaskBlock { id, reason } => {
                let head = concat3("⚡ [", id.as_str(), "] blocked: ");
                self.push_log(concat(head.as_str(), reason.as_str()));
            },
            TuiEvent::MsgRecv { from } => {
                self.push_log(concat3("← [", from.as_str(), "]"));
            },
            TuiEvent::MsgSent { chars } => {
                let n = decimal_string(chars);
                self.push_log(concat3("→ reply (", n.as_str(), " chars)"));
            },
            TuiEvent::Log(s) => {
                self.push_log(s);
            },
            TuiEvent::Shutdown => {},
        }
    }
}


/// The glyphs the spinner cycles through.
pub open spec fn spinner_frames() -> Seq<Seq<char>> {
    seq!["⠋"@, "⠙"@, "⠹"@, "⠸"@, "⠼"@, "⠴"@, "⠦"@, "⠧"@, "⠇"@, "⠏"@]
}

/// The spinner glyph shown at frame `n`.
pub fn spinner_glyph(n: usize) -> (r: &'static str)
    ensures
        r@ == spinner_frames()[(n % 10) as int],
{
    match n % 10 {
        0 => "⠋",
        1 => "⠙",
        2 => "⠹",
        3 => "⠸",
        4 => "⠼",
        5 => "⠴",
        6 => "⠦",
        7 => "⠧",
        8 => "⠇",
        _ => "⠏",
    }
}

/// The colour a log line is shown in, chosen by how the line starts.
#[derive(Debug, Clone, Copy, PartialEq, Eq, Structural)]
pub enum Tone {
    Green,
    Red,
    Gray,
    Magenta,
    Plain,
}

/// Finished tasks and reconnections are green; failures, blocks and lost
/// connections red; skips gray; messages magenta; anything else plain.
pub open spec fn tone_of(line: Seq<char>) -> Tone {
    if line.len() == 0 {
        Tone::Plain
    } else if line[0] == '✓' || line[0] == '↑' {
        Tone::Green
    } else if line[0] == '✗' || line[0] == '⚡' || line[0] == '↓' {
        Tone::Red
    } else if line[0] == '⊘' {
        Tone::Gray
    } else if line[0] == '←' || line[0] == '→' {
        Tone::Magenta
    } else {
        Tone::Plain
    }
}

pub fn line_tone(line: &str) -> (r: Tone)
    ensures
        r == tone_of(line@),
{
    let cs = chars_of(line);
    if cs.len() == 0 {
        return Tone::Plain;
    }
    let c = cs[0];
    if c == '✓' || c == '↑' {
        Tone::Green
    } else if c == '✗' || c == '⚡' || c == '↓' {
        Tone::Red
    } else if c == '⊘' {
        Tone::Gray
    } else if c == '←' || c == '→' {
        Tone::Magenta
    } else {
        Tone::Plain
    }
}

/// One line of the status panel.
#[derive(Debug)]
pub enum StatusLine {
    /// The spinner glyph and what the daemon is doing.
    Spinner { glyph: String, text: String },
    /// The task being worked on: `[<id>]` and its title.
    Task { label: String, title: String },
    /// Nothing is going on.
    Idle,
}

/// The abstract content of a status line: its kind (0 spinner, 1 task, 2 idle)
/// and its two texts.
pub open spec fn status_line_view(l: StatusLine) -> (int, Seq<char>, Seq<char>) {
    match l {
        StatusLine::Spinner { glyph, text } => (0, glyph@, text@),
        StatusLine::Task { label, title } => (1, label@, title@),
        StatusLine::Idle => (2, Seq::empty(), Seq::empty()),
    }
}

/// The status panel of a display: a spinner line while there is spinner text, a
/// task line while a task runs, and `idle` when there is neither.
pub open spec fn status_panel(d: DaemonV) -> Seq<(int, Seq<char>, Seq<char>)> {
    let spin = if d.spinner_text.len() > 0 {
        seq![(0int, spinner_frames()[(d.spinner_frame % 10) as int], d.spinner_text)]
    } else {
        Seq::empty()
    };
    let task = if d.current_task_id.len() > 0 {
        seq![(1int, "["@ + d.current_task_id + "]"@, d.current_task_title)]
    } else {
        Seq::empty()
    };
    if spin.len() + task.len() == 0 { seq![(2int, Seq::empty(), Seq::empty())] } else { spin + task }
}

/// The header of a display, once the agent is known: its name, `  (<id>)`, the
/// server, and whether it is online.
pub open spec fn header_of(d: DaemonV) -> Option<(Seq<char>, Seq<char>, Seq<char>, Seq<char>)> {
    if d.agent_name.len() == 0 {
        None
    } else {
        Some((
            d.agent_name,
            "  ("@ + d.agent_id + ")"@,
            d.server,
            if d.online { "● ONLINE"@ } else { "○ OFFLINE"@ },
        ))
    }
}

/// The lines printed when the display closes, so that one sees what happened last:
/// the thirty most recent lines of the log (all of them when there are fewer),
/// oldest first. The log itself is held newest first.
pub open spec fn closing_lines(log: Seq<Seq<char>>) -> Seq<Seq<char>> {
    let n = if log.len() > 30 { 30 } else { log.len() as int };
    log.take(n).reverse()
}

/// Whether a key press closes the display: `q`, or `c` with Control.
pub fn is_quit_key(key: Option<char>, control: bool) -> (r: bool)
    ensures
        r == (key == Some('q') || (key == Some('c') && control)),
{
    match key {
        Some(c) => c == 'q' || (c == 'c' && control),
        None => false,
    }
}

/// The lines the plain (non-terminal) display prints for an event, and whether
/// it stops after them. `program` names the assistant the daemon runs.
pub open spec fn plain_lines_of(e: TuiEvent, program: Seq<char>) -> (Seq<Seq<char>>, bool) {
    match e {
        TuiEvent::AgentInfo { name, id, server } => (seq![
            "agent    : "@ + name@ + " ("@ + id@ + ")"@,
            "server   : "@ + server@,
            "routing messages + tasks → "@ + program + " CLI\n"@,
        ], false),
        TuiEvent::Triaging { count } => (seq!["📋 triaging "@ + decimal(count as nat) + " pending tasks…"@], false),
        TuiEvent::TaskStart { id, title } => (seq![
            "⚙ task ["@ + id@ + "] "@ + title@,
            "  "@ + program + " working on ["@ + id@ + "]…"@,
        ], false),
        TuiEvent::TaskDone { id, status, chars } => (seq![
            "✓ task ["@ + id@ + "] "@ + status@ + " ("@ + decimal(chars as nat) + " chars)"@,
        ], false),
        TuiEvent::TaskSkip { id, reason } => (seq!["⊘ skipped ["@ + id@ + "]: "@ + reason@], false),
        TuiEvent::TaskBlock { id, reason } => (seq!["⚡ blocked ["@ + id@ + "]: "@ + reason@], false),
        TuiEvent::MsgRecv { from } => (seq!["← ["@ + from@ + "]"@], false),
        TuiEvent::MsgSent { chars } => (seq!["→ reply ("@ + decimal(chars as nat) + " chars)"@], false),
        TuiEvent::Log(s) => (seq![s@], false),
        TuiEvent::Shutdown => (seq!["\nshutting down…"@], true),
        _ => (Seq::empty(), false),
    }
}

/// The lines the plain display prints for `event`, and whether it stops.
pub fn plain_lines(event: TuiEvent, program: &str) -> (r: (Vec<String>, bool))
    ensures
        (views(r.0@), r.1) == plain_lines_of(event, program@),
{
    let ghost e = event;
    let mut out: Vec<String> = Vec::new();
    let stop = match event {
        TuiEvent::AgentInfo { name, id, server } => {
            let a = concat3("agent    : ", name.as_str(), " (");
            out.push(concat3(a.as_str(), id.as_str(), ")"));
            out.push(concat("server   : ", server.as_str()));
            out.push(concat3("routing messages + tasks → ", program, " CLI\n"));
            false
        },
        TuiEvent::Triaging { count } => {
            let n = decimal_string(count);
            out.push(concat3("📋 triaging ", n.as_str(), " pending tasks…"));
            false
        },
        TuiEvent::TaskStart { id, title } => {
            let a = concat3("⚙ task [", id.as_str(), "] ");
            out.push(concat(a.as_str(), title.as_str()));
            let b = concat3("  ", program, " working on [");
            out.push(concat3(b.as_str(), id.as_str(), "]…"));
            false
        },
        TuiEvent::TaskDone { id, status, chars } => {
            let a = concat3("✓ task [", id.as_str(), "] ");
            let b = concat3(a.as_str(), status.as_str(), " (");
            let n = decimal_string(chars);
            out.push(concat3(b.as_str(), n.as_str(), " chars)"));
            false
        },
        TuiEvent::TaskSkip { id, reason } => {
            let a = concat3("⊘ skipped [", id.as_str(), "]: ");
            out.push(concat(a.as_str(), reason.as_str()));
            false
        },
        TuiEvent::TaskBlock { id, reason } => {
            let a = concat3("⚡ blocked [", id.as_str(), "]: ");
            out.push(concat(a.as_str(), reason.as_str()));
            false
        },
        TuiEvent::MsgRecv { from } => {
            out.push(concat3("← [", from.as_str(), "]"));
            false
        },
        TuiEvent::MsgSent { chars } => {
            let n = decimal_string(chars);
            out.push(concat3("→ reply (", n.as_str(), " chars)"));
            false
        },
        TuiEvent::Log(s) => {
            out.push(s);
            false
        },
        TuiEvent::Shutdown => {
            out.push("\nshutting down…".to_owned());
            true
        },
        _ => false,
    };
    assert(views(out@) =~= plain_lines_of(e, program@).0);
    (out, stop)
}

impl DaemonState {
    /// The header, once the agent is known.
    pub fn header(&self) -> (r: Option<(String, String, String, &'static str)>)
        ensures
            match r {
                Some((a, b, c, d)) => header_of(self@) == Some((a@, b@, c@, d@)),
                None => header_of(self@) is None,
            },
    {
        if self.agent_name.as_str().is_empty() {
            return None;
        }
        let dot = if self.online { "● ONLINE" } else { "○ OFFLINE" };
        Some((self.agent_name.clone(), concat3("  (", self.agent_id.as_str(), ")"), self.server.clone(), dot))
    }

    /// The lines of the status panel.
    pub fn status_panel(&self) -> (r: Vec<StatusLine>)
        ensures
            r@.map_values(|l: StatusLine| status_line_view(l)) == status_panel(self@),
    {
        let mut r: Vec<StatusLine> = Vec::new();
        if !self.spinner_text.as_str().is_empty() {
            let g = spinner_glyph(self.spinner_frame);
            r.push(StatusLine::Spinner { glyph: g.to_owned(), text: self.spinner_text.clone() });
        }
        if !self.current_task_id.as_str().is_empty() {
            r.push(StatusLine::Task { label: concat3("[", self.current_task_id.as_str(), "]"), title: self.current_task_title.clone() });
        }
        if r.len() == 0 {
            r.push(StatusLine::Idle);
        }
        assert(r@.map_values(|l: StatusLine| status_line_view(l)) =~= status_panel(self@));
        r
    }

    /// Advances the spinner by one frame, wrapping at the end of `usize`.
    pub fn tick(&mut self)
        ensures
            final(self)@ == (DaemonV { spinner_frame: if old(self)@.spinner_frame == usize::MAX { 0 } else { (old(self)@.spinner_frame + 1) as usize }, ..old(self)@ }),
    {
        if self.spinner_frame == usize::MAX {
            self.spinner_frame = 0;
        } else {
            self.spinner_frame = self.spinner_frame + 1;
        }
    }

    /// The lines printed when the display closes.
    pub fn closing_lines(&self) -> (r: Vec<String>)
        ensures
            views(r@) == closing_lines(self@.log),
    {
        let ghost l = self@.log;
        let len = self.log.len();
        let m: usize = if len > 30 { 30 } else { len };
        let ghost want = l.take(m as int).reverse();
        let mut r: Vec<String> = Vec::new();
        let mut k: usize = 0;
        while k < m
            invariant
                len == l.len(),
                l == self@.log,
                m <= len,
                m <= 30,
                k <= m,
                want == l.take(m as int).reverse(),
                views(r@) == want.take(k as int),
            decreases m - k,
        {
            // oldest of the kept lines first: position m - 1 down to 0
            let line = self.log[m - 1 - k].clone();
            assert(line@ == l[m - 1 - k]);
            let ghost before = views(r@);
            r.push(line);
            assert(want[k as int] == l[m - 1 - k]);
            assert(want.take(k + 1) =~= want.take(k as int).push(want[k as int]));
            assert(views(r@) =~= before.push(l[m - 1 - k]));
            k = k + 1;
        }
        assert(want.take(m as int) =~= want);
        assert(views(r@) =~= closing_lines(l));
        r
    }
}

} // verus!
