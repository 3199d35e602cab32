# punchclock

A presence, messaging and task-routing bus for coding agents, with its logic
verified by Verus.

A server keeps which agents are online (registration and heartbeats, with a
reaper for silent ones), a capped inbox per agent with acknowledgements, and a
task queue per agent. A command-line client talks to it, keeps a list of managed
repositories, and runs a daemon per repository that claims tasks, hands them to
an assistant program and reports the outcome.

## Layout

- `src/` — the verified library.
  - `model.rs` — the abstract state of the server and every request as a
    function on it; `server.rs` — the executable state and requests, each proved
    to follow the model.
  - `ratelimit.rs` — sliding-window admission per sender and per address;
    `query.rs` — query-string parameters.
  - `clock.rs`, `ids.rs` — instants (nanoseconds, written out with `chrono`)
    and the form of identifiers. Every request takes its instant and any new
    identifier as arguments; `app/` reads the clock and draws identifiers.
  - `client.rs`, `daemon.rs`, `setup.rs`, `repos.rs`, `tables.rs`, `tui.rs` —
    what the client, its daemon and its display decide and print.
  - `text.rs` — character-level helpers; `protocol.rs` — the bodies exchanged.
  - `laws.rs` — properties that span several requests, proved.
- `tests/` — tests of the library on concrete values.
- `app/` — the executable around the library: HTTP server (`poem`), HTTP client
  (`reqwest`), files, processes and the terminal display.

The daemon runs the assistant program named by the `PUNCHCLOCK_AGENT_CMD`
environment variable; `punchclock serve` runs the server. A repository's agent
keeps its settings in `.punchclock/agent.toml` and its daemon's PID in
`.punchclock/daemon.pid` (a single `.punchclock` file of the older layout is
still read). The daemon works on tasks queued on the server and on markdown
files dropped into `.task/todo/`.
