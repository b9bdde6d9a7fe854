# session_core

The logic of a desktop client that keeps interactive CLI agents reachable
across network drops: the agent runs inside `tmux` on a server, the client
mirrors it through the system `ssh` in a local terminal, and reconnects when
the connection dies. What to run, what to report, and when to retry or to
close are decided in Verus and proved against their contracts; `app/` waits
on time and channels, runs the processes and moves the bytes.

## Layout

- `src/` — the verified library
  - `command.rs` — ssh argument vectors, POSIX quoting, the remote tmux command
  - `exit.rs`, `backoff.rs`, `reconnect.rs` — failure classification, the
    1 s → 30 s backoff, retry decisions, control frames
  - `session.rs` — the connection state machine
  - `runner.rs` — the decisions of a session runner, one event at a time
  - `transport.rs` — UTF-8 decoding of a chunked terminal stream
  - `config.rs`, `discovery.rs` — configuration checks, host lookup, which
    configuration file is loaded
  - `files.rs`, `filechan.rs` — remote directory listings and the file
    panel's command channel protocol
  - `ssh_config.rs` — the `Host` aliases of `~/.ssh/config`
  - `agents.rs`, `keys.rs`, `views.rs` — agent probing, input filtering, and
    what the user interface is sent
  - `text.rs` — character-level helpers shared by the above
- `tests/` — tests on concrete values
- `app/` — the Tauri application: processes, PTYs, threads, files, JSON

Laws of the library are public proof functions next to the functions they
speak of (for example `shell_reads_quoted_text_back`,
`chunking_does_not_change_text`, `resize_frame_round_trip`,
`listing_is_determined`, `aliases_are_distinct_and_literal`).
