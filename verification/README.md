# dinotty

Terminal panes that run commands and report how they ended. The library follows
the output of a shell, keeps what a terminal would show, and collects the text
and the status of one command at a time. Its behaviour is stated in contracts
and proved with Verus.

- `src/capture.rs`: the text of one command, and how it ends.
- `src/grid.rs`, `editing.rs`, `width.rs`, `sgr.rs`, `modes.rs`: the character
  grid, what control functions do to it, the width of characters, the look of
  cells, and the private modes.
- `src/parser.rs`, `osc.rs`, `performer.rs`: bytes as actions (the `vte` crate
  finds the sequences), and what each action does to a screen.
- `src/screen.rs`, `prompt.rs`, `waiter.rs`, `clock.rs`: the screen with its
  running command, prompts (with the `regex` crate), delivery of results (with
  the one-shot channels of `tokio`), and time.
- `src/render.rs`, `snapshot.rs`, `text.rs`: what clients are sent.
- `src/restore.rs`, `replay.rs`, `reading.rs`: what a snapshot, and a history
  before it, do to the client that is sent them.
- `src/ordinary.rs`: what ordinary output leaves on a screen.
- `src/session.rs`: running a command in a pane, step by step.
- `src/laws.rs`: what holds over more than one call.
- `app/`: locks, queues and timers around the session, and the types that leave
  the process.
