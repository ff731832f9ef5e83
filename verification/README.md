# difforge

A full-screen git TUI whose right pane is a structural dump from
difftastic (`difft`). You stage and commit whole files.

## Layout

- `src/` is the verified library (Verus). `session.rs` holds the session
  state machine: `apply` takes one event (key, click, poll tick, resize, or
  a child's result) to the next session and the effects it asks for; its
  contract is the spec function `model::step`. `files.rs` parses git's
  porcelain and ls-files output and builds the files panel (flat list or
  tree, filter, folds). `dump.rs` shapes `difft` output for the pane.
  `caret.rs` edits the commit and search fields. `jobs.rs` is the host's
  bookkeeping: commands, the dump cache, the debounce, and the order in
  which a step's effects are worked off. `screen.rs` resolves clicks and the
  words and cells the frame needs. `laws.rs` states and proves what holds
  across steps.
- `app/` is the program: start-up probes, the terminal loop, child
  processes, and drawing with ratatui.
- `tests/` runs the library on concrete sessions with faked git and
  `difft` output.
