# termviai

The core of TermViAI, a terminal for working on many SSH hosts at once,
written in Verus: every function in `src/` carries a contract that Verus
proves, and the properties the program relies on are stated and proved as
lemmas beside the code.

## Layout

- `src/broadcast.rs`, `src/tab_broadcasts.rs`, `src/router.rs`,
  `src/input_policy.rs`: selective input broadcast. Which panes of a tab
  receive what is typed in one of them, how the selection follows panes that
  come and go, and how a delivery to several panes is reported.
- `src/layout/`: the split tree of a tab. Pane rectangles and dividers,
  splitting and removing panes, moving dividers, resizing (growing the last
  part or keeping the ratios), zoom, focus, moving panes between tabs, and
  the terminal size each pane gets under its header and padding.
- `src/hosts.rs`, `src/workspaces.rs`, `src/restore.rs`, `src/labels.rs`:
  the host list, saved and recent workspaces, saving a tab as a layout and
  reopening it, the names shown for sessions and tabs, and SSH profiles.
- `src/ui.rs`, `src/ui_state.rs`, `src/keys.rs`, `src/confirm.rs`: the
  interface: text fields and forms, where a key press goes, what an action
  changes, and close confirmations.
- `src/preferences.rs`: the SSH keepalive setting.
- `src/icons.rs`, `src/chrome.rs`, `src/capture.rs`, `src/text.rs`,
  `src/id_set.rs`: icon outlines, frame timing, input capture and helpers.
- `app/`: what stays outside verification: files on disk, questions to the
  operating system, serialisation and floating-point drawing geometry.
- `tests/`: tests on concrete values, run against the compiled library.
