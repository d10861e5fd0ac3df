# ade

The verified core of ADE, a terminal with a built-in git code review view.

- `src/` is the library, proved with Verus:
  - `key_encode` — keys and Ctrl chords to xterm escape sequences;
  - `terminal` — terminal sizes, the colour palette, OSC 52 and title
    guards, cell colours and the event state of a terminal;
  - `settings`, `theme` — editor choices, theme modes and the settings path;
  - `tabs`, `panes`, `assets` — the window's tab decisions, pane vocabulary
    and icon listing;
  - `git` — commit, branch and diff types; the git worker's decisions
    (history paging under a cap, diff building within size limits, working
    tree staging states, branch labels, image decoding);
  - `syntax` — languages, capture colours, side reconstruction and the
    tree-sitter highlighting pipeline;
  - `code_review` — diff flattening, highlight preparation, intra-line word
    diffs, text selection, commit descriptions and the review panel's state
    machine.
- `tests/` exercises the library from outside.
- `app/` holds what the library does not: reading and writing the settings
  file, the git worker thread and its git2 calls, operating system queries,
  pixel geometry, and a command-line entry point.
