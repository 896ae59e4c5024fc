# piki

A small personal wiki: Markdown notes in a directory (`~/.piki` by default),
edited with your editor, viewed in the terminal, searched, and kept in sync
between machines with Git over SSH.

The logic lives in a library verified with Verus; every public function states
what it returns in its contract, and the properties that span several calls
(what a sync does with each remote, what navigating back and forward gives,
what a link leads to) are proof functions.

- `src/` — the verified library
  - `text.rs` — characters and strings as sequences, the string helpers
  - `document.rs`, `search.rs`, `config.rs`, `home.rs` — notes, search,
    configuration and where things live
  - `plugins.rs` — the generated `!index` and `!todo` pages
  - `git/` — commit messages, which remotes to sync with, what a sync does,
    SSH URLs and commands, the lock protocol
  - `cli.rs`, `pager.rs` — what the command line decides: highlighting,
    layout, links in viewed notes, aliases
  - `gui/` — the decisions behind the desktop application: history, memories
    of positions, link and section handling, the live-sharing web view
    (walking a parsed note to rewrite its links and find its headings),
    paste and RTF import, the status and search bars
- `app/` — the `piki` command line around the library: arguments, the file
  system, the terminal, Git repositories and the SSH transport. The desktop
  application (its FLTK windows and widgets, its macOS hooks, the live-share
  HTTP server) is not part of this build; the decisions it makes are in
  `src/gui/`
- `tests/` — tests of the library
