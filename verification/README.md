# git_dash

A multi-repository git dashboard for the terminal: it scans a directory for
git repositories and shows, for each, its branch, how far it is ahead of or
behind its upstream, its uncommitted changes and its last commit, with a
detail view of recent commits, changed files, branches and stashes.

## Layout

- `src/` is the library, verified with Verus:
  - `text.rs`: strings as sequences of characters — Unicode white space,
    trimming, searching, line splitting as `str::lines` does, UTF-8 byte
    lengths and character boundaries;
  - `number.rs`: reading and writing decimal numbers;
  - `git.rs`: the repository records and the reading of git's output
    (`git log`, `git status --porcelain`, `git branch -vv`, `git stash list`,
    `git rev-list --left-right --count`), commit ages and subject truncation;
  - `order.rs`: stable sorting by keys, with the proof that the stable order
    exists only once;
  - `app.rs`: the dashboard's state, its filter and sort, the selection and
    scrolling, and the key bindings as a step from state and key to state and
    effect;
  - `layout.rs`: what the screen shows — scroll offsets, summary counts, row
    tones and cell texts.
- `app/` is the program: command line (clap), git processes run in parallel
  (rayon), background threads, and drawing with ratatui on crossterm.
- `tests/` runs the library on concrete values.
