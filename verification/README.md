# gitk_rs

A gitk-style Git repository browser whose core is verified with Verus.

- `src/` is the verified library: the commit and diff data model, the lane
  layout of the commit graph (`graph`), the rules that turn what libgit2
  reports into commits, ref labels, branch lists, diffs and blame lines
  (`refs`, `history`, `diff`, `blame`), the texts and styles the panes show
  (`display`), and the browser's state machine of selection, search and
  caches (`browser`).  Calls into `egui` and `chrono` stand behind small
  trusted wrappers (`palette`, `clock`, `text`).
- `app/` is the window: it opens the repository with `git2`, hands the raw
  facts to the library, performs the loads the browser asks for, and draws
  with `egui`/`eframe`.
- `tests/` runs the library on concrete repositories' worth of data.
