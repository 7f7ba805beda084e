# mimebind

Mimebind shows which application opens each file type and link, and lets the
user change it. This crate holds its logic as a library verified with Verus;
the GTK program around it lives in `app/`.

Layout of `src/`:

- `text.rs`: character-level helpers (trimming, splitting, replacing, a
  code-point order on text) with their specifications.
- `typeset.rs`: `TypeSet`, a sorted set of type names whose view is a
  `Set<Seq<char>>`.
- `catalog.rs`: merging the system's application records into a catalog
  ordered by name, folding in subtypes from the MIME database, the user's
  own associations read from `mimeapps.list`, and bulk assignment with its
  report.
- `category.rs`: the Default Apps categories, which types each stands for,
  and which application each reports.
- `entry.rs`: media groups and list entries.
- `window.rs`, `sidebar.rs`: what a sidebar selection lists, which page and
  controls the window shows, and the sidebar's rows and counts.
- `messages.rs`: the text of dialogs, toasts and accessible labels.
- `i18n.rs`: the messages of the catalogue the texts are made from. The
  program hands in a translator (gettext in `app/`), and the contracts state
  which message each text is and how its template is filled in.

`app/` reads the system through GIO, draws the window with GTK 4 and
libadwaita, and hands the library plain values.
