# urlbum

A bookmark album kept in SQLite: folders and bookmarks in one tree, favicons
fetched per domain and cached as PNG, import of `ua.dat` bookmark files, a short
list of recently opened databases, and a few user settings.

## Layout

- `src/` — the library, verified with Verus:
  - `text.rs` — character-level string helpers and their specifications;
  - `node.rs` — the `Node` row type;
  - `favicon.rs` — domains, cache file names, icon links found in HTML pages,
    grouping bookmarks by domain;
  - `fetch.rs` — the favicon fetch as a state machine that hands out actions
    (read the cache, download, store) and proves that every fetch ends;
  - `ua_dat.rs` — Windows-1251 decoding, `ua.dat` line parsing and the parent
    stack of an import;
  - `settings.rs`, `recent.rs` — the JSON files of the settings and of the recent
    databases;
  - `view.rs` — selection, expanded folders, tree and list rows, status line;
  - `dups.rs`, `props.rs` — the duplicate-URL dialog and the properties dialog.
- `app/` — a command-line program around the library: SQLite access, HTTP
  downloads, files, the browser.
- `tests/` — tests of the library.
