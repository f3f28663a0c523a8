# p_rust

A clipboard history manager: a daemon records every text copied, and a
window (Meta + Shift + V) lists the recent ones, searches them, copies one
back or deletes it.

- `src/` is the verified library (Verus):
  - `history.rs`: the history table as a recency-ordered store, with
    recording (duplicate texts are refreshed, not stored twice), the recent
    and search listings, deletion and garbage collection;
  - `history_laws.rs`: properties that span those operations;
  - `text.rs`: white space, previews, case-insensitive search;
  - `watcher.rs`: which clipboard texts are new copies;
  - `shortcuts.rs`: the global shortcut as a state machine;
  - `autostart.rs`: the login entries for Linux and macOS.
- `app/` is the program around it: SQLite persistence (rusqlite), the
  clipboard (arboard, wl-paste, clipboard-master), the keyboard hook (rdev),
  the window (slint) and the autostart files.
- `tests/` runs the library on concrete values.
