//! Verified core of a clipboard history manager: the history store and its
//! queries, the clipboard watcher, the global shortcut tracker and the
//! autostart entries.

pub mod text;
pub mod history;
pub mod history_laws;
pub mod watcher;
pub mod shortcuts;
pub mod autostart;
