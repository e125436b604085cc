//! Waddle's interaction core: key grammar, navigation sessions, command
//! parsing, search, and the small state machines that sit between the
//! desktop toolkit and the file system.

pub mod text;
pub mod grid;
pub mod prompt;
pub mod browser_input;
pub mod entries;
pub mod paths;
pub mod navigation;
pub mod command;
pub mod search;
pub mod shell;
pub mod fonts;
pub mod icon_size;
pub mod native_clipboard;
pub mod places;
pub mod file_operation;
pub mod diagnostics;
pub mod focus;
pub mod location_monitoring;
pub mod native_dnd;
pub mod operations;
pub mod sidebar;
pub mod open_with;
pub mod drag_hover;
pub mod directory_watch;
