//! Core of a developer tool server: access rules in gitignore syntax, path
//! resolution, shell output handling, file search listings, and a text
//! editing engine with per-file undo history.
pub mod editor;
pub mod error;
pub mod gate;
pub mod history;
pub mod listing;
pub mod paths;
pub mod router;
pub mod shell;
pub mod text;
