//! Core logic of a Markdown note-taking workspace: a three-state container for
//! asynchronously produced values, a directory tree with path-addressed
//! mutation, and a note editor with an idempotent bold toggle.
//!
//! Nothing here touches the filesystem or the screen. The state machines
//! ([`application::Darkstone`], [`notes::Notes`], [`note_editor::NoteEditor`]
//! and [`scan::Scan`]) take messages and answer with commands; a host does
//! what the commands ask and reports back with messages.

pub mod application;
pub mod config;
pub mod format;
pub mod markdown;
pub mod naming;
pub mod note_editor;
pub mod notes;
pub mod path;
pub mod scan;
pub mod text;
pub mod util;
