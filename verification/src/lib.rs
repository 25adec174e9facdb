//! git-viz: an interactive terminal git client, without the terminal and
//! without git.
//!
//! The library holds all that the client decides and computes:
//!   - `text`, `editor`: text, and the editor behind the commit-message popup
//!   - `patch`: diff documents and the patches that stage a part of one
//!   - `graph`, `date`, `oid`: the pieces of a log entry
//!   - `git`: what is read from a repository, and what is asked of it
//!   - `app`: application state and the focus/mode state machine
//!   - `event`: key dispatch and operation wiring
//!   - `ui`: what is on the screen
//!   - `outside`: the functions of other crates that the rest relies on

pub mod app;
pub mod date;
pub mod editor;
pub mod event;
pub mod git;
pub mod graph;
pub mod oid;
pub mod outside;
pub mod patch;
pub mod text;
pub mod ui;
