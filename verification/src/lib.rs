//! Verified core of a small project/task/note tracker.
//!
//! The library holds the aggregate state model (projects owning tasks and
//! notes, plus a "current project" pointer), the identifier resolver, the
//! command grammar resolver with its shorthand expansion, and the text codec
//! used to persist the state. Everything here is verified; file and console
//! I/O live outside the library.
pub mod commands;
pub mod model;
pub mod notes;
pub mod overview;
pub mod projects;
pub mod storage;
pub mod tasks;
pub mod text;
