//! A small to-do list library: a tree of tasks with titles and completion
//! flags, an ordered store of root tasks, and a canonical JSON form for
//! persisting the store between sessions.

pub mod backend;
pub mod errors;
pub mod frontend;
pub mod json;
pub mod todoitem;
