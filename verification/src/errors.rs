//! The error conditions that store operations can report.

use vstd::prelude::*;

verus! {

/// Why a store operation failed.
#[derive(Clone, Copy, Debug, PartialEq, Eq, Structural)]
pub enum TodoError {
    /// The home-directory value needed to build the save path was absent.
    HomeUnresolved,
    /// Opening, reading or writing the save file failed.
    IoError,
    /// The saved content was not the canonical JSON form of a task list.
    DeserializeError,
    /// A removal index was at or beyond the end of the root task list.
    IndexOutOfRange,
}

} // verus!
