//! The events a poll cycle can report: a path was created, modified, or
//! erased since the previous cycle.

use vstd::prelude::*;

verus! {

/// The kind of change a poll cycle observed for one path.
#[derive(Clone, Copy, Debug, PartialEq, Eq, Structural)]
pub enum FileStatus {
    Created,
    Modified,
    Erased,
}

/// One reported change: a status paired with the path it concerns.
#[derive(Debug)]
pub struct FileEvent {
    pub status: FileStatus,
    pub path: String,
}

impl View for FileEvent {
    type V = (FileStatus, Seq<char>);

    open spec fn view(&self) -> (FileStatus, Seq<char>) {
        (self.status, self.path@)
    }
}

} // verus!
