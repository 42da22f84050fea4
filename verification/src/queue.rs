//! What a scan found to transfer.

use vstd::prelude::*;

verus! {

/// The outcome of a scan: the directories to create on the target, the
/// files to copy, how many of those are new and how many changed, how many
/// target files would be deleted, and the size of the transfer in KiB.
pub struct Queue {
    pub dir_queue: Vec<String>,
    pub file_queue: Vec<String>,
    pub add: u64,
    pub change: u64,
    pub del: u64,
    pub total_size: i64,
}

/// Why a scan or a transfer step could not go on.
#[derive(Debug, PartialEq, Eq)]
pub enum ScanError {
    /// The path does not lie under the directory it was listed from.
    OutsideRoot(String),
    /// The path has no final component to judge it by.
    NoFileName(String),
    /// The path has no parent directory.
    NoParent(String),
    /// A size or a counter went past what its integer type holds.
    Overflow,
}

impl Queue {
    /// Whether nothing needs doing: no file to add, none to change, and,
    /// where deleting is asked for, none to delete.
    pub fn nothing_to_do(&self, delete: bool) -> (r: bool)
        ensures
            r == (self.add == 0 && self.change == 0 && (!delete || self.del == 0)),
    {
        self.add == 0 && self.change == 0 && (!delete || self.del == 0)
    }
}

} // verus!
