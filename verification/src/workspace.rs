//! A vault on disk, as it was found.

use vstd::prelude::*;

verus! {

/// What an entry of a vault is.
#[derive(Clone, Copy, Debug, PartialEq, Eq, Structural)]
pub enum WorkspaceEntryKind {
    Directory,
    File,
}

/// A file or a directory of a vault.
#[derive(Debug, PartialEq, Eq)]
pub struct WorkspaceEntry {
    pub path: String,
    pub name: String,
    pub kind: WorkspaceEntryKind,
    pub children: Vec<WorkspaceEntry>,
}

/// How many files and directories a vault holds.
#[derive(Clone, Copy, Debug, PartialEq, Eq, Structural)]
pub struct WorkspaceStats {
    pub files: usize,
    pub folders: usize,
}

impl Default for WorkspaceStats {
    fn default() -> (r: Self)
        ensures
            r == (WorkspaceStats { files: 0, folders: 0 }),
    {
        WorkspaceStats { files: 0, folders: 0 }
    }
}

/// The files and directories of a vault, down to a depth.
#[derive(Debug, PartialEq, Eq)]
pub struct WorkspaceTree {
    pub root: String,
    pub entries: Vec<WorkspaceEntry>,
    pub max_depth: usize,
    pub stats: WorkspaceStats,
}

impl WorkspaceEntry {
    /// Whether the entry is a directory.
    #[must_use]
    pub fn is_directory(&self) -> (r: bool)
        ensures
            r == (self.kind is Directory),
    {
        match self.kind {
            WorkspaceEntryKind::Directory => true,
            WorkspaceEntryKind::File => false,
        }
    }
}

} // verus!
