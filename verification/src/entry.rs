//! What the file system says of a path: its kind, and for the entries of a
//! directory their modification times.

use vstd::prelude::*;

verus! {

/// What a probe of a path found there.
#[derive(Debug, Clone, Copy, PartialEq, Eq, Structural)]
pub enum PathKind {
    /// Nothing exists at the path.
    Missing,
    /// A regular file.
    File,
    /// A directory.
    Directory,
    /// Something that exists but is neither a regular file nor a directory.
    Other,
}

/// One immediate entry of a directory.
#[derive(Debug, PartialEq, Eq)]
pub struct DirEntry {
    /// The entry's path, the directory's path included.
    pub path: String,
    /// Last modification, in nanoseconds since the Unix epoch (negative before it).
    pub modified: i128,
    /// Whether the entry is a regular file.
    pub is_file: bool,
}

/// A directory entry as contracts see it.
pub struct DirEntryView {
    pub path: Seq<char>,
    pub modified: int,
    pub is_file: bool,
}

impl View for DirEntry {
    type V = DirEntryView;

    open spec fn view(&self) -> DirEntryView {
        DirEntryView { path: self.path@, modified: self.modified as int, is_file: self.is_file }
    }
}

impl DeepView for DirEntry {
    type V = DirEntryView;

    open spec fn deep_view(&self) -> DirEntryView {
        self@
    }
}

impl Clone for DirEntry {
    fn clone(&self) -> (copy: DirEntry)
        ensures
            copy@ == self@,
    {
        DirEntry { path: self.path.clone(), modified: self.modified, is_file: self.is_file }
    }
}

} // verus!
