use vstd::prelude::*;

verus! {

/// One member of a directory or prefix listing: the entry's name and its
/// size in bytes. Produced by a listing operation and consumed immediately
/// by the caller, or folded into a listing of full paths; immutable once
/// constructed.
#[derive(Debug)]
pub struct FileEntry {
    pub name: String,
    pub size: u64,
}

impl FileEntry {
    /// Builds the descriptor of one listed member.
    pub fn new(name: String, size: u64) -> (e: FileEntry)
        ensures
            e.name@ == name@,
            e.size == size,
    {
        FileEntry { name, size }
    }
}

} // verus!
