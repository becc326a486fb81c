use vstd::prelude::*;

use crate::entry::FileEntry;
use crate::error::open_error_message;
use crate::error::FileProviderError;
use crate::path::join_path;
use crate::path::join_spec;

verus! {

/// The local-filesystem backend's identity and decision logic. The
/// provider is scoped to one base directory; every relative path handed to
/// an operation is resolved against that base with the single normalizing
/// join rule. The concrete file I/O is performed outside this crate by the
/// embedding application, which feeds OS outcomes back into the decision
/// functions below.
#[derive(Debug)]
pub struct LocalFileProvider {
    pub base: String,
}

impl LocalFileProvider {
    /// A provider rooted at `base`.
    pub fn new(base: String) -> (p: LocalFileProvider)
        ensures
            p.base@ == base@,
    {
        LocalFileProvider { base }
    }

    /// The provider's base identity.
    pub fn get_base_path(&self) -> (r: &str)
        ensures
            r@ == self.base@,
    {
        self.base.as_str()
    }

    /// The absolute location of a relative path: the base and the path
    /// joined with exactly one separator between them.
    pub fn resolve_path(&self, path: &str) -> (r: String)
        ensures
            r@ == join_spec(self.base@, path@),
    {
        join_path(self.base.as_str(), path)
    }

    /// The fully qualified display paths of a listing of `path`: each
    /// entry's name appended to the resolved directory.
    pub fn list_dir_paths(&self, path: &str, entries: &Vec<FileEntry>) -> (r: Vec<String>)
        ensures
            r@.len() == entries@.len(),
            forall|k: int|
                0 <= k < entries@.len() ==> (#[trigger] r@[k])@ == join_spec(
                    join_spec(self.base@, path@),
                    entries@[k].name@,
                ),
    {
        let dir = self.resolve_path(path);
        let mut paths: Vec<String> = Vec::new();
        let n = entries.len();
        let mut i: usize = 0;
        while i < n
            invariant
                i <= n,
                n == entries@.len(),
                dir@ == join_spec(self.base@, path@),
                paths@.len() == i,
                forall|k: int|
                    0 <= k < i ==> (#[trigger] paths@[k])@ == join_spec(
                        join_spec(self.base@, path@),
                        entries@[k].name@,
                    ),
            decreases n - i,
        {
            let e = &entries[i];
            paths.push(join_path(dir.as_str(), e.name.as_str()));
            i = i + 1;
        }
        paths
    }

    /// Wraps a failed open of `path` — not found, permission denied —
    /// into the shared error, keeping both the OS message and the
    /// resolved path for diagnosability.
    pub fn wrap_open_failure(&self, path: &str, os_message: &str) -> (e: FileProviderError)
        ensures
            e@ == open_error_message(os_message@, join_spec(self.base@, path@)),
    {
        let resolved = self.resolve_path(path);
        FileProviderError::open_error(os_message, resolved.as_str())
    }

    /// Decides the result of a directory creation from the OS outcome:
    /// success is success, and an already-existing directory is swallowed
    /// (creation is idempotent); any other OS failure is surfaced with
    /// its message.
    pub fn create_dir_outcome(os_error: Option<String>, already_exists: bool) -> (r: Result<
        (),
        FileProviderError,
    >)
        ensures
            match r {
                Ok(_) => os_error is None || already_exists,
                Err(e) => os_error is Some && !already_exists && e@ == os_error.unwrap()@,
            },
    {
        match os_error {
            None => Ok(()),
            Some(msg) => {
                if already_exists {
                    Ok(())
                } else {
                    Err(FileProviderError::new(msg.as_str()))
                }
            },
        }
    }
}

} // verus!
