use vstd::prelude::*;
use vstd::string::StringExecFns;

verus! {

/// The single error kind of the storage abstraction.
///
/// Every failure that crosses the capability boundary — an operating-system
/// fault, a transport or service fault, a caller precondition violation, or
/// an operation a backend does not support — is wrapped into this one
/// reportable value carrying a human-readable message. Backend-specific
/// error types never leak to callers.
#[derive(Debug)]
pub struct FileProviderError {
    details: String,
}

impl View for FileProviderError {
    type V = Seq<char>;

    closed spec fn view(&self) -> Seq<char> {
        self.details@
    }
}

/// The message reported when a file or object is absent at `path`.
pub open spec fn not_found_message(path: Seq<char>) -> Seq<char> {
    "File not found: "@ + path
}

/// The message reported when opening `path` failed with the underlying
/// `detail`; both the fault and the resolved path are kept for diagnosis.
pub open spec fn open_error_message(detail: Seq<char>, path: Seq<char>) -> Seq<char> {
    "File opening error: "@ + detail + ", path: "@ + path
}

/// The message reported when a backend does not implement operation `op`.
pub open spec fn unsupported_message(op: Seq<char>) -> Seq<char> {
    "Unsupported operation for this backend: "@ + op
}

/// The message reported when a move destination lacks the required
/// bucket separator.
pub open spec fn missing_separator_message(dest: Seq<char>) -> Seq<char> {
    "Invalid destination, expected bucket/path: "@ + dest
}

/// `needle` occurs contiguously inside `hay`.
pub open spec fn contains_seq<T>(hay: Seq<T>, needle: Seq<T>) -> bool {
    exists|i: int|
        0 <= i && i + needle.len() <= hay.len() && #[trigger] hay.subrange(i, i + needle.len())
            == needle
}

impl FileProviderError {
    /// Wraps an arbitrary message.
    pub fn new(msg: &str) -> (e: FileProviderError)
        ensures
            e@ == msg@,
    {
        FileProviderError { details: msg.to_owned() }
    }

    /// The error for a file or object absent at `path`.
    pub fn not_found(path: &str) -> (e: FileProviderError)
        ensures
            e@ == not_found_message(path@),
    {
        let mut details = String::from_str("File not found: ");
        details.append(path);
        FileProviderError { details }
    }

    /// The error for a failure to open `path`, keeping the underlying
    /// fault and the resolved path.
    pub fn open_error(detail: &str, path: &str) -> (e: FileProviderError)
        ensures
            e@ == open_error_message(detail@, path@),
    {
        let mut details = String::from_str("File opening error: ");
        details.append(detail);
        details.append(", path: ");
        details.append(path);
        FileProviderError { details }
    }

    /// The error for an operation `op` that the backend does not implement.
    pub fn unsupported(op: &str) -> (e: FileProviderError)
        ensures
            e@ == unsupported_message(op@),
    {
        let mut details = String::from_str("Unsupported operation for this backend: ");
        details.append(op);
        FileProviderError { details }
    }

    /// The error for a move destination without a bucket separator.
    pub fn missing_separator(dest: &str) -> (e: FileProviderError)
        ensures
            e@ == missing_separator_message(dest@),
    {
        let mut details = String::from_str("Invalid destination, expected bucket/path: ");
        details.append(dest);
        FileProviderError { details }
    }

    /// The human-readable message.
    pub fn message(&self) -> (m: &str)
        ensures
            m@ == self@,
    {
        self.details.as_str()
    }
}

/// A not-found error always names the path it was raised for: the
/// attempted path occurs verbatim in the message.
pub proof fn lemma_not_found_mentions_path(path: Seq<char>)
    ensures
        contains_seq(not_found_message(path), path),
{
    let m = not_found_message(path);
    let i = "File not found: "@.len() as int;
    assert(m.subrange(i, i + path.len() as int) =~= path);
}

/// An open-failure error names the path it was raised for.
pub proof fn lemma_open_error_mentions_path(detail: Seq<char>, path: Seq<char>)
    ensures
        contains_seq(open_error_message(detail, path), path),
{
    let m = open_error_message(detail, path);
    let i = m.len() - path.len();
    assert(m.subrange(i, i + path.len() as int) =~= path);
}

} // verus!
