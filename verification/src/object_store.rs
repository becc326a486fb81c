use vstd::prelude::*;
use vstd::string::StrSliceExecFns;
use vstd::string::StringExecFns;

use crate::entry::FileEntry;
use crate::error::missing_separator_message;
use crate::error::FileProviderError;

verus! {

/// `s` holds at least one `/` separator.
pub open spec fn has_separator(s: Seq<char>) -> bool {
    exists|i: int| 0 <= i < s.len() && s[i] == '/'
}

/// The segment of `s` before its first `/` separator (all of `s` when
/// there is none).
pub open spec fn first_segment(s: Seq<char>) -> Seq<char>
    decreases s.len(),
{
    if s.len() == 0 {
        s
    } else if s[0] == '/' {
        Seq::empty()
    } else {
        seq![s[0]] + first_segment(s.drop_first())
    }
}

proof fn lemma_first_segment_take(s: Seq<char>, j: int)
    requires
        0 <= j <= s.len(),
        forall|k: int| 0 <= k < j ==> s[k] != '/',
        j < s.len() ==> s[j] == '/',
    ensures
        first_segment(s) == s.take(j),
    decreases j,
{
    if j == 0 {
        assert(s.take(0) =~= Seq::<char>::empty());
        if s.len() > 0 {
            assert(s[0] == '/');
        }
    } else {
        assert forall|k: int| 0 <= k < j - 1 implies s.drop_first()[k] != '/' by {
            assert(s.drop_first()[k] == s[k + 1]);
        }
        assert(j - 1 < s.drop_first().len() ==> s.drop_first()[j - 1] == s[j]);
        lemma_first_segment_take(s.drop_first(), j - 1);
        assert(seq![s[0]] + s.drop_first().take(j - 1) =~= s.take(j));
    }
}

/// The size a listed object contributes to an entry: its declared size
/// when present and non-negative, zero otherwise.
pub open spec fn declared_size(size: Option<i64>) -> u64 {
    if size is Some && size.unwrap() >= 0 {
        size.unwrap() as u64
    } else {
        0
    }
}

/// The object-store backend's identity and decision logic. The namespace
/// is flat: a "directory" is only a key prefix, and listings return whole
/// keys as names. The network calls themselves are performed outside this
/// crate by the embedding application, which feeds their outcomes back
/// into the decision functions below.
#[derive(Debug)]
pub struct AwsS3FileProvider {
    pub bucket: String,
}

impl AwsS3FileProvider {
    /// A provider scoped to one bucket.
    pub fn new(bucket: String) -> (p: AwsS3FileProvider)
        ensures
            p.bucket@ == bucket@,
    {
        AwsS3FileProvider { bucket }
    }

    /// The provider's base identity: the bucket name.
    pub fn get_base_path(&self) -> (r: &str)
        ensures
            r@ == self.bucket@,
    {
        self.bucket.as_str()
    }

    /// The server-side copy source of an object: the bucket and the key,
    /// separated by one `/`.
    pub fn copy_source(&self, file_name: &str) -> (r: String)
        ensures
            r@ == self.bucket@ + "/"@ + file_name@,
    {
        let mut r = self.bucket.clone();
        r.append("/");
        r.append(file_name);
        r
    }

    /// The plan of a server-side move: the copy source (`bucket/key`),
    /// the destination bucket — the segment of the destination path
    /// before its first separator — and the destination key, which keeps
    /// the original file name (the remainder of the destination path is
    /// discarded). A destination without a separator is a caller
    /// precondition violation, surfaced as a typed error.
    pub fn move_plan(&self, file_name: &str, ending_path: &str) -> (r: Result<
        (String, String, String),
        FileProviderError,
    >)
        ensures
            match r {
                Ok(plan) => has_separator(ending_path@) && plan.0@ == self.bucket@ + "/"@
                    + file_name@ && plan.1@ == first_segment(ending_path@) && plan.2@
                    == file_name@,
                Err(e) => !has_separator(ending_path@) && e@ == missing_separator_message(
                    ending_path@,
                ),
            },
    {
        let n = ending_path.unicode_len();
        let mut j: usize = 0;
        while j < n && ending_path.get_char(j) != '/'
            invariant
                j <= n,
                n == ending_path@.len(),
                forall|k: int| 0 <= k < j ==> ending_path@[k] != '/',
            decreases n - j,
        {
            j = j + 1;
        }
        if j == n {
            proof {
                assert(!has_separator(ending_path@));
            }
            return Err(FileProviderError::missing_separator(ending_path));
        }
        proof {
            assert(ending_path@[j as int] == '/');
            lemma_first_segment_take(ending_path@, j as int);
            assert(ending_path@.subrange(0, j as int) =~= ending_path@.take(j as int));
        }
        let dest_bucket = String::from_str(ending_path.substring_char(0, j));
        Ok((self.copy_source(file_name), dest_bucket, file_name.to_owned()))
    }

    /// The fully qualified display paths of a listing: each key prefixed
    /// with the bucket name and one separator.
    pub fn list_dir_paths(&self, entries: &Vec<FileEntry>) -> (r: Vec<String>)
        ensures
            r@.len() == entries@.len(),
            forall|k: int|
                0 <= k < entries@.len() ==> (#[trigger] r@[k])@ == self.bucket@ + "/"@
                    + entries@[k].name@,
    {
        let mut paths: Vec<String> = Vec::new();
        let n = entries.len();
        let mut i: usize = 0;
        while i < n
            invariant
                i <= n,
                n == entries@.len(),
                paths@.len() == i,
                forall|k: int|
                    0 <= k < i ==> (#[trigger] paths@[k])@ == self.bucket@ + "/"@
                        + entries@[k].name@,
            decreases n - i,
        {
            let e = &entries[i];
            paths.push(self.copy_source(e.name.as_str()));
            i = i + 1;
        }
        paths
    }

    /// Normalizes a raw object listing: a missing contents collection is
    /// an empty listing, never a fault.
    pub fn normalize_listing(contents: Option<Vec<FileEntry>>) -> (r: Vec<FileEntry>)
        ensures
            match contents {
                Some(v) => r == v,
                None => r@.len() == 0,
            },
    {
        match contents {
            Some(v) => v,
            None => Vec::new(),
        }
    }

    /// Builds a listing entry from one listed object's raw fields: an
    /// object without a key contributes no entry; a missing or negative
    /// declared size is read as zero.
    pub fn entry_from_object(key: Option<String>, size: Option<i64>) -> (r: Option<FileEntry>)
        ensures
            match key {
                Some(k) => r is Some && r.unwrap().name@ == k@ && r.unwrap().size
                    == declared_size(size),
                None => r is None,
            },
    {
        match key {
            None => None,
            Some(k) => {
                let s: u64 = match size {
                    Some(v) => if v >= 0 {
                        v as u64
                    } else {
                        0
                    },
                    None => 0,
                };
                Some(FileEntry { name: k, size: s })
            },
        }
    }
}

} // verus!
