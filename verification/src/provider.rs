use vstd::prelude::*;
use vstd::string::StrSliceExecFns;
use vstd::string::StringSliceAdditionalSpecFns;

use crate::entry::FileEntry;
use crate::error::not_found_message;
use crate::error::FileProviderError;
use crate::model::lemma_delete_found;
use crate::model::lemma_delete_wf;
use crate::model::lemma_listing_snoc;
use crate::model::lemma_lookup_absent;
use crate::model::lemma_lookup_found;
use crate::model::lemma_lookup_write_other;
use crate::model::lemma_lookup_write_same;
use crate::model::lemma_write_found;
use crate::model::lemma_write_fresh_appends;
use crate::model::lemma_write_wf;
use crate::model::listing;
use crate::model::wf_files;
use crate::model::StorageModel;
use crate::path::has_prefix;
use crate::path::join_path;
use crate::path::join_spec;

verus! {

/// The storage capability: the single polymorphic contract every backend
/// must satisfy, stated against the abstract [`StorageModel`]. A provider
/// is identified by one fixed base location; all relative paths handed to
/// its operations are interpreted against that location, and every failure
/// is surfaced as the shared [`FileProviderError`].
pub trait FileProvider {
    /// The abstract storage state behind the provider.
    spec fn storage(&self) -> StorageModel;

    /// The provider's fixed base identity: its root path or bucket name.
    spec fn base_spec(&self) -> Seq<char>;

    /// The provider's internal invariant.
    spec fn inv(&self) -> bool;

    /// A valid provider always presents a well-formed store.
    proof fn storage_wf(&self)
        requires
            self.inv(),
        ensures
            self.storage().wf(),
    ;

    /// Stores text `content` at `path`, creating the file if absent and
    /// overwriting it otherwise.
    fn write(&mut self, path: &str, content: &str) -> (r: Result<(), FileProviderError>)
        requires
            old(self).inv(),
        ensures
            final(self).inv(),
            final(self).base_spec() == old(self).base_spec(),
            r is Ok,
            final(self).storage() == old(self).storage().write(path@, content.spec_bytes()),
    ;

    /// Stores raw byte `contents` at `path`; binary-safe overwrite
    /// semantics, creating the file if absent.
    fn write_file(&mut self, path: String, contents: Vec<u8>) -> (r: Result<
        (),
        FileProviderError,
    >)
        requires
            old(self).inv(),
        ensures
            final(self).inv(),
            final(self).base_spec() == old(self).base_spec(),
            r is Ok,
            final(self).storage() == old(self).storage().write(path@, contents@),
    ;

    /// Reads the bytes stored at `path`. Succeeds exactly when `path` is
    /// present; an absent path yields a not-found error naming it.
    fn read_file_buffer(&self, path: &str) -> (r: Result<Vec<u8>, FileProviderError>)
        requires
            self.inv(),
        ensures
            match r {
                Ok(data) => self.storage().read(path@) == Some(data@),
                Err(e) => self.storage().read(path@) is None && e@ == not_found_message(path@),
            },
    ;

    /// Removes the file at `path`. Succeeds exactly when `path` is
    /// present; an absent path yields a not-found error naming it.
    fn delete_file(&mut self, path: &str) -> (r: Result<(), FileProviderError>)
        requires
            old(self).inv(),
        ensures
            final(self).inv(),
            final(self).base_spec() == old(self).base_spec(),
            match r {
                Ok(_) => old(self).storage().read(path@) is Some && final(self).storage() == old(
                    self,
                ).storage().delete(path@),
                Err(e) => old(self).storage().read(path@) is None && final(self).storage() == old(
                    self,
                ).storage() && e@ == not_found_message(path@),
            },
    ;

    /// Lists every stored entry whose path begins with `path`, in storage
    /// order, with its byte size.
    fn read_dir(&self, path: &str) -> (r: Result<Vec<FileEntry>, FileProviderError>)
        requires
            self.inv(),
        ensures
            r is Ok,
            ({
                let l = self.storage().read_dir(path@);
                match r {
                    Ok(entries) => entries@.len() == l.len() && forall|k: int|
                        0 <= k < l.len() ==> (#[trigger] entries@[k]).name@ == l[k].0
                            && entries@[k].size as nat == l[k].1,
                    Err(_) => false,
                }
            }),
    ;

    /// The listing under `path`, each entry name joined to the provider's
    /// base identity to form a fully qualified display path.
    fn list_dir(&self, path: &str) -> (r: Result<Vec<String>, FileProviderError>)
        requires
            self.inv(),
        ensures
            r is Ok,
            ({
                let l = self.storage().read_dir(path@);
                match r {
                    Ok(paths) => paths@.len() == l.len() && forall|k: int|
                        0 <= k < l.len() ==> (#[trigger] paths@[k])@ == join_spec(
                            self.base_spec(),
                            l[k].0,
                        ),
                    Err(_) => false,
                }
            }),
    ;

    /// Records the directory `path`. Idempotent: an already existing
    /// directory is not an error, so this operation never fails.
    fn create_dir(&mut self, path: &str) -> (r: Result<(), FileProviderError>)
        requires
            old(self).inv(),
        ensures
            final(self).inv(),
            final(self).base_spec() == old(self).base_spec(),
            r is Ok,
            final(self).storage() == old(self).storage().create_dir(path@),
    ;

    /// Copies the file at `file_path` to `ending_path`; when `delete` is
    /// set the source is removed afterwards, making the copy a move.
    /// Succeeds exactly when the source is present; an absent source
    /// yields a not-found error naming it and leaves the store unchanged.
    fn move_file(&mut self, file_path: &str, ending_path: &str, delete: bool) -> (r: Result<
        (),
        FileProviderError,
    >)
        requires
            old(self).inv(),
        ensures
            final(self).inv(),
            final(self).base_spec() == old(self).base_spec(),
            match r {
                Ok(_) => old(self).storage().read(file_path@) is Some && final(self).storage()
                    == old(self).storage().move_file(file_path@, ending_path@, delete),
                Err(e) => old(self).storage().read(file_path@) is None && final(self).storage()
                    == old(self).storage() && e@ == not_found_message(file_path@),
            },
    ;

    /// The provider's base identity string; synchronous and infallible.
    fn get_base_path(&self) -> (r: &str)
        requires
            self.inv(),
        ensures
            r@ == self.base_spec(),
    ;
}

/// Copies a byte buffer element by element.
fn copy_bytes(v: &Vec<u8>) -> (r: Vec<u8>)
    ensures
        r@ == v@,
{
    let mut r: Vec<u8> = Vec::new();
    let mut i: usize = 0;
    while i < v.len()
        invariant
            i <= v.len(),
            r@ == v@.take(i as int),
        decreases v.len() - i,
    {
        r.push(v[i]);
        proof {
            assert(v@.take(i + 1 as int) =~= v@.take(i as int).push(v@[i as int]));
        }
        i = i + 1;
    }
    proof {
        assert(v@.take(v@.len() as int) =~= v@);
    }
    r
}

/// An in-memory reference backend: the smallest provider that provably
/// satisfies the capability, and the test double callers can substitute
/// for a concrete backend. Files live in an insertion-ordered vector of
/// path/content pairs with unique paths.
pub struct MemoryFileProvider {
    base: String,
    files: Vec<(String, Vec<u8>)>,
    dirs: Vec<String>,
}

impl MemoryFileProvider {
    /// The stored files, as the model sees them.
    closed spec fn files_view(&self) -> Seq<(Seq<char>, Seq<u8>)> {
        self.files@.map_values(|kv: (String, Vec<u8>)| (kv.0@, kv.1@))
    }

    /// The recorded directories, as the model sees them.
    closed spec fn dirs_view(&self) -> Set<Seq<char>> {
        self.dirs@.map_values(|d: String| d@).to_set()
    }

    /// A fresh provider rooted at `base`, holding no files and no
    /// directories.
    pub fn new(base: String) -> (p: MemoryFileProvider)
        ensures
            p.inv(),
            p.base_spec() == base@,
            p.storage() == StorageModel::empty(),
    {
        let p = MemoryFileProvider { base, files: Vec::new(), dirs: Vec::new() };
        proof {
            assert(p.files_view() =~= Seq::<(Seq<char>, Seq<u8>)>::empty());
            assert forall|x: Seq<char>| !(#[trigger] p.dirs_view().contains(x)) by {
                assert(!p.dirs@.map_values(|d: String| d@).contains(x));
            }
            assert(p.dirs_view() =~= Set::<Seq<char>>::empty());
            assert(p.storage() =~= StorageModel::empty());
        }
        p
    }

    /// The position of `path` among the stored files, if present; the
    /// scan reports the first match and rules out every earlier slot.
    fn find_index(&self, path: &str) -> (r: Option<usize>)
        ensures
            match r {
                Some(i) => 0 <= i < self.files_view().len() && self.files_view()[i as int].0
                    == path@ && forall|k: int|
                    0 <= k < i ==> (#[trigger] self.files_view()[k]).0 != path@,
                None => forall|k: int|
                    0 <= k < self.files_view().len() ==> (#[trigger] self.files_view()[k]).0
                        != path@,
            },
    {
        let p = path.to_owned();
        let n = self.files.len();
        let mut i: usize = 0;
        while i < n
            invariant
                i <= n,
                n == self.files@.len(),
                p@ == path@,
                forall|k: int| 0 <= k < i ==> (#[trigger] self.files_view()[k]).0 != path@,
            decreases n - i,
        {
            let kv = &self.files[i];
            if kv.0 == p {
                return Some(i);
            }
            i = i + 1;
        }
        None
    }
}

impl FileProvider for MemoryFileProvider {
    closed spec fn storage(&self) -> StorageModel {
        StorageModel { files: self.files_view(), dirs: self.dirs_view() }
    }

    closed spec fn base_spec(&self) -> Seq<char> {
        self.base@
    }

    closed spec fn inv(&self) -> bool {
        wf_files(self.files_view())
    }

    proof fn storage_wf(&self) {
    }

    fn write(&mut self, path: &str, content: &str) -> (r: Result<(), FileProviderError>) {
        let bytes = content.as_bytes_vec();
        self.write_file(path.to_owned(), bytes)
    }

    fn write_file(&mut self, path: String, contents: Vec<u8>) -> (r: Result<
        (),
        FileProviderError,
    >) {
        let ghost s0 = *self;
        match self.find_index(path.as_str()) {
            Some(i) => {
                let ghost pv = path@;
                let ghost cv = contents@;
                self.files.set(i, (path, contents));
                proof {
                    lemma_write_found(s0.files_view(), pv, cv, i as int);
                    assert(self.files_view() =~= s0.files_view().update(i as int, (pv, cv)));
                    lemma_write_wf(s0.files_view(), pv, cv);
                    assert(self.storage() =~= s0.storage().write(pv, cv));
                }
            },
            None => {
                let ghost pv = path@;
                let ghost cv = contents@;
                self.files.push((path, contents));
                proof {
                    lemma_lookup_absent(s0.files_view(), pv);
                    lemma_write_fresh_appends(s0.files_view(), pv, cv);
                    assert(self.files_view() =~= s0.files_view() + seq![(pv, cv)]);
                    lemma_write_wf(s0.files_view(), pv, cv);
                    assert(self.storage() =~= s0.storage().write(pv, cv));
                }
            },
        }
        Ok(())
    }

    fn read_file_buffer(&self, path: &str) -> (r: Result<Vec<u8>, FileProviderError>) {
        match self.find_index(path) {
            Some(i) => {
                let data = copy_bytes(&self.files[i].1);
                proof {
                    lemma_lookup_found(self.files_view(), path@, i as int);
                }
                Ok(data)
            },
            None => {
                proof {
                    lemma_lookup_absent(self.files_view(), path@);
                }
                Err(FileProviderError::not_found(path))
            },
        }
    }

    fn delete_file(&mut self, path: &str) -> (r: Result<(), FileProviderError>) {
        let ghost s0 = *self;
        match self.find_index(path) {
            Some(i) => {
                self.files.remove(i);
                proof {
                    lemma_lookup_found(s0.files_view(), path@, i as int);
                    lemma_delete_found(s0.files_view(), path@, i as int);
                    assert(self.files_view() =~= s0.files_view().remove(i as int));
                    lemma_delete_wf(s0.files_view(), path@);
                    assert(self.storage() =~= s0.storage().delete(path@));
                }
                Ok(())
            },
            None => {
                proof {
                    lemma_lookup_absent(s0.files_view(), path@);
                }
                Err(FileProviderError::not_found(path))
            },
        }
    }

    fn read_dir(&self, path: &str) -> (r: Result<Vec<FileEntry>, FileProviderError>) {
        let mut entries: Vec<FileEntry> = Vec::new();
        let n = self.files.len();
        let mut i: usize = 0;
        while i < n
            invariant
                i <= n,
                n == self.files@.len(),
                ({
                    let li = listing(self.files_view().take(i as int), path@);
                    entries@.len() == li.len() && forall|k: int|
                        0 <= k < li.len() ==> (#[trigger] entries@[k]).name@ == li[k].0
                            && entries@[k].size as nat == li[k].1
                }),
            decreases n - i,
        {
            let ghost before = listing(self.files_view().take(i as int), path@);
            let kv = &self.files[i];
            if has_prefix(kv.0.as_str(), path) {
                let name = kv.0.clone();
                let size = kv.1.len() as u64;
                entries.push(FileEntry { name, size });
            }
            proof {
                assert(self.files_view().take(i + 1 as int) =~= self.files_view().take(
                    i as int,
                ).push(self.files_view()[i as int]));
                assert(self.files_view().take(i as int).push(self.files_view()[i as int])
                    =~= self.files_view().take(i as int) + seq![self.files_view()[i as int]]);
                lemma_listing_snoc(
                    self.files_view().take(i as int),
                    path@,
                    self.files_view()[i as int].0,
                    self.files_view()[i as int].1,
                );
            }
            i = i + 1;
        }
        proof {
            assert(self.files_view().take(n as int) =~= self.files_view());
        }
        Ok(entries)
    }

    fn list_dir(&self, path: &str) -> (r: Result<Vec<String>, FileProviderError>) {
        let entries = match self.read_dir(path) {
            Ok(entries) => entries,
            Err(e) => { return Err(e) },
        };
        let ghost l = self.storage().read_dir(path@);
        let mut paths: Vec<String> = Vec::new();
        let n = entries.len();
        let mut i: usize = 0;
        while i < n
            invariant
                i <= n,
                n == entries@.len(),
                entries@.len() == l.len(),
                forall|k: int|
                    0 <= k < l.len() ==> (#[trigger] entries@[k]).name@ == l[k].0,
                paths@.len() == i,
                forall|k: int|
                    0 <= k < i ==> (#[trigger] paths@[k])@ == join_spec(self.base_spec(), l[k].0),
            decreases n - i,
        {
            let e = &entries[i];
            paths.push(join_path(self.base.as_str(), e.name.as_str()));
            i = i + 1;
        }
        Ok(paths)
    }

    fn create_dir(&mut self, path: &str) -> (r: Result<(), FileProviderError>) {
        let ghost s0 = *self;
        self.dirs.push(path.to_owned());
        proof {
            let f = |d: String| d@;
            assert(self.dirs@.map_values(f) =~= s0.dirs@.map_values(f).push(path@));
            s0.dirs@.map_values(f).lemma_push_to_set_commute(path@);
            assert(self.dirs_view() =~= s0.dirs_view().insert(path@));
            assert(self.storage() =~= s0.storage().create_dir(path@));
        }
        Ok(())
    }

    fn move_file(&mut self, file_path: &str, ending_path: &str, delete: bool) -> (r: Result<
        (),
        FileProviderError,
    >) {
        let ghost s0 = *self;
        let content = match self.read_file_buffer(file_path) {
            Ok(content) => content,
            Err(e) => { return Err(e) },
        };
        let ghost cv = content@;
        let _ = self.write_file(ending_path.to_owned(), content);
        proof {
            if file_path@ == ending_path@ {
                lemma_lookup_write_same(s0.files_view(), ending_path@, cv);
            } else {
                lemma_lookup_write_other(s0.files_view(), ending_path@, cv, file_path@);
            }
        }
        if delete {
            let removed = self.delete_file(file_path);
            match removed {
                Ok(_) => Ok(()),
                Err(_) => {
                    proof {
                        assert(false);
                    }
                    Ok(())
                },
            }
        } else {
            Ok(())
        }
    }

    fn get_base_path(&self) -> (r: &str) {
        self.base.as_str()
    }
}

} // verus!
