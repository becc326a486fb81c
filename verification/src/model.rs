use vstd::prelude::*;

verus! {

/// A storage state as the capability contract sees it: an
/// insertion-ordered association of relative paths to byte contents,
/// together with the set of directories created so far. Listing order is
/// the order in which paths were first written; a path occurs at most once.
#[verifier::ext_equal]
pub struct StorageModel {
    pub files: Seq<(Seq<char>, Seq<u8>)>,
    pub dirs: Set<Seq<char>>,
}

/// Every stored path occurs at most once.
pub open spec fn wf_files(files: Seq<(Seq<char>, Seq<u8>)>) -> bool
    decreases files.len(),
{
    files.len() == 0 || (lookup(files.drop_first(), files[0].0) is None && wf_files(
        files.drop_first(),
    ))
}

/// The content stored at `path`, if any.
pub open spec fn lookup(files: Seq<(Seq<char>, Seq<u8>)>, path: Seq<char>) -> Option<Seq<u8>>
    decreases files.len(),
{
    if files.len() == 0 {
        None
    } else if files[0].0 == path {
        Some(files[0].1)
    } else {
        lookup(files.drop_first(), path)
    }
}

/// Stores `content` at `path`: overwrites in place if `path` is present,
/// appends otherwise.
pub open spec fn write_to(
    files: Seq<(Seq<char>, Seq<u8>)>,
    path: Seq<char>,
    content: Seq<u8>,
) -> Seq<(Seq<char>, Seq<u8>)>
    decreases files.len(),
{
    if files.len() == 0 {
        seq![(path, content)]
    } else if files[0].0 == path {
        seq![(path, content)] + files.drop_first()
    } else {
        seq![files[0]] + write_to(files.drop_first(), path, content)
    }
}

/// Removes the entry stored at `path`, if any.
pub open spec fn delete_from(files: Seq<(Seq<char>, Seq<u8>)>, path: Seq<char>) -> Seq<
    (Seq<char>, Seq<u8>),
>
    decreases files.len(),
{
    if files.len() == 0 {
        files
    } else if files[0].0 == path {
        files.drop_first()
    } else {
        seq![files[0]] + delete_from(files.drop_first(), path)
    }
}

/// The listing of a prefix: name and byte size of every stored entry
/// whose path begins with `prefix`, in storage order.
pub open spec fn listing(files: Seq<(Seq<char>, Seq<u8>)>, prefix: Seq<char>) -> Seq<
    (Seq<char>, nat),
>
    decreases files.len(),
{
    if files.len() == 0 {
        Seq::empty()
    } else {
        let rest = listing(files.drop_first(), prefix);
        if prefix.is_prefix_of(files[0].0) {
            seq![(files[0].0, files[0].1.len())] + rest
        } else {
            rest
        }
    }
}

impl StorageModel {
    /// A freshly initialized store: no files, no directories.
    pub open spec fn empty() -> StorageModel {
        StorageModel { files: Seq::empty(), dirs: Set::empty() }
    }

    /// Paths are unique.
    pub open spec fn wf(self) -> bool {
        wf_files(self.files)
    }

    /// The content at `path`, if any.
    pub open spec fn read(self, path: Seq<char>) -> Option<Seq<u8>> {
        lookup(self.files, path)
    }

    /// The state after storing `content` at `path` (overwrite semantics).
    pub open spec fn write(self, path: Seq<char>, content: Seq<u8>) -> StorageModel {
        StorageModel { files: write_to(self.files, path, content), dirs: self.dirs }
    }

    /// The state after removing the entry at `path`.
    pub open spec fn delete(self, path: Seq<char>) -> StorageModel {
        StorageModel { files: delete_from(self.files, path), dirs: self.dirs }
    }

    /// The state after creating the directory `path`; creating it again
    /// changes nothing.
    pub open spec fn create_dir(self, path: Seq<char>) -> StorageModel {
        StorageModel { files: self.files, dirs: self.dirs.insert(path) }
    }

    /// The listing under `prefix`.
    pub open spec fn read_dir(self, prefix: Seq<char>) -> Seq<(Seq<char>, nat)> {
        listing(self.files, prefix)
    }

    /// The state after copying the entry at `src` to `dst` and, when
    /// `delete` is set, removing the source: a move when `delete` holds,
    /// a copy otherwise. Meaningful only when `src` is present.
    pub open spec fn move_file(self, src: Seq<char>, dst: Seq<char>, delete: bool) -> StorageModel {
        let copied = self.write(dst, self.read(src).unwrap());
        if delete {
            copied.delete(src)
        } else {
            copied
        }
    }
}

pub proof fn lemma_lookup_write_same(
    files: Seq<(Seq<char>, Seq<u8>)>,
    path: Seq<char>,
    content: Seq<u8>,
)
    ensures
        lookup(write_to(files, path, content), path) == Some(content),
    decreases files.len(),
{
    if files.len() == 0 {
        assert(write_to(files, path, content)[0] == (path, content));
    } else if files[0].0 == path {
        assert(write_to(files, path, content)[0] == (path, content));
    } else {
        let w = write_to(files.drop_first(), path, content);
        assert((seq![files[0]] + w).drop_first() =~= w);
        lemma_lookup_write_same(files.drop_first(), path, content);
    }
}

pub proof fn lemma_lookup_write_other(
    files: Seq<(Seq<char>, Seq<u8>)>,
    path: Seq<char>,
    content: Seq<u8>,
    other: Seq<char>,
)
    requires
        other != path,
    ensures
        lookup(write_to(files, path, content), other) == lookup(files, other),
    decreases files.len(),
{
    reveal_with_fuel(lookup, 3);
    if files.len() == 0 {
        let w = write_to(files, path, content);
        assert(w[0] == (path, content));
        assert(w.drop_first() =~= Seq::<(Seq<char>, Seq<u8>)>::empty());
    } else if files[0].0 == path {
        let w = write_to(files, path, content);
        assert(w[0] == (path, content));
        assert(w.drop_first() =~= files.drop_first());
    } else {
        let w = write_to(files.drop_first(), path, content);
        assert((seq![files[0]] + w)[0] == files[0]);
        assert((seq![files[0]] + w).drop_first() =~= w);
        lemma_lookup_write_other(files.drop_first(), path, content, other);
    }
}

pub proof fn lemma_write_wf(files: Seq<(Seq<char>, Seq<u8>)>, path: Seq<char>, content: Seq<u8>)
    requires
        wf_files(files),
    ensures
        wf_files(write_to(files, path, content)),
    decreases files.len(),
{
    reveal_with_fuel(lookup, 3);
    reveal_with_fuel(wf_files, 3);
    if files.len() == 0 {
        let w = write_to(files, path, content);
        assert(w[0] == (path, content));
        assert(w.drop_first() =~= Seq::<(Seq<char>, Seq<u8>)>::empty());
    } else if files[0].0 == path {
        let w = write_to(files, path, content);
        assert(w[0] == (path, content));
        assert(w.drop_first() =~= files.drop_first());
    } else {
        let w = write_to(files.drop_first(), path, content);
        lemma_write_wf(files.drop_first(), path, content);
        lemma_lookup_write_other(files.drop_first(), path, content, files[0].0);
        assert((seq![files[0]] + w)[0] == files[0]);
        assert((seq![files[0]] + w).drop_first() =~= w);
    }
}

pub proof fn lemma_lookup_found(files: Seq<(Seq<char>, Seq<u8>)>, path: Seq<char>, i: int)
    requires
        0 <= i < files.len(),
        files[i].0 == path,
        forall|k: int| 0 <= k < i ==> (#[trigger] files[k]).0 != path,
    ensures
        lookup(files, path) == Some(files[i].1),
    decreases i,
{
    if i > 0 {
        assert forall|k: int| 0 <= k < i - 1 implies (#[trigger] files.drop_first()[k]).0
            != path by {
            assert(files.drop_first()[k] == files[k + 1]);
        }
        assert(files.drop_first()[i - 1] == files[i]);
        lemma_lookup_found(files.drop_first(), path, i - 1);
    }
}

pub proof fn lemma_lookup_absent(files: Seq<(Seq<char>, Seq<u8>)>, path: Seq<char>)
    requires
        forall|k: int| 0 <= k < files.len() ==> (#[trigger] files[k]).0 != path,
    ensures
        lookup(files, path) is None,
    decreases files.len(),
{
    if files.len() > 0 {
        assert forall|k: int| 0 <= k < files.drop_first().len() implies (#[trigger] files.drop_first()[k]).0
            != path by {
            assert(files.drop_first()[k] == files[k + 1]);
        }
        lemma_lookup_absent(files.drop_first(), path);
    }
}

pub proof fn lemma_write_found(
    files: Seq<(Seq<char>, Seq<u8>)>,
    path: Seq<char>,
    content: Seq<u8>,
    i: int,
)
    requires
        0 <= i < files.len(),
        files[i].0 == path,
        forall|k: int| 0 <= k < i ==> (#[trigger] files[k]).0 != path,
    ensures
        write_to(files, path, content) == files.update(i, (path, content)),
    decreases i,
{
    if i == 0 {
        assert(seq![(path, content)] + files.drop_first() =~= files.update(0, (path, content)));
    } else {
        assert forall|k: int| 0 <= k < i - 1 implies (#[trigger] files.drop_first()[k]).0
            != path by {
            assert(files.drop_first()[k] == files[k + 1]);
        }
        assert(files.drop_first()[i - 1] == files[i]);
        lemma_write_found(files.drop_first(), path, content, i - 1);
        assert(seq![files[0]] + files.drop_first().update(i - 1, (path, content)) =~= files.update(
            i,
            (path, content),
        ));
    }
}

pub proof fn lemma_delete_found(files: Seq<(Seq<char>, Seq<u8>)>, path: Seq<char>, i: int)
    requires
        0 <= i < files.len(),
        files[i].0 == path,
        forall|k: int| 0 <= k < i ==> (#[trigger] files[k]).0 != path,
    ensures
        delete_from(files, path) == files.remove(i),
    decreases i,
{
    if i == 0 {
        assert(files.drop_first() =~= files.remove(0));
    } else {
        assert forall|k: int| 0 <= k < i - 1 implies (#[trigger] files.drop_first()[k]).0
            != path by {
            assert(files.drop_first()[k] == files[k + 1]);
        }
        assert(files.drop_first()[i - 1] == files[i]);
        lemma_delete_found(files.drop_first(), path, i - 1);
        assert(seq![files[0]] + files.drop_first().remove(i - 1) =~= files.remove(i));
    }
}

pub proof fn lemma_lookup_snoc(
    files: Seq<(Seq<char>, Seq<u8>)>,
    entry: (Seq<char>, Seq<u8>),
    path: Seq<char>,
)
    ensures
        lookup(files + seq![entry], path) == (if lookup(files, path) is Some {
            lookup(files, path)
        } else if entry.0 == path {
            Some(entry.1)
        } else {
            None::<Seq<u8>>
        }),
    decreases files.len(),
{
    reveal_with_fuel(lookup, 3);
    if files.len() == 0 {
        assert(files + seq![entry] =~= seq![entry]);
        assert(seq![entry].drop_first() =~= Seq::<(Seq<char>, Seq<u8>)>::empty());
    } else {
        assert((files + seq![entry])[0] == files[0]);
        assert((files + seq![entry]).drop_first() =~= files.drop_first() + seq![entry]);
        lemma_lookup_snoc(files.drop_first(), entry, path);
    }
}

pub proof fn lemma_write_fresh_appends(
    files: Seq<(Seq<char>, Seq<u8>)>,
    path: Seq<char>,
    content: Seq<u8>,
)
    requires
        lookup(files, path) is None,
    ensures
        write_to(files, path, content) == files + seq![(path, content)],
    decreases files.len(),
{
    if files.len() == 0 {
        assert(write_to(files, path, content) =~= files + seq![(path, content)]);
    } else {
        lemma_write_fresh_appends(files.drop_first(), path, content);
        assert(seq![files[0]] + (files.drop_first() + seq![(path, content)]) =~= files + seq![
            (path, content),
        ]);
    }
}

pub proof fn lemma_listing_snoc(
    files: Seq<(Seq<char>, Seq<u8>)>,
    prefix: Seq<char>,
    path: Seq<char>,
    content: Seq<u8>,
)
    ensures
        listing(files + seq![(path, content)], prefix) == (if prefix.is_prefix_of(path) {
            listing(files, prefix) + seq![(path, content.len())]
        } else {
            listing(files, prefix)
        }),
    decreases files.len(),
{
    reveal_with_fuel(listing, 3);
    if files.len() == 0 {
        assert(files + seq![(path, content)] =~= seq![(path, content)]);
        assert(seq![(path, content)].drop_first() =~= Seq::<(Seq<char>, Seq<u8>)>::empty());
        if prefix.is_prefix_of(path) {
            assert(seq![(path, content.len())] + Seq::<(Seq<char>, nat)>::empty() =~= listing(
                files,
                prefix,
            ) + seq![(path, content.len())]);
        }
    } else {
        assert((files + seq![(path, content)])[0] == files[0]);
        assert((files + seq![(path, content)]).drop_first() =~= files.drop_first() + seq![
            (path, content),
        ]);
        lemma_listing_snoc(files.drop_first(), prefix, path, content);
        let head = seq![(files[0].0, files[0].1.len())];
        let rest = listing(files.drop_first(), prefix);
        if prefix.is_prefix_of(files[0].0) && prefix.is_prefix_of(path) {
            assert(head + (rest + seq![(path, content.len())]) =~= (head + rest) + seq![
                (path, content.len()),
            ]);
        }
    }
}

pub proof fn lemma_lookup_delete_same(files: Seq<(Seq<char>, Seq<u8>)>, path: Seq<char>)
    requires
        wf_files(files),
    ensures
        lookup(delete_from(files, path), path) is None,
    decreases files.len(),
{
    if files.len() == 0 {
    } else if files[0].0 == path {
    } else {
        let d = delete_from(files.drop_first(), path);
        assert((seq![files[0]] + d).drop_first() =~= d);
        lemma_lookup_delete_same(files.drop_first(), path);
    }
}

pub proof fn lemma_lookup_delete_other(
    files: Seq<(Seq<char>, Seq<u8>)>,
    path: Seq<char>,
    other: Seq<char>,
)
    requires
        other != path,
    ensures
        lookup(delete_from(files, path), other) == lookup(files, other),
    decreases files.len(),
{
    if files.len() == 0 {
    } else if files[0].0 == path {
    } else {
        let d = delete_from(files.drop_first(), path);
        assert((seq![files[0]] + d).drop_first() =~= d);
        lemma_lookup_delete_other(files.drop_first(), path, other);
    }
}

pub proof fn lemma_delete_wf(files: Seq<(Seq<char>, Seq<u8>)>, path: Seq<char>)
    requires
        wf_files(files),
    ensures
        wf_files(delete_from(files, path)),
    decreases files.len(),
{
    if files.len() == 0 {
    } else if files[0].0 == path {
    } else {
        let d = delete_from(files.drop_first(), path);
        lemma_delete_wf(files.drop_first(), path);
        lemma_lookup_delete_other(files.drop_first(), path, files[0].0);
        assert((seq![files[0]] + d).drop_first() =~= d);
    }
}

} // verus!
