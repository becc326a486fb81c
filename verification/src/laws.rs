use vstd::prelude::*;

use crate::model::lemma_delete_wf;
use crate::model::lemma_listing_snoc;
use crate::model::lemma_lookup_delete_other;
use crate::model::lemma_lookup_delete_same;
use crate::model::lemma_lookup_snoc;
use crate::model::lemma_lookup_write_other;
use crate::model::lemma_lookup_write_same;
use crate::model::lemma_write_fresh_appends;
use crate::model::lemma_write_wf;
use crate::model::write_to;
use crate::model::StorageModel;

verus! {

/// Creating a directory is idempotent: creating the same directory a
/// second time changes nothing, so the second call can never fail.
pub proof fn lemma_create_dir_idempotent(s: StorageModel, path: Seq<char>)
    ensures
        s.create_dir(path).create_dir(path) == s.create_dir(path),
{
    assert(s.dirs.insert(path).insert(path) =~= s.dirs.insert(path));
    assert(s.create_dir(path).create_dir(path) =~= s.create_dir(path));
}

/// Write/read round trip: after storing `content` at `path`, reading
/// `path` yields exactly `content`, byte for byte.
pub proof fn lemma_write_read_round_trip(s: StorageModel, path: Seq<char>, content: Seq<u8>)
    ensures
        s.write(path, content).read(path) == Some(content),
{
    lemma_lookup_write_same(s.files, path, content);
}

/// The state after performing a batch of writes, in order.
pub open spec fn write_all(s: StorageModel, writes: Seq<(Seq<char>, Seq<u8>)>) -> StorageModel
    decreases writes.len(),
{
    if writes.len() == 0 {
        s
    } else {
        write_all(s.write(writes[0].0, writes[0].1), writes.drop_first())
    }
}

/// The listing entry a stored file contributes: its path and byte size.
pub open spec fn entry_of(w: (Seq<char>, Seq<u8>)) -> (Seq<char>, nat) {
    (w.0, w.1.len())
}

/// Listing completeness: after writing a batch of distinct, previously
/// absent paths that all begin with `prefix`, listing `prefix` returns
/// the earlier listing followed by exactly one entry per written file,
/// whose size is the written content's length.
pub proof fn lemma_listing_complete(
    s: StorageModel,
    writes: Seq<(Seq<char>, Seq<u8>)>,
    prefix: Seq<char>,
)
    requires
        forall|i: int| 0 <= i < writes.len() ==> s.read(#[trigger] writes[i].0) is None,
        forall|i: int, j: int|
            0 <= i < j < writes.len() ==> #[trigger] writes[i].0 != #[trigger] writes[j].0,
        forall|i: int| 0 <= i < writes.len() ==> prefix.is_prefix_of(#[trigger] writes[i].0),
    ensures
        write_all(s, writes).read_dir(prefix) == s.read_dir(prefix) + writes.map_values(
            |w: (Seq<char>, Seq<u8>)| entry_of(w),
        ),
    decreases writes.len(),
{
    let f = |w: (Seq<char>, Seq<u8>)| entry_of(w);
    if writes.len() == 0 {
        assert(writes.map_values(f) =~= Seq::<(Seq<char>, nat)>::empty());
        assert(s.read_dir(prefix) + writes.map_values(f) =~= s.read_dir(prefix));
    } else {
        let w0 = writes[0];
        let rest = writes.drop_first();
        let s1 = s.write(w0.0, w0.1);
        lemma_write_fresh_appends(s.files, w0.0, w0.1);
        lemma_listing_snoc(s.files, prefix, w0.0, w0.1);
        assert forall|i: int| 0 <= i < rest.len() implies s1.read(#[trigger] rest[i].0) is None by {
            assert(rest[i] == writes[i + 1]);
            assert(writes[0].0 != writes[i + 1].0);
            lemma_lookup_snoc(s.files, (w0.0, w0.1), rest[i].0);
        }
        assert forall|i: int, j: int|
            0 <= i < j < rest.len() implies #[trigger] rest[i].0 != #[trigger] rest[j].0 by {
            assert(rest[i] == writes[i + 1]);
            assert(rest[j] == writes[j + 1]);
        }
        assert forall|i: int| 0 <= i < rest.len() implies prefix.is_prefix_of(
            #[trigger] rest[i].0,
        ) by {
            assert(rest[i] == writes[i + 1]);
        }
        lemma_listing_complete(s1, rest, prefix);
        assert(write_all(s, writes) == write_all(s1, rest));
        assert(writes.map_values(f) =~= seq![entry_of(w0)] + rest.map_values(f));
        assert(s.read_dir(prefix) + writes.map_values(f) =~= (s.read_dir(prefix) + seq![
            entry_of(w0),
        ]) + rest.map_values(f));
    }
}

/// Move semantics. Without the delete flag the operation is a copy: the
/// content is readable at the destination and still readable at the
/// source. With the delete flag set — and a destination distinct from the
/// source — the content is readable at the destination and the source is
/// gone.
pub proof fn lemma_move_semantics(s: StorageModel, src: Seq<char>, dst: Seq<char>)
    requires
        s.wf(),
        s.read(src) is Some,
    ensures
        s.move_file(src, dst, false).read(dst) == s.read(src),
        s.move_file(src, dst, false).read(src) == s.read(src),
        src != dst ==> s.move_file(src, dst, true).read(dst) == s.read(src),
        src != dst ==> s.move_file(src, dst, true).read(src) is None,
{
    let c = s.read(src).unwrap();
    lemma_lookup_write_same(s.files, dst, c);
    lemma_write_wf(s.files, dst, c);
    if src != dst {
        lemma_lookup_write_other(s.files, dst, c, src);
        lemma_lookup_delete_same(write_to(s.files, dst, c), src);
        lemma_lookup_delete_other(write_to(s.files, dst, c), src, dst);
    }
}

/// Every operation preserves well-formedness of the store.
pub proof fn lemma_ops_preserve_wf(s: StorageModel, path: Seq<char>, content: Seq<u8>)
    requires
        s.wf(),
    ensures
        s.write(path, content).wf(),
        s.delete(path).wf(),
        s.create_dir(path).wf(),
{
    lemma_write_wf(s.files, path, content);
    lemma_delete_wf(s.files, path);
}

} // verus!
