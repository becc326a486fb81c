use vstd::prelude::*;
use vstd::string::StrSliceExecFns;
use vstd::string::StringExecFns;

verus! {

/// `s` without its trailing `/` separators.
pub open spec fn strip_trailing(s: Seq<char>) -> Seq<char>
    decreases s.len(),
{
    if s.len() > 0 && s.last() == '/' {
        strip_trailing(s.drop_last())
    } else {
        s
    }
}

/// `s` without its leading `/` separators.
pub open spec fn strip_leading(s: Seq<char>) -> Seq<char>
    decreases s.len(),
{
    if s.len() > 0 && s.first() == '/' {
        strip_leading(s.drop_first())
    } else {
        s
    }
}

/// The one path-resolution rule of the abstraction: a relative path is
/// joined to a base by placing exactly one `/` between them, whatever
/// separators the caller supplied at the seam.
pub open spec fn join_spec(base: Seq<char>, rel: Seq<char>) -> Seq<char> {
    strip_trailing(base) + "/"@ + strip_leading(rel)
}

proof fn lemma_strip_trailing_of_sep_run(s: Seq<char>, i: int)
    requires
        0 <= i <= s.len(),
        forall|k: int| i <= k < s.len() ==> s[k] == '/',
    ensures
        strip_trailing(s) == strip_trailing(s.take(i)),
    decreases s.len() - i,
{
    if i < s.len() {
        assert(s.last() == '/');
        assert(s.drop_last() =~= s.take(s.len() - 1));
        lemma_strip_trailing_of_sep_run(s.take(s.len() - 1), i);
        assert(s.take(s.len() - 1).take(i) =~= s.take(i));
    } else {
        assert(s.take(i) =~= s);
    }
}

proof fn lemma_strip_leading_of_sep_run(s: Seq<char>, j: int)
    requires
        0 <= j <= s.len(),
        forall|k: int| 0 <= k < j ==> s[k] == '/',
    ensures
        strip_leading(s) == strip_leading(s.skip(j)),
    decreases j,
{
    if j > 0 {
        assert(s.first() == '/');
        assert(s.drop_first() =~= s.skip(1));
        lemma_strip_leading_of_sep_run(s.skip(1), j - 1);
        assert(s.skip(1).skip(j - 1) =~= s.skip(j));
    } else {
        assert(s.skip(0) =~= s);
    }
}

/// Joins `rel` to `base` with exactly one separator between them: the
/// result is `base`, stripped of trailing separators, then one `/`, then
/// `rel` stripped of leading separators.
pub fn join_path(base: &str, rel: &str) -> (r: String)
    ensures
        r@ == join_spec(base@, rel@),
{
    let base_len = base.unicode_len();
    let mut i: usize = base_len;
    while i > 0 && base.get_char(i - 1) == '/'
        invariant
            i <= base_len,
            base_len == base@.len(),
            forall|k: int| i <= k < base@.len() ==> base@[k] == '/',
        decreases i,
    {
        i = i - 1;
    }
    proof {
        lemma_strip_trailing_of_sep_run(base@, i as int);
        if i > 0 {
            assert(base@.take(i as int).last() == base@[i as int - 1]);
        }
        assert(strip_trailing(base@.take(i as int)) == base@.take(i as int));
    }
    let rel_len = rel.unicode_len();
    let mut j: usize = 0;
    while j < rel_len && rel.get_char(j) == '/'
        invariant
            j <= rel_len,
            rel_len == rel@.len(),
            forall|k: int| 0 <= k < j ==> rel@[k] == '/',
        decreases rel_len - j,
    {
        j = j + 1;
    }
    proof {
        lemma_strip_leading_of_sep_run(rel@, j as int);
        if j < rel_len {
            assert(rel@.skip(j as int).first() == rel@[j as int]);
        }
        assert(strip_leading(rel@.skip(j as int)) == rel@.skip(j as int));
    }
    let head = base.substring_char(0, i);
    let tail = rel.substring_char(j, rel_len);
    let mut r = String::from_str(head);
    r.append("/");
    r.append(tail);
    proof {
        assert(base@.subrange(0, i as int) =~= base@.take(i as int));
        assert(rel@.subrange(j as int, rel_len as int) =~= rel@.skip(j as int));
    }
    r
}

/// Decides whether `prefix` is a prefix of `s`, character by character.
pub fn has_prefix(s: &str, prefix: &str) -> (r: bool)
    ensures
        r == prefix@.is_prefix_of(s@),
{
    let n = prefix.unicode_len();
    let m = s.unicode_len();
    if n > m {
        return false;
    }
    let mut i: usize = 0;
    while i < n
        invariant
            0 <= i <= n <= m,
            n == prefix@.len(),
            m == s@.len(),
            forall|k: int| 0 <= k < i ==> prefix@[k] == s@[k],
        decreases n - i,
    {
        if s.get_char(i) != prefix.get_char(i) {
            proof {
                if prefix@.is_prefix_of(s@) {
                    assert(prefix@ =~= s@.subrange(0, n as int));
                    assert(prefix@[i as int] == s@.subrange(0, n as int)[i as int]);
                }
            }
            return false;
        }
        i = i + 1;
    }
    proof {
        assert(prefix@ =~= s@.subrange(0, n as int));
    }
    true
}

/// Extra trailing separators on the base do not change the join.
pub proof fn lemma_join_tolerates_base_sep(base: Seq<char>, rel: Seq<char>)
    ensures
        join_spec(base + "/"@, rel) == join_spec(base, rel),
{
    reveal_strlit("/");
    assert((base + "/"@).last() == '/');
    assert((base + "/"@).drop_last() =~= base);
}

/// Extra leading separators on the relative path do not change the join.
pub proof fn lemma_join_tolerates_rel_sep(base: Seq<char>, rel: Seq<char>)
    ensures
        join_spec(base, "/"@ + rel) == join_spec(base, rel),
{
    reveal_strlit("/");
    assert(("/"@ + rel).first() == '/');
    assert(("/"@ + rel).drop_first() =~= rel);
}

} // verus!
