//! Facts about sequences that the library's views lean on.

use vstd::prelude::*;

verus! {

/// Filtering a prefix one element longer either keeps that element at the
/// end or leaves the result as it was.
pub proof fn lemma_filter_prefix<A>(s: Seq<A>, p: spec_fn(A) -> bool, i: int)
    requires
        0 <= i < s.len(),
    ensures
        s.subrange(0, i + 1).filter(p) == if p(s[i]) {
            s.subrange(0, i).filter(p).push(s[i])
        } else {
            s.subrange(0, i).filter(p)
        },
{
    reveal(Seq::filter);
    assert(s.subrange(0, i + 1).drop_last() =~= s.subrange(0, i));
    assert(s.subrange(0, i + 1).last() == s[i]);
}

/// Filtering the empty prefix gives nothing.
pub proof fn lemma_filter_nothing<A>(s: Seq<A>, p: spec_fn(A) -> bool)
    ensures
        s.subrange(0, 0).filter(p) == Seq::<A>::empty(),
{
    reveal(Seq::filter);
    assert(s.subrange(0, 0) =~= Seq::<A>::empty());
}

/// The whole of a sequence is its longest prefix.
pub proof fn lemma_full_prefix<A>(s: Seq<A>)
    ensures
        s.subrange(0, s.len() as int) == s,
{
    assert(s.subrange(0, s.len() as int) =~= s);
}

} // verus!
