//! Facts about prefixes of sequences, for loops that walk a list once.

use vstd::prelude::*;

verus! {

/// The prefix of length `i + 1` is the prefix of length `i` followed by the
/// element at `i`.
pub proof fn lemma_take_step<T>(s: Seq<T>, i: int)
    requires
        0 <= i < s.len(),
    ensures
        s.take(i + 1).len() == i + 1,
        s.take(i + 1).drop_last() == s.take(i),
        s.take(i + 1).last() == s[i],
{
    assert(s.take(i + 1).drop_last() =~= s.take(i));
}

/// The prefix of full length is the sequence itself.
pub proof fn lemma_take_all<T>(s: Seq<T>)
    ensures
        s.take(s.len() as int) == s,
{
    assert(s.take(s.len() as int) =~= s);
}

} // verus!
