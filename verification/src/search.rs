//! Finding the first element of a sequence that meets a condition.

use vstd::prelude::*;

verus! {

/// The first position in `s` whose element meets `p`, if any.
pub open spec fn first_where<A>(s: Seq<A>, p: spec_fn(A) -> bool) -> Option<int>
    decreases s.len(),
{
    if s.len() == 0 {
        None
    } else {
        match first_where(s.drop_last(), p) {
            Some(k) => Some(k),
            None => if p(s.last()) {
                Some(s.len() - 1)
            } else {
                None
            },
        }
    }
}

/// What `first_where` finds is the first match; it finds none only where
/// there is none.
pub proof fn lemma_first_where<A>(s: Seq<A>, p: spec_fn(A) -> bool)
    ensures
        match first_where(s, p) {
            Some(k) => 0 <= k < s.len() && p(s[k]) && forall|j: int|
                0 <= j < k ==> !p(#[trigger] s[j]),
            None => forall|j: int| 0 <= j < s.len() ==> !p(#[trigger] s[j]),
        },
    decreases s.len(),
{
    if s.len() > 0 {
        lemma_first_where(s.drop_last(), p);
        assert forall|j: int| 0 <= j < s.len() - 1 implies s.drop_last()[j] == s[j] by {}
    }
}

/// A match found in a prefix is the match in the whole.
pub proof fn lemma_first_where_prefix<A>(s: Seq<A>, n: int, p: spec_fn(A) -> bool)
    requires
        0 <= n <= s.len(),
        first_where(s.take(n), p).is_some(),
    ensures
        first_where(s, p) == first_where(s.take(n), p),
    decreases s.len() - n,
{
    if n < s.len() {
        assert(s.take(n + 1).drop_last() == s.take(n));
        lemma_first_where_prefix(s, n + 1, p);
    } else {
        assert(s.take(n) == s);
    }
}

/// What appending one element does to a search.
pub proof fn lemma_first_where_push<A>(s: Seq<A>, e: A, p: spec_fn(A) -> bool)
    ensures
        first_where(s.push(e), p) == match first_where(s, p) {
            Some(k) => Some(k),
            None => if p(e) {
                Some(s.len() as int)
            } else {
                None
            },
        },
{
    assert(s.push(e).drop_last() == s);
}

} // verus!
