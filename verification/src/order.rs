//! Keeping a sequence sorted.
use vstd::prelude::*;

verus! {

/// `le` is total and transitive.
pub open spec fn orders<T>(le: spec_fn(T, T) -> bool) -> bool {
    &&& forall|a: T, b: T| #[trigger] le(a, b) || le(b, a)
    &&& forall|a: T, b: T, c: T| #[trigger] le(a, b) && #[trigger] le(b, c) ==> le(a, c)
}

/// Every item is at most the ones after it.
pub open spec fn sorted<T>(s: Seq<T>, le: spec_fn(T, T) -> bool) -> bool {
    forall|i: int, j: int| 0 <= i < j < s.len() ==> #[trigger] le(s[i], s[j])
}

/// Inserting an item behind the last one that is at most it keeps a sequence sorted, and
/// adds just that item.
pub proof fn lemma_insert_sorted<T>(s: Seq<T>, at: int, e: T, le: spec_fn(T, T) -> bool)
    requires
        orders(le),
        sorted(s, le),
        0 <= at <= s.len(),
        at > 0 ==> le(s[at - 1], e),
        forall|j: int| at <= j < s.len() ==> !le(#[trigger] s[j], e),
    ensures
        sorted(s.insert(at, e), le),
        s.insert(at, e).to_multiset() == s.to_multiset().insert(e),
{
    vstd::seq_lib::to_multiset_insert(s, at, e);
    let after = s.insert(at, e);
    assert forall|i: int, j: int| 0 <= i < j < after.len() implies #[trigger] le(
        after[i],
        after[j],
    ) by {
        if i == at {
            assert(after[j] == s[j - 1]);
            assert(le(s[j - 1], e) || le(e, s[j - 1]));
        } else if j == at {
            assert(after[i] == s[i]);
            if i < at - 1 {
                assert(le(s[i], s[at - 1]));
            }
        } else {
            let oi = if i < at {
                i
            } else {
                i - 1
            };
            let oj = if j < at {
                j
            } else {
                j - 1
            };
            assert(after[i] == s[oi] && after[j] == s[oj]);
            assert(le(s[oi], s[oj]));
        }
    }
}

} // verus!
