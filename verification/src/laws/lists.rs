//! Facts about sequences that the laws use.
use vstd::prelude::*;

verus! {

/// A text is made of two others, one behind the other.
pub open spec fn ends(s: Seq<char>, front: Seq<char>, back: Seq<char>) -> bool {
    s == front + back
}

/// Filtering from the end.
pub proof fn lemma_filter_last<T>(s: Seq<T>, p: spec_fn(T) -> bool)
    requires
        s.len() > 0,
    ensures
        s.filter(p) == if p(s.last()) {
            s.drop_last().filter(p).push(s.last())
        } else {
            s.drop_last().filter(p)
        },
{
    reveal(Seq::filter);
}

/// Filtering nothing gives nothing.
pub proof fn lemma_filter_none<T>(p: spec_fn(T) -> bool)
    ensures
        Seq::<T>::empty().filter(p).len() == 0,
{
    reveal(Seq::filter);
}

/// Filtering keeps the count of each item that it lets pass.
pub proof fn lemma_filter_counts<T>(s: Seq<T>, p: spec_fn(T) -> bool, x: T)
    ensures
        s.filter(p).to_multiset().count(x) == if p(x) {
            s.to_multiset().count(x)
        } else {
            0
        },
    decreases s.len(),
{
    broadcast use vstd::seq_lib::group_to_multiset_ensures;

    s.to_multiset_ensures();
    if s.len() == 0 {
        lemma_filter_none(p);
        assert(s =~= Seq::<T>::empty());
        s.filter(p).to_multiset_ensures();
        assert(s.filter(p) =~= Seq::<T>::empty());
        assert(s.to_multiset().len() == 0);
    } else {
        lemma_filter_last(s, p);
        lemma_filter_counts(s.drop_last(), p, x);
        assert(s =~= s.drop_last().push(s.last()));
        vstd::seq_lib::to_multiset_build(s.drop_last(), s.last());
        vstd::seq_lib::to_multiset_build(s.drop_last().filter(p), s.last());
    }
}

/// The same items, in whatever order, are equally many.
pub proof fn lemma_same_len<T>(a: Seq<T>, b: Seq<T>)
    requires
        a.to_multiset() == b.to_multiset(),
    ensures
        a.len() == b.len(),
        forall|x: T| a.contains(x) <==> b.contains(x),
{
    a.to_multiset_ensures();
    b.to_multiset_ensures();
    assert forall|x: T| a.contains(x) <==> b.contains(x) by {
        assert(a.contains(x) <==> a.to_multiset().count(x) > 0);
        assert(b.contains(x) <==> b.to_multiset().count(x) > 0);
    }
}

} // verus!
