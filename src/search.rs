use vstd::prelude::*;

verus! {

/// The first position of `s` whose element satisfies `pred`, if any.
#[verifier::opaque]
pub open spec fn first_index<A>(s: Seq<A>, pred: spec_fn(A) -> bool) -> Option<int> {
    if exists|i: int| 0 <= i < s.len() && pred(s[i]) {
        Some(
            choose|i: int|
                0 <= i < s.len() && pred(s[i]) && forall|j: int| 0 <= j < i ==> !pred(#[trigger] s[j]),
        )
    } else {
        None
    }
}

proof fn lemma_least_exists<A>(s: Seq<A>, pred: spec_fn(A) -> bool, k: int)
    requires
        0 <= k < s.len(),
        pred(s[k]),
    ensures
        exists|i: int|
            0 <= i < s.len() && pred(s[i]) && forall|j: int| 0 <= j < i ==> !pred(#[trigger] s[j]),
    decreases k,
{
    if exists|j: int| 0 <= j < k && pred(s[j]) {
        let j = choose|j: int| 0 <= j < k && pred(s[j]);
        lemma_least_exists(s, pred, j);
    } else {
        assert(forall|j: int| 0 <= j < k ==> !pred(#[trigger] s[j]));
    }
}

/// What `first_index` gives: the least satisfying position, or `None` when no
/// element satisfies the predicate.
pub proof fn lemma_first_index<A>(s: Seq<A>, pred: spec_fn(A) -> bool)
    ensures
        match first_index(s, pred) {
            Some(i) => 0 <= i < s.len() && pred(s[i]) && forall|j: int|
                0 <= j < i ==> !pred(#[trigger] s[j]),
            None => forall|i: int| 0 <= i < s.len() ==> !pred(#[trigger] s[i]),
        },
{
    reveal(first_index);
    if exists|i: int| 0 <= i < s.len() && pred(s[i]) {
        let k = choose|i: int| 0 <= i < s.len() && pred(s[i]);
        lemma_least_exists(s, pred, k);
    }
}

/// A position that satisfies `pred` and follows only positions that do not is
/// the one that `first_index` gives.
pub proof fn lemma_first_index_at<A>(s: Seq<A>, pred: spec_fn(A) -> bool, i: int)
    requires
        0 <= i < s.len(),
        pred(s[i]),
        forall|j: int| 0 <= j < i ==> !pred(#[trigger] s[j]),
    ensures
        first_index(s, pred) == Some(i),
{
    lemma_first_index(s, pred);
    let k = first_index(s, pred)->0;
    if k < i {
        assert(!pred(s[k]));
    } else if k > i {
        assert(!pred(s[i]));
    }
}

} // verus!
