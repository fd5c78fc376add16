//! Small general facts about sequence filtering used by both stores:
//! filtering distributes over `push`, keeps only elements of the original
//! sequence, and preserves every pairwise relation (such as an ordering or
//! pairwise distinctness of keys).

use vstd::prelude::*;

verus! {

/// A relation holds of every pair of elements, taken in sequence order.
pub open spec fn pairwise<A>(s: Seq<A>, rel: spec_fn(A, A) -> bool) -> bool {
    forall|i: int, j: int| 0 <= i < j < s.len() ==> #[trigger] rel(s[i], s[j])
}

/// Filtering distributes over `push`.
pub proof fn lemma_filter_push<A>(s: Seq<A>, pred: spec_fn(A) -> bool, x: A)
    ensures
        s.push(x).filter(pred) == if pred(x) {
            s.filter(pred).push(x)
        } else {
            s.filter(pred)
        },
{
    reveal(Seq::filter);
    let t = s.push(x);
    assert(t.drop_last() =~= s);
    assert(t.last() == x);
}

/// Every element of a filtered sequence is an element of the original.
pub proof fn lemma_filter_sub<A>(s: Seq<A>, pred: spec_fn(A) -> bool)
    ensures
        forall|k: int|
            0 <= k < s.filter(pred).len() ==> exists|i: int|
                0 <= i < s.len() && s[i] == #[trigger] s.filter(pred)[k],
    decreases s.len(),
{
    reveal(Seq::filter);
    if s.len() > 0 {
        let dl = s.drop_last();
        lemma_filter_sub(dl, pred);
        let f = s.filter(pred);
        let fdl = dl.filter(pred);
        assert forall|k: int| 0 <= k < f.len() implies exists|i: int|
            0 <= i < s.len() && s[i] == #[trigger] f[k] by {
            if k < fdl.len() {
                let i = choose|i: int| 0 <= i < dl.len() && dl[i] == fdl[k];
                assert(s[i] == f[k]);
            } else {
                assert(f[k] == s.last());
                assert(s[s.len() - 1] == f[k]);
            }
        }
    }
}

/// Inserting an element that relates correctly to everything before and
/// after its position preserves a pairwise relation.
pub proof fn lemma_insert_keeps_pairwise<A>(s: Seq<A>, x: A, k: int, rel: spec_fn(A, A) -> bool)
    requires
        pairwise(s, rel),
        0 <= k <= s.len(),
        forall|m: int| 0 <= m < k ==> rel(s[m], x),
        forall|m: int| k <= m < s.len() ==> rel(x, s[m]),
    ensures
        pairwise(s.insert(k, x), rel),
{
    let t = s.insert(k, x);
    assert(t.len() == s.len() + 1);
    assert forall|i: int, j: int| 0 <= i < j < t.len() implies #[trigger] rel(t[i], t[j]) by {
        if j < k {
            assert(t[i] == s[i]);
            assert(t[j] == s[j]);
            assert(rel(s[i], s[j]));
        } else if j == k {
            assert(t[j] == x);
            assert(t[i] == s[i]);
            assert(rel(s[i], x));
        } else {
            assert(t[j] == s[j - 1]);
            if i < k {
                assert(t[i] == s[i]);
                assert(rel(s[i], s[j - 1]));
            } else if i == k {
                assert(t[i] == x);
                assert(rel(x, s[j - 1]));
            } else {
                assert(t[i] == s[i - 1]);
                assert(rel(s[i - 1], s[j - 1]));
            }
        }
    }
}

/// Filtering preserves any pairwise relation among the retained elements.
pub proof fn lemma_filter_pairwise<A>(s: Seq<A>, pred: spec_fn(A) -> bool, rel: spec_fn(A, A) -> bool)
    requires
        pairwise(s, rel),
    ensures
        pairwise(s.filter(pred), rel),
    decreases s.len(),
{
    reveal(Seq::filter);
    if s.len() > 0 {
        let dl = s.drop_last();
        assert(pairwise(dl, rel));
        lemma_filter_pairwise(dl, pred, rel);
        lemma_filter_sub(dl, pred);
        let f = s.filter(pred);
        let fdl = dl.filter(pred);
        assert forall|i: int, j: int| 0 <= i < j < f.len() implies #[trigger] rel(f[i], f[j]) by {
            if j < fdl.len() {
                assert(rel(fdl[i], fdl[j]));
            } else {
                assert(f[j] == s.last());
                let m = choose|m: int| 0 <= m < dl.len() && dl[m] == fdl[i];
                assert(rel(s[m], s[s.len() - 1]));
            }
        }
    }
}

} // verus!
