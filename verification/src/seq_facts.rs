//! Small general facts about sequences and `Seq::filter` that several
//! modules' proofs lean on.

use vstd::prelude::*;

verus! {

/// Membership in a sequence extended by one element.
pub(crate) proof fn lemma_contains_push<A>(s: Seq<A>, x: A, r: A)
    ensures
        s.push(x).contains(r) <==> s.contains(r) || r == x,
{
    if s.push(x).contains(r) {
        let k = choose|k: int| 0 <= k < s.push(x).len() && s.push(x)[k] == r;
        if k < s.len() {
            assert(s[k] == r);
        }
    }
    if s.contains(r) {
        let k = choose|k: int| 0 <= k < s.len() && s[k] == r;
        assert(s.push(x)[k] == r);
    }
    if r == x {
        assert(s.push(x)[s.len() as int] == r);
    }
}

/// How filtering steps over one appended element.
pub(crate) proof fn lemma_filter_push<A>(s: Seq<A>, pred: spec_fn(A) -> bool, x: A)
    ensures
        s.push(x).filter(pred) == if pred(x) {
            s.filter(pred).push(x)
        } else {
            s.filter(pred)
        },
{
    reveal(Seq::filter);
    assert(s.push(x).drop_last() =~= s);
    assert(s.push(x).last() == x);
}

/// Everything a filter keeps was in the sequence.
pub(crate) proof fn lemma_filter_subset<A>(s: Seq<A>, pred: spec_fn(A) -> bool, x: A)
    requires
        s.filter(pred).contains(x),
    ensures
        s.contains(x),
    decreases s.len(),
{
    reveal(Seq::filter);
    if s.len() > 0 {
        let prefix = s.drop_last();
        let last = s.last();
        if pred(last) {
            assert(s.filter(pred) == prefix.filter(pred).push(last));
            lemma_contains_push(prefix.filter(pred), last, x);
            if x == last {
                assert(s[s.len() - 1] == x);
            } else {
                lemma_filter_subset(prefix, pred, x);
                let k = choose|k: int| 0 <= k < prefix.len() && prefix[k] == x;
                assert(s[k] == x);
            }
        } else {
            assert(s.filter(pred) == prefix.filter(pred));
            lemma_filter_subset(prefix, pred, x);
            let k = choose|k: int| 0 <= k < prefix.len() && prefix[k] == x;
            assert(s[k] == x);
        }
    }
}

/// Membership in a filtered sequence, both ways.
pub(crate) proof fn lemma_filter_membership<A>(s: Seq<A>, pred: spec_fn(A) -> bool, x: A)
    ensures
        s.filter(pred).contains(x) <==> s.contains(x) && pred(x),
    decreases s.len(),
{
    reveal(Seq::filter);
    if s.len() > 0 {
        let prefix = s.drop_last();
        let last = s.last();
        lemma_filter_membership(prefix, pred, x);
        lemma_contains_push(prefix, last, x);
        assert(s =~= prefix.push(last));
        if pred(last) {
            assert(s.filter(pred) == prefix.filter(pred).push(last));
            lemma_contains_push(prefix.filter(pred), last, x);
        } else {
            assert(s.filter(pred) == prefix.filter(pred));
        }
    }
}

/// A filter whose predicate holds nowhere keeps nothing.
pub(crate) proof fn lemma_filter_all_false<A>(s: Seq<A>, pred: spec_fn(A) -> bool)
    requires
        forall|k: int| 0 <= k < s.len() ==> !pred(#[trigger] s[k]),
    ensures
        s.filter(pred) =~= Seq::<A>::empty(),
    decreases s.len(),
{
    reveal(Seq::filter);
    if s.len() > 0 {
        lemma_filter_all_false(s.drop_last(), pred);
    }
}

} // verus!
