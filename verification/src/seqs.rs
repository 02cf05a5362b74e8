//! Small reusable lemmas about filtering sequences.

use vstd::prelude::*;

verus! {

/// Filtering a sequence none of whose elements satisfy the predicate gives
/// the empty sequence.
pub proof fn lemma_filter_none<T>(s: Seq<T>, pred: spec_fn(T) -> bool)
    requires
        forall|j: int| 0 <= j < s.len() ==> !pred(#[trigger] s[j]),
    ensures
        s.filter(pred) == Seq::<T>::empty(),
    decreases s.len(),
{
    reveal(Seq::filter);
    if s.len() > 0 {
        lemma_filter_none(s.drop_last(), pred);
    }
}

/// Filtering a singleton keeps or drops its one element.
pub proof fn lemma_filter_singleton<T>(x: T, pred: spec_fn(T) -> bool)
    ensures
        pred(x) ==> seq![x].filter(pred) =~= seq![x],
        !pred(x) ==> seq![x].filter(pred) =~= Seq::<T>::empty(),
{
    reveal_with_fuel(Seq::filter, 2);
    assert(seq![x].drop_last() =~= Seq::<T>::empty());
}

/// Filtering distributes over push.
pub proof fn lemma_filter_push<T>(s: Seq<T>, x: T, pred: spec_fn(T) -> bool)
    ensures
        pred(x) ==> s.push(x).filter(pred) == s.filter(pred).push(x),
        !pred(x) ==> s.push(x).filter(pred) == s.filter(pred),
{
    assert(s.push(x) =~= s + seq![x]);
    Seq::filter_distributes_over_add(s, seq![x], pred);
    lemma_filter_singleton(x, pred);
    if pred(x) {
        assert(s.push(x).filter(pred) =~= s.filter(pred).push(x));
    } else {
        assert(s.push(x).filter(pred) =~= s.filter(pred));
    }
}

/// Every element of a filtered sequence is an element of the original.
pub proof fn lemma_filter_subset<T>(s: Seq<T>, pred: spec_fn(T) -> bool)
    ensures
        forall|i: int|
            0 <= i < s.filter(pred).len() ==> s.contains(#[trigger] s.filter(pred)[i]),
    decreases s.len(),
{
    reveal(Seq::filter);
    if s.len() > 0 {
        lemma_filter_subset(s.drop_last(), pred);
        assert forall|i: int|
            0 <= i < s.filter(pred).len() implies s.contains(#[trigger] s.filter(pred)[i]) by {
            if i < s.drop_last().filter(pred).len() {
                assert(s.drop_last().contains(s.drop_last().filter(pred)[i]));
                let j = choose|j: int|
                    0 <= j < s.drop_last().len() && s.drop_last()[j] == s.drop_last().filter(
                        pred,
                    )[i];
                assert(s[j] == s.filter(pred)[i]);
            } else {
                assert(s.filter(pred)[i] == s.last());
                assert(s[s.len() - 1] == s.last());
            }
        }
    }
}

/// If the head of a sequence satisfies the predicate, it is the head of the
/// filtered sequence.
pub proof fn lemma_filter_head<T>(s: Seq<T>, pred: spec_fn(T) -> bool)
    requires
        s.len() >= 1,
        pred(s[0]),
    ensures
        s.filter(pred).len() >= 1,
        s.filter(pred)[0] == s[0],
{
    assert(s =~= seq![s[0]] + s.skip(1));
    Seq::filter_distributes_over_add(seq![s[0]], s.skip(1), pred);
    lemma_filter_singleton(s[0], pred);
}

/// A nonempty filtered sequence starts with the first element of the
/// original that satisfies the predicate.
pub proof fn lemma_filter_first<T>(s: Seq<T>, pred: spec_fn(T) -> bool)
    requires
        s.filter(pred).len() >= 1,
    ensures
        exists|i: int|
            0 <= i < s.len() && s[i] == s.filter(pred)[0] && pred(#[trigger] s[i]) && (forall|
                j: int,
            | 0 <= j < i ==> !pred(#[trigger] s[j])),
    decreases s.len(),
{
    if s.len() > 0 {
        if pred(s[0]) {
            lemma_filter_head(s, pred);
            assert(s[0] == s.filter(pred)[0] && pred(s[0]) && (forall|j: int|
                0 <= j < 0 ==> !pred(#[trigger] s[j])));
        } else {
            assert(s =~= seq![s[0]] + s.skip(1));
            Seq::filter_distributes_over_add(seq![s[0]], s.skip(1), pred);
            lemma_filter_singleton(s[0], pred);
            assert(s.filter(pred) == s.skip(1).filter(pred));
            lemma_filter_first(s.skip(1), pred);
            let i0 = choose|i: int|
                0 <= i < s.skip(1).len() && s.skip(1)[i] == s.skip(1).filter(pred)[0] && pred(
                    #[trigger] s.skip(1)[i],
                ) && (forall|j: int| 0 <= j < i ==> !pred(#[trigger] s.skip(1)[j]));
            assert(s[i0 + 1] == s.skip(1)[i0]);
            assert forall|j: int| 0 <= j < i0 + 1 implies !pred(#[trigger] s[j]) by {
                if j > 0 {
                    assert(s.skip(1)[j - 1] == s[j]);
                }
            }
            assert(pred(s[i0 + 1]));
        }
    }
}

} // verus!
