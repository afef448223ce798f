//! Small general facts about filtered sequences that several modules share.

use vstd::prelude::*;

verus! {

/// A filter that every item satisfies keeps the sequence whole.
pub proof fn lemma_filter_all<T>(s: Seq<T>, pred: spec_fn(T) -> bool)
    requires
        forall|i: int| 0 <= i < s.len() ==> pred(#[trigger] s[i]),
    ensures
        s.filter(pred) == s,
    decreases s.len(),
{
    reveal(Seq::filter);
    if s.len() == 0 {
        assert(s.filter(pred) =~~= s);
    } else {
        lemma_filter_all(s.drop_last(), pred);
        assert(pred(s.last()));
        assert(s.filter(pred) =~~= s.drop_last().push(s.last()));
        assert(s.drop_last().push(s.last()) =~~= s);
    }
}

/// A filter that fails at exactly one position removes exactly that item.
pub proof fn lemma_filter_remove_one<T>(s: Seq<T>, pred: spec_fn(T) -> bool, j: int)
    requires
        0 <= j < s.len(),
        !pred(s[j]),
        forall|i: int| 0 <= i < s.len() && i != j ==> pred(#[trigger] s[i]),
    ensures
        s.filter(pred) == s.remove(j),
{
    reveal(Seq::filter);
    assert(s =~~= s.take(j) + (seq![s[j]] + s.skip(j + 1)));
    Seq::filter_distributes_over_add(s.take(j), seq![s[j]] + s.skip(j + 1), pred);
    Seq::filter_distributes_over_add(seq![s[j]], s.skip(j + 1), pred);
    assert(forall|i: int| 0 <= i < s.take(j).len() ==> pred(#[trigger] s.take(j)[i])) by {
        assert forall|i: int| 0 <= i < s.take(j).len() implies pred(#[trigger] s.take(j)[i]) by {
            assert(s.take(j)[i] == s[i]);
        }
    }
    lemma_filter_all(s.take(j), pred);
    assert(forall|i: int| 0 <= i < s.skip(j + 1).len() ==> pred(#[trigger] s.skip(j + 1)[i])) by {
        assert forall|i: int|
            0 <= i < s.skip(j + 1).len() implies pred(#[trigger] s.skip(j + 1)[i]) by {
            assert(s.skip(j + 1)[i] == s[i + j + 1]);
        }
    }
    lemma_filter_all(s.skip(j + 1), pred);
    assert(seq![s[j]].filter(pred) =~~= Seq::<T>::empty()) by {
        reveal(Seq::filter);
        assert(seq![s[j]].drop_last() =~~= Seq::<T>::empty());
        assert(Seq::<T>::empty().filter(pred) =~~= Seq::<T>::empty());
    }
    assert(s.filter(pred) =~~= s.take(j) + s.skip(j + 1));
    assert(s.remove(j) =~~= s.take(j) + s.skip(j + 1));
}

} // verus!
