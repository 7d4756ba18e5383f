use vstd::prelude::*;

verus! {

/// Filtering one element more of a sequence: the element joins what was
/// kept of those before it if the predicate holds of it.
pub proof fn lemma_filter_next<A>(s: Seq<A>, pred: spec_fn(A) -> bool, i: int)
    requires
        0 <= i < s.len(),
    ensures
        s.take(i + 1).filter(pred) == if pred(s[i]) {
            s.take(i).filter(pred).push(s[i])
        } else {
            s.take(i).filter(pred)
        },
        s.take(0).filter(pred) == Seq::<A>::empty(),
        s.take(s.len() as int) == s,
{
    reveal(Seq::filter);
    assert(s.take(i + 1) =~= s.take(i).push(s[i]));
    s.take(i).lemma_filter_push(s[i], pred);
    assert(s.take(0).filter(pred) =~= Seq::<A>::empty());
    assert(s.take(s.len() as int) =~= s);
}

/// Nothing is kept of an empty sequence.
pub proof fn lemma_filter_none<A>(s: Seq<A>, pred: spec_fn(A) -> bool)
    ensures
        s.take(0).filter(pred) == Seq::<A>::empty(),
        s.take(s.len() as int) == s,
{
    reveal(Seq::filter);
    assert(s.take(0).filter(pred) =~= Seq::<A>::empty());
    assert(s.take(s.len() as int) =~= s);
}

/// What a predicate keeps of a sequence and what its negation keeps make
/// up the sequence.
pub proof fn lemma_filter_split<A>(s: Seq<A>, kept: spec_fn(A) -> bool, dropped: spec_fn(A) -> bool)
    requires
        forall|a: A| #[trigger] kept(a) != dropped(a),
    ensures
        s.filter(kept).len() + s.filter(dropped).len() == s.len(),
    decreases s.len(),
{
    reveal(Seq::filter);
    if s.len() > 0 {
        lemma_filter_split(s.drop_last(), kept, dropped);
    }
}

} // verus!
