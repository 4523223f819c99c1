//! Facts about sequences that several modules use.

use vstd::prelude::*;

verus! {

/// The views of the values that a sequence holds.
pub open spec fn views<T: View>(s: Seq<T>) -> Seq<T::V> {
    Seq::new(s.len(), |i: int| s[i]@)
}

/// Pushing a value onto a sequence pushes its view onto the views.
pub proof fn lemma_views_push<T: View>(s: Seq<T>, x: T)
    ensures
        views(s.push(x)) == views(s).push(x@),
{
    assert(views(s.push(x)) =~= views(s).push(x@));
}

/// Filtering one more value keeps it or not, after the others.
pub proof fn lemma_filter_push<A>(s: Seq<A>, x: A, pred: spec_fn(A) -> bool)
    ensures
        s.push(x).filter(pred) == if pred(x) {
            s.filter(pred).push(x)
        } else {
            s.filter(pred)
        },
{
    assert(s.push(x).drop_last() == s);
    reveal(Seq::filter);
}

/// Nothing is left of an empty sequence.
pub proof fn lemma_filter_empty<A>(pred: spec_fn(A) -> bool)
    ensures
        Seq::<A>::empty().filter(pred) == Seq::<A>::empty(),
{
    reveal(Seq::filter);
}

/// What a filter keeps satisfies the filter and was there, and all that was
/// there and satisfies the filter is kept.
pub proof fn lemma_filter_members<A>(s: Seq<A>, pred: spec_fn(A) -> bool)
    ensures
        forall|i: int| 0 <= i < s.filter(pred).len() ==> pred(#[trigger] s.filter(pred)[i]),
        forall|i: int|
            0 <= i < s.filter(pred).len() ==> exists|j: int|
                0 <= j < s.len() && s[j] == #[trigger] s.filter(pred)[i],
        forall|j: int|
            0 <= j < s.len() && pred(#[trigger] s[j]) ==> exists|i: int|
                0 <= i < s.filter(pred).len() && s.filter(pred)[i] == s[j],
    decreases s.len(),
{
    let out = s.filter(pred);
    if s.len() == 0 {
        lemma_filter_empty(pred);
        assert(s =~= Seq::<A>::empty());
    } else {
        let front = s.drop_last();
        let kept = front.filter(pred);
        lemma_filter_members(front, pred);
        assert(s == front.push(s.last()));
        lemma_filter_push(front, s.last(), pred);
        assert forall|i: int| 0 <= i < out.len() implies pred(#[trigger] out[i]) by {
            if i < kept.len() {
                assert(out[i] == kept[i]);
            }
        }
        assert forall|i: int| 0 <= i < out.len() implies exists|j: int|
            0 <= j < s.len() && s[j] == #[trigger] out[i] by {
            if i < kept.len() {
                assert(out[i] == kept[i]);
                let j = choose|j: int| 0 <= j < front.len() && front[j] == kept[i];
                assert(s[j] == front[j]);
            } else {
                assert(s[s.len() - 1] == out[i]);
            }
        }
        assert forall|j: int| 0 <= j < s.len() && pred(#[trigger] s[j]) implies exists|i: int|
            0 <= i < out.len() && out[i] == s[j] by {
            if j < front.len() {
                assert(front[j] == s[j]);
                let i = choose|i: int| 0 <= i < kept.len() && kept[i] == front[j];
                assert(out[i] == kept[i]);
            } else {
                assert(out[out.len() - 1] == s[j]);
            }
        }
    }
}

} // verus!
