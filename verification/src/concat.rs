//! Ordered concatenation of per-element byte or identifier sequences, the
//! shape shared by the selector, the ordering strategies and the pipeline,
//! with the lemmas the pipeline proofs rely on.

use vstd::prelude::*;
use vstd::seq_lib::lemma_multiset_commutative;

verus! {

/// Concatenation, in order, of the sequences `f` yields for the elements
/// of `s`.
pub open spec fn concat_map<A, B>(s: Seq<A>, f: spec_fn(A) -> Seq<B>) -> Seq<B>
    decreases s.len(),
{
    if s.len() == 0 {
        Seq::empty()
    } else {
        f(s[0]) + concat_map(s.drop_first(), f)
    }
}

/// Appending an element appends its emitted sequence.
pub proof fn lemma_concat_map_push<A, B>(s: Seq<A>, f: spec_fn(A) -> Seq<B>, e: A)
    ensures
        concat_map(s.push(e), f) == concat_map(s, f) + f(e),
    decreases s.len(),
{
    if s.len() == 0 {
        assert(s.push(e)[0] == e);
        assert(s.push(e).drop_first() =~= Seq::<A>::empty());
        assert(concat_map(Seq::<A>::empty(), f) == Seq::<B>::empty());
        assert(concat_map(s.push(e), f) == f(e) + Seq::<B>::empty());
        assert(f(e) + Seq::<B>::empty() =~= f(e));
        assert(concat_map(s, f) + f(e) =~= f(e));
    } else {
        assert(s.push(e)[0] == s[0]);
        assert(s.push(e).drop_first() =~= s.drop_first().push(e));
        lemma_concat_map_push(s.drop_first(), f, e);
        assert(f(s[0]) + (concat_map(s.drop_first(), f) + f(e)) =~= (f(s[0]) + concat_map(
            s.drop_first(),
            f,
        )) + f(e));
    }
}

/// Concatenation distributes over appending sequences of elements.
pub proof fn lemma_concat_map_add<A, B>(a: Seq<A>, b: Seq<A>, f: spec_fn(A) -> Seq<B>)
    ensures
        concat_map(a + b, f) == concat_map(a, f) + concat_map(b, f),
    decreases a.len(),
{
    if a.len() == 0 {
        assert(a + b =~= b);
        assert(concat_map(a, f) + concat_map(b, f) =~= concat_map(b, f));
    } else {
        assert((a + b)[0] == a[0]);
        assert((a + b).drop_first() =~= a.drop_first() + b);
        lemma_concat_map_add(a.drop_first(), b, f);
        assert(f(a[0]) + (concat_map(a.drop_first(), f) + concat_map(b, f)) =~= (f(a[0])
            + concat_map(a.drop_first(), f)) + concat_map(b, f));
    }
}

/// Two element sequences whose emitted sequences agree position by
/// position concatenate to the same sequence.
pub proof fn lemma_concat_map_pointwise<A, B>(
    s1: Seq<A>,
    s2: Seq<A>,
    f1: spec_fn(A) -> Seq<B>,
    f2: spec_fn(A) -> Seq<B>,
)
    requires
        s1.len() == s2.len(),
        forall|k: int| 0 <= k < s1.len() ==> #[trigger] f1(s1[k]) == f2(s2[k]),
    ensures
        concat_map(s1, f1) == concat_map(s2, f2),
    decreases s1.len(),
{
    if s1.len() > 0 {
        assert(f1(s1[0]) == f2(s2[0]));
        assert forall|k: int| 0 <= k < s1.drop_first().len() implies #[trigger] f1(
            s1.drop_first()[k],
        ) == f2(s2.drop_first()[k]) by {
            assert(s1.drop_first()[k] == s1[k + 1]);
            assert(s2.drop_first()[k] == s2[k + 1]);
        }
        lemma_concat_map_pointwise(s1.drop_first(), s2.drop_first(), f1, f2);
    }
}

/// Emits, for each element, the one-element sequence of its image.
pub open spec fn singleton_emitter<A, B>(f: spec_fn(A) -> B) -> spec_fn(A) -> Seq<B> {
    |x: A| seq![f(x)]
}

/// Mapping a sequence is concatenating one-element images.
pub proof fn lemma_map_values_as_concat<A, B>(s: Seq<A>, f: spec_fn(A) -> B)
    ensures
        s.map_values(f) == concat_map(s, singleton_emitter(f)),
    decreases s.len(),
{
    if s.len() == 0 {
        assert(s.map_values(f) =~= Seq::<B>::empty());
    } else {
        lemma_map_values_as_concat(s.drop_first(), f);
        assert(singleton_emitter(f)(s[0]) == seq![f(s[0])]);
        assert(s.map_values(f) =~= seq![f(s[0])] + s.drop_first().map_values(f));
    }
}

/// The multiset of images depends only on the multiset of inputs.
pub proof fn lemma_map_values_multiset<A, B>(s1: Seq<A>, s2: Seq<A>, f: spec_fn(A) -> B)
    requires
        s1.to_multiset() == s2.to_multiset(),
    ensures
        s1.map_values(f).to_multiset() == s2.map_values(f).to_multiset(),
{
    lemma_map_values_as_concat(s1, f);
    lemma_map_values_as_concat(s2, f);
    lemma_concat_map_multiset(s1, s2, singleton_emitter(f));
}

/// The multiset of emitted elements depends only on the multiset of input
/// elements: reordering the inputs permutes, but does not change, what is
/// emitted.
pub proof fn lemma_concat_map_multiset<A, B>(s1: Seq<A>, s2: Seq<A>, f: spec_fn(A) -> Seq<B>)
    requires
        s1.to_multiset() == s2.to_multiset(),
    ensures
        concat_map(s1, f).to_multiset() == concat_map(s2, f).to_multiset(),
    decreases s1.len(),
{
    broadcast use vstd::seq_lib::group_to_multiset_ensures;

    if s1.len() == 0 {
        vstd::seq_lib::to_multiset_len(s1);
        vstd::seq_lib::to_multiset_len(s2);
        assert(s2.len() == 0);
    } else {
        let x = s1[0];
        assert(s1.contains(x));
        assert(s1.to_multiset().count(x) > 0);
        assert(s2.contains(x));
        let j = choose|j: int| 0 <= j < s2.len() && s2[j] == x;
        assert(s1.remove(0) =~= s1.drop_first());
        assert(s1.drop_first().to_multiset() == s1.to_multiset().remove(x));
        assert(s2.remove(j).to_multiset() == s2.to_multiset().remove(x));
        lemma_concat_map_multiset(s1.drop_first(), s2.remove(j), f);
        let front = s2.subrange(0, j);
        let back = s2.subrange(j + 1, s2.len() as int);
        assert(s2 =~= front + (seq![x] + back));
        assert(s2.remove(j) == front + back);
        lemma_concat_map_add(front, seq![x] + back, f);
        lemma_concat_map_add(seq![x], back, f);
        assert(seq![x] + back =~= seq![x].push(x).drop_first() + back);
        assert(concat_map(seq![x], f) == f(x) + concat_map(Seq::<A>::empty(), f)) by {
            assert(seq![x][0] == x);
            assert(seq![x].drop_first() =~= Seq::<A>::empty());
        }
        assert(concat_map(seq![x], f) =~= f(x));
        lemma_concat_map_add(front, back, f);
        lemma_multiset_commutative(concat_map(front, f), concat_map(seq![x] + back, f));
        lemma_multiset_commutative(f(x), concat_map(back, f));
        lemma_multiset_commutative(concat_map(front, f), concat_map(back, f));
        lemma_multiset_commutative(f(x), concat_map(s1.drop_first(), f));
        assert(concat_map(s1, f) == f(x) + concat_map(s1.drop_first(), f));
        assert(concat_map(s1, f).to_multiset() =~= concat_map(s2, f).to_multiset());
    }
}

} // verus!
