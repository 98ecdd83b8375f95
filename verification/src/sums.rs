//! Sums of amounts over finite sets.
use vstd::prelude::*;
use vstd::set::fold::{is_fun_commutative, lemma_fold_empty, lemma_fold_insert};

verus! {

/// The sum of `amount` over the elements of `s`.
pub open spec fn sum_of<A>(s: Set<A>, amount: spec_fn(A) -> int) -> int {
    s.fold(0int, |acc: int, x: A| acc + amount(x))
}

proof fn lemma_adding_commutes<A>(amount: spec_fn(A) -> int)
    ensures
        is_fun_commutative(|acc: int, x: A| acc + amount(x)),
{
}

/// Nothing is summed over the empty set.
pub proof fn lemma_sum_empty<A>(amount: spec_fn(A) -> int)
    ensures
        sum_of(Set::<A>::empty(), amount) == 0,
{
    lemma_fold_empty(0int, |acc: int, x: A| acc + amount(x));
}

/// A new element adds its amount to the sum.
pub proof fn lemma_sum_insert<A>(s: Set<A>, amount: spec_fn(A) -> int, a: A)
    requires
        s.finite(),
        !s.contains(a),
    ensures
        sum_of(s.insert(a), amount) == sum_of(s, amount) + amount(a),
{
    lemma_adding_commutes(amount);
    lemma_fold_insert(s, 0int, |acc: int, x: A| acc + amount(x), a);
}

/// Taking an element out takes its amount off the sum.
pub proof fn lemma_sum_remove<A>(s: Set<A>, amount: spec_fn(A) -> int, a: A)
    requires
        s.finite(),
        s.contains(a),
    ensures
        sum_of(s, amount) == sum_of(s.remove(a), amount) + amount(a),
{
    assert(s.remove(a).insert(a) =~= s);
    lemma_sum_insert(s.remove(a), amount, a);
}

/// The sum depends on the amounts of the elements of the set alone.
pub proof fn lemma_sum_congruent<A>(s: Set<A>, a1: spec_fn(A) -> int, a2: spec_fn(A) -> int)
    requires
        s.finite(),
        forall|x: A| s.contains(x) ==> a1(x) == a2(x),
    ensures
        sum_of(s, a1) == sum_of(s, a2),
    decreases s.len(),
{
    if s.len() == 0 {
        assert(s =~= Set::<A>::empty());
        lemma_sum_empty(a1);
        lemma_sum_empty(a2);
    } else {
        let a = s.choose();
        assert(s.contains(a));
        lemma_sum_remove(s, a1, a);
        lemma_sum_remove(s, a2, a);
        lemma_sum_congruent(s.remove(a), a1, a2);
    }
}

/// A sum of amounts that are not negative is not negative.
pub proof fn lemma_sum_nonneg<A>(s: Set<A>, amount: spec_fn(A) -> int)
    requires
        s.finite(),
        forall|x: A| s.contains(x) ==> amount(x) >= 0,
    ensures
        sum_of(s, amount) >= 0,
    decreases s.len(),
{
    if s.len() == 0 {
        assert(s =~= Set::<A>::empty());
        lemma_sum_empty(amount);
    } else {
        let a = s.choose();
        assert(s.contains(a));
        lemma_sum_remove(s, amount, a);
        lemma_sum_nonneg(s.remove(a), amount);
    }
}

/// The second components of the pairs of a finite set that share a first component form a
/// finite set.
pub proof fn lemma_slice_finite<A, B>(s: Set<(A, B)>, a: A)
    requires
        s.finite(),
    ensures
        Set::new(|b: B| s.contains((a, b))).finite(),
{
    let f = |k: (A, B)| k.1;
    let slice = Set::new(|b: B| s.contains((a, b)));
    s.lemma_map_finite(f);
    assert(slice.subset_of(s.map(f))) by {
        assert forall|b: B| #[trigger] slice.contains(b) implies s.map(f).contains(b) by {
            assert(s.contains((a, b)));
            assert(f((a, b)) == b);
        }
    }
    vstd::set_lib::lemma_len_subset(slice, s.map(f));
}

} // verus!
