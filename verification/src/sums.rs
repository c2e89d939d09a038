//! Sums of integer weights over finite sets of keys.

use vstd::prelude::*;

verus! {

/// The sum of `f` over the keys of a finite set; zero for an infinite one.
pub open spec fn sum_over<K>(keys: Set<K>, f: spec_fn(K) -> int) -> int
    decreases keys.len(),
{
    if !keys.finite() || keys.len() == 0 {
        0
    } else {
        let a = keys.choose();
        f(a) + sum_over(keys.remove(a), f)
    }
}

/// Taking one key out of a finite set takes its weight out of the sum,
/// whichever key the sum happened to start with.
pub proof fn lemma_sum_over_remove<K>(keys: Set<K>, f: spec_fn(K) -> int, k: K)
    requires
        keys.finite(),
        keys.contains(k),
    ensures
        sum_over(keys, f) == f(k) + sum_over(keys.remove(k), f),
    decreases keys.len(),
{
    let a = keys.choose();
    if a != k {
        lemma_sum_over_remove(keys.remove(a), f, k);
        lemma_sum_over_remove(keys.remove(k), f, a);
        assert(keys.remove(a).remove(k) =~= keys.remove(k).remove(a));
    }
}

/// The sum over `keys` only depends on the weights of those keys.
pub proof fn lemma_sum_over_agree<K>(keys: Set<K>, f: spec_fn(K) -> int, g: spec_fn(K) -> int)
    requires
        forall|x: K| #[trigger] keys.contains(x) ==> f(x) == g(x),
    ensures
        sum_over(keys, f) == sum_over(keys, g),
    decreases keys.len(),
{
    if keys.finite() && keys.len() > 0 {
        let a = keys.choose();
        lemma_sum_over_agree(keys.remove(a), f, g);
    }
}

/// Adding a key that was not in the set adds its weight to the sum.
pub proof fn lemma_sum_over_insert<K>(keys: Set<K>, f: spec_fn(K) -> int, k: K)
    requires
        keys.finite(),
        !keys.contains(k),
    ensures
        sum_over(keys.insert(k), f) == f(k) + sum_over(keys, f),
{
    lemma_sum_over_remove(keys.insert(k), f, k);
    assert(keys.insert(k).remove(k) =~= keys);
}

/// A sum of weights that are never negative is not negative.
pub proof fn lemma_sum_over_nonnegative<K>(keys: Set<K>, f: spec_fn(K) -> int)
    requires
        forall|x: K| #[trigger] keys.contains(x) ==> f(x) >= 0,
    ensures
        sum_over(keys, f) >= 0,
    decreases keys.len(),
{
    if keys.finite() && keys.len() > 0 {
        let a = keys.choose();
        lemma_sum_over_nonnegative(keys.remove(a), f);
    }
}

} // verus!
