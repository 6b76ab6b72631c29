//! Sums over finite maps keyed by page index.

use vstd::prelude::*;

verus! {

/// The sum of `weight(value)` over the entries of `m`.
pub open spec fn weighted_sum<V>(m: Map<usize, V>, weight: spec_fn(V) -> nat) -> nat
    decreases m.dom().len(),
    when m.dom().finite()
{
    if m.dom().len() == 0 {
        0
    } else {
        let a = m.dom().choose();
        weight(m[a]) + weighted_sum(m.remove(a), weight)
    }
}

/// An entry counts with its weight; the rest of the map counts as before.
pub proof fn lemma_sum_remove<V>(m: Map<usize, V>, weight: spec_fn(V) -> nat, a: usize)
    requires
        m.dom().finite(),
        m.contains_key(a),
    ensures
        weighted_sum(m, weight) == weight(m[a]) + weighted_sum(m.remove(a), weight),
    decreases m.dom().len(),
{
    let c = m.dom().choose();
    if c != a {
        lemma_sum_remove(m.remove(c), weight, a);
        lemma_sum_remove(m.remove(a), weight, c);
        assert(m.remove(c).remove(a) =~= m.remove(a).remove(c));
    }
}

/// A new entry adds its weight.
pub proof fn lemma_sum_insert_new<V>(m: Map<usize, V>, weight: spec_fn(V) -> nat, a: usize, v: V)
    requires
        m.dom().finite(),
        !m.contains_key(a),
    ensures
        weighted_sum(m.insert(a, v), weight) == weight(v) + weighted_sum(m, weight),
{
    lemma_sum_remove(m.insert(a, v), weight, a);
    assert(m.insert(a, v).remove(a) =~= m);
}

/// The empty map sums to zero.
pub proof fn lemma_sum_empty<V>(weight: spec_fn(V) -> nat)
    ensures
        weighted_sum(Map::<usize, V>::empty(), weight) == 0,
{
    assert(Map::<usize, V>::empty().dom() =~= Set::<usize>::empty());
}

} // verus!
