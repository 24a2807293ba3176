//! Sums of natural numbers over finite sets of keys.
//!
//! A hash map is walked in no particular order. What the world computes from
//! such a walk is stated over the set of keys, and the lemmas here show that a
//! walk along any listing of the keys arrives at the same sum.

use vstd::prelude::*;
use vstd::set::fold::*;

verus! {

/// The sum of `weight` over the elements of `keys`.
pub open spec fn sum_over<K>(keys: Set<K>, weight: spec_fn(K) -> nat) -> nat
    recommends
        keys.finite(),
{
    keys.fold(0nat, |acc: nat, k: K| acc + weight(k))
}

/// The sum of `weight` along `order`, an element counted as often as it occurs.
pub open spec fn sum_along<K>(order: Seq<K>, weight: spec_fn(K) -> nat) -> nat
    decreases order.len(),
{
    if order.len() == 0 {
        0
    } else {
        sum_along(order.drop_last(), weight) + weight(order.last())
    }
}

/// `order` names each element of `keys` once and nothing else.
pub open spec fn lists<K>(order: Seq<K>, keys: Set<K>) -> bool {
    order.no_duplicates() && order.to_set() == keys
}

proof fn lemma_adding_commutes<K>(weight: spec_fn(K) -> nat)
    ensures
        is_fun_commutative(|acc: nat, k: K| acc + weight(k)),
{
}

/// The sum over no keys is zero.
pub proof fn lemma_sum_over_empty<K>(weight: spec_fn(K) -> nat)
    ensures
        sum_over(Set::<K>::empty(), weight) == 0,
{
    lemma_fold_empty(0nat, |acc: nat, k: K| acc + weight(k));
}

/// A new key adds its weight to the sum.
pub proof fn lemma_sum_over_insert<K>(keys: Set<K>, weight: spec_fn(K) -> nat, k: K)
    requires
        keys.finite(),
        !keys.contains(k),
    ensures
        sum_over(keys.insert(k), weight) == sum_over(keys, weight) + weight(k),
{
    lemma_adding_commutes(weight);
    lemma_fold_insert(keys, 0nat, |acc: nat, k: K| acc + weight(k), k);
}

/// A key's weight can be split off the sum.
pub proof fn lemma_sum_over_remove<K>(keys: Set<K>, weight: spec_fn(K) -> nat, k: K)
    requires
        keys.finite(),
        keys.contains(k),
    ensures
        sum_over(keys, weight) == sum_over(keys.remove(k), weight) + weight(k),
{
    assert(keys.remove(k).insert(k) =~= keys);
    lemma_sum_over_insert(keys.remove(k), weight, k);
}

/// Two weights that agree on every key give the same sum.
pub proof fn lemma_sum_over_agree<K>(
    keys: Set<K>,
    weight: spec_fn(K) -> nat,
    other: spec_fn(K) -> nat,
)
    requires
        keys.finite(),
        forall|k: K| keys.contains(k) ==> weight(k) == other(k),
    ensures
        sum_over(keys, weight) == sum_over(keys, other),
    decreases keys.len(),
{
    if keys.len() == 0 {
        assert(keys =~= Set::<K>::empty());
        lemma_sum_over_empty(weight);
        lemma_sum_over_empty(other);
    } else {
        let k = keys.choose();
        lemma_sum_over_remove(keys, weight, k);
        lemma_sum_over_remove(keys, other, k);
        lemma_sum_over_agree(keys.remove(k), weight, other);
    }
}

/// Keys that all weigh nothing sum to nothing.
pub proof fn lemma_sum_over_zero<K>(keys: Set<K>, weight: spec_fn(K) -> nat)
    requires
        keys.finite(),
        forall|k: K| keys.contains(k) ==> weight(k) == 0,
    ensures
        sum_over(keys, weight) == 0,
    decreases keys.len(),
{
    if keys.len() == 0 {
        assert(keys =~= Set::<K>::empty());
        lemma_sum_over_empty(weight);
    } else {
        let k = keys.choose();
        lemma_sum_over_remove(keys, weight, k);
        lemma_sum_over_zero(keys.remove(k), weight);
    }
}

/// Keys that weigh nothing can be left out of the sum.
pub proof fn lemma_sum_over_subset<K>(keys: Set<K>, part: Set<K>, weight: spec_fn(K) -> nat)
    requires
        keys.finite(),
        part <= keys,
        forall|k: K| keys.contains(k) && !part.contains(k) ==> weight(k) == 0,
    ensures
        sum_over(keys, weight) == sum_over(part, weight),
    decreases keys.len(),
{
    vstd::set_lib::lemma_set_subset_finite(keys, part);
    if keys.len() == 0 {
        assert(keys =~= Set::<K>::empty());
        assert(part =~= Set::<K>::empty());
    } else {
        let k = keys.choose();
        lemma_sum_over_remove(keys, weight, k);
        if part.contains(k) {
            lemma_sum_over_remove(part, weight, k);
            lemma_sum_over_subset(keys.remove(k), part.remove(k), weight);
        } else {
            lemma_sum_over_subset(keys.remove(k), part, weight);
        }
    }
}

/// Walking the keys in any order, each once, gives the sum over the set.
pub proof fn lemma_sum_along_listing<K>(order: Seq<K>, weight: spec_fn(K) -> nat)
    requires
        order.no_duplicates(),
    ensures
        sum_along(order, weight) == sum_over(order.to_set(), weight),
    decreases order.len(),
{
    if order.len() == 0 {
        assert(order.to_set() =~= Set::<K>::empty());
        lemma_sum_over_empty(weight);
    } else {
        let rest = order.drop_last();
        let last = order.last();
        assert(rest.no_duplicates());
        assert(!rest.to_set().contains(last));
        assert(rest.to_set().insert(last) =~= order.to_set()) by {
            assert forall|k: K| order.to_set().contains(k) implies rest.to_set().insert(
                last,
            ).contains(k) by {
                let i = choose|i: int| 0 <= i < order.len() && order[i] == k;
                if i < rest.len() {
                    assert(rest[i] == k);
                }
            }
            assert forall|k: K| rest.to_set().insert(last).contains(k) implies order.to_set().contains(
                k,
            ) by {
                if k == last {
                    assert(order[order.len() - 1] == k);
                } else {
                    let i = choose|i: int| 0 <= i < rest.len() && rest[i] == k;
                    assert(order[i] == k);
                }
            }
        }
        vstd::seq_lib::seq_to_set_is_finite(rest);
        lemma_sum_along_listing(rest, weight);
        lemma_sum_over_insert(rest.to_set(), weight, last);
    }
}

/// One more step of a walk adds the weight of the key it reaches.
pub proof fn lemma_sum_along_step<K>(order: Seq<K>, weight: spec_fn(K) -> nat, n: int)
    requires
        0 <= n < order.len(),
    ensures
        sum_along(order.take(n + 1), weight) == sum_along(order.take(n), weight) + weight(
            order[n],
        ),
{
    assert(order.take(n + 1).drop_last() =~= order.take(n));
}

} // verus!
