//! Walking the entity maps.
//!
//! A hash map hands out its keys in an order of its own. The world first
//! writes the keys down, then works along that list, so that entries can be
//! replaced and removed on the way.

use std::collections::HashMap;
use vstd::prelude::*;
use vstd::std_specs::iter::IteratorSpec;
use crate::entity::{Member, Swarm};
use crate::tally::lists;

verus! {

broadcast use vstd::std_specs::hash::group_hash_axioms;

/// The members of every swarm, by player.
pub open spec fn ranks(swarms: Map<usize, Swarm>) -> Map<usize, Seq<Member>> {
    swarms.map_values(|s: Swarm| s@)
}

/// Every player with a swarm has ranks, and nobody else.
pub proof fn lemma_ranks_dom(swarms: Map<usize, Swarm>)
    ensures
        ranks(swarms).dom() == swarms.dom(),
{
    assert(ranks(swarms).dom() =~= swarms.dom());
}

/// The keys of `m`, each once, in the order in which the map yields them.
pub fn keys_of<V>(m: &HashMap<usize, V>) -> (keys: Vec<usize>)
    ensures
        lists(keys@, m@.dom()),
        keys@.len() == m@.len(),
{
    let mut keys: Vec<usize> = Vec::new();
    let ghost all = m.keys().remaining().unref();
    for k in it: m.keys()
        invariant
            it.seq().unref() == all,
            keys@ == all.take(it.index()),
    {
        keys.push(*k);
    }
    assert(keys@ == all);
    keys
}

} // verus!
