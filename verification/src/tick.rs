//! The steps of a tick that touch one kind of entity at a time.
//!
//! Each step first lists the keys of the map it works on and then visits
//! every entry once. Removals happen on the way: the list is fixed, so
//! taking an entry out of the map disturbs nothing that is still to come.

use std::collections::HashMap;
use vstd::prelude::*;
use crate::entity::{marched, survivors, Bullet, Swarm};
use crate::scene::{bullets_flown, swarms_marched, swarms_swept};
use crate::store::{keys_of, lemma_ranks_dom, ranks};
use crate::tally::lists;

verus! {

broadcast use vstd::std_specs::hash::group_hash_axioms;

/// Moves every member of every swarm by one tick.
pub fn march_all(swarms: &mut HashMap<usize, Swarm>, width: u32, height: u32)
    ensures
        ranks(final(swarms)@) == swarms_marched(ranks(old(swarms)@), width, height),
{
    let players: Vec<usize> = keys_of(swarms);
    let ghost start = ranks(swarms@);
    proof {
        lemma_ranks_dom(swarms@);
    }
    let mut a: usize = 0;
    while a < players.len()
        invariant
            a <= players.len(),
            lists(players@, start.dom()),
            ranks(swarms@).dom() == start.dom(),
            forall|c: int|
                0 <= c < players.len() ==> ranks(swarms@)[#[trigger] players[c]] == if c < a {
                    marched(start[players[c]], width, height)
                } else {
                    start[players[c]]
                },
        decreases players.len() - a,
    {
        let p: usize = players[a];
        assert(players@.to_set().contains(players@[a as int]));
        let ghost held = swarms@;
        let taken = swarms.remove(&p);
        assert(taken is Some);
        let mut swarm: Swarm = taken.unwrap();
        swarm.update(width, height);
        swarms.insert(p, swarm);
        proof {
            assert(swarms@ =~= held.insert(p, swarm));
            assert(ranks(swarms@).dom() =~= start.dom());
            assert forall|c: int| 0 <= c < players.len() implies ranks(swarms@)[
                #[trigger] players[c]
            ] == if c < a + 1 {
                marched(start[players[c]], width, height)
            } else {
                start[players[c]]
            } by {
                if c != a {
                    assert(players@[c] != players@[a as int]);
                    assert(ranks(swarms@)[players[c]] == ranks(held)[players[c]]);
                }
            }
        }
        a = a + 1;
    }
    proof {
        let goal = swarms_marched(start, width, height);
        assert forall|p: usize| goal.contains_key(p) implies ranks(swarms@)[p] == goal[p] by {
            assert(players@.to_set().contains(p));
            let c = choose|c: int| 0 <= c < players@.len() && players@[c] == p;
            assert(ranks(swarms@)[players[c]] == marched(start[players[c]], width, height));
        }
        assert(ranks(swarms@) =~= goal);
    }
}

/// Moves every bullet by one tick and takes out those that expire or leave
/// the arena.
pub fn fly_all(bullets: &mut HashMap<usize, Bullet>, width: u32, height: u32)
    ensures
        final(bullets)@ == bullets_flown(old(bullets)@, width, height),
{
    let ids: Vec<usize> = keys_of(bullets);
    let ghost start = bullets@;
    let mut n: usize = 0;
    while n < ids.len()
        invariant
            n <= ids.len(),
            lists(ids@, start.dom()),
            forall|id: usize| #[trigger] bullets@.contains_key(id) ==> start.contains_key(id),
            forall|c: int|
                0 <= c < n ==> (bullets@.contains_key(#[trigger] ids[c]) <==> start[ids[c]].flies(
                    width,
                    height,
                )),
            forall|c: int|
                0 <= c < n && bullets@.contains_key(#[trigger] ids[c]) ==> bullets@[ids[c]]
                    == start[ids[c]].flown(),
            forall|c: int|
                n <= c < ids.len() ==> bullets@.contains_key(#[trigger] ids[c]) && bullets@[ids[c]]
                    == start[ids[c]],
        decreases ids.len() - n,
    {
        let id: usize = ids[n];
        let found = bullets.get(&id);
        assert(found is Some);
        let mut b: Bullet = *found.unwrap();
        let ghost held = bullets@;
        if b.update(width, height) {
            bullets.insert(id, b);
        } else {
            bullets.remove(&id);
        }
        proof {
            assert forall|c: int| 0 <= c < ids.len() && c != n implies (bullets@.contains_key(
                #[trigger] ids[c],
            ) <==> held.contains_key(ids[c])) && (held.contains_key(ids[c]) ==> bullets@[ids[c]]
                == held[ids[c]]) by {
                assert(ids@[c] != ids@[n as int]);
            }
        }
        n = n + 1;
    }
    proof {
        let goal = bullets_flown(start, width, height);
        assert forall|id: usize| start.contains_key(id) implies (bullets@.contains_key(id)
            <==> goal.contains_key(id)) && (goal.contains_key(id) ==> bullets@[id] == goal[id]) by {
            assert(ids@.to_set().contains(id));
            let c = choose|c: int| 0 <= c < ids@.len() && ids@[c] == id;
            assert(bullets@.contains_key(ids[c]) <==> start[ids[c]].flies(width, height));
        }
        assert(bullets@ =~= goal);
    }
}

/// Takes the dead out of every swarm, and every swarm without members out
/// of the map.
pub fn sweep_all(swarms: &mut HashMap<usize, Swarm>)
    ensures
        ranks(final(swarms)@) == swarms_swept(ranks(old(swarms)@)),
{
    let players: Vec<usize> = keys_of(swarms);
    let ghost start = ranks(swarms@);
    proof {
        lemma_ranks_dom(swarms@);
    }
    let mut a: usize = 0;
    while a < players.len()
        invariant
            a <= players.len(),
            lists(players@, start.dom()),
            forall|p: usize| #[trigger]
                ranks(swarms@).contains_key(p) ==> start.contains_key(p),
            forall|c: int|
                0 <= c < a ==> (ranks(swarms@).contains_key(#[trigger] players[c]) <==> survivors(
                    start[players[c]],
                ).len() > 0),
            forall|c: int|
                0 <= c < a && ranks(swarms@).contains_key(#[trigger] players[c]) ==> ranks(
                    swarms@,
                )[players[c]] == survivors(start[players[c]]),
            forall|c: int|
                a <= c < players.len() ==> ranks(swarms@).contains_key(#[trigger] players[c])
                    && ranks(swarms@)[players[c]] == start[players[c]],
        decreases players.len() - a,
    {
        let p: usize = players[a];
        let ghost held = swarms@;
        assert(ranks(held).contains_key(players[a as int]));
        let taken = swarms.remove(&p);
        assert(taken is Some);
        let mut swarm: Swarm = taken.unwrap();
        swarm.sweep();
        if !swarm.is_empty() {
            swarms.insert(p, swarm);
        }
        proof {
            assert(swarms@.dom() <= held.dom());
            lemma_ranks_dom(swarms@);
            lemma_ranks_dom(held);
            assert forall|c: int| 0 <= c < players.len() && c != a implies (ranks(
                swarms@,
            ).contains_key(#[trigger] players[c]) <==> ranks(held).contains_key(players[c])) && (
            ranks(held).contains_key(players[c]) ==> ranks(swarms@)[players[c]] == ranks(
                held,
            )[players[c]]) by {
                assert(players@[c] != players@[a as int]);
            }
        }
        a = a + 1;
    }
    proof {
        let goal = swarms_swept(start);
        assert forall|p: usize| start.contains_key(p) implies (ranks(swarms@).contains_key(p)
            <==> goal.contains_key(p)) && (goal.contains_key(p) ==> ranks(swarms@)[p]
            == goal[p]) by {
            assert(players@.to_set().contains(p));
            let c = choose|c: int| 0 <= c < players@.len() && players@[c] == p;
            assert(ranks(swarms@).contains_key(players[c]) <==> survivors(start[players[c]]).len()
                > 0);
        }
        assert(ranks(swarms@) =~= goal);
    }
}

} // verus!
