//! What a world holds at one moment, and what one tick makes of it.
//!
//! A [`Scene`] is the mathematical content of a world: its bounds, its rules,
//! the members of each swarm by player, and the bullets by identifier. A tick
//! is a function from scene to scene, made of four steps in a fixed order:
//! swarms move, bullets fly, collisions are resolved, the dead are removed.

use vstd::prelude::*;
use crate::collision::{struck, unspent, Rules, DEFAULT_RADIUS};
use crate::entity::{marched, survivors, Bullet, Member};
use crate::tally::sum_over;

verus! {

/// Every swarm after one tick of movement.
pub open spec fn swarms_marched(
    swarms: Map<usize, Seq<Member>>,
    width: u32,
    height: u32,
) -> Map<usize, Seq<Member>> {
    swarms.map_values(|s: Seq<Member>| marched(s, width, height))
}

/// The bullets that outlast one tick of flight, each at its new position.
pub open spec fn bullets_flown(bullets: Map<usize, Bullet>, width: u32, height: u32) -> Map<
    usize,
    Bullet,
> {
    Map::new(
        |id: usize| bullets.contains_key(id) && bullets[id].flies(width, height),
        |id: usize| bullets[id].flown(),
    )
}

/// The swarms without their dead, and without the swarms that have no
/// member left.
pub open spec fn swarms_swept(swarms: Map<usize, Seq<Member>>) -> Map<usize, Seq<Member>> {
    Map::new(
        |p: usize| swarms.contains_key(p) && survivors(swarms[p]).len() > 0,
        |p: usize| survivors(swarms[p]),
    )
}

/// The number of members of each player's swarm.
pub open spec fn headcount(swarms: Map<usize, Seq<Member>>) -> spec_fn(usize) -> nat {
    |p: usize| swarms[p].len()
}

/// The number of members of all swarms together.
pub open spec fn census(swarms: Map<usize, Seq<Member>>) -> nat {
    sum_over(swarms.dom(), headcount(swarms))
}

/// The content of a world.
pub struct Scene {
    pub width: u32,
    pub height: u32,
    pub rules: Rules,
    /// The members of each swarm, by player.
    pub swarms: Map<usize, Seq<Member>>,
    /// The bullets in flight, by identifier.
    pub bullets: Map<usize, Bullet>,
    /// The identifier that the next bullet gets. No bullet in flight has
    /// this one or a higher one.
    pub next_bullet: usize,
}

impl Scene {
    /// An arena of the given size with nothing in it, under the rules that
    /// a new world starts with.
    pub open spec fn empty(width: u32, height: u32) -> Scene {
        Scene {
            width,
            height,
            rules: Rules { radius: DEFAULT_RADIUS, self_damage: false },
            swarms: Map::empty(),
            bullets: Map::empty(),
            next_bullet: 0,
        }
    }

    /// The scene is one that a world can hold: the arena has an area, there
    /// are finitely many entities, all of them inside the arena, and no
    /// bullet carries an identifier that is still to be given out.
    pub open spec fn valid(self) -> bool {
        &&& self.width > 0
        &&& self.height > 0
        &&& self.swarms.dom().finite()
        &&& self.bullets.dom().finite()
        &&& forall|p: usize, i: int|
            self.swarms.contains_key(p) && 0 <= i < self.swarms[p].len() ==> (
            #[trigger] self.swarms[p][i]).within(self.width, self.height)
        &&& forall|id: usize| #[trigger]
            self.bullets.contains_key(id) ==> self.bullets[id].within(self.width, self.height)
                && id < self.next_bullet
    }

    pub open spec fn swarm_count(self) -> nat {
        self.swarms.dom().len()
    }

    pub open spec fn bullet_count(self) -> nat {
        self.bullets.dom().len()
    }

    /// The number of members of all swarms together.
    pub open spec fn member_count(self) -> nat {
        census(self.swarms)
    }

    /// The swarms after this tick's movement.
    pub open spec fn marching(self) -> Map<usize, Seq<Member>> {
        swarms_marched(self.swarms, self.width, self.height)
    }

    /// The bullets still in flight after this tick's movement.
    pub open spec fn flying(self) -> Map<usize, Bullet> {
        bullets_flown(self.bullets, self.width, self.height)
    }

    /// The swarms after this tick's movement and collisions, the dead still
    /// among them.
    pub open spec fn wounded(self) -> Map<usize, Seq<Member>> {
        struck(self.rules, self.flying(), self.marching())
    }

    /// The scene one tick later.
    pub open spec fn advanced(self) -> Scene {
        Scene {
            swarms: swarms_swept(self.wounded()),
            bullets: unspent(self.rules, self.flying(), self.marching()),
            ..self
        }
    }
}

/// A tick leaves the bounds, the rules and the identifier counter alone, and
/// what it leaves in the arena is again a scene that a world can hold.
pub proof fn lemma_advanced_valid(s: Scene)
    requires
        s.valid(),
    ensures
        s.advanced().valid(),
{
    let next = s.advanced();
    assert(next.swarms.dom() <= s.swarms.dom());
    assert(next.bullets.dom() <= s.bullets.dom());
    vstd::set_lib::lemma_set_subset_finite(s.swarms.dom(), next.swarms.dom());
    vstd::set_lib::lemma_set_subset_finite(s.bullets.dom(), next.bullets.dom());
    assert forall|p: usize, i: int|
        next.swarms.contains_key(p) && 0 <= i < next.swarms[p].len() implies (
    #[trigger] next.swarms[p][i]).within(s.width, s.height) by {
        let hurt = s.wounded()[p];
        let m = next.swarms[p][i];
        assert(survivors(hurt).contains(m));
        hurt.lemma_filter_contains_rev(|m: Member| m.health > 0, m);
        let j = choose|j: int| 0 <= j < hurt.len() && hurt[j] == m;
        assert(s.marching()[p][j] == s.swarms[p][j].moved(s.width, s.height));
    }
}

} // verus!
