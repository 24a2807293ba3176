//! The world: the store of all swarms and bullets, and the tick that
//! advances them.
//!
//! The world owns every entity. From outside, an entity is known by its key
//! alone: a swarm by its player, a bullet by the identifier that the world
//! gave it. A player's program runs elsewhere; what it decides for the coming
//! tick reaches the world through [`World::steer`] and [`World::fire`], which
//! touch the caller's own swarm and nothing else.

use std::collections::HashMap;
use std::time::{Duration, Instant};
use vstd::prelude::*;
use crate::collision::{resolve, Rules, DEFAULT_RADIUS};
use crate::entity::{Bullet, Member, Swarm};
use crate::laws::{law_bullets_fly_or_vanish, law_empty_stays_empty};
use crate::scene::{lemma_advanced_valid, Scene};
use crate::snapshot::{encode, snapshot, snapshot_len};
use crate::store::{keys_of, lemma_ranks_dom, ranks};
use crate::tally::lists;
use crate::tick::{fly_all, march_all, sweep_all};

verus! {

broadcast use vstd::std_specs::hash::group_hash_axioms;

/// Why the world turned a request down.
#[derive(Clone, Copy, Debug, PartialEq, Eq, Structural)]
pub enum WorldError {
    /// The arena would have no area: its width or its height is zero.
    Configuration,
    /// The entity lies outside the arena.
    OutOfBounds,
    /// The player has a swarm already.
    PlayerTaken,
    /// Every bullet identifier has been given out.
    IdsExhausted,
    /// The player has no swarm.
    NoSuchSwarm,
    /// The swarm has no member at that index.
    NoSuchMember,
}

/// Every member of `members` lies inside an arena of the given size.
pub open spec fn all_within(members: Seq<Member>, width: u32, height: u32) -> bool {
    forall|i: int| 0 <= i < members.len() ==> (#[trigger] members[i]).within(width, height)
}

/// Tests whether every member lies inside an arena of the given size.
pub fn check_within(members: &Vec<Member>, width: u32, height: u32) -> (ok: bool)
    ensures
        ok == all_within(members@, width, height),
{
    let mut i: usize = 0;
    while i < members.len()
        invariant
            i <= members.len(),
            all_within(members@.take(i as int), width, height),
        decreases members.len() - i,
    {
        if members[i].x > width || members[i].y > height {
            assert(!members@[i as int].within(width, height));
            return false;
        }
        assert forall|j: int| 0 <= j < i + 1 implies (#[trigger] members@.take(
            i + 1,
        )[j]).within(width, height) by {
            if j < i {
                assert(members@.take(i as int)[j].within(width, height));
            }
        }
        i = i + 1;
    }
    assert(members@.take(i as int) =~= members@);
    true
}

/// The state of the game's world.
#[derive(Clone, Debug)]
pub struct World {
    width: u32,
    height: u32,
    rules: Rules,
    /// Each swarm, by the player that owns it.
    swarms: HashMap<usize, Swarm>,
    /// Each bullet, by an identifier that rises with every bullet added.
    bullets: HashMap<usize, Bullet>,
    next_bullet: usize,
}

impl View for World {
    type V = Scene;

    closed spec fn view(&self) -> Scene {
        Scene {
            width: self.width,
            height: self.height,
            rules: self.rules,
            swarms: ranks(self.swarms@),
            bullets: self.bullets@,
            next_bullet: self.next_bullet,
        }
    }
}

impl World {
    /// The world holds a scene that is valid. Every constructor establishes
    /// this and every method keeps it.
    pub open spec fn wf(&self) -> bool {
        self@.valid()
    }

    /// An empty world of the given size.
    pub fn new(width: u32, height: u32) -> (world: World)
        requires
            width > 0,
            height > 0,
        ensures
            world.wf(),
            world@ == Scene::empty(width, height),
    {
        let world = World {
            width,
            height,
            rules: Rules { radius: DEFAULT_RADIUS, self_damage: false },
            swarms: HashMap::new(),
            bullets: HashMap::new(),
            next_bullet: 0,
        };
        proof {
            assert(world@.swarms =~= Map::empty());
        }
        world
    }

    /// An empty world of the given size, with room set aside for the swarms
    /// of `capacity` players and ten bullets for each of them. The world
    /// grows beyond that when it has to.
    pub fn with_capacity(width: u32, height: u32, capacity: usize) -> (world: World)
        requires
            width > 0,
            height > 0,
            capacity * 10 <= usize::MAX,
        ensures
            world.wf(),
            world@ == Scene::empty(width, height),
    {
        let world = World {
            width,
            height,
            rules: Rules { radius: DEFAULT_RADIUS, self_damage: false },
            swarms: HashMap::with_capacity(capacity),
            bullets: HashMap::with_capacity(capacity * 10),
            next_bullet: 0,
        };
        proof {
            assert(world@.swarms =~= Map::empty());
        }
        world
    }

    /// An empty world of the given size, or the reason why there is none.
    pub fn try_new(width: u32, height: u32) -> (made: Result<World, WorldError>)
        ensures
            match made {
                Ok(world) => width > 0 && height > 0 && world.wf() && world@ == Scene::empty(
                    width,
                    height,
                ),
                Err(e) => (width == 0 || height == 0) && e == WorldError::Configuration,
            },
    {
        if width == 0 || height == 0 {
            Err(WorldError::Configuration)
        } else {
            Ok(World::new(width, height))
        }
    }

    pub fn width(&self) -> (width: u32)
        ensures
            width == self@.width,
    {
        self.width
    }

    pub fn height(&self) -> (height: u32)
        ensures
            height == self@.height,
    {
        self.height
    }

    pub fn rules(&self) -> (rules: Rules)
        ensures
            rules == self@.rules,
    {
        self.rules
    }

    /// Replaces the rules by which bullets and members meet.
    pub fn set_rules(&mut self, rules: Rules)
        ensures
            final(self)@ == (Scene { rules, ..old(self)@ }),
            old(self).wf() ==> final(self).wf(),
    {
        self.rules = rules;
    }

    /// The number of swarms in the world.
    pub fn swarm_count(&self) -> (n: usize)
        ensures
            n == self@.swarm_count(),
    {
        proof {
            lemma_ranks_dom(self.swarms@);
        }
        self.swarms.len()
    }

    /// The number of bullets in flight.
    pub fn bullet_count(&self) -> (n: usize)
        ensures
            n == self@.bullet_count(),
    {
        self.bullets.len()
    }

    /// The players that have a swarm, each once, in no particular order.
    pub fn players(&self) -> (players: Vec<usize>)
        ensures
            lists(players@, self@.swarms.dom()),
    {
        proof {
            lemma_ranks_dom(self.swarms@);
        }
        keys_of(&self.swarms)
    }

    /// The identifiers of the bullets in flight, each once, in no particular
    /// order.
    pub fn bullet_ids(&self) -> (ids: Vec<usize>)
        ensures
            lists(ids@, self@.bullets.dom()),
    {
        keys_of(&self.bullets)
    }

    /// The swarm of `player`, if there is one.
    pub fn swarm(&self, player: usize) -> (swarm: Option<&Swarm>)
        ensures
            match swarm {
                Some(s) => self@.swarms.contains_key(player) && s@ == self@.swarms[player],
                None => !self@.swarms.contains_key(player),
            },
    {
        self.swarms.get(&player)
    }

    /// The bullet with the identifier `id`, if it is in flight.
    pub fn bullet(&self, id: usize) -> (bullet: Option<Bullet>)
        ensures
            bullet == self@.bullets.get(id),
    {
        match self.bullets.get(&id) {
            Some(b) => Some(*b),
            None => None,
        }
    }

    /// Puts the swarm of a player into the world. Nothing changes where
    /// the player has a swarm already or a member lies outside the arena.
    pub fn add_swarm(&mut self, player: usize, members: Vec<Member>) -> (added: Result<
        (),
        WorldError,
    >)
        requires
            old(self).wf(),
        ensures
            final(self).wf(),
            added == if old(self)@.swarms.contains_key(player) {
                Err::<(), WorldError>(WorldError::PlayerTaken)
            } else if !all_within(members@, old(self)@.width, old(self)@.height) {
                Err(WorldError::OutOfBounds)
            } else {
                Ok(())
            },
            final(self)@ == if added is Ok {
                Scene { swarms: old(self)@.swarms.insert(player, members@), ..old(self)@ }
            } else {
                old(self)@
            },
    {
        if self.swarms.contains_key(&player) {
            return Err(WorldError::PlayerTaken);
        }
        if !check_within(&members, self.width, self.height) {
            return Err(WorldError::OutOfBounds);
        }
        let ghost line = members@;
        self.swarms.insert(player, Swarm::new(members));
        proof {
            assert(self@.swarms =~= old(self)@.swarms.insert(player, line));
        }
        Ok(())
    }

    /// Takes the swarm of a player out of the world and hands it back.
    pub fn remove_swarm(&mut self, player: usize) -> (removed: Option<Swarm>)
        requires
            old(self).wf(),
        ensures
            final(self).wf(),
            final(self)@ == (Scene {
                swarms: old(self)@.swarms.remove(player),
                ..old(self)@
            }),
            match removed {
                Some(s) => old(self)@.swarms.contains_key(player) && s@
                    == old(self)@.swarms[player],
                None => !old(self)@.swarms.contains_key(player),
            },
    {
        let removed = self.swarms.remove(&player);
        proof {
            assert(self@.swarms =~= old(self)@.swarms.remove(player));
        }
        removed
    }

    /// Puts a bullet into the world and returns the identifier it got, one
    /// that no bullet in flight has. Nothing changes where the bullet lies
    /// outside the arena or no identifier is left.
    pub fn add_bullet(&mut self, bullet: Bullet) -> (added: Result<usize, WorldError>)
        requires
            old(self).wf(),
        ensures
            final(self).wf(),
            added == if !bullet.within(old(self)@.width, old(self)@.height) {
                Err::<usize, WorldError>(WorldError::OutOfBounds)
            } else if old(self)@.next_bullet == usize::MAX {
                Err(WorldError::IdsExhausted)
            } else {
                Ok(old(self)@.next_bullet)
            },
            added is Ok ==> !old(self)@.bullets.contains_key(added->Ok_0),
            final(self)@ == if added is Ok {
                Scene {
                    bullets: old(self)@.bullets.insert(added->Ok_0, bullet),
                    next_bullet: (added->Ok_0 + 1) as usize,
                    ..old(self)@
                }
            } else {
                old(self)@
            },
    {
        if bullet.x > self.width || bullet.y > self.height {
            return Err(WorldError::OutOfBounds);
        }
        if self.next_bullet == usize::MAX {
            return Err(WorldError::IdsExhausted);
        }
        let id: usize = self.next_bullet;
        self.bullets.insert(id, bullet);
        self.next_bullet = id + 1;
        Ok(id)
    }

    /// Takes a bullet out of the world and hands it back.
    pub fn remove_bullet(&mut self, id: usize) -> (removed: Option<Bullet>)
        requires
            old(self).wf(),
        ensures
            final(self).wf(),
            final(self)@ == (Scene {
                bullets: old(self)@.bullets.remove(id),
                ..old(self)@
            }),
            removed == old(self)@.bullets.get(id),
    {
        self.bullets.remove(&id)
    }

    /// Sets the velocity of one member of a player's swarm.
    pub fn steer(&mut self, player: usize, index: usize, vx: i32, vy: i32) -> (done: Result<
        (),
        WorldError,
    >)
        requires
            old(self).wf(),
        ensures
            final(self).wf(),
            done == if !old(self)@.swarms.contains_key(player) {
                Err::<(), WorldError>(WorldError::NoSuchSwarm)
            } else if index >= old(self)@.swarms[player].len() {
                Err(WorldError::NoSuchMember)
            } else {
                Ok(())
            },
            final(self)@ == if done is Ok {
                Scene {
                    swarms: old(self)@.swarms.insert(
                        player,
                        old(self)@.swarms[player].update(
                            index as int,
                            (Member { vx, vy, ..old(self)@.swarms[player][index as int] }),
                        ),
                    ),
                    ..old(self)@
                }
            } else {
                old(self)@
            },
    {
        let within: usize = match self.swarms.get(&player) {
            Some(s) => s.len(),
            None => {
                return Err(WorldError::NoSuchSwarm);
            },
        };
        if index >= within {
            return Err(WorldError::NoSuchMember);
        }
        let ghost before = self@.swarms;
        let taken = self.swarms.remove(&player);
        assert(taken is Some);
        let mut swarm: Swarm = taken.unwrap();
        swarm.steer(index, vx, vy);
        self.swarms.insert(player, swarm);
        proof {
            assert(self@.swarms =~= before.insert(player, swarm@));
            assert forall|p: usize, i: int|
                self@.swarms.contains_key(p) && 0 <= i < self@.swarms[p].len() implies (
            #[trigger] self@.swarms[p][i]).within(self@.width, self@.height) by {
                assert(before[p][i].within(self@.width, self@.height));
            }
        }
        Ok(())
    }

    /// Fires a bullet from one member of a player's swarm: the bullet starts
    /// where the member stands and belongs to the player. Returns the
    /// bullet's identifier.
    pub fn fire(
        &mut self,
        player: usize,
        index: usize,
        vx: i32,
        vy: i32,
        ttl: u32,
        damage: u32,
    ) -> (fired: Result<usize, WorldError>)
        requires
            old(self).wf(),
        ensures
            final(self).wf(),
            fired == if !old(self)@.swarms.contains_key(player) {
                Err::<usize, WorldError>(WorldError::NoSuchSwarm)
            } else if index >= old(self)@.swarms[player].len() {
                Err(WorldError::NoSuchMember)
            } else if old(self)@.next_bullet == usize::MAX {
                Err(WorldError::IdsExhausted)
            } else {
                Ok(old(self)@.next_bullet)
            },
            fired is Ok ==> !old(self)@.bullets.contains_key(fired->Ok_0),
            final(self)@ == if fired is Ok {
                Scene {
                    bullets: old(self)@.bullets.insert(
                        fired->Ok_0,
                        Bullet {
                            x: old(self)@.swarms[player][index as int].x,
                            y: old(self)@.swarms[player][index as int].y,
                            vx,
                            vy,
                            owner: player,
                            ttl,
                            damage,
                        },
                    ),
                    next_bullet: (fired->Ok_0 + 1) as usize,
                    ..old(self)@
                }
            } else {
                old(self)@
            },
    {
        let shooter: Member = match self.swarms.get(&player) {
            Some(s) => match s.member(index) {
                Some(m) => m,
                None => {
                    return Err(WorldError::NoSuchMember);
                },
            },
            None => {
                return Err(WorldError::NoSuchSwarm);
            },
        };
        assert(shooter == self@.swarms[player][index as int]);
        assert(shooter.within(self@.width, self@.height));
        self.add_bullet(
            Bullet { x: shooter.x, y: shooter.y, vx, vy, owner: player, ttl, damage },
        )
    }

    /// Returns the world in byte representation, for a client to draw: the
    /// bounds, every swarm with its members, and every bullet.
    pub fn serialize(&self) -> (out: Vec<u8>)
        ensures
            exists|players: Seq<usize>, ids: Seq<usize>|
                lists(players, self@.swarms.dom()) && lists(ids, self@.bullets.dom()) && out@
                    == #[trigger] snapshot(
                    self@.width,
                    self@.height,
                    self@.swarms,
                    self@.bullets,
                    players,
                    ids,
                ),
            out@.len() == snapshot_len(
                self@.swarm_count(),
                self@.member_count(),
                self@.bullet_count(),
            ),
    {
        let out: Vec<u8> = encode(self.width, self.height, &self.swarms, &self.bullets);
        proof {
            let field = ranks(self.swarms@);
            let (players, ids) = choose|players: Seq<usize>, ids: Seq<usize>|
                lists(players, field.dom()) && lists(ids, self.bullets@.dom()) && out@
                    == #[trigger] snapshot(
                    self.width,
                    self.height,
                    field,
                    self.bullets@,
                    players,
                    ids,
                );
            assert(out@ == snapshot(
                self@.width,
                self@.height,
                self@.swarms,
                self@.bullets,
                players,
                ids,
            ));
        }
        out
    }

    /// Performs one tick of the world: every swarm moves, every bullet
    /// flies, bullets that reach a member hit it, and what was destroyed
    /// leaves the world. Returns the time that the tick took.
    pub fn update(&mut self) -> (elapsed: Duration)
        requires
            old(self).wf(),
        ensures
            final(self).wf(),
            final(self)@ == old(self)@.advanced(),
            old(self)@.swarm_count() == 0 && old(self)@.bullet_count() == 0 ==> final(self)@
                == old(self)@,
            forall|id: usize| #[trigger]
                final(self)@.bullets.contains_key(id) ==> old(self)@.bullets.contains_key(id)
                    && final(self)@.bullets[id] == old(self)@.bullets[id].flown()
                    && final(self)@.bullets[id].x == old(self)@.bullets[id].x
                    + old(self)@.bullets[id].vx && final(self)@.bullets[id].y
                    == old(self)@.bullets[id].y + old(self)@.bullets[id].vy,
    {
        proof {
            if old(self)@.swarm_count() == 0 && old(self)@.bullet_count() == 0 {
                assert(old(self)@.swarms.dom() =~= Set::<usize>::empty());
                assert(old(self)@.bullets.dom() =~= Set::<usize>::empty());
                law_empty_stays_empty(old(self)@);
            }
            assert forall|id: usize| #[trigger]
                old(self)@.advanced().bullets.contains_key(id) implies old(
                self,
            )@.bullets.contains_key(id) && old(self)@.advanced().bullets[id] == old(
                self,
            )@.bullets[id].flown() && old(self)@.advanced().bullets[id].x == old(self)@.bullets[id].x
                + old(self)@.bullets[id].vx && old(self)@.advanced().bullets[id].y == old(
                self,
            )@.bullets[id].y + old(self)@.bullets[id].vy by {
                law_bullets_fly_or_vanish(old(self)@, id);
            }
        }
        let start: Instant = Instant::now();
        march_all(&mut self.swarms, self.width, self.height);
        fly_all(&mut self.bullets, self.width, self.height);
        resolve(&self.rules, &mut self.swarms, &mut self.bullets);
        sweep_all(&mut self.swarms);
        proof {
            lemma_advanced_valid(old(self)@);
        }
        Instant::now().saturating_duration_since(start)
    }
}

} // verus!
