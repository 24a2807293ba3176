//! The passive records of the arena: swarm members, swarms and bullets, each
//! with the step it takes in one tick.
//!
//! Coordinates are whole arena units. A position is a pair of `u32`, a velocity
//! a pair of `i32` giving the units covered in one tick.

use vstd::prelude::*;

verus! {

/// The coordinate `v` pulled back into `0 ..= limit`.
pub open spec fn clamped(v: int, limit: u32) -> u32 {
    if v < 0 {
        0u32
    } else if v > limit {
        limit
    } else {
        v as u32
    }
}

/// One step along an axis, stopped at the arena's edge.
pub fn clamp_step(pos: u32, step: i32, limit: u32) -> (r: u32)
    ensures
        r == clamped(pos + step, limit),
{
    let target: i64 = pos as i64 + step as i64;
    if target < 0 {
        0
    } else if target > limit as i64 {
        limit
    } else {
        target as u32
    }
}

/// A unit of a swarm.
#[derive(Clone, Copy, Debug, PartialEq, Eq, Structural)]
pub struct Member {
    pub x: u32,
    pub y: u32,
    /// Units moved along x in one tick, as last ordered by the player's program.
    pub vx: i32,
    /// Units moved along y in one tick.
    pub vy: i32,
    pub health: u32,
}

impl Member {
    /// The member lies inside an arena of the given size.
    pub open spec fn within(self, width: u32, height: u32) -> bool {
        self.x <= width && self.y <= height
    }

    /// The member after one tick of movement. Members never leave the arena:
    /// they stop at its edge.
    pub open spec fn moved(self, width: u32, height: u32) -> Member {
        Member {
            x: clamped(self.x + self.vx, width),
            y: clamped(self.y + self.vy, height),
            ..self
        }
    }

    /// The member after taking `damage` points in total. Health stops at zero.
    pub open spec fn struck(self, damage: nat) -> Member {
        Member {
            health: if damage >= self.health {
                0u32
            } else {
                (self.health - damage) as u32
            },
            ..self
        }
    }

    /// Advances the member by one tick.
    pub fn update(&mut self, width: u32, height: u32)
        ensures
            *final(self) == old(self).moved(width, height),
    {
        self.x = clamp_step(self.x, self.vx, width);
        self.y = clamp_step(self.y, self.vy, height);
    }

    /// Takes `damage` points off the member's health.
    pub fn hurt(&mut self, damage: u32)
        ensures
            *final(self) == old(self).struck(damage as nat),
    {
        if damage >= self.health {
            self.health = 0;
        } else {
            self.health = self.health - damage;
        }
    }
}

/// A projectile in flight.
#[derive(Clone, Copy, Debug, PartialEq, Eq, Structural)]
pub struct Bullet {
    pub x: u32,
    pub y: u32,
    pub vx: i32,
    pub vy: i32,
    /// The player whose swarm fired it. That swarm may be gone by now.
    pub owner: usize,
    /// Ticks the bullet may still fly.
    pub ttl: u32,
    /// Health points taken from the member it hits.
    pub damage: u32,
}

impl Bullet {
    /// The bullet lies inside an arena of the given size.
    pub open spec fn within(self, width: u32, height: u32) -> bool {
        self.x <= width && self.y <= height
    }

    /// The bullet outlasts its next move: it has time left and lands inside
    /// the arena.
    pub open spec fn flies(self, width: u32, height: u32) -> bool {
        &&& self.ttl > 0
        &&& 0 <= self.x + self.vx <= width
        &&& 0 <= self.y + self.vy <= height
    }

    /// The bullet after one tick of flight.
    pub open spec fn flown(self) -> Bullet
        recommends
            self.ttl > 0,
            0 <= self.x + self.vx <= u32::MAX,
            0 <= self.y + self.vy <= u32::MAX,
    {
        Bullet {
            x: (self.x + self.vx) as u32,
            y: (self.y + self.vy) as u32,
            ttl: (self.ttl - 1) as u32,
            ..self
        }
    }

    /// Advances the bullet by one tick. Returns whether it is still in
    /// flight; a bullet that has expired or left the arena stays as it was.
    pub fn update(&mut self, width: u32, height: u32) -> (alive: bool)
        ensures
            alive == old(self).flies(width, height),
            alive ==> *final(self) == old(self).flown(),
            !alive ==> *final(self) == *old(self),
    {
        if self.ttl == 0 {
            return false;
        }
        let nx: i64 = self.x as i64 + self.vx as i64;
        let ny: i64 = self.y as i64 + self.vy as i64;
        if nx < 0 || nx > width as i64 || ny < 0 || ny > height as i64 {
            return false;
        }
        self.x = nx as u32;
        self.y = ny as u32;
        self.ttl = self.ttl - 1;
        true
    }
}

/// The members of `s` after one tick of movement, in the same order.
pub open spec fn marched(s: Seq<Member>, width: u32, height: u32) -> Seq<Member> {
    s.map_values(|m: Member| m.moved(width, height))
}

/// The members of `s` that still have health, in the same order.
pub open spec fn survivors(s: Seq<Member>) -> Seq<Member> {
    s.filter(|m: Member| m.health > 0)
}

/// The units of one player.
#[derive(Clone, Debug)]
pub struct Swarm {
    members: Vec<Member>,
}

impl View for Swarm {
    type V = Seq<Member>;

    closed spec fn view(&self) -> Seq<Member> {
        self.members@
    }
}

impl Swarm {
    pub fn new(members: Vec<Member>) -> (swarm: Swarm)
        ensures
            swarm@ == members@,
    {
        Swarm { members }
    }

    pub fn len(&self) -> (n: usize)
        ensures
            n == self@.len(),
    {
        self.members.len()
    }

    pub fn is_empty(&self) -> (empty: bool)
        ensures
            empty == (self@.len() == 0),
    {
        self.members.len() == 0
    }

    pub fn members(&self) -> (members: &Vec<Member>)
        ensures
            members@ == self@,
    {
        &self.members
    }

    pub fn member(&self, index: usize) -> (member: Option<Member>)
        ensures
            member == if index < self@.len() {
                Some(self@[index as int])
            } else {
                None
            },
    {
        if index < self.members.len() {
            Some(self.members[index])
        } else {
            None
        }
    }

    /// Sets the velocity of the member at `index`.
    pub fn steer(&mut self, index: usize, vx: i32, vy: i32)
        requires
            index < old(self)@.len(),
        ensures
            final(self)@ == old(self)@.update(
                index as int,
                (Member { vx, vy, ..old(self)@[index as int] }),
            ),
    {
        let mut m: Member = self.members[index];
        m.vx = vx;
        m.vy = vy;
        self.members.set(index, m);
    }

    /// Takes `damage` points off the health of the member at `index`.
    pub fn hurt(&mut self, index: usize, damage: u32)
        requires
            index < old(self)@.len(),
        ensures
            final(self)@ == old(self)@.update(
                index as int,
                old(self)@[index as int].struck(damage as nat),
            ),
    {
        let mut m: Member = self.members[index];
        m.hurt(damage);
        self.members.set(index, m);
    }

    /// Moves every member by one tick.
    pub fn update(&mut self, width: u32, height: u32)
        ensures
            final(self)@ == marched(old(self)@, width, height),
    {
        let n: usize = self.members.len();
        let mut i: usize = 0;
        while i < n
            invariant
                i <= n,
                n == self.members@.len(),
                n == old(self)@.len(),
                forall|j: int| 0 <= j < i ==> self.members@[j] == old(self)@[j].moved(width, height),
                forall|j: int| i <= j < n ==> self.members@[j] == old(self)@[j],
            decreases n - i,
        {
            let mut m: Member = self.members[i];
            m.update(width, height);
            self.members.set(i, m);
            i = i + 1;
        }
        assert(self.members@ =~= marched(old(self)@, width, height));
    }

    /// Drops the members that have no health left.
    pub fn sweep(&mut self)
        ensures
            final(self)@ == survivors(old(self)@),
    {
        let n: usize = self.members.len();
        let mut kept: Vec<Member> = Vec::new();
        let mut i: usize = 0;
        proof {
            reveal(Seq::filter);
            assert(self@.take(0) =~= Seq::<Member>::empty());
        }
        while i < n
            invariant
                i <= n,
                n == self@.len(),
                *self == *old(self),
                kept@ == survivors(self@.take(i as int)),
            decreases n - i,
        {
            let m: Member = self.members[i];
            proof {
                reveal(Seq::filter);
                assert(self@.take(i + 1).drop_last() =~= self@.take(i as int));
            }
            if m.health > 0 {
                kept.push(m);
            }
            i = i + 1;
        }
        assert(self@.take(n as int) =~= self@);
        self.members = kept;
    }
}

} // verus!
