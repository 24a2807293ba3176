//! Bullets against swarm members.
//!
//! A member fills a disk around its position. A bullet that lies within that
//! disk after this tick's moves hits the member, loses itself, and takes its
//! damage off the member's health. A bullet within reach of several members
//! hits the nearest one only; of two equally near, the one of the lower
//! player, then the one of the lower index.

use std::collections::HashMap;
use vstd::prelude::*;
use crate::entity::{Bullet, Member, Swarm};
use crate::store::{keys_of, ranks};
use crate::tally::{lemma_sum_along_listing, lemma_sum_along_step, lists, sum_along, sum_over};

verus! {

broadcast use vstd::std_specs::hash::group_hash_axioms;

/// The square of the distance between two points.
pub open spec fn gap(ax: u32, ay: u32, bx: u32, by: u32) -> nat {
    ((ax - bx) * (ax - bx) + (ay - by) * (ay - by)) as nat
}

/// The distance, never negative, between two coordinates.
fn span(a: u32, b: u32) -> (d: u128)
    ensures
        d == if a >= b {
            a - b
        } else {
            b - a
        },
        d * d == (a - b) * (a - b),
        d * d <= 0xffff_ffff * 0xffff_ffff,
{
    let d: u128 = if a >= b {
        (a - b) as u128
    } else {
        (b - a) as u128
    };
    assert(d * d == (a - b) * (a - b)) by (nonlinear_arith)
        requires
            d == a - b || d == b - a,
    ;
    assert(d * d <= 0xffff_ffff * 0xffff_ffff) by (nonlinear_arith)
        requires
            0 <= d <= 0xffff_ffff,
    ;
    d
}

/// Computes the square of the distance between two points.
pub fn gap_between(ax: u32, ay: u32, bx: u32, by: u32) -> (d: u128)
    ensures
        d == gap(ax, ay, bx, by),
{
    let dx: u128 = span(ax, bx);
    let dy: u128 = span(ay, by);
    dx * dx + dy * dy
}

/// The radius of a member's disk in a world whose rules nobody has set.
pub const DEFAULT_RADIUS: u32 = 10;

/// How bullets and members meet.
#[derive(Clone, Copy, Debug, PartialEq, Eq, Structural)]
pub struct Rules {
    /// The radius of the disk that a member fills.
    pub radius: u32,
    /// Whether a bullet can hit a member of the swarm that fired it.
    pub self_damage: bool,
}

impl Rules {
    /// The bullet `b` lies within the disk of `m`, a member of `player`'s
    /// swarm, and may harm it.
    pub open spec fn reaches(self, b: Bullet, player: usize, m: Member) -> bool {
        &&& self.self_damage || b.owner != player
        &&& gap(b.x, b.y, m.x, m.y) <= self.radius * self.radius
    }

    /// Tests whether `b` reaches `m`, a member of `player`'s swarm.
    pub fn in_reach(&self, b: &Bullet, player: usize, m: &Member) -> (r: bool)
        ensures
            r == self.reaches(*b, player, *m),
    {
        if !self.self_damage && b.owner == player {
            return false;
        }
        let r: u128 = self.radius as u128;
        assert(r * r <= 0xffff_ffff * 0xffff_ffff) by (nonlinear_arith)
            requires
                0 <= r <= 0xffff_ffff,
        ;
        gap_between(b.x, b.y, m.x, m.y) <= r * r
    }
}

/// The member at distance `d` that is number `i` of player `p` comes no
/// later than the one at distance `e` that is number `j` of player `q`, when
/// members are ranked by distance, then player, then index.
pub open spec fn nearer(d: nat, p: usize, i: int, e: nat, q: usize, j: int) -> bool {
    d < e || (d == e && (p < q || (p == q && i <= j)))
}

/// `player` has a swarm with a member at `index`.
pub open spec fn stands(swarms: Map<usize, Seq<Member>>, player: usize, index: int) -> bool {
    swarms.contains_key(player) && 0 <= index < swarms[player].len()
}

/// The bullet `b` reaches at least one member.
pub open spec fn hits(rules: Rules, b: Bullet, swarms: Map<usize, Seq<Member>>) -> bool {
    exists|p: usize, i: int| #[trigger]
        stands(swarms, p, i) && rules.reaches(b, p, swarms[p][i])
}

/// The member at `index` of `player`'s swarm is the one that `b` hits: `b`
/// reaches it, and every other member that `b` reaches ranks after it.
pub open spec fn is_target(
    rules: Rules,
    b: Bullet,
    swarms: Map<usize, Seq<Member>>,
    player: usize,
    index: int,
) -> bool {
    &&& stands(swarms, player, index)
    &&& rules.reaches(b, player, swarms[player][index])
    &&& forall|q: usize, j: int| #[trigger]
        stands(swarms, q, j) && rules.reaches(b, q, swarms[q][j]) ==> nearer(
            gap(b.x, b.y, swarms[player][index].x, swarms[player][index].y),
            player,
            index,
            gap(b.x, b.y, swarms[q][j].x, swarms[q][j].y),
            q,
            j,
        )
}

/// A bullet hits one member at most.
pub proof fn lemma_target_unique(
    rules: Rules,
    b: Bullet,
    swarms: Map<usize, Seq<Member>>,
    p: usize,
    i: int,
    q: usize,
    j: int,
)
    requires
        is_target(rules, b, swarms, p, i),
        is_target(rules, b, swarms, q, j),
    ensures
        p == q,
        i == j,
{
    assert(stands(swarms, p, i));
    assert(stands(swarms, q, j));
}

/// What the bullet `id` takes off the member at `index` of `player`'s swarm.
pub open spec fn charge(
    rules: Rules,
    bullets: Map<usize, Bullet>,
    swarms: Map<usize, Seq<Member>>,
    player: usize,
    index: int,
) -> spec_fn(usize) -> nat {
    |id: usize|
        if is_target(rules, bullets[id], swarms, player, index) {
            bullets[id].damage as nat
        } else {
            0nat
        }
}

/// The damage that all bullets together do to one member in one tick.
pub open spec fn toll(
    rules: Rules,
    bullets: Map<usize, Bullet>,
    swarms: Map<usize, Seq<Member>>,
    player: usize,
    index: int,
) -> nat {
    sum_over(bullets.dom(), charge(rules, bullets, swarms, player, index))
}

/// The swarms after every bullet has done its damage. No member is removed
/// here: one whose health has run out stays, with health zero.
pub open spec fn struck(
    rules: Rules,
    bullets: Map<usize, Bullet>,
    swarms: Map<usize, Seq<Member>>,
) -> Map<usize, Seq<Member>> {
    Map::new(
        |p: usize| swarms.contains_key(p),
        |p: usize|
            Seq::new(
                swarms[p].len(),
                |i: int| swarms[p][i].struck(toll(rules, bullets, swarms, p, i)),
            ),
    )
}

/// The bullets that hit nothing.
pub open spec fn unspent(
    rules: Rules,
    bullets: Map<usize, Bullet>,
    swarms: Map<usize, Seq<Member>>,
) -> Map<usize, Bullet> {
    Map::new(
        |id: usize| bullets.contains_key(id) && !hits(rules, bullets[id], swarms),
        |id: usize| bullets[id],
    )
}

/// Finds the member that `bullet` hits, as player and index. `players` lists
/// the keys of `swarms`.
pub fn find_target(
    rules: &Rules,
    bullet: &Bullet,
    swarms: &HashMap<usize, Swarm>,
    players: &Vec<usize>,
) -> (target: Option<(usize, usize)>)
    requires
        lists(players@, swarms@.dom()),
    ensures
        match target {
            Some((p, i)) => is_target(*rules, *bullet, ranks(swarms@), p, i as int),
            None => !hits(*rules, *bullet, ranks(swarms@)),
        },
{
    let ghost field = ranks(swarms@);
    let mut best: Option<(u128, usize, usize)> = None;
    let mut a: usize = 0;
    while a < players.len()
        invariant
            a <= players.len(),
            field == ranks(swarms@),
            lists(players@, swarms@.dom()),
            match best {
                Some((d, p, i)) => {
                    &&& stands(field, p, i as int)
                    &&& rules.reaches(*bullet, p, field[p][i as int])
                    &&& d == gap(bullet.x, bullet.y, field[p][i as int].x, field[p][i as int].y)
                    &&& forall|c: int, j: int|
                        0 <= c < a && 0 <= j < field[players[c]].len() && rules.reaches(
                            *bullet,
                            players[c],
                            #[trigger] field[players[c]][j],
                        ) ==> nearer(
                            d as nat,
                            p,
                            i as int,
                            gap(
                                bullet.x,
                                bullet.y,
                                field[players[c]][j].x,
                                field[players[c]][j].y,
                            ),
                            players[c],
                            j,
                        )
                },
                None => forall|c: int, j: int|
                    0 <= c < a && 0 <= j < field[players[c]].len() ==> !rules.reaches(
                        *bullet,
                        players[c],
                        #[trigger] field[players[c]][j],
                    ),
            },
        decreases players.len() - a,
    {
        let p: usize = players[a];
        assert(players@.to_set().contains(players@[a as int]));
        let found = swarms.get(&p);
        assert(found is Some);
        let swarm: &Swarm = found.unwrap();
        let members: &Vec<Member> = swarm.members();
        assert(members@ == field[p]);
        let mut i: usize = 0;
        while i < members.len()
            invariant
                i <= members.len(),
                a < players.len(),
                p == players[a as int],
                field == ranks(swarms@),
                swarms@.contains_key(p),
                members@ == field[p],
                match best {
                    Some((d, bp, bi)) => {
                        &&& stands(field, bp, bi as int)
                        &&& rules.reaches(*bullet, bp, field[bp][bi as int])
                        &&& d == gap(
                            bullet.x,
                            bullet.y,
                            field[bp][bi as int].x,
                            field[bp][bi as int].y,
                        )
                        &&& forall|c: int, j: int|
                            0 <= c < a && 0 <= j < field[players[c]].len() && rules.reaches(
                                *bullet,
                                players[c],
                                #[trigger] field[players[c]][j],
                            ) ==> nearer(
                                d as nat,
                                bp,
                                bi as int,
                                gap(
                                    bullet.x,
                                    bullet.y,
                                    field[players[c]][j].x,
                                    field[players[c]][j].y,
                                ),
                                players[c],
                                j,
                            )
                        &&& forall|j: int|
                            0 <= j < i && rules.reaches(*bullet, p, #[trigger] field[p][j])
                                ==> nearer(
                                d as nat,
                                bp,
                                bi as int,
                                gap(bullet.x, bullet.y, field[p][j].x, field[p][j].y),
                                p,
                                j,
                            )
                    },
                    None => {
                        &&& forall|c: int, j: int|
                            0 <= c < a && 0 <= j < field[players[c]].len() ==> !rules.reaches(
                                *bullet,
                                players[c],
                                #[trigger] field[players[c]][j],
                            )
                        &&& forall|j: int|
                            0 <= j < i ==> !rules.reaches(*bullet, p, #[trigger] field[p][j])
                    },
                },
            decreases members.len() - i,
        {
            let m: &Member = &members[i];
            if rules.in_reach(bullet, p, m) {
                let d: u128 = gap_between(bullet.x, bullet.y, m.x, m.y);
                let better: bool = match best {
                    None => true,
                    Some((bd, bp, bi)) => d < bd || (d == bd && (p < bp || (p == bp && i < bi))),
                };
                if better {
                    best = Some((d, p, i));
                }
            }
            i = i + 1;
        }
        a = a + 1;
    }
    match best {
        Some((d, p, i)) => {
            assert forall|q: usize, j: int| #[trigger]
                stands(field, q, j) && rules.reaches(*bullet, q, field[q][j]) implies nearer(
                gap(bullet.x, bullet.y, field[p][i as int].x, field[p][i as int].y),
                p,
                i as int,
                gap(bullet.x, bullet.y, field[q][j].x, field[q][j].y),
                q,
                j,
            ) by {
                assert(players@.to_set().contains(q));
                let c = choose|c: int| 0 <= c < players@.len() && players@[c] == q;
                assert(rules.reaches(*bullet, players[c], field[players[c]][j]));
            }
            Some((p, i))
        },
        None => {
            assert forall|q: usize, j: int| #[trigger] stands(field, q, j) implies !rules.reaches(
                *bullet,
                q,
                field[q][j],
            ) by {
                assert(players@.to_set().contains(q));
                let c = choose|c: int| 0 <= c < players@.len() && players@[c] == q;
                assert(!rules.reaches(*bullet, players[c], field[players[c]][j]));
            }
            None
        },
    }
}

/// A hit found while the swarms were still untouched, kept until all bullets
/// have been looked at.
#[derive(Clone, Copy, Debug)]
pub struct Strike {
    pub player: usize,
    pub index: usize,
    pub damage: u32,
}

/// What a strike takes off the member at `index` of `player`'s swarm.
pub open spec fn blow(player: usize, index: int) -> spec_fn(Strike) -> nat {
    |s: Strike|
        if s.player == player && s.index == index {
            s.damage as nat
        } else {
            0nat
        }
}

/// Damage taken in two parts is damage taken at once.
pub proof fn lemma_struck_twice(m: Member, first: nat, second: nat)
    ensures
        m.struck(first).struck(second) == m.struck(first + second),
{
}

/// Looks at every bullet once, against the swarms as they stand. A bullet
/// that hits a member is taken out of `bullets`, and its strike is returned.
pub fn aim(
    rules: &Rules,
    swarms: &HashMap<usize, Swarm>,
    bullets: &mut HashMap<usize, Bullet>,
) -> (strikes: Vec<Strike>)
    ensures
        final(bullets)@ == unspent(*rules, old(bullets)@, ranks(swarms@)),
        forall|k: int|
            0 <= k < strikes@.len() ==> stands(
                ranks(swarms@),
                (#[trigger] strikes@[k]).player,
                strikes@[k].index as int,
            ),
        forall|p: usize, i: int|
            sum_along(strikes@, #[trigger] blow(p, i)) == toll(
                *rules,
                old(bullets)@,
                ranks(swarms@),
                p,
                i,
            ),
{
    let ids: Vec<usize> = keys_of(bullets);
    let players: Vec<usize> = keys_of(swarms);
    let ghost before = bullets@;
    let ghost field = ranks(swarms@);
    let mut strikes: Vec<Strike> = Vec::new();
    let mut n: usize = 0;
    while n < ids.len()
        invariant
            n <= ids.len(),
            before == old(bullets)@,
            field == ranks(swarms@),
            lists(ids@, before.dom()),
            lists(players@, swarms@.dom()),
            forall|c: int|
                0 <= c < ids.len() ==> (bullets@.contains_key(#[trigger] ids[c]) <==> (c >= n
                    || !hits(*rules, before[ids[c]], field))),
            forall|id: usize| #[trigger]
                bullets@.contains_key(id) ==> before.contains_key(id) && bullets@[id] == before[id],
            forall|k: int|
                0 <= k < strikes@.len() ==> stands(
                    field,
                    (#[trigger] strikes@[k]).player,
                    strikes@[k].index as int,
                ),
            forall|p: usize, i: int|
                sum_along(strikes@, #[trigger] blow(p, i)) == sum_along(
                    ids@.take(n as int),
                    charge(*rules, before, field, p, i),
                ),
        decreases ids.len() - n,
    {
        let id: usize = ids[n];
        let found = bullets.get(&id);
        assert(found is Some);
        let b: Bullet = *found.unwrap();
        let ghost earlier = strikes@;
        let target = find_target(rules, &b, swarms, &players);
        match target {
            Some((p, i)) => {
                assert(stands(field, p, i as int));
                bullets.remove(&id);
                strikes.push(Strike { player: p, index: i, damage: b.damage });
                assert(strikes@.drop_last() =~= earlier);
            },
            None => {},
        }
        proof {
            assert forall|q: usize, j: int|
                sum_along(strikes@, #[trigger] blow(q, j)) == sum_along(
                    ids@.take(n + 1),
                    charge(*rules, before, field, q, j),
                ) by {
                lemma_sum_along_step(ids@, charge(*rules, before, field, q, j), n as int);
                match target {
                    Some((p, i)) => {
                        if is_target(*rules, b, field, q, j) {
                            lemma_target_unique(*rules, b, field, p, i as int, q, j);
                        }
                    },
                    None => {
                        if is_target(*rules, b, field, q, j) {
                            assert(stands(field, q, j));
                        }
                    },
                }
            }
            assert forall|c: int| 0 <= c < ids.len() implies (bullets@.contains_key(
                #[trigger] ids[c],
            ) <==> (c >= n + 1 || !hits(*rules, before[ids[c]], field))) by {
                if c != n {
                    assert(ids@[c] != ids@[n as int]);
                }
            }
        }
        n = n + 1;
    }
    proof {
        assert(ids@.take(n as int) =~= ids@);
        assert forall|p: usize, i: int|
            sum_along(strikes@, #[trigger] blow(p, i)) == toll(*rules, before, field, p, i) by {
            lemma_sum_along_listing(ids@, charge(*rules, before, field, p, i));
        }
        assert forall|id: usize|
            bullets@.contains_key(id) <==> before.contains_key(id) && !hits(
                *rules,
                before[id],
                field,
            ) by {
            if before.contains_key(id) {
                assert(ids@.to_set().contains(id));
                let c = choose|c: int| 0 <= c < ids@.len() && ids@[c] == id;
                assert(bullets@.contains_key(ids[c]) <==> !hits(*rules, before[ids[c]], field));
            }
        }
        assert(bullets@ =~= unspent(*rules, before, field));
    }
    strikes
}

/// The swarms after each member has taken the strikes recorded against it.
pub open spec fn beaten(swarms: Map<usize, Seq<Member>>, strikes: Seq<Strike>) -> Map<
    usize,
    Seq<Member>,
> {
    Map::new(
        |p: usize| swarms.contains_key(p),
        |p: usize|
            Seq::new(
                swarms[p].len(),
                |i: int| swarms[p][i].struck(sum_along(strikes, blow(p, i))),
            ),
    )
}

/// Does the damage of every strike to the member it names.
pub fn land(swarms: &mut HashMap<usize, Swarm>, strikes: &Vec<Strike>)
    requires
        forall|k: int|
            0 <= k < strikes@.len() ==> stands(
                ranks(old(swarms)@),
                (#[trigger] strikes@[k]).player,
                strikes@[k].index as int,
            ),
    ensures
        ranks(final(swarms)@) == beaten(ranks(old(swarms)@), strikes@),
{
    let ghost start = ranks(swarms@);
    let mut k: usize = 0;
    proof {
        assert(strikes@.take(0) =~= Seq::<Strike>::empty());
        assert(ranks(swarms@) =~~= beaten(start, strikes@.take(0)));
    }
    while k < strikes.len()
        invariant
            k <= strikes.len(),
            start == ranks(old(swarms)@),
            forall|c: int|
                0 <= c < strikes@.len() ==> stands(
                    start,
                    (#[trigger] strikes@[c]).player,
                    strikes@[c].index as int,
                ),
            ranks(swarms@) == beaten(start, strikes@.take(k as int)),
        decreases strikes.len() - k,
    {
        let s: Strike = strikes[k];
        assert(stands(start, strikes@[k as int].player, strikes@[k as int].index as int));
        let ghost held = swarms@;
        let ghost mid = ranks(held);
        assert(mid.contains_key(s.player));
        let taken = swarms.remove(&s.player);
        assert(taken is Some);
        let mut swarm: Swarm = taken.unwrap();
        assert(swarm@ == mid[s.player]);
        swarm.hurt(s.index, s.damage);
        swarms.insert(s.player, swarm);
        proof {
            let now = ranks(swarms@);
            let next = beaten(start, strikes@.take(k + 1));
            assert(swarms@ =~= held.insert(s.player, swarm));
            assert forall|p: usize| next.contains_key(p) implies now.contains_key(p) && now[p]
                =~= next[p] by {
                assert(mid.contains_key(p));
                assert(mid[p].len() == start[p].len());
                if p == s.player {
                    assert(now[p] == swarm@);
                } else {
                    assert(now[p] == mid[p]);
                }
                assert(now[p].len() == next[p].len());
                assert forall|i: int| 0 <= i < next[p].len() implies now[p][i] == next[p][i] by {
                    lemma_sum_along_step(strikes@, blow(p, i), k as int);
                    lemma_struck_twice(
                        start[p][i],
                        sum_along(strikes@.take(k as int), blow(p, i)),
                        blow(p, i)(s),
                    );
                    assert(mid[p][i] == start[p][i].struck(
                        sum_along(strikes@.take(k as int), blow(p, i)),
                    ));
                }
            }
            assert(now =~= next);
        }
        k = k + 1;
    }
    assert(strikes@.take(k as int) =~= strikes@);
}

/// Resolves one tick's collisions: every bullet that hits a member is spent,
/// and every member loses what the bullets that hit it take off.
pub fn resolve(
    rules: &Rules,
    swarms: &mut HashMap<usize, Swarm>,
    bullets: &mut HashMap<usize, Bullet>,
)
    ensures
        ranks(final(swarms)@) == struck(*rules, old(bullets)@, ranks(old(swarms)@)),
        final(bullets)@ == unspent(*rules, old(bullets)@, ranks(old(swarms)@)),
{
    let strikes: Vec<Strike> = aim(rules, swarms, bullets);
    land(swarms, &strikes);
    proof {
        let field = ranks(old(swarms)@);
        assert(beaten(field, strikes@) =~~= struck(*rules, old(bullets)@, field)) by {
            assert forall|p: usize, i: int| stands(field, p, i) implies sum_along(
                strikes@,
                blow(p, i),
            ) == toll(*rules, old(bullets)@, field, p, i) by {}
        }
    }
}

} // verus!
