//! What holds of every tick.
//!
//! Each law here is a theorem about [`Scene::advanced`], the function that
//! [`World::update`](crate::world::World::update) computes, and so about
//! every world before and after a tick.

use vstd::prelude::*;
use crate::collision::{charge, gap, hits, is_target, nearer, stands, struck, toll, Rules};
use crate::entity::{survivors, Bullet, Member};
use crate::scene::Scene;
use crate::tally::{
    lemma_sum_over_agree, lemma_sum_over_remove, lemma_sum_over_subset, lemma_sum_over_zero,
};

verus! {

/// A tick of a world without swarms and without bullets changes nothing.
pub proof fn law_empty_stays_empty(s: Scene)
    requires
        s.swarms.dom() == Set::<usize>::empty(),
        s.bullets.dom() == Set::<usize>::empty(),
    ensures
        s.advanced() == s,
{
    assert(s.advanced().swarms =~= s.swarms);
    assert(s.advanced().bullets =~= s.bullets);
}

/// After a tick, a bullet is either gone or one step further: where it was,
/// plus its velocity, with one tick less to live and nothing else changed.
/// It is gone exactly when its time was up, when the step took it out of the
/// arena, or when it hit a member. No tick brings a bullet into the world.
pub proof fn law_bullets_fly_or_vanish(s: Scene, id: usize)
    ensures
        s.advanced().bullets.contains_key(id) <==> s.bullets.contains_key(id) && s.bullets[id].flies(
            s.width,
            s.height,
        ) && !hits(s.rules, s.bullets[id].flown(), s.marching()),
        s.advanced().bullets.contains_key(id) ==> {
            let before = s.bullets[id];
            let after = s.advanced().bullets[id];
            &&& after.x == before.x + before.vx
            &&& after.y == before.y + before.vy
            &&& after.ttl == before.ttl - 1
            &&& after.vx == before.vx
            &&& after.vy == before.vy
            &&& after.owner == before.owner
            &&& after.damage == before.damage
        },
{
}

/// A tick gives no bullet a new identifier and brings no identifier back:
/// every bullet in flight after the tick was in flight before it under the
/// same identifier, and the next identifier to be given out, which no bullet
/// in flight has, is the same as before.
pub proof fn law_identifiers_stay_apart(s: Scene)
    requires
        s.valid(),
    ensures
        s.advanced().next_bullet == s.next_bullet,
        !s.bullets.contains_key(s.next_bullet),
        !s.advanced().bullets.contains_key(s.next_bullet),
        forall|id: usize| #[trigger]
            s.advanced().bullets.contains_key(id) ==> s.bullets.contains_key(id) && id
                < s.next_bullet,
{
    assert forall|id: usize| #[trigger] s.advanced().bullets.contains_key(id) implies s.bullets.contains_key(
        id,
    ) && id < s.next_bullet by {}
    if s.bullets.contains_key(s.next_bullet) {
        assert(s.next_bullet < s.next_bullet);
    }
}

/// Among the members, a dead one makes the survivors fewer.
pub proof fn lemma_survivors_fewer(members: Seq<Member>, i: int)
    requires
        0 <= i < members.len(),
        members[i].health == 0,
    ensures
        survivors(members).len() < members.len(),
    decreases members.len(),
{
    reveal(Seq::filter);
    let alive = |m: Member| m.health > 0;
    members.drop_last().lemma_filter_len(alive);
    if i < members.len() - 1 {
        lemma_survivors_fewer(members.drop_last(), i);
    }
}

/// A bullet that lands where a member stands is gone after the tick, unless
/// the member is of the bullet's own swarm and the rules spare it.
pub proof fn law_direct_hit_spends_bullet(s: Scene, id: usize, p: usize, i: int)
    requires
        s.flying().contains_key(id),
        stands(s.marching(), p, i),
        s.flying()[id].x == s.marching()[p][i].x,
        s.flying()[id].y == s.marching()[p][i].y,
        s.rules.self_damage || s.flying()[id].owner != p,
    ensures
        !s.advanced().bullets.contains_key(id),
{
    let b = s.flying()[id];
    let m = s.marching()[p][i];
    assert((b.x - m.x) * (b.x - m.x) + (b.y - m.y) * (b.y - m.y) == 0) by (nonlinear_arith)
        requires
            b.x == m.x,
            b.y == m.y,
    ;
    assert(0 <= s.rules.radius * s.rules.radius) by (nonlinear_arith);
    assert(stands(s.marching(), p, i) && s.rules.reaches(b, p, m));
}

/// A bullet that lands where a member stands hits that member, if the rules
/// let it and no member of lower rank stands on the same spot.
pub proof fn lemma_direct_hit_targets(rules: Rules, b: Bullet, swarms: Map<usize, Seq<Member>>, p: usize, i: int)
    requires
        stands(swarms, p, i),
        b.x == swarms[p][i].x,
        b.y == swarms[p][i].y,
        rules.self_damage || b.owner != p,
        forall|q: usize, j: int| #[trigger]
            stands(swarms, q, j) && rules.reaches(b, q, swarms[q][j]) && swarms[q][j].x == b.x
                && swarms[q][j].y == b.y ==> p < q || (p == q && i <= j),
    ensures
        is_target(rules, b, swarms, p, i),
{
    let m = swarms[p][i];
    assert((b.x - m.x) * (b.x - m.x) + (b.y - m.y) * (b.y - m.y) == 0) by (nonlinear_arith)
        requires
            b.x == m.x,
            b.y == m.y,
    ;
    assert(0 <= rules.radius * rules.radius) by (nonlinear_arith);
    assert forall|q: usize, j: int| #[trigger]
        stands(swarms, q, j) && rules.reaches(b, q, swarms[q][j]) implies nearer(
        gap(b.x, b.y, m.x, m.y),
        p,
        i,
        gap(b.x, b.y, swarms[q][j].x, swarms[q][j].y),
        q,
        j,
    ) by {
        let o = swarms[q][j];
        let dx = b.x - o.x;
        let dy = b.y - o.y;
        if dx != 0 || dy != 0 {
            assert(dx * dx + dy * dy > 0) by (nonlinear_arith)
                requires
                    dx != 0 || dy != 0,
            ;
        }
    }
}

/// A member hit by one bullet only loses that bullet's damage. With damage
/// `d` against health `h` after the moves of the tick: where `d < h` the
/// member stays in its swarm with health `h - d`; where `d >= h` its health
/// is spent, and its swarm goes on with fewer members or, if none is left,
/// leaves the world.
pub proof fn law_sole_hit(s: Scene, id: usize, p: usize, i: int)
    requires
        s.valid(),
        s.flying().contains_key(id),
        is_target(s.rules, s.flying()[id], s.marching(), p, i),
        forall|other: usize|
            s.flying().contains_key(other) && other != id ==> !is_target(
                s.rules,
                #[trigger] s.flying()[other],
                s.marching(),
                p,
                i,
            ),
    ensures
        !s.advanced().bullets.contains_key(id),
        s.wounded()[p][i] == s.marching()[p][i].struck(s.flying()[id].damage as nat),
        s.flying()[id].damage < s.marching()[p][i].health ==> {
            &&& s.wounded()[p][i].health == s.marching()[p][i].health - s.flying()[id].damage
            &&& s.advanced().swarms.contains_key(p)
            &&& s.advanced().swarms[p].contains(s.wounded()[p][i])
        },
        s.flying()[id].damage >= s.marching()[p][i].health ==> {
            &&& s.wounded()[p][i].health == 0
            &&& survivors(s.wounded()[p]).len() < s.marching()[p].len()
            &&& s.advanced().swarms.contains_key(p) ==> s.advanced().swarms[p].len()
                < s.marching()[p].len()
            &&& s.marching()[p].len() == 1 ==> !s.advanced().swarms.contains_key(p)
        },
{
    let rules = s.rules;
    let flying = s.flying();
    let field = s.marching();
    let weight = charge(rules, flying, field, p, i);
    assert(stands(field, p, i));
    assert(flying.dom() <= s.bullets.dom());
    vstd::set_lib::lemma_set_subset_finite(s.bullets.dom(), flying.dom());
    lemma_sum_over_remove(flying.dom(), weight, id);
    assert forall|other: usize| flying.dom().remove(id).contains(other) implies weight(other)
        == 0 by {
        assert(!is_target(rules, flying[other], field, p, i));
    }
    lemma_sum_over_zero(flying.dom().remove(id), weight);
    assert(toll(rules, flying, field, p, i) == flying[id].damage);
    let hurt = s.wounded()[p];
    assert(hurt.len() == field[p].len());
    assert(hurt[i] == field[p][i].struck(flying[id].damage as nat));
    if flying[id].damage < field[p][i].health {
        hurt.lemma_filter_contains(|m: Member| m.health > 0, i);
        assert(survivors(hurt).contains(hurt[i]));
    } else {
        lemma_survivors_fewer(hurt, i);
    }
}

/// A bullet that, after the moves of a tick, lies exactly where a member
/// stands is spent on that member, if the rules let it harm the member, no
/// member of lower rank stands on the same spot, and no other bullet hits
/// the member in this tick. With damage `d` against health `h`: where
/// `d < h` the member stays with health `h - d`; where `d >= h` the member
/// is removed, and with it the swarm if it was the swarm's last.
pub proof fn law_direct_hit(s: Scene, id: usize, p: usize, i: int)
    requires
        s.valid(),
        s.flying().contains_key(id),
        stands(s.marching(), p, i),
        s.flying()[id].x == s.marching()[p][i].x,
        s.flying()[id].y == s.marching()[p][i].y,
        s.rules.self_damage || s.flying()[id].owner != p,
        forall|q: usize, j: int| #[trigger]
            stands(s.marching(), q, j) && s.rules.reaches(s.flying()[id], q, s.marching()[q][j])
                && s.marching()[q][j].x == s.flying()[id].x && s.marching()[q][j].y
                == s.flying()[id].y ==> p < q || (p == q && i <= j),
        forall|other: usize|
            s.flying().contains_key(other) && other != id ==> !is_target(
                s.rules,
                #[trigger] s.flying()[other],
                s.marching(),
                p,
                i,
            ),
    ensures
        !s.advanced().bullets.contains_key(id),
        s.flying()[id].damage < s.marching()[p][i].health ==> {
            &&& s.wounded()[p][i].health == s.marching()[p][i].health - s.flying()[id].damage
            &&& s.advanced().swarms.contains_key(p)
            &&& s.advanced().swarms[p].contains(s.wounded()[p][i])
        },
        s.flying()[id].damage >= s.marching()[p][i].health ==> {
            &&& s.wounded()[p][i].health == 0
            &&& s.advanced().swarms.contains_key(p) ==> s.advanced().swarms[p].len()
                < s.marching()[p].len()
            &&& s.marching()[p].len() == 1 ==> !s.advanced().swarms.contains_key(p)
        },
{
    lemma_direct_hit_targets(s.rules, s.flying()[id], s.marching(), p, i);
    law_sole_hit(s, id, p, i);
}

/// The bullets that `player` does not own.
pub open spec fn foreign(bullets: Map<usize, Bullet>, player: usize) -> Map<usize, Bullet> {
    Map::new(
        |id: usize| bullets.contains_key(id) && bullets[id].owner != player,
        |id: usize| bullets[id],
    )
}

/// While the rules spare a swarm its own bullets, no bullet hits a member of
/// the swarm that fired it.
pub proof fn law_target_is_foreign(
    rules: Rules,
    b: Bullet,
    swarms: Map<usize, Seq<Member>>,
    p: usize,
    i: int,
)
    requires
        !rules.self_damage,
        is_target(rules, b, swarms, p, i),
    ensures
        b.owner != p,
{
}

/// While the rules spare a swarm its own bullets, the swarm comes out of the
/// collisions of a tick as if its own bullets were not there: no bullet that
/// it owns takes health off any of its members.
pub proof fn law_own_bullets_spare(s: Scene, p: usize)
    requires
        s.valid(),
        !s.rules.self_damage,
        s.swarms.contains_key(p),
    ensures
        s.wounded()[p] == struck(s.rules, foreign(s.flying(), p), s.marching())[p],
{
    let rules = s.rules;
    let flying = s.flying();
    let others = foreign(flying, p);
    let field = s.marching();
    assert(flying.dom() <= s.bullets.dom());
    vstd::set_lib::lemma_set_subset_finite(s.bullets.dom(), flying.dom());
    assert(others.dom() <= flying.dom());
    vstd::set_lib::lemma_set_subset_finite(flying.dom(), others.dom());
    let with_own = s.wounded()[p];
    let without = struck(rules, others, field)[p];
    assert forall|i: int| 0 <= i < with_own.len() implies with_own[i] == without[i] by {
        let weight = charge(rules, flying, field, p, i);
        let other_weight = charge(rules, others, field, p, i);
        lemma_sum_over_subset(flying.dom(), others.dom(), weight);
        lemma_sum_over_agree(others.dom(), weight, other_weight);
    }
    assert(with_own =~= without);
}

/// While the rules spare a swarm its own bullets, a swarm that meets no
/// bullets but its own keeps the health of every member through the
/// collisions of a tick.
pub proof fn law_own_fire_is_harmless(s: Scene, p: usize)
    requires
        s.valid(),
        !s.rules.self_damage,
        s.swarms.contains_key(p),
        forall|id: usize| #[trigger] s.bullets.contains_key(id) ==> s.bullets[id].owner == p,
    ensures
        s.wounded()[p] == s.marching()[p],
{
    law_own_bullets_spare(s, p);
    let others = foreign(s.flying(), p);
    let field = s.marching();
    assert(others.dom() =~= Set::<usize>::empty());
    let without = struck(s.rules, others, field)[p];
    assert forall|i: int| 0 <= i < without.len() implies without[i] == field[p][i] by {
        lemma_sum_over_zero(others.dom(), charge(s.rules, others, field, p, i));
    }
    assert(without =~= field[p]);
}

} // verus!
