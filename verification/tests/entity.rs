use heroesoftheswarm::entity::{clamp_step, Bullet, Member, Swarm};

fn member(x: u32, y: u32, health: u32) -> Member {
    Member { x, y, vx: 0, vy: 0, health }
}

#[test]
fn clamp_step_stops_at_both_ends() {
    assert_eq!(clamp_step(10, 5, 100), 15);
    assert_eq!(clamp_step(10, -5, 100), 5);
    assert_eq!(clamp_step(10, -10, 100), 0);
    assert_eq!(clamp_step(10, -11, 100), 0);
    assert_eq!(clamp_step(95, 5, 100), 100);
    assert_eq!(clamp_step(95, 6, 100), 100);
    assert_eq!(clamp_step(0, i32::MIN, 100), 0);
    assert_eq!(clamp_step(u32::MAX, i32::MAX, u32::MAX), u32::MAX);
    assert_eq!(clamp_step(u32::MAX, i32::MIN, u32::MAX), 2147483647);
    assert_eq!(clamp_step(0, i32::MAX, u32::MAX), 2147483647);
}

#[test]
fn clamp_step_pulls_a_stray_back() {
    assert_eq!(clamp_step(200, 0, 100), 100);
    assert_eq!(clamp_step(200, -150, 100), 50);
}

#[test]
fn member_update_moves_by_velocity() {
    let mut m = Member { x: 10, y: 20, vx: 3, vy: -4, health: 9 };
    m.update(100, 100);
    assert_eq!(m, Member { x: 13, y: 16, vx: 3, vy: -4, health: 9 });
    m.update(14, 100);
    assert_eq!(m, Member { x: 14, y: 12, vx: 3, vy: -4, health: 9 });
}

#[test]
fn member_hurt_stops_at_zero() {
    let mut m = member(1, 1, 10);
    m.hurt(0);
    assert_eq!(m.health, 10);
    m.hurt(3);
    assert_eq!(m.health, 7);
    m.hurt(7);
    assert_eq!(m.health, 0);
    m.hurt(1);
    assert_eq!(m.health, 0);
    let mut n = member(1, 1, 5);
    n.hurt(u32::MAX);
    assert_eq!(n, member(1, 1, 0));
}

#[test]
fn bullet_update_flies_or_tells() {
    let mut b = Bullet { x: 10, y: 10, vx: -10, vy: 5, owner: 3, ttl: 2, damage: 7 };
    assert!(b.update(100, 15));
    assert_eq!(b, Bullet { x: 0, y: 15, vx: -10, vy: 5, owner: 3, ttl: 1, damage: 7 });
    let at_rest = b;
    assert!(!b.update(100, 15));
    assert_eq!(b, at_rest);
    let mut spent = Bullet { x: 10, y: 10, vx: 1, vy: 1, owner: 3, ttl: 0, damage: 7 };
    assert!(!spent.update(100, 100));
    assert_eq!(spent, Bullet { x: 10, y: 10, vx: 1, vy: 1, owner: 3, ttl: 0, damage: 7 });
    let mut last = Bullet { x: 10, y: 10, vx: 1, vy: 1, owner: 3, ttl: 1, damage: 7 };
    assert!(last.update(100, 100));
    assert_eq!(last.ttl, 0);
    assert!(!last.update(100, 100));
}

#[test]
fn swarm_accessors() {
    let swarm = Swarm::new(vec![member(1, 1, 1), member(2, 2, 2)]);
    assert_eq!(swarm.len(), 2);
    assert!(!swarm.is_empty());
    assert_eq!(swarm.members(), &vec![member(1, 1, 1), member(2, 2, 2)]);
    assert_eq!(swarm.member(0), Some(member(1, 1, 1)));
    assert_eq!(swarm.member(1), Some(member(2, 2, 2)));
    assert_eq!(swarm.member(2), None);
    let none = Swarm::new(vec![]);
    assert_eq!(none.len(), 0);
    assert!(none.is_empty());
    assert_eq!(none.member(0), None);
}

#[test]
fn swarm_steer_and_hurt_touch_one_member() {
    let mut swarm = Swarm::new(vec![member(1, 1, 5), member(2, 2, 5), member(3, 3, 5)]);
    swarm.steer(1, -7, 8);
    swarm.hurt(2, 4);
    assert_eq!(
        swarm.members(),
        &vec![
            member(1, 1, 5),
            Member { x: 2, y: 2, vx: -7, vy: 8, health: 5 },
            member(3, 3, 1),
        ]
    );
}

#[test]
fn swarm_update_moves_every_member() {
    let mut swarm = Swarm::new(vec![
        Member { x: 1, y: 1, vx: 1, vy: 2, health: 5 },
        Member { x: 9, y: 9, vx: 5, vy: -20, health: 0 },
    ]);
    swarm.update(10, 10);
    assert_eq!(
        swarm.members(),
        &vec![
            Member { x: 2, y: 3, vx: 1, vy: 2, health: 5 },
            Member { x: 10, y: 0, vx: 5, vy: -20, health: 0 },
        ]
    );
}

#[test]
fn swarm_sweep_keeps_the_living_in_order() {
    let mut swarm = Swarm::new(vec![
        member(1, 1, 0),
        member(2, 2, 3),
        member(3, 3, 0),
        member(4, 4, 1),
        member(5, 5, 0),
    ]);
    swarm.sweep();
    assert_eq!(swarm.members(), &vec![member(2, 2, 3), member(4, 4, 1)]);
    swarm.sweep();
    assert_eq!(swarm.members(), &vec![member(2, 2, 3), member(4, 4, 1)]);
    let mut dead = Swarm::new(vec![member(1, 1, 0)]);
    dead.sweep();
    assert!(dead.is_empty());
}
