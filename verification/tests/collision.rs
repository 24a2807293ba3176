use heroesoftheswarm::collision::{aim, find_target, gap_between, land, resolve, Rules, Strike};
use heroesoftheswarm::entity::{Bullet, Member, Swarm};
use heroesoftheswarm::store::keys_of;
use heroesoftheswarm::tick::{fly_all, march_all, sweep_all};
use std::collections::HashMap;

fn member(x: u32, y: u32, health: u32) -> Member {
    Member { x, y, vx: 0, vy: 0, health }
}

fn bullet(x: u32, y: u32, owner: usize, damage: u32) -> Bullet {
    Bullet { x, y, vx: 0, vy: 0, owner, ttl: 100, damage }
}

fn field() -> HashMap<usize, Swarm> {
    let mut swarms = HashMap::new();
    swarms.insert(1, Swarm::new(vec![member(100, 100, 10), member(200, 100, 10)]));
    swarms.insert(2, Swarm::new(vec![member(100, 106, 10)]));
    swarms
}

#[test]
fn gap_is_the_squared_distance() {
    assert_eq!(gap_between(0, 0, 3, 4), 25);
    assert_eq!(gap_between(3, 4, 0, 0), 25);
    assert_eq!(gap_between(7, 7, 7, 7), 0);
    assert_eq!(gap_between(10, 0, 0, 0), 100);
    assert_eq!(gap_between(0, u32::MAX, u32::MAX, 0), 2 * (u32::MAX as u128) * (u32::MAX as u128));
}

#[test]
fn in_reach_counts_the_rim() {
    let rules = Rules { radius: 5, self_damage: false };
    let m = member(100, 100, 1);
    assert!(rules.in_reach(&bullet(100, 100, 2, 1), 1, &m));
    assert!(rules.in_reach(&bullet(105, 100, 2, 1), 1, &m));
    assert!(rules.in_reach(&bullet(97, 104, 2, 1), 1, &m));
    assert!(!rules.in_reach(&bullet(106, 100, 2, 1), 1, &m));
    assert!(!rules.in_reach(&bullet(96, 104, 2, 1), 1, &m));
}

#[test]
fn in_reach_spares_the_owner_unless_told() {
    let m = member(100, 100, 1);
    let b = bullet(100, 100, 1, 1);
    assert!(!Rules { radius: 5, self_damage: false }.in_reach(&b, 1, &m));
    assert!(Rules { radius: 5, self_damage: true }.in_reach(&b, 1, &m));
    assert!(Rules { radius: 5, self_damage: false }.in_reach(&b, 2, &m));
}

#[test]
fn keys_of_lists_each_key_once() {
    let swarms = field();
    let mut keys = keys_of(&swarms);
    keys.sort();
    assert_eq!(keys, vec![1, 2]);
    let none: HashMap<usize, u8> = HashMap::new();
    assert!(keys_of(&none).is_empty());
}

#[test]
fn find_target_takes_the_nearest() {
    let swarms = field();
    let players = keys_of(&swarms);
    let rules = Rules { radius: 10, self_damage: false };
    assert_eq!(find_target(&rules, &bullet(100, 102, 9, 1), &swarms, &players), Some((1, 0)));
    assert_eq!(find_target(&rules, &bullet(100, 104, 9, 1), &swarms, &players), Some((2, 0)));
    assert_eq!(find_target(&rules, &bullet(100, 103, 9, 1), &swarms, &players), Some((1, 0)));
    assert_eq!(find_target(&rules, &bullet(195, 100, 9, 1), &swarms, &players), Some((1, 1)));
    assert_eq!(find_target(&rules, &bullet(150, 100, 9, 1), &swarms, &players), None);
    assert_eq!(find_target(&rules, &bullet(100, 102, 1, 1), &swarms, &players), Some((2, 0)));
    assert_eq!(find_target(&rules, &bullet(195, 100, 1, 1), &swarms, &players), None);
}

#[test]
fn find_target_ranks_ties_by_player_then_index() {
    let mut swarms = HashMap::new();
    swarms.insert(8, Swarm::new(vec![member(10, 13, 1)]));
    swarms.insert(4, Swarm::new(vec![member(50, 50, 1), member(13, 10, 1), member(7, 10, 1)]));
    swarms.insert(6, Swarm::new(vec![member(10, 7, 1)]));
    let players = keys_of(&swarms);
    let rules = Rules { radius: 3, self_damage: false };
    assert_eq!(find_target(&rules, &bullet(10, 10, 0, 1), &swarms, &players), Some((4, 1)));
    assert_eq!(find_target(&rules, &bullet(10, 10, 4, 1), &swarms, &players), Some((6, 0)));
    assert_eq!(find_target(&rules, &bullet(10, 10, 6, 1), &swarms, &players), Some((4, 1)));
}

#[test]
fn aim_takes_out_the_bullets_that_hit() {
    let swarms = field();
    let mut bullets = HashMap::new();
    bullets.insert(0, bullet(100, 100, 9, 3));
    bullets.insert(1, bullet(150, 100, 9, 4));
    bullets.insert(2, bullet(201, 100, 9, 5));
    bullets.insert(3, bullet(100, 101, 1, 6));
    let rules = Rules { radius: 5, self_damage: false };
    let mut strikes: Vec<(usize, usize, u32)> =
        aim(&rules, &swarms, &mut bullets).iter().map(|s| (s.player, s.index, s.damage)).collect();
    strikes.sort();
    assert_eq!(strikes, vec![(1, 0, 3), (1, 1, 5), (2, 0, 6)]);
    assert_eq!(bullets.len(), 1);
    assert_eq!(bullets.get(&1), Some(&bullet(150, 100, 9, 4)));
}

#[test]
fn land_takes_each_strike_off_its_member() {
    let mut swarms = field();
    let strikes = vec![
        Strike { player: 1, index: 1, damage: 4 },
        Strike { player: 2, index: 0, damage: 20 },
        Strike { player: 1, index: 1, damage: 5 },
    ];
    land(&mut swarms, &strikes);
    assert_eq!(swarms[&1].members(), &vec![member(100, 100, 10), member(200, 100, 1)]);
    assert_eq!(swarms[&2].members(), &vec![member(100, 106, 0)]);
    land(&mut swarms, &vec![]);
    assert_eq!(swarms[&1].members(), &vec![member(100, 100, 10), member(200, 100, 1)]);
}

#[test]
fn resolve_spends_bullets_and_keeps_the_dead() {
    let mut swarms = field();
    let mut bullets = HashMap::new();
    bullets.insert(0, bullet(100, 100, 9, 10));
    bullets.insert(1, bullet(100, 101, 9, 2));
    bullets.insert(2, bullet(100, 107, 9, 2));
    bullets.insert(3, bullet(500, 500, 9, 2));
    resolve(&Rules { radius: 5, self_damage: false }, &mut swarms, &mut bullets);
    assert_eq!(swarms[&1].members(), &vec![member(100, 100, 0), member(200, 100, 10)]);
    assert_eq!(swarms[&2].members(), &vec![member(100, 106, 8)]);
    assert_eq!(bullets.len(), 1);
    assert_eq!(bullets.get(&3), Some(&bullet(500, 500, 9, 2)));
}

#[test]
fn march_all_moves_every_swarm() {
    let mut swarms = HashMap::new();
    swarms.insert(1, Swarm::new(vec![Member { x: 1, y: 1, vx: 2, vy: 3, health: 1 }]));
    swarms.insert(2, Swarm::new(vec![Member { x: 9, y: 9, vx: 2, vy: -30, health: 1 }]));
    swarms.insert(3, Swarm::new(vec![]));
    march_all(&mut swarms, 10, 10);
    assert_eq!(swarms.len(), 3);
    assert_eq!(swarms[&1].members(), &vec![Member { x: 3, y: 4, vx: 2, vy: 3, health: 1 }]);
    assert_eq!(swarms[&2].members(), &vec![Member { x: 10, y: 0, vx: 2, vy: -30, health: 1 }]);
    assert!(swarms[&3].is_empty());
}

#[test]
fn fly_all_moves_or_removes_every_bullet() {
    let mut bullets = HashMap::new();
    bullets.insert(0, Bullet { x: 1, y: 1, vx: 2, vy: 3, owner: 0, ttl: 1, damage: 1 });
    bullets.insert(5, Bullet { x: 1, y: 1, vx: -2, vy: 3, owner: 0, ttl: 1, damage: 1 });
    bullets.insert(7, Bullet { x: 1, y: 1, vx: 2, vy: 3, owner: 0, ttl: 0, damage: 1 });
    bullets.insert(9, Bullet { x: 8, y: 8, vx: 2, vy: 2, owner: 0, ttl: 3, damage: 1 });
    fly_all(&mut bullets, 10, 10);
    assert_eq!(bullets.len(), 2);
    assert_eq!(bullets[&0], Bullet { x: 3, y: 4, vx: 2, vy: 3, owner: 0, ttl: 0, damage: 1 });
    assert_eq!(bullets[&9], Bullet { x: 10, y: 10, vx: 2, vy: 2, owner: 0, ttl: 2, damage: 1 });
}

#[test]
fn sweep_all_removes_the_dead_and_the_empty() {
    let mut swarms = HashMap::new();
    swarms.insert(1, Swarm::new(vec![member(1, 1, 0), member(2, 2, 2)]));
    swarms.insert(2, Swarm::new(vec![member(3, 3, 0)]));
    swarms.insert(3, Swarm::new(vec![]));
    swarms.insert(4, Swarm::new(vec![member(4, 4, 4)]));
    sweep_all(&mut swarms);
    let mut players = keys_of(&swarms);
    players.sort();
    assert_eq!(players, vec![1, 4]);
    assert_eq!(swarms[&1].members(), &vec![member(2, 2, 2)]);
    assert_eq!(swarms[&4].members(), &vec![member(4, 4, 4)]);
}
