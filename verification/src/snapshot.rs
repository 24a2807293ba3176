//! The wire form of a world.
//!
//! A snapshot is a full copy of what is live in the world, for a client to
//! draw. All numbers are big-endian. The layout:
//!
//! ```text
//! snapshot := version:u8 width:u32 height:u32 swarms:u64 swarm* bullets:u64 bullet*
//! swarm    := player:u64 members:u64 member*
//! member   := x:u32 y:u32 health:u32
//! bullet   := id:u64 owner:u64 x:u32 y:u32
//! ```
//!
//! Swarms and bullets come in the order in which the world's maps yield them,
//! the members of a swarm in the swarm's own order.

use std::collections::HashMap;
use vstd::prelude::*;
use crate::entity::{Bullet, Member, Swarm};
use crate::scene::{census, headcount};
use crate::store::{keys_of, lemma_ranks_dom, ranks};
use crate::tally::{lemma_sum_along_listing, lists, sum_along};

verus! {

broadcast use vstd::std_specs::hash::group_hash_axioms;

/// The tag that every snapshot of this layout starts with.
pub const VERSION: u8 = 1;

/// Bytes before the first swarm and between the last swarm and the first
/// bullet, together.
pub const FRAME_BYTES: usize = 25;

/// Bytes that introduce a swarm.
pub const SWARM_BYTES: usize = 16;

/// Bytes of a member.
pub const MEMBER_BYTES: usize = 12;

/// Bytes of a bullet.
pub const BULLET_BYTES: usize = 24;

/// The four bytes of `v`, the most significant first.
pub open spec fn be32(v: u32) -> Seq<u8> {
    seq![
        (v / 0x100_0000) as u8,
        (v / 0x1_0000 % 0x100) as u8,
        (v / 0x100 % 0x100) as u8,
        (v % 0x100) as u8,
    ]
}

/// The eight bytes of `v`, the most significant first.
pub open spec fn be64(v: u64) -> Seq<u8> {
    be32((v / 0x1_0000_0000) as u32) + be32((v % 0x1_0000_0000) as u32)
}

pub open spec fn member_bytes(m: Member) -> Seq<u8> {
    be32(m.x) + be32(m.y) + be32(m.health)
}

pub open spec fn members_bytes(members: Seq<Member>) -> Seq<u8>
    decreases members.len(),
{
    if members.len() == 0 {
        Seq::empty()
    } else {
        members_bytes(members.drop_last()) + member_bytes(members.last())
    }
}

pub open spec fn swarm_bytes(player: usize, members: Seq<Member>) -> Seq<u8> {
    be64(player as u64) + be64(members.len() as u64) + members_bytes(members)
}

/// The swarms of the players in `order`, one after the other.
pub open spec fn swarms_bytes(swarms: Map<usize, Seq<Member>>, order: Seq<usize>) -> Seq<u8>
    decreases order.len(),
{
    if order.len() == 0 {
        Seq::empty()
    } else {
        swarms_bytes(swarms, order.drop_last()) + swarm_bytes(order.last(), swarms[order.last()])
    }
}

pub open spec fn bullet_bytes(id: usize, b: Bullet) -> Seq<u8> {
    be64(id as u64) + be64(b.owner as u64) + be32(b.x) + be32(b.y)
}

/// The bullets with the identifiers in `order`, one after the other.
pub open spec fn bullets_bytes(bullets: Map<usize, Bullet>, order: Seq<usize>) -> Seq<u8>
    decreases order.len(),
{
    if order.len() == 0 {
        Seq::empty()
    } else {
        bullets_bytes(bullets, order.drop_last()) + bullet_bytes(
            order.last(),
            bullets[order.last()],
        )
    }
}

/// The snapshot of an arena of the given size that holds `swarms` and
/// `bullets`, the swarms written in the order `players` and the bullets in
/// the order `ids`.
pub open spec fn snapshot(
    width: u32,
    height: u32,
    swarms: Map<usize, Seq<Member>>,
    bullets: Map<usize, Bullet>,
    players: Seq<usize>,
    ids: Seq<usize>,
) -> Seq<u8> {
    seq![VERSION] + be32(width) + be32(height) + be64(players.len() as u64) + swarms_bytes(
        swarms,
        players,
    ) + be64(ids.len() as u64) + bullets_bytes(bullets, ids)
}

/// The length of a snapshot that holds the given numbers of swarms, of
/// members in all swarms together, and of bullets.
pub open spec fn snapshot_len(swarms: nat, members: nat, bullets: nat) -> nat {
    FRAME_BYTES as nat + SWARM_BYTES as nat * swarms + MEMBER_BYTES as nat * members
        + BULLET_BYTES as nat * bullets
}

pub proof fn lemma_members_bytes_len(members: Seq<Member>)
    ensures
        members_bytes(members).len() == MEMBER_BYTES * members.len(),
    decreases members.len(),
{
    if members.len() > 0 {
        lemma_members_bytes_len(members.drop_last());
    }
}

pub proof fn lemma_swarms_bytes_len(swarms: Map<usize, Seq<Member>>, order: Seq<usize>)
    ensures
        swarms_bytes(swarms, order).len() == SWARM_BYTES * order.len() + MEMBER_BYTES * sum_along(
            order,
            headcount(swarms),
        ),
    decreases order.len(),
{
    if order.len() > 0 {
        lemma_swarms_bytes_len(swarms, order.drop_last());
        lemma_members_bytes_len(swarms[order.last()]);
    }
}

pub proof fn lemma_bullets_bytes_len(bullets: Map<usize, Bullet>, order: Seq<usize>)
    ensures
        bullets_bytes(bullets, order).len() == BULLET_BYTES * order.len(),
    decreases order.len(),
{
    if order.len() > 0 {
        lemma_bullets_bytes_len(bullets, order.drop_last());
    }
}

/// In whatever order the swarms and bullets are written, the snapshot has
/// the length that the three counts give: the number of swarms, of members
/// and of bullets.
pub proof fn lemma_snapshot_len(
    width: u32,
    height: u32,
    swarms: Map<usize, Seq<Member>>,
    bullets: Map<usize, Bullet>,
    players: Seq<usize>,
    ids: Seq<usize>,
)
    requires
        lists(players, swarms.dom()),
        lists(ids, bullets.dom()),
    ensures
        snapshot(width, height, swarms, bullets, players, ids).len() == snapshot_len(
            swarms.dom().len(),
            census(swarms),
            bullets.dom().len(),
        ),
{
    lemma_swarms_bytes_len(swarms, players);
    lemma_bullets_bytes_len(bullets, ids);
    lemma_sum_along_listing(players, headcount(swarms));
    players.unique_seq_to_set();
    ids.unique_seq_to_set();
}

/// A snapshot never shrinks when a count grows: its length rises with the
/// number of swarms, of members and of bullets, each taken alone or together.
pub proof fn lemma_snapshot_len_monotone(
    swarms: nat,
    members: nat,
    bullets: nat,
    more_swarms: nat,
    more_members: nat,
    more_bullets: nat,
)
    requires
        swarms <= more_swarms,
        members <= more_members,
        bullets <= more_bullets,
    ensures
        snapshot_len(swarms, members, bullets) <= snapshot_len(
            more_swarms,
            more_members,
            more_bullets,
        ),
{
}

fn put_u32(out: &mut Vec<u8>, v: u32)
    ensures
        final(out)@ == old(out)@ + be32(v),
{
    out.push((v / 0x100_0000) as u8);
    out.push((v / 0x1_0000 % 0x100) as u8);
    out.push((v / 0x100 % 0x100) as u8);
    out.push((v % 0x100) as u8);
    assert(out@ =~= old(out)@ + be32(v));
}

fn put_u64(out: &mut Vec<u8>, v: u64)
    ensures
        final(out)@ == old(out)@ + be64(v),
{
    put_u32(out, (v / 0x1_0000_0000) as u32);
    put_u32(out, (v % 0x1_0000_0000) as u32);
    assert(out@ =~= old(out)@ + be64(v));
}

fn put_member(out: &mut Vec<u8>, m: &Member)
    ensures
        final(out)@ == old(out)@ + member_bytes(*m),
{
    put_u32(out, m.x);
    put_u32(out, m.y);
    put_u32(out, m.health);
    assert(out@ =~= old(out)@ + member_bytes(*m));
}

fn put_swarm(out: &mut Vec<u8>, player: usize, members: &Vec<Member>)
    ensures
        final(out)@ == old(out)@ + swarm_bytes(player, members@),
{
    put_u64(out, player as u64);
    put_u64(out, members.len() as u64);
    let ghost head = out@;
    let mut i: usize = 0;
    assert(members@.take(0) =~= Seq::<Member>::empty());
    assert(out@ =~= head + members_bytes(members@.take(0)));
    while i < members.len()
        invariant
            i <= members.len(),
            out@ == head + members_bytes(members@.take(i as int)),
        decreases members.len() - i,
    {
        put_member(out, &members[i]);
        proof {
            assert(members@.take(i + 1).drop_last() =~= members@.take(i as int));
            assert(out@ =~= head + members_bytes(members@.take(i + 1)));
        }
        i = i + 1;
    }
    assert(members@.take(i as int) =~= members@);
    assert(out@ =~= old(out)@ + swarm_bytes(player, members@));
}

fn put_bullet(out: &mut Vec<u8>, id: usize, b: &Bullet)
    ensures
        final(out)@ == old(out)@ + bullet_bytes(id, *b),
{
    put_u64(out, id as u64);
    put_u64(out, b.owner as u64);
    put_u32(out, b.x);
    put_u32(out, b.y);
    assert(out@ =~= old(out)@ + bullet_bytes(id, *b));
}

/// Writes the snapshot of an arena of the given size that holds `swarms`
/// and `bullets`. The order of the swarms and of the bullets is that of the
/// two maps; whatever it is, every swarm and every bullet is written once.
pub fn encode(
    width: u32,
    height: u32,
    swarms: &HashMap<usize, Swarm>,
    bullets: &HashMap<usize, Bullet>,
) -> (out: Vec<u8>)
    ensures
        exists|players: Seq<usize>, ids: Seq<usize>|
            lists(players, ranks(swarms@).dom()) && lists(ids, bullets@.dom()) && out@
                == #[trigger] snapshot(width, height, ranks(swarms@), bullets@, players, ids),
        out@.len() == snapshot_len(
            ranks(swarms@).dom().len(),
            census(ranks(swarms@)),
            bullets@.dom().len(),
        ),
{
    let players: Vec<usize> = keys_of(swarms);
    let ids: Vec<usize> = keys_of(bullets);
    let ghost field = ranks(swarms@);
    let mut out: Vec<u8> = Vec::new();
    out.push(VERSION);
    put_u32(&mut out, width);
    put_u32(&mut out, height);
    put_u64(&mut out, players.len() as u64);
    let ghost head = out@;
    assert(head =~= seq![VERSION] + be32(width) + be32(height) + be64(players@.len() as u64));
    let mut a: usize = 0;
    assert(players@.take(0) =~= Seq::<usize>::empty());
    assert(out@ =~= head + swarms_bytes(field, players@.take(0)));
    while a < players.len()
        invariant
            a <= players.len(),
            field == ranks(swarms@),
            lists(players@, swarms@.dom()),
            out@ == head + swarms_bytes(field, players@.take(a as int)),
        decreases players.len() - a,
    {
        let p: usize = players[a];
        assert(players@.to_set().contains(players@[a as int]));
        let found = swarms.get(&p);
        assert(found is Some);
        let swarm: &Swarm = found.unwrap();
        put_swarm(&mut out, p, swarm.members());
        proof {
            assert(players@.take(a + 1).drop_last() =~= players@.take(a as int));
            assert(out@ =~= head + swarms_bytes(field, players@.take(a + 1)));
        }
        a = a + 1;
    }
    assert(players@.take(a as int) =~= players@);
    put_u64(&mut out, ids.len() as u64);
    let ghost middle = out@;
    let mut n: usize = 0;
    assert(ids@.take(0) =~= Seq::<usize>::empty());
    assert(out@ =~= middle + bullets_bytes(bullets@, ids@.take(0)));
    while n < ids.len()
        invariant
            n <= ids.len(),
            lists(ids@, bullets@.dom()),
            out@ == middle + bullets_bytes(bullets@, ids@.take(n as int)),
        decreases ids.len() - n,
    {
        let id: usize = ids[n];
        assert(ids@.to_set().contains(ids@[n as int]));
        let found = bullets.get(&id);
        assert(found is Some);
        put_bullet(&mut out, id, found.unwrap());
        proof {
            assert(ids@.take(n + 1).drop_last() =~= ids@.take(n as int));
            assert(out@ =~= middle + bullets_bytes(bullets@, ids@.take(n + 1)));
        }
        n = n + 1;
    }
    proof {
        assert(ids@.take(n as int) =~= ids@);
        lemma_ranks_dom(swarms@);
        assert(out@ == snapshot(width, height, field, bullets@, players@, ids@));
        lemma_snapshot_len(width, height, field, bullets@, players@, ids@);
    }
    out
}

} // verus!
