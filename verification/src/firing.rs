//! Who fires on a tick, and the bullets that appear.
//!
//! The player fires when the fire key is held on a tick on which the player's
//! timer is ready. The formation fires on every tick on which its timer is
//! ready: one of the front enemies, picked at random, fires.

use crate::config::{BULLET_HALF, BULLET_SIZE, MUZZLE_OFFSET};
use crate::entity::{Entity, Owner, Role, Transform};
use crate::formation::{is_front, FrontEnemies};
use crate::geometry::Vec2;
use crate::random::choose_among;
use crate::registry::{first_player, spawned_entity, Registry};
use crate::timer::FireTimer;
use rand::rngs::StdRng;
use vstd::prelude::*;

verus! {

/// How far along the vertical axis a bullet of `owner` appears from its
/// shooter: the player's above, an enemy's below.
pub open spec fn muzzle(owner: Owner) -> int {
    match owner {
        Owner::Player => MUZZLE_OFFSET as int,
        Owner::Enemy => -MUZZLE_OFFSET,
    }
}

/// The bullet's place is within the range of coordinates.
pub open spec fn can_shoot(shooter: Entity, owner: Owner) -> bool {
    i64::MIN <= shooter.transform.translation.y + muzzle(owner) <= i64::MAX
}

/// The bullet that `shooter` fires.
pub open spec fn bullet_from(id: u64, shooter: Entity, owner: Owner) -> Entity {
    spawned_entity(
        id,
        Transform {
            translation: Vec2 {
                x: shooter.transform.translation.x,
                y: (shooter.transform.translation.y + muzzle(owner)) as i64,
            },
            scale: Vec2 { x: BULLET_SIZE, y: BULLET_SIZE },
        },
        Vec2 { x: BULLET_HALF, y: BULLET_HALF },
        Role::Bullet { owner },
    )
}

/// Spawns the bullet that the entity at index `shooter` fires as `owner`.
pub fn shoot_from(registry: &mut Registry, shooter: usize, owner: Owner) -> (id: u64)
    requires
        shooter < old(registry)@.len(),
        can_shoot(old(registry)@[shooter as int], owner),
        old(registry).spec_next_id() < u64::MAX,
    ensures
        id == old(registry).spec_next_id(),
        final(registry).spec_next_id() == id + 1,
        final(registry)@ == old(registry)@.push(
            bullet_from(id, old(registry)@[shooter as int], owner),
        ),
        old(registry).wf() ==> final(registry).wf(),
{
    let from = registry.get(shooter).transform.translation;
    let y = match owner {
        Owner::Player => from.y + MUZZLE_OFFSET,
        Owner::Enemy => from.y - MUZZLE_OFFSET,
    };
    registry.spawn(
        Transform {
            translation: Vec2 { x: from.x, y },
            scale: Vec2 { x: BULLET_SIZE, y: BULLET_SIZE },
        },
        Vec2 { x: BULLET_HALF, y: BULLET_HALF },
        Role::Bullet { owner },
    )
}

/// Whether the player fires on this tick: the key is held, the timer is
/// ready, and there is a live player.
pub open spec fn player_fires(s: Seq<Entity>, timer: FireTimer, fire: bool, dt_us: u32) -> bool {
    fire && timer.ready_after(dt_us) && first_player(s) is Some
}

/// The entities after the player's chance to fire.
pub open spec fn after_player_fire(
    s: Seq<Entity>,
    next_id: u64,
    timer: FireTimer,
    fire: bool,
    dt_us: u32,
) -> Seq<Entity> {
    if player_fires(s, timer, fire, dt_us) {
        s.push(bullet_from(next_id, s[first_player(s)->0], Owner::Player))
    } else {
        s
    }
}

/// Advances the player's timer and, if the player fires, spawns one bullet
/// above the player. Returns whether a bullet was fired.
pub fn player_fire(
    registry: &mut Registry,
    timer: &mut FireTimer,
    fire: bool,
    dt_us: u32,
) -> (fired: bool)
    requires
        old(registry).spec_next_id() < u64::MAX,
        first_player(old(registry)@) matches Some(p) ==> can_shoot(
            old(registry)@[p],
            Owner::Player,
        ),
    ensures
        *final(timer) == old(timer).advanced(dt_us),
        fired == player_fires(old(registry)@, *old(timer), fire, dt_us),
        final(registry)@ == after_player_fire(
            old(registry)@,
            old(registry).spec_next_id(),
            *old(timer),
            fire,
            dt_us,
        ),
        final(registry).spec_next_id() == old(registry).spec_next_id() + if fired {
            1int
        } else {
            0int
        },
        old(registry).wf() ==> final(registry).wf(),
{
    let ready = timer.tick(dt_us);
    if fire && ready {
        if let Some(p) = registry.player() {
            shoot_from(registry, p, Owner::Player);
            return true;
        }
    }
    false
}

/// Every live enemy has room below it for its bullet.
pub open spec fn formation_can_fire(s: Seq<Entity>) -> bool {
    forall|k: int|
        0 <= k < s.len() && (#[trigger] s[k]).is_enemy() ==> can_shoot(s[k], Owner::Enemy)
}

/// The indexes in `line` are those of the front enemies, in ascending order.
pub open spec fn is_front_line(
    s: Seq<Entity>,
    front: Map<usize, usize>,
    line: Seq<usize>,
) -> bool {
    &&& forall|a: int, b: int| 0 <= a < b < line.len() ==> line[a] < line[b]
    &&& forall|a: int|
        0 <= a < line.len() ==> line[a] < s.len() && is_front(front, s[line[a] as int])
    &&& forall|k: int|
        0 <= k < s.len() && is_front(front, #[trigger] s[k]) ==> line.contains(k as usize)
}

/// No enemy stands in front.
pub open spec fn no_front_enemy(s: Seq<Entity>, front: Map<usize, usize>) -> bool {
    forall|k: int| 0 <= k < s.len() ==> !is_front(front, #[trigger] s[k])
}

/// The indexes of the enemies that may fire: the live enemies that stand in
/// the front row of their column by the index.
pub fn front_line(registry: &Registry, front: &FrontEnemies) -> (line: Vec<usize>)
    ensures
        is_front_line(registry@, front@, line@),
{
    let n = registry.len();
    let mut line: Vec<usize> = Vec::new();
    let mut i: usize = 0;
    while i < n
        invariant
            i <= n,
            n == registry@.len(),
            forall|a: int, b: int| 0 <= a < b < line@.len() ==> line@[a] < line@[b],
            forall|a: int|
                0 <= a < line@.len() ==> line@[a] < i && is_front(
                    front@,
                    registry@[line@[a] as int],
                ),
            forall|k: int|
                0 <= k < i && is_front(front@, #[trigger] registry@[k]) ==> line@.contains(
                    k as usize,
                ),
        decreases n - i,
    {
        let ghost seen = line@;
        if front.is_front(registry.get(i)) {
            line.push(i);
            proof {
                assert(line@[seen.len() as int] == i);
                assert forall|k: int|
                    0 <= k < i + 1 && is_front(front@, #[trigger] registry@[k]) implies
                    line@.contains(k as usize) by {
                    if k < i {
                        let a = choose|a: int| 0 <= a < seen.len() && seen[a] == k as usize;
                        assert(line@[a] == seen[a]);
                    }
                }
            }
        }
        i += 1;
    }
    line
}

/// Advances the formation's timer and, if it is ready and some enemy stands
/// in front, lets one front enemy fire: one bullet is spawned below it.
/// Returns the index of the enemy that fired.
pub fn enemy_fire(
    registry: &mut Registry,
    timer: &mut FireTimer,
    front: &FrontEnemies,
    dt_us: u32,
    rng: &mut StdRng,
) -> (shooter: Option<usize>)
    requires
        old(registry).spec_next_id() < u64::MAX,
        formation_can_fire(old(registry)@),
    ensures
        *final(timer) == old(timer).advanced(dt_us),
        shooter is None <==> !old(timer).ready_after(dt_us) || no_front_enemy(
            old(registry)@,
            front@,
        ),
        match shooter {
            Some(k) => {
                &&& k < old(registry)@.len()
                &&& is_front(front@, old(registry)@[k as int])
                &&& final(registry)@ == old(registry)@.push(
                    bullet_from(
                        old(registry).spec_next_id(),
                        old(registry)@[k as int],
                        Owner::Enemy,
                    ),
                )
                &&& final(registry).spec_next_id() == old(registry).spec_next_id() + 1
            },
            None => {
                &&& final(registry)@ == old(registry)@
                &&& final(registry).spec_next_id() == old(registry).spec_next_id()
            },
        },
        old(registry).wf() ==> final(registry).wf(),
{
    let ready = timer.tick(dt_us);
    if !ready {
        return None;
    }
    let line = front_line(registry, front);
    let picked = choose_among(&line, rng);
    match picked {
        Some(k) => {
            proof {
                let a = choose|a: int| 0 <= a < line@.len() && line@[a] == k;
                assert(is_front(front@, registry@[line@[a] as int]));
            }
            shoot_from(registry, k, Owner::Enemy);
            Some(k)
        },
        None => {
            assert(no_front_enemy(registry@, front@)) by {
                assert forall|k: int|
                    0 <= k < registry@.len() implies !is_front(front@, #[trigger] registry@[k]) by {
                    if is_front(front@, registry@[k]) {
                        assert(line@.contains(k as usize));
                    }
                }
            }
            None
        },
    }
}

} // verus!
