//! How the player, the enemy formation and the bullets move in one tick, and
//! how colliders follow.

use crate::config::{
    BOTTOM_WALL, ENEMY_BULLET_SPEED, ENEMY_DROP, ENEMY_SPEED, LEFT_WALL, PLAYER_BULLET_SPEED,
    PLAYER_SPEED, RIGHT_WALL, TOP_WALL,
};
use crate::entity::{Entity, Owner, Role, Transform};
use crate::geometry::{Aabb, Vec2};
use crate::input::Direction;
use crate::registry::{first_player, lemma_first_player_is_player, Registry};
use vstd::prelude::*;

verus! {

/// `v`, or the nearer end of `[lo, hi]` where `v` lies outside.
pub open spec fn clamp(v: int, lo: int, hi: int) -> int {
    if v < lo {
        lo
    } else if v > hi {
        hi
    } else {
        v
    }
}

/// The way made in `dt_us` microseconds at `speed` in `direction`.
pub open spec fn travel(direction: Direction, speed: i64, dt_us: u32) -> int {
    direction.sign() * (speed * dt_us)
}

/// `e` at another place.
pub open spec fn moved_to(e: Entity, x: int, y: int) -> Entity {
    Entity {
        transform: Transform {
            translation: Vec2 { x: x as i64, y: y as i64 },
            scale: e.transform.scale,
        },
        ..e
    }
}

fn travelled(direction: Direction, speed: i64, dt_us: u32) -> (way: i64)
    requires
        0 <= speed <= 1000,
    ensures
        way == travel(direction, speed, dt_us),
        -0x3e8_0000_0000 <= way <= 0x3e8_0000_0000,
{
    assert(0 <= speed * dt_us <= 0x3e8_0000_0000) by (nonlinear_arith)
        requires
            0 <= speed <= 1000,
            0 <= dt_us <= 0xffff_ffff,
    ;
    let reach: i64 = speed * (dt_us as i64);
    let sign = i64::from(direction);
    assert(sign * reach == direction.sign() * (speed * dt_us)) by (nonlinear_arith)
        requires
            sign == direction.sign(),
            reach == speed * dt_us,
    ;
    assert(-0x3e8_0000_0000 <= sign * reach <= 0x3e8_0000_0000) by (nonlinear_arith)
        requires
            -1 <= sign <= 1,
            0 <= reach <= 0x3e8_0000_0000,
    ;
    sign * reach
}

fn placed(e: Entity, x: i64, y: i64) -> (moved: Entity)
    ensures
        moved == moved_to(e, x as int, y as int),
{
    Entity {
        transform: Transform { translation: Vec2 { x, y }, scale: e.transform.scale },
        ..e
    }
}

/// The player after one tick: moved sideways at the player's speed and held
/// between the side walls.
pub open spec fn player_moved(e: Entity, direction: Direction, dt_us: u32) -> Entity {
    moved_to(
        e,
        clamp(
            e.transform.translation.x + travel(direction, PLAYER_SPEED, dt_us),
            LEFT_WALL as int,
            RIGHT_WALL as int,
        ),
        e.transform.translation.y as int,
    )
}

/// The entities after the player's move. Only the first live player moves.
pub open spec fn after_player_movement(
    s: Seq<Entity>,
    direction: Direction,
    dt_us: u32,
) -> Seq<Entity> {
    match first_player(s) {
        Some(i) => s.update(i, player_moved(s[i], direction, dt_us)),
        None => s,
    }
}

/// The player's move changes nothing but where the first live player stands
/// along the horizontal axis, and leaves it between the side walls.
pub proof fn lemma_player_movement_frame(s: Seq<Entity>, direction: Direction, dt_us: u32)
    ensures
        after_player_movement(s, direction, dt_us).len() == s.len(),
        first_player(after_player_movement(s, direction, dt_us)) == first_player(s),
        forall|i: int|
            0 <= i < s.len() && first_player(s) != Some(i) ==> after_player_movement(
                s,
                direction,
                dt_us,
            )[i] == s[i],
        first_player(s) matches Some(p) ==> {
            let e = after_player_movement(s, direction, dt_us)[p];
            &&& e == moved_to(
                s[p],
                e.transform.translation.x as int,
                s[p].transform.translation.y as int,
            )
            &&& LEFT_WALL <= e.transform.translation.x <= RIGHT_WALL
        },
{
    if first_player(s) is Some {
        lemma_first_player_is_player(s);
        let p = first_player(s)->0;
        let r = after_player_movement(s, direction, dt_us);
        assert(r[p].is_player());
        assert forall|j: int| 0 <= j < p && j < r.len() implies !(#[trigger] r[j]).is_player() by {
            assert(r[j] == s[j]);
        }
        crate::registry::lemma_first_player(r, p);
    }
}

/// Moves the player sideways, no further than the side walls.
pub fn player_movement(registry: &mut Registry, direction: Direction, dt_us: u32)
    ensures
        final(registry)@ == after_player_movement(old(registry)@, direction, dt_us),
        final(registry).spec_next_id() == old(registry).spec_next_id(),
        old(registry).wf() ==> final(registry).wf(),
{
    if let Some(i) = registry.player() {
        let e = registry.get(i);
        let way = travelled(direction, PLAYER_SPEED, dt_us);
        let target: i128 = e.transform.translation.x as i128 + way as i128;
        let x: i64 = if target < LEFT_WALL as i128 {
            LEFT_WALL
        } else if target > RIGHT_WALL as i128 {
            RIGHT_WALL
        } else {
            target as i64
        };
        registry.put(i, placed(e, x, e.transform.translation.y));
    }
}

/// A live enemy that `step` more to the side would take out of the field.
pub open spec fn would_leave_field(e: Entity, step: int) -> bool {
    e.is_enemy() && !(LEFT_WALL <= e.transform.translation.x + step <= RIGHT_WALL)
}

/// Some live enemy cannot make the step: the formation has to turn round.
pub open spec fn formation_blocked(s: Seq<Entity>, step: int) -> bool {
    exists|i: int| 0 <= i < s.len() && would_leave_field(#[trigger] s[i], step)
}

/// One step down for a live enemy; any other entity stays.
pub open spec fn enemy_dropped(e: Entity) -> Entity {
    if e.is_enemy() {
        moved_to(e, e.transform.translation.x as int, e.transform.translation.y - ENEMY_DROP)
    } else {
        e
    }
}

/// One step to the side for a live enemy; any other entity stays.
pub open spec fn enemy_shifted(e: Entity, step: int) -> Entity {
    if e.is_enemy() {
        moved_to(e, e.transform.translation.x + step, e.transform.translation.y as int)
    } else {
        e
    }
}

/// Every live enemy can go one step down without leaving the range of
/// coordinates.
pub open spec fn formation_can_drop(s: Seq<Entity>) -> bool {
    forall|i: int|
        0 <= i < s.len() && (#[trigger] s[i]).is_enemy() ==> s[i].transform.translation.y
            - ENEMY_DROP >= i64::MIN
}

/// The entities after the formation's move: all live enemies one step down
/// if the formation is blocked, else all of them one step to the side.
pub open spec fn after_enemy_movement(
    s: Seq<Entity>,
    direction: Direction,
    dt_us: u32,
) -> Seq<Entity> {
    let step = travel(direction, ENEMY_SPEED, dt_us);
    if formation_blocked(s, step) {
        Seq::new(s.len(), |i: int| enemy_dropped(s[i]))
    } else {
        Seq::new(s.len(), |i: int| enemy_shifted(s[i], step))
    }
}

/// The formation's direction after its move: turned round if it was blocked.
pub open spec fn direction_after_enemy_movement(
    s: Seq<Entity>,
    direction: Direction,
    dt_us: u32,
) -> Direction {
    if formation_blocked(s, travel(direction, ENEMY_SPEED, dt_us)) {
        direction.flipped()
    } else {
        direction
    }
}

/// Every live enemy stands between the side walls.
pub open spec fn formation_in_field(s: Seq<Entity>) -> bool {
    forall|i: int|
        0 <= i < s.len() && (#[trigger] s[i]).is_enemy() ==> LEFT_WALL
            <= s[i].transform.translation.x <= RIGHT_WALL
}

/// The formation law. A formation between the side walls is still between
/// them after its move. It drops and turns round exactly if the step to the
/// side would take some live enemy beyond a wall; then no live enemy moves
/// to the side, and otherwise every live enemy makes the same step to the
/// side and none moves down.
pub proof fn lemma_formation_stays_in_field(s: Seq<Entity>, direction: Direction, dt_us: u32)
    requires
        formation_in_field(s),
    ensures
        formation_in_field(after_enemy_movement(s, direction, dt_us)),
        after_enemy_movement(s, direction, dt_us).len() == s.len(),
        formation_blocked(s, travel(direction, ENEMY_SPEED, dt_us)) ==> {
            &&& direction_after_enemy_movement(s, direction, dt_us) == direction.flipped()
            &&& forall|i: int|
                0 <= i < s.len() && (#[trigger] s[i]).is_enemy() ==> after_enemy_movement(
                    s,
                    direction,
                    dt_us,
                )[i] == moved_to(
                    s[i],
                    s[i].transform.translation.x as int,
                    s[i].transform.translation.y - ENEMY_DROP,
                )
        },
        !formation_blocked(s, travel(direction, ENEMY_SPEED, dt_us)) ==> {
            &&& direction_after_enemy_movement(s, direction, dt_us) == direction
            &&& forall|i: int|
                0 <= i < s.len() && (#[trigger] s[i]).is_enemy() ==> after_enemy_movement(
                    s,
                    direction,
                    dt_us,
                )[i] == moved_to(
                    s[i],
                    s[i].transform.translation.x + travel(direction, ENEMY_SPEED, dt_us),
                    s[i].transform.translation.y as int,
                )
        },
{
    let step = travel(direction, ENEMY_SPEED, dt_us);
    let r = after_enemy_movement(s, direction, dt_us);
    assert forall|i: int|
        0 <= i < r.len() && (#[trigger] r[i]).is_enemy() implies
        LEFT_WALL <= r[i].transform.translation.x <= RIGHT_WALL by {
        assert(s[i].is_enemy());
        if !formation_blocked(s, step) {
            assert(!would_leave_field(s[i], step));
        }
    }
}

/// Whether the formation can go one step down without leaving the range of
/// coordinates.
pub fn can_drop(registry: &Registry) -> (ok: bool)
    ensures
        ok == formation_can_drop(registry@),
{
    let n = registry.len();
    let mut i: usize = 0;
    while i < n
        invariant
            i <= n,
            n == registry@.len(),
            forall|j: int|
                0 <= j < i && (#[trigger] registry@[j]).is_enemy()
                    ==> registry@[j].transform.translation.y - ENEMY_DROP >= i64::MIN,
        decreases n - i,
    {
        let e = registry.get(i);
        if e.is_enemy() && e.transform.translation.y < i64::MIN + ENEMY_DROP {
            return false;
        }
        i += 1;
    }
    true
}

/// Moves the formation as one body. If the step to the side would take any
/// live enemy beyond a side wall, nobody makes it: all live enemies go one
/// step down and the direction turns round. Returns whether that happened.
pub fn enemy_movement(
    registry: &mut Registry,
    direction: &mut Direction,
    dt_us: u32,
) -> (dropped: bool)
    requires
        formation_can_drop(old(registry)@),
    ensures
        dropped == formation_blocked(old(registry)@, travel(*old(direction), ENEMY_SPEED, dt_us)),
        final(registry)@ == after_enemy_movement(old(registry)@, *old(direction), dt_us),
        *final(direction) == direction_after_enemy_movement(
            old(registry)@,
            *old(direction),
            dt_us,
        ),
        final(registry).spec_next_id() == old(registry).spec_next_id(),
        old(registry).wf() ==> final(registry).wf(),
{
    let ghost before = registry@;
    let ghost was_wf = registry.wf();
    let step = travelled(*direction, ENEMY_SPEED, dt_us);
    let n = registry.len();
    let mut blocked = false;
    let mut i: usize = 0;
    while i < n
        invariant
            i <= n,
            n == registry@.len(),
            registry@ == before,
            blocked == exists|j: int| 0 <= j < i
                && would_leave_field(#[trigger] before[j], step as int),
        decreases n - i,
    {
        let e = registry.get(i);
        if e.is_enemy() {
            let target: i128 = e.transform.translation.x as i128 + step as i128;
            if target < LEFT_WALL as i128 || target > RIGHT_WALL as i128 {
                blocked = true;
            }
        }
        i += 1;
    }
    let mut k: usize = 0;
    while k < n
        invariant
            k <= n,
            n == registry@.len(),
            n == before.len(),
            registry.spec_next_id() == old(registry).spec_next_id(),
            was_wf ==> registry.wf(),
            formation_can_drop(before),
            blocked == formation_blocked(before, step as int),
            forall|j: int|
                0 <= j < k ==> registry@[j] == if blocked {
                    enemy_dropped(before[j])
                } else {
                    enemy_shifted(before[j], step as int)
                },
            forall|j: int| k <= j < n ==> registry@[j] == before[j],
        decreases n - k,
    {
        let e = registry.get(k);
        if e.is_enemy() {
            if blocked {
                registry.put(
                    k,
                    placed(e, e.transform.translation.x, e.transform.translation.y - ENEMY_DROP),
                );
            } else {
                assert(!would_leave_field(before[k as int], step as int));
                registry.put(
                    k,
                    placed(e, e.transform.translation.x + step, e.transform.translation.y),
                );
            }
        }
        k += 1;
    }
    if blocked {
        direction.flip();
    }
    assert(registry@ =~= after_enemy_movement(before, *old(direction), dt_us));
    blocked
}

/// The speed of a bullet along the vertical axis: the player's bullets go up,
/// the enemies' bullets go down.
pub open spec fn bullet_speed(owner: Owner) -> int {
    match owner {
        Owner::Player => PLAYER_BULLET_SPEED as int,
        Owner::Enemy => -ENEMY_BULLET_SPEED,
    }
}

/// A live bullet after one tick: moved along the vertical axis, or destroyed
/// where it stood if the move takes it beyond the bottom or the top wall. Any
/// other entity stays.
pub open spec fn bullet_moved(e: Entity, dt_us: u32) -> Entity {
    if e.is_bullet() {
        let y = e.transform.translation.y + bullet_speed(e.role->owner) * dt_us;
        if BOTTOM_WALL <= y <= TOP_WALL {
            moved_to(e, e.transform.translation.x as int, y)
        } else {
            e.destroyed()
        }
    } else {
        e
    }
}

/// The entities after the bullets' move.
pub open spec fn after_bullet_movement(s: Seq<Entity>, dt_us: u32) -> Seq<Entity> {
    Seq::new(s.len(), |i: int| bullet_moved(s[i], dt_us))
}

/// Moves every live bullet and destroys those that leave the field.
pub fn bullet_movement(registry: &mut Registry, dt_us: u32)
    ensures
        final(registry)@ == after_bullet_movement(old(registry)@, dt_us),
        final(registry).spec_next_id() == old(registry).spec_next_id(),
        old(registry).wf() ==> final(registry).wf(),
{
    let ghost before = registry@;
    let ghost was_wf = registry.wf();
    let n = registry.len();
    let mut i: usize = 0;
    while i < n
        invariant
            i <= n,
            n == registry@.len(),
            n == before.len(),
            registry.spec_next_id() == old(registry).spec_next_id(),
            was_wf ==> registry.wf(),
            forall|j: int| 0 <= j < i ==> registry@[j] == bullet_moved(before[j], dt_us),
            forall|j: int| i <= j < n ==> registry@[j] == before[j],
        decreases n - i,
    {
        let e = registry.get(i);
        if e.alive {
            if let Role::Bullet { owner } = e.role {
                let way = match owner {
                    Owner::Player => travelled(Direction::Right, PLAYER_BULLET_SPEED, dt_us),
                    Owner::Enemy => travelled(Direction::Left, ENEMY_BULLET_SPEED, dt_us),
                };
                let target: i128 = e.transform.translation.y as i128 + way as i128;
                if target < BOTTOM_WALL as i128 || target > TOP_WALL as i128 {
                    registry.put(i, e.destroyed());
                } else {
                    registry.put(i, placed(e, e.transform.translation.x, target as i64));
                }
            }
        }
        i += 1;
    }
    assert(registry@ =~= after_bullet_movement(before, dt_us));
}

/// An entity with its collider brought to where the entity is. The half
/// extent stays.
pub open spec fn collider_refreshed(e: Entity) -> Entity {
    Entity { collider: Aabb { center: e.transform.translation, half: e.collider.half }, ..e }
}

/// The entities with their colliders brought to where they are.
pub open spec fn after_update_collider(s: Seq<Entity>) -> Seq<Entity> {
    Seq::new(s.len(), |i: int| collider_refreshed(s[i]))
}

/// Brings every collider to where its entity is.
pub fn update_collider(registry: &mut Registry)
    ensures
        final(registry)@ == after_update_collider(old(registry)@),
        final(registry).spec_next_id() == old(registry).spec_next_id(),
        old(registry).wf() ==> final(registry).wf(),
{
    let ghost before = registry@;
    let ghost was_wf = registry.wf();
    let n = registry.len();
    let mut i: usize = 0;
    while i < n
        invariant
            i <= n,
            n == registry@.len(),
            n == before.len(),
            registry.spec_next_id() == old(registry).spec_next_id(),
            was_wf ==> registry.wf(),
            forall|j: int| 0 <= j < i ==> registry@[j] == collider_refreshed(before[j]),
            forall|j: int| i <= j < n ==> registry@[j] == before[j],
        decreases n - i,
    {
        let e = registry.get(i);
        let collider = e.collider.recentered(e.transform.translation);
        registry.put(i, Entity { collider, ..e });
        i += 1;
    }
    assert(registry@ =~= after_update_collider(before));
}

} // verus!
