//! Collisions between bullets and what they can hit.
//!
//! A tick resolves the shields first, then the enemies, then the player.
//! Bullets are taken in the registry's order, and a bullet resolves against
//! the first live target that its box overlaps, also in that order. What is
//! destroyed is out of the game at once: no later bullet of the tick can hit
//! it, and a destroyed bullet hits nothing more.

use crate::config::SHIELD_STRENGTH;
use crate::entity::{Entity, Kind, Owner, Role};
use crate::events::EnemyKilled;
use crate::geometry::Aabb;
use crate::registry::{first_player, lemma_live_count_update, live_count, Registry};
use vstd::prelude::*;

verus! {

/// The entity at index `t` is a live entity of the kind `target` that the
/// box overlaps.
pub open spec fn struck(s: Seq<Entity>, collider: Aabb, target: Kind, t: int) -> bool {
    0 <= t < s.len() && s[t].is_a(target) && collider.overlaps(s[t].collider)
}

/// No entity before index `t` is struck.
pub open spec fn none_struck_before(
    s: Seq<Entity>,
    collider: Aabb,
    target: Kind,
    t: int,
) -> bool {
    forall|u: int| 0 <= u < t ==> !struck(s, collider, target, u)
}

/// The index of the first live entity of the kind `target` that the box
/// overlaps.
pub open spec fn first_struck(s: Seq<Entity>, collider: Aabb, target: Kind) -> Option<int> {
    if exists|t: int| struck(s, collider, target, t) {
        Some(
            choose|t: int|
                struck(s, collider, target, t) && none_struck_before(s, collider, target, t),
        )
    } else {
        None
    }
}

/// `first_struck` is `t` exactly when `t` is struck and nothing before it is.
pub proof fn lemma_first_struck(s: Seq<Entity>, collider: Aabb, target: Kind, t: int)
    requires
        struck(s, collider, target, t),
        none_struck_before(s, collider, target, t),
    ensures
        first_struck(s, collider, target) == Some(t),
{
    let c = choose|c: int|
        struck(s, collider, target, c) && none_struck_before(s, collider, target, c);
    assert(struck(s, collider, target, c) && none_struck_before(s, collider, target, c));
    if c < t {
        assert(!struck(s, collider, target, c));
    }
    if t < c {
        assert(!struck(s, collider, target, t));
    }
}

/// What `first_struck` gives is struck, and nothing before it is.
pub proof fn lemma_first_struck_is_struck(s: Seq<Entity>, collider: Aabb, target: Kind)
    requires
        first_struck(s, collider, target) is Some,
    ensures
        struck(s, collider, target, first_struck(s, collider, target)->0),
        none_struck_before(s, collider, target, first_struck(s, collider, target)->0),
    decreases s.len(),
{
    let w = choose|t: int| struck(s, collider, target, t);
    lemma_least_struck(s, collider, target, w);
    let c = choose|c: int|
        struck(s, collider, target, c) && none_struck_before(s, collider, target, c);
    assert(struck(s, collider, target, c) && none_struck_before(s, collider, target, c));
}

proof fn lemma_least_struck(s: Seq<Entity>, collider: Aabb, target: Kind, w: int)
    requires
        struck(s, collider, target, w),
    ensures
        exists|c: int| struck(s, collider, target, c) && none_struck_before(s, collider, target, c),
    decreases w,
{
    if none_struck_before(s, collider, target, w) {
    } else {
        let u = choose|u: int| 0 <= u < w && struck(s, collider, target, u);
        lemma_least_struck(s, collider, target, u);
    }
}

fn find_struck(registry: &Registry, collider: &Aabb, target: Kind) -> (found: Option<usize>)
    ensures
        match found {
            Some(t) => first_struck(registry@, *collider, target) == Some(t as int) && struck(
                registry@,
                *collider,
                target,
                t as int,
            ),
            None => first_struck(registry@, *collider, target) is None,
        },
{
    let n = registry.len();
    let mut t: usize = 0;
    while t < n
        invariant
            t <= n,
            n == registry@.len(),
            none_struck_before(registry@, *collider, target, t as int),
        decreases n - t,
    {
        let e = registry.get(t);
        if e.is_of_kind(target) && collider.intersects(&e.collider) {
            proof {
                lemma_first_struck(registry@, *collider, target, t as int);
            }
            return Some(t);
        }
        t += 1;
    }
    None
}

/// A shield after it absorbed a bullet: one more hit, and gone once the hits
/// reach its strength.
pub open spec fn shield_hit(e: Entity) -> Entity {
    Entity {
        role: Role::Shield { hits: (e.role->hits + 1) as u32 },
        alive: e.role->hits + 1 < SHIELD_STRENGTH,
        ..e
    }
}

/// What the bullet at index `b` does to the shields: if it is live and
/// overlaps a live shield, it is destroyed and the first such shield takes
/// the hit.
pub open spec fn shield_step(s: Seq<Entity>, b: int) -> Seq<Entity> {
    if s[b].is_bullet() {
        match first_struck(s, s[b].collider, Kind::Shield) {
            Some(t) => s.update(b, s[b].destroyed()).update(t, shield_hit(s[t])),
            None => s,
        }
    } else {
        s
    }
}

/// The entities after the first `n` of them had their turn against the
/// shields.
pub open spec fn shields_resolved(s: Seq<Entity>, n: nat) -> Seq<Entity>
    decreases n,
{
    if n == 0 {
        s
    } else {
        shield_step(shields_resolved(s, (n - 1) as nat), n - 1)
    }
}

/// The entities after every one of them had its turn against the shields.
pub open spec fn after_shield_collisions(s: Seq<Entity>) -> Seq<Entity> {
    shields_resolved(s, s.len())
}

/// No live shield has taken so many hits that the count cannot go on.
pub open spec fn shields_can_count(s: Seq<Entity>) -> bool {
    forall|i: int| 0 <= i < s.len() && (#[trigger] s[i]).is_shield() ==> s[i].role->hits < u32::MAX
}

/// A turn against the shields keeps the length, the identifiers and the
/// capacity to count.
pub proof fn lemma_shield_step_keeps_shape(s: Seq<Entity>, b: int)
    requires
        0 <= b < s.len(),
        shields_can_count(s),
    ensures
        shield_step(s, b).len() == s.len(),
        forall|i: int| 0 <= i < s.len() ==> (#[trigger] shield_step(s, b)[i]).id == s[i].id,
        shields_can_count(shield_step(s, b)),
{
    if s[b].is_bullet() && first_struck(s, s[b].collider, Kind::Shield) is Some {
        lemma_first_struck_is_struck(s, s[b].collider, Kind::Shield);
        let t = first_struck(s, s[b].collider, Kind::Shield)->0;
        let r = shield_step(s, b);
        assert forall|i: int|
            0 <= i < r.len() && (#[trigger] r[i]).is_shield() implies
            r[i].role->hits < u32::MAX by {
            if i != t && i != b {
                assert(r[i] == s[i]);
            }
        }
    }
}

/// The turns against the shields keep the length, the identifiers and the
/// capacity to count.
pub proof fn lemma_shields_resolved_shape(s: Seq<Entity>, n: nat)
    requires
        n <= s.len(),
        shields_can_count(s),
    ensures
        shields_resolved(s, n).len() == s.len(),
        forall|i: int| 0 <= i < s.len() ==> (#[trigger] shields_resolved(s, n)[i]).id == s[i].id,
        shields_can_count(shields_resolved(s, n)),
    decreases n,
{
    if n > 0 {
        lemma_shields_resolved_shape(s, (n - 1) as nat);
        lemma_shield_step_keeps_shape(shields_resolved(s, (n - 1) as nat), n - 1);
    }
}

/// Every shield is alive exactly as long as its hits are below its strength.
pub open spec fn shields_in_order(s: Seq<Entity>) -> bool {
    forall|i: int|
        0 <= i < s.len() && (#[trigger] s[i]).role is Shield ==> (s[i].alive <==> s[i].role->hits
            < SHIELD_STRENGTH)
}

/// The shield law. If every shield is alive exactly as long as its hits
/// are below its strength, the same holds after the bullets of a tick were
/// resolved against the shields. Through that, every shield stays a shield
/// and its hits do not go down; nothing else becomes a shield.
pub proof fn lemma_shields_stay_in_order(s: Seq<Entity>, n: nat)
    requires
        n <= s.len(),
        shields_in_order(s),
    ensures
        shields_resolved(s, n).len() == s.len(),
        shields_in_order(shields_resolved(s, n)),
        forall|i: int|
            0 <= i < s.len() ==> (#[trigger] shields_resolved(s, n)[i]).role is Shield
                == s[i].role is Shield,
        forall|i: int|
            0 <= i < s.len() && (#[trigger] s[i]).role is Shield ==> s[i].role->hits
                <= shields_resolved(s, n)[i].role->hits,
    decreases n,
{
    if n > 0 {
        let now = shields_resolved(s, (n - 1) as nat);
        let b = n - 1;
        lemma_shields_stay_in_order(s, (n - 1) as nat);
        let r = shield_step(now, b);
        if now[b].is_bullet() && first_struck(now, now[b].collider, Kind::Shield) is Some {
            lemma_first_struck_is_struck(now, now[b].collider, Kind::Shield);
            let t = first_struck(now, now[b].collider, Kind::Shield)->0;
            assert(now[t].role is Shield);
            assert forall|i: int|
                0 <= i < s.len() implies
                (#[trigger] r[i]).role is Shield == s[i].role is Shield by {
                assert(now[i].role is Shield == s[i].role is Shield);
            }
            assert forall|i: int|
                0 <= i < r.len() && (#[trigger] r[i]).role is Shield implies
                (r[i].alive <==> r[i].role->hits < SHIELD_STRENGTH) by {
                assert(now[i].role is Shield);
            }
            assert forall|i: int|
                0 <= i < s.len() && (#[trigger] s[i]).role is Shield implies
                s[i].role->hits <= r[i].role->hits by {
                assert(now[i].role is Shield);
            }
        }
    }
}

/// Lets every live bullet, whoever fired it, try the shields.
pub fn shield_bullet_collision(registry: &mut Registry)
    requires
        shields_can_count(old(registry)@),
    ensures
        final(registry)@ == after_shield_collisions(old(registry)@),
        final(registry).spec_next_id() == old(registry).spec_next_id(),
        old(registry).wf() ==> final(registry).wf(),
{
    let ghost before = registry@;
    let ghost was_wf = registry.wf();
    let n = registry.len();
    let mut b: usize = 0;
    while b < n
        invariant
            b <= n,
            n == registry@.len(),
            n == before.len(),
            registry.spec_next_id() == old(registry).spec_next_id(),
            was_wf ==> registry.wf(),
            shields_can_count(registry@),
            registry@ == shields_resolved(before, b as nat),
        decreases n - b,
    {
        let ghost now = registry@;
        proof {
            lemma_shield_step_keeps_shape(now, b as int);
        }
        let bullet = registry.get(b);
        if bullet.is_bullet() {
            if let Some(t) = find_struck(registry, &bullet.collider, Kind::Shield) {
                let shield = registry.get(t);
                if let Role::Shield { hits } = shield.role {
                    registry.put(b, bullet.destroyed());
                    let hits = hits + 1;
                    let alive = hits < SHIELD_STRENGTH;
                    registry.put(t, Entity { role: Role::Shield { hits }, alive, ..shield });
                }
            }
        }
        assert(registry@ =~= shield_step(now, b as int));
        b += 1;
    }
}

/// The kill that the bullet at index `b` makes, if it makes one: it is a live
/// bullet of the player and overlaps a live enemy.
pub open spec fn enemy_struck_by(s: Seq<Entity>, b: int) -> Option<int> {
    if s[b].is_bullet_of(Owner::Player) {
        first_struck(s, s[b].collider, Kind::Enemy)
    } else {
        None
    }
}

/// The report of the kill of the enemy `e`.
pub open spec fn kill_report(e: Entity) -> EnemyKilled {
    EnemyKilled { position: e.role->position, enemy: e.role->kind }
}

/// What the bullet at index `b` does to the enemies: if it kills one, both
/// are destroyed.
pub open spec fn enemy_step(s: Seq<Entity>, b: int) -> Seq<Entity> {
    match enemy_struck_by(s, b) {
        Some(t) => s.update(b, s[b].destroyed()).update(t, s[t].destroyed()),
        None => s,
    }
}

/// The entities after the first `n` of them had their turn against the
/// enemies.
pub open spec fn enemies_resolved(s: Seq<Entity>, n: nat) -> Seq<Entity>
    decreases n,
{
    if n == 0 {
        s
    } else {
        enemy_step(enemies_resolved(s, (n - 1) as nat), n - 1)
    }
}

/// The kills that the first `n` entities made in their turns, in order.
pub open spec fn kills_made(s: Seq<Entity>, n: nat) -> Seq<EnemyKilled>
    decreases n,
{
    if n == 0 {
        Seq::empty()
    } else {
        let now = enemies_resolved(s, (n - 1) as nat);
        let made = kills_made(s, (n - 1) as nat);
        match enemy_struck_by(now, n - 1) {
            Some(t) => made.push(kill_report(now[t])),
            None => made,
        }
    }
}

/// The entities after every one of them had its turn against the enemies.
pub open spec fn after_enemy_collisions(s: Seq<Entity>) -> Seq<Entity> {
    enemies_resolved(s, s.len())
}

/// The kills that the entities made in their turns, in order.
pub open spec fn kills_of_tick(s: Seq<Entity>) -> Seq<EnemyKilled> {
    kills_made(s, s.len())
}

/// A turn against the enemies keeps the length and the identifiers.
pub proof fn lemma_enemy_step_keeps_shape(s: Seq<Entity>, b: int)
    requires
        0 <= b < s.len(),
    ensures
        enemy_step(s, b).len() == s.len(),
        forall|i: int| 0 <= i < s.len() ==> (#[trigger] enemy_step(s, b)[i]).id == s[i].id,
{
    if enemy_struck_by(s, b) is Some {
        lemma_first_struck_is_struck(s, s[b].collider, Kind::Enemy);
    }
}

/// The turns against the enemies keep the length and the identifiers, and
/// no turn makes more than one kill.
pub proof fn lemma_enemies_resolved_shape(s: Seq<Entity>, n: nat)
    requires
        n <= s.len(),
    ensures
        enemies_resolved(s, n).len() == s.len(),
        forall|i: int| 0 <= i < s.len() ==> (#[trigger] enemies_resolved(s, n)[i]).id == s[i].id,
        kills_made(s, n).len() <= n,
    decreases n,
{
    if n > 0 {
        lemma_enemies_resolved_shape(s, (n - 1) as nat);
        lemma_enemy_step_keeps_shape(enemies_resolved(s, (n - 1) as nat), n - 1);
    }
}

/// The kill law. Every kill that is reported is the death of one live
/// enemy by one live bullet of the player: the live enemies and the live
/// bullets of the player are each as many fewer as there are reports. So no
/// enemy is counted twice, and no bullet kills two enemies.
pub proof fn lemma_kills_match_deaths(s: Seq<Entity>, n: nat)
    requires
        n <= s.len(),
    ensures
        live_count(enemies_resolved(s, n), Kind::Enemy) + kills_made(s, n).len() == live_count(
            s,
            Kind::Enemy,
        ),
        live_count(enemies_resolved(s, n), Kind::Bullet(Owner::Player)) + kills_made(s, n).len()
            == live_count(s, Kind::Bullet(Owner::Player)),
    decreases n,
{
    if n > 0 {
        let now = enemies_resolved(s, (n - 1) as nat);
        let b = n - 1;
        lemma_kills_match_deaths(s, (n - 1) as nat);
        lemma_enemies_resolved_shape(s, (n - 1) as nat);
        if enemy_struck_by(now, b) is Some {
            lemma_first_struck_is_struck(now, now[b].collider, Kind::Enemy);
            let t = enemy_struck_by(now, b)->0;
            let spent = now.update(b, now[b].destroyed());
            lemma_live_count_update(now, Kind::Enemy, b, now[b].destroyed());
            lemma_live_count_update(spent, Kind::Enemy, t, now[t].destroyed());
            lemma_live_count_update(now, Kind::Bullet(Owner::Player), b, now[b].destroyed());
            lemma_live_count_update(
                spent,
                Kind::Bullet(Owner::Player),
                t,
                now[t].destroyed(),
            );
        }
    }
}

/// Lets every live bullet of the player try the enemies, and adds a report of
/// each kill to `kills`.
pub fn enemy_bullet_collision(registry: &mut Registry, kills: &mut Vec<EnemyKilled>)
    ensures
        final(registry)@ == after_enemy_collisions(old(registry)@),
        final(kills)@ == old(kills)@ + kills_of_tick(old(registry)@),
        final(registry).spec_next_id() == old(registry).spec_next_id(),
        old(registry).wf() ==> final(registry).wf(),
{
    let ghost before = registry@;
    let ghost was_wf = registry.wf();
    let n = registry.len();
    let mut b: usize = 0;
    assert(kills@ =~= old(kills)@ + kills_made(before, 0));
    while b < n
        invariant
            b <= n,
            n == registry@.len(),
            n == before.len(),
            registry.spec_next_id() == old(registry).spec_next_id(),
            was_wf ==> registry.wf(),
            registry@ == enemies_resolved(before, b as nat),
            kills@ == old(kills)@ + kills_made(before, b as nat),
        decreases n - b,
    {
        let ghost now = registry@;
        let ghost made = kills@;
        proof {
            lemma_enemy_step_keeps_shape(now, b as int);
        }
        let bullet = registry.get(b);
        if bullet.is_bullet_of(Owner::Player) {
            if let Some(t) = find_struck(registry, &bullet.collider, Kind::Enemy) {
                let enemy = registry.get(t);
                if let Role::Enemy { kind, position } = enemy.role {
                    registry.put(b, bullet.destroyed());
                    registry.put(t, enemy.destroyed());
                    kills.push(EnemyKilled { position, enemy: kind });
                }
            }
        }
        assert(registry@ =~= enemy_step(now, b as int));
        assert(kills@ =~= old(kills)@ + kills_made(before, (b + 1) as nat));
        b += 1;
    }
}

/// The bullet at index `b` hits the player, whose box is `target`, while
/// `hp` hit points are left: it is a live bullet of the enemies and overlaps
/// the box, and the player is not yet beaten.
pub open spec fn player_struck_by(s: Seq<Entity>, target: Aabb, hp: u8, b: int) -> bool {
    hp > 0 && s[b].is_bullet_of(Owner::Enemy) && s[b].collider.overlaps(target)
}

/// The entities after the first `n` of them had their turn against the
/// player's box, starting with `hp` hit points.
pub open spec fn player_resolved(s: Seq<Entity>, target: Aabb, hp: u8, n: nat) -> Seq<Entity>
    decreases n,
{
    if n == 0 {
        s
    } else {
        let now = player_resolved(s, target, hp, (n - 1) as nat);
        if player_struck_by(now, target, hp_left(s, target, hp, (n - 1) as nat), n - 1) {
            now.update(n - 1, now[n - 1].destroyed())
        } else {
            now
        }
    }
}

/// The hit points left after the first `n` entities had their turn against
/// the player's box: one less for each hit.
pub open spec fn hp_left(s: Seq<Entity>, target: Aabb, hp: u8, n: nat) -> u8
    decreases n,
{
    if n == 0 {
        hp
    } else {
        let now = player_resolved(s, target, hp, (n - 1) as nat);
        let left = hp_left(s, target, hp, (n - 1) as nat);
        if player_struck_by(now, target, left, n - 1) {
            (left - 1) as u8
        } else {
            left
        }
    }
}

/// The hit-point law. Each hit takes exactly one hit point and one live
/// bullet of the enemies, and hit points never go up. While hit points are
/// left, no live bullet of the enemies that had its turn still overlaps the
/// player's box; once none is left, no later bullet is resolved.
pub proof fn lemma_hits_match_hit_points(s: Seq<Entity>, target: Aabb, hp: u8, n: nat)
    requires
        n <= s.len(),
    ensures
        player_resolved(s, target, hp, n).len() == s.len(),
        hp_left(s, target, hp, n) <= hp,
        live_count(player_resolved(s, target, hp, n), Kind::Bullet(Owner::Enemy)) + (hp - hp_left(
            s,
            target,
            hp,
            n,
        )) == live_count(s, Kind::Bullet(Owner::Enemy)),
        forall|i: int|
            n <= i < s.len() ==> (#[trigger] player_resolved(s, target, hp, n)[i]) == s[i],
        hp_left(s, target, hp, n) > 0 ==> forall|i: int|
            0 <= i < n ==> !((#[trigger] player_resolved(s, target, hp, n)[i]).is_bullet_of(
                Owner::Enemy,
            ) && player_resolved(s, target, hp, n)[i].collider.overlaps(target)),
    decreases n,
{
    if n > 0 {
        let now = player_resolved(s, target, hp, (n - 1) as nat);
        let left = hp_left(s, target, hp, (n - 1) as nat);
        let b = n - 1;
        lemma_hits_match_hit_points(s, target, hp, (n - 1) as nat);
        if player_struck_by(now, target, left, b) {
            lemma_live_count_update(now, Kind::Bullet(Owner::Enemy), b, now[b].destroyed());
        }
        let r = player_resolved(s, target, hp, n);
        if hp_left(s, target, hp, n) > 0 {
            assert forall|i: int|
                0 <= i < n implies !((#[trigger] r[i]).is_bullet_of(Owner::Enemy) &&
                r[i].collider.overlaps(target)) by {
                if i < b {
                    assert(r[i] == now[i]);
                }
            }
        }
    }
}

/// Once no hit point is left, the turns that follow change nothing: the
/// entities that had no turn before are as they were.
pub proof fn lemma_beaten_player_takes_no_hit(
    s: Seq<Entity>,
    target: Aabb,
    hp: u8,
    m: nat,
    n: nat,
)
    requires
        m <= n <= s.len(),
        hp_left(s, target, hp, m) == 0,
    ensures
        hp_left(s, target, hp, n) == 0,
        player_resolved(s, target, hp, n) == player_resolved(s, target, hp, m),
        forall|i: int|
            m <= i < s.len() ==> (#[trigger] player_resolved(s, target, hp, n)[i]) == s[i],
    decreases n - m,
{
    lemma_hits_match_hit_points(s, target, hp, m);
    if m < n {
        lemma_beaten_player_takes_no_hit(s, target, hp, m, (n - 1) as nat);
    }
}

/// The entities after the bullets of the enemies were tried on the first live
/// player. With no player nothing happens.
pub open spec fn after_player_collisions(s: Seq<Entity>, hp: u8) -> Seq<Entity> {
    match first_player(s) {
        Some(p) => player_resolved(s, s[p].collider, hp, s.len()),
        None => s,
    }
}

/// The hit points after the bullets of the enemies were tried on the first
/// live player.
pub open spec fn hp_after_player_collisions(s: Seq<Entity>, hp: u8) -> u8 {
    match first_player(s) {
        Some(p) => hp_left(s, s[p].collider, hp, s.len()),
        None => hp,
    }
}

/// Lets every live bullet of the enemies try the player. Each hit destroys
/// the bullet and takes one hit point; once none is left, no further bullet
/// is resolved.
pub fn player_bullet_collision(registry: &mut Registry, hp: &mut u8)
    ensures
        final(registry)@ == after_player_collisions(old(registry)@, *old(hp)),
        *final(hp) == hp_after_player_collisions(old(registry)@, *old(hp)),
        final(registry).spec_next_id() == old(registry).spec_next_id(),
        old(registry).wf() ==> final(registry).wf(),
{
    let ghost before = registry@;
    let ghost was_wf = registry.wf();
    if let Some(p) = registry.player() {
        let target = registry.get(p).collider;
        let n = registry.len();
        let mut b: usize = 0;
        while b < n
            invariant
                b <= n,
                n == registry@.len(),
                n == before.len(),
                registry.spec_next_id() == old(registry).spec_next_id(),
                was_wf ==> registry.wf(),
                registry@ == player_resolved(before, target, *old(hp), b as nat),
                *hp == hp_left(before, target, *old(hp), b as nat),
            decreases n - b,
        {
            let bullet = registry.get(b);
            if *hp > 0 && bullet.is_bullet_of(Owner::Enemy) && bullet.collider.intersects(&target) {
                *hp = *hp - 1;
                registry.put(b, bullet.destroyed());
            }
            b += 1;
        }
    }
}

} // verus!
