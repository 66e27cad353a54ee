//! What every tick of the running game keeps.

use crate::combat::{
    after_player_collisions, after_shield_collisions, enemies_resolved, enemy_step,
    enemy_struck_by, first_struck, kill_report, kills_made, lemma_enemies_resolved_shape,
    lemma_first_struck_is_struck, lemma_hits_match_hit_points, lemma_kills_match_deaths,
    lemma_shields_resolved_shape, lemma_shields_stay_in_order, player_resolved, shield_step,
    shields_can_count, shields_in_order, shields_resolved,
};
use crate::config::{ENEMY_COLS, LEFT_WALL, RIGHT_WALL, SHIELD_STRENGTH};
use crate::entity::{Entity, Kind, Position, Role};
use crate::events::EnemyKilled;
use crate::formation::{
    column_empty, front_agrees, front_row_of, in_column, is_front_row, killed_in_column,
    lemma_front_row_exists, lemma_front_row_unique, lemma_front_rows_after_kills, vacant,
};
use crate::game::{
    after_intent, at_start, begun, entity_within_limits, fought, in_menu, kills_in,
    lemma_limits_finish, lemma_limits_volley, player_done, settled, ticked, volleyed,
    within_limits, GameView,
};
use crate::geometry::Aabb;
use crate::input::InputState;
use crate::ledger::lemma_total_points;
use crate::movement::{
    after_bullet_movement, after_player_movement, formation_in_field,
    lemma_formation_stays_in_field, lemma_player_movement_frame,
};
use crate::registry::{
    first_player, lemma_first_player_is_player, lemma_live_count_live_only,
    lemma_live_count_push, lemma_live_count_same, lemma_live_only, live_count, live_only,
};
use crate::setup::{starting_entities, starting_entity};
use crate::state::{GameState, Intent};
use vstd::prelude::*;

verus! {

/// What became of an entity is a live enemy only if the entity was one, and
/// then it has the same role and stands where it stood.
pub open spec fn enemy_from(a: Entity, b: Entity) -> bool {
    b.is_enemy() ==> a.is_enemy() && b.role == a.role && b.transform == a.transform
}

/// Place by place, the live enemies of `r` come from those of `s`.
pub open spec fn enemies_from(s: Seq<Entity>, r: Seq<Entity>) -> bool {
    &&& r.len() == s.len()
    &&& forall|i: int| 0 <= i < s.len() ==> enemy_from(s[i], #[trigger] r[i])
}

/// An entity and what became of it are live enemies together, and then
/// they have the same role and stand in the same place.
pub open spec fn enemy_kept(a: Entity, b: Entity) -> bool {
    &&& b.is_enemy() == a.is_enemy()
    &&& a.is_enemy() ==> b.role == a.role && b.transform == a.transform
}

/// Place by place, `r` has the live enemies of `s` and no others.
pub open spec fn enemies_kept(s: Seq<Entity>, r: Seq<Entity>) -> bool {
    &&& r.len() == s.len()
    &&& forall|i: int| 0 <= i < s.len() ==> enemy_kept(s[i], #[trigger] r[i])
}

proof fn lemma_player_movement_keeps_enemies(s: Seq<Entity>, input: InputState, dt_us: u32)
    ensures
        enemies_kept(s, after_player_movement(s, input.player_direction, dt_us)),
{
    lemma_player_movement_frame(s, input.player_direction, dt_us);
    let r = after_player_movement(s, input.player_direction, dt_us);
    if first_player(s) is Some {
        lemma_first_player_is_player(s);
    }
    assert forall|i: int| 0 <= i < s.len() implies enemy_kept(s[i], #[trigger] r[i]) by {
        if first_player(s) != Some(i) {
            assert(r[i] == s[i]);
        }
    }
}

proof fn lemma_shields_keep_enemies(s: Seq<Entity>, n: nat)
    requires
        n <= s.len(),
    ensures
        enemies_kept(s, shields_resolved(s, n)),
    decreases n,
{
    if n > 0 {
        let now = shields_resolved(s, (n - 1) as nat);
        let b = n - 1;
        lemma_shields_keep_enemies(s, (n - 1) as nat);
        let r = shield_step(now, b);
        if now[b].is_bullet() && first_struck(now, now[b].collider, Kind::Shield) is Some {
            lemma_first_struck_is_struck(now, now[b].collider, Kind::Shield);
        }
        assert forall|i: int| 0 <= i < s.len() implies enemy_kept(s[i], #[trigger] r[i]) by {
            assert(enemy_kept(s[i], now[i]));
        }
    }
}

proof fn lemma_enemy_hits_leave_enemies(s: Seq<Entity>, n: nat)
    requires
        n <= s.len(),
    ensures
        enemies_from(s, enemies_resolved(s, n)),
    decreases n,
{
    if n > 0 {
        let now = enemies_resolved(s, (n - 1) as nat);
        let b = n - 1;
        lemma_enemy_hits_leave_enemies(s, (n - 1) as nat);
        let r = enemy_step(now, b);
        if enemy_struck_by(now, b) is Some {
            lemma_first_struck_is_struck(now, now[b].collider, Kind::Enemy);
        }
        assert forall|i: int| 0 <= i < s.len() implies enemy_from(s[i], #[trigger] r[i]) by {
            assert(enemy_from(s[i], now[i]));
        }
    }
}

proof fn lemma_player_hits_keep_enemies(s: Seq<Entity>, target: Aabb, hp: u8, n: nat)
    requires
        n <= s.len(),
    ensures
        enemies_kept(s, player_resolved(s, target, hp, n)),
    decreases n,
{
    if n > 0 {
        let now = player_resolved(s, target, hp, (n - 1) as nat);
        lemma_player_hits_keep_enemies(s, target, hp, (n - 1) as nat);
        let r = player_resolved(s, target, hp, n);
        assert forall|i: int| 0 <= i < s.len() implies enemy_kept(s[i], #[trigger] r[i]) by {
            assert(enemy_kept(s[i], now[i]));
        }
    }
}

proof fn lemma_player_collisions_keep_enemies(s: Seq<Entity>, hp: u8)
    ensures
        enemies_kept(s, after_player_collisions(s, hp)),
{
    if first_player(s) is Some {
        lemma_first_player_is_player(s);
        lemma_player_hits_keep_enemies(s, s[first_player(s)->0].collider, hp, s.len());
    }
}

proof fn lemma_field_carried(s: Seq<Entity>, r: Seq<Entity>)
    requires
        formation_in_field(s),
        enemies_from(s, r),
    ensures
        formation_in_field(r),
{
    assert forall|i: int|
        0 <= i < r.len() && (#[trigger] r[i]).is_enemy() implies
        LEFT_WALL <= r[i].transform.translation.x <= RIGHT_WALL by {
        assert(enemy_from(s[i], r[i]));
        assert(s[i].is_enemy());
    }
}

proof fn lemma_field_kept(s: Seq<Entity>, r: Seq<Entity>)
    requires
        formation_in_field(s),
        enemies_kept(s, r),
    ensures
        formation_in_field(r),
{
    assert forall|i: int|
        0 <= i < r.len() && (#[trigger] r[i]).is_enemy() implies
        LEFT_WALL <= r[i].transform.translation.x <= RIGHT_WALL by {
        assert(enemy_kept(s[i], r[i]));
        assert(s[i].is_enemy());
    }
}

proof fn lemma_field_pushed(s: Seq<Entity>, e: Entity)
    requires
        formation_in_field(s),
        !e.is_enemy(),
    ensures
        formation_in_field(s.push(e)),
{
    let r = s.push(e);
    assert forall|i: int|
        0 <= i < r.len() && (#[trigger] r[i]).is_enemy() implies
        LEFT_WALL <= r[i].transform.translation.x <= RIGHT_WALL by {
        assert(r[i] == s[i]);
        assert(s[i].is_enemy());
    }
}

/// The formation law, for a whole tick. If every live enemy stands between
/// the side walls before a tick, every live enemy stands between them after
/// it, whatever the player does and whoever fires.
pub proof fn lemma_tick_keeps_formation_in_field(
    v: GameView,
    input: InputState,
    dt_us: u32,
    shooter: Option<usize>,
)
    requires
        formation_in_field(v.entities),
    ensures
        formation_in_field(ticked(v, input, dt_us, shooter).entities),
{
    let s0 = v.entities;
    let s1 = after_player_movement(s0, input.player_direction, dt_us);
    let s2 = player_done(v, input, dt_us);
    let b = begun(v, input, dt_us);
    let s3 = b.entities;
    let w = volleyed(b, dt_us, shooter);
    let s4 = w.entities;
    let s5 = after_bullet_movement(s4, dt_us);
    let s6 = settled(w, dt_us);
    let s7 = after_shield_collisions(s6);
    let s8 = fought(w, dt_us);
    let s9 = after_player_collisions(s8, w.hp);
    let out = ticked(v, input, dt_us, shooter).entities;
    lemma_player_movement_keeps_enemies(s0, input, dt_us);
    lemma_field_kept(s0, s1);
    if s2 != s1 {
        assert(s2 =~= s1.push(s2.last()));
        lemma_field_pushed(s1, s2.last());
    }
    lemma_formation_stays_in_field(s2, v.direction, dt_us);
    if s4 != s3 {
        assert(s4 =~= s3.push(s4.last()));
        lemma_field_pushed(s3, s4.last());
    }
    assert(enemies_kept(s4, s5));
    lemma_field_kept(s4, s5);
    assert(enemies_kept(s5, s6));
    lemma_field_kept(s5, s6);
    lemma_shields_keep_enemies(s6, s6.len());
    lemma_field_kept(s6, s7);
    lemma_enemy_hits_leave_enemies(s7, s7.len());
    lemma_field_carried(s7, s8);
    lemma_player_collisions_keep_enemies(s8, w.hp);
    lemma_field_kept(s8, s9);
    lemma_live_only(s9);
    assert forall|i: int|
        0 <= i < out.len() && (#[trigger] out[i]).is_enemy() implies
        LEFT_WALL <= out[i].transform.translation.x <= RIGHT_WALL by {
        assert(s9.contains(live_only(s9)[i]));
        let j = choose|j: int| 0 <= j < s9.len() && s9[j] == out[i];
        assert(s9[j].is_enemy());
    }
}

/// Whether a position is taken by a live enemy is the same in `s` and `r`,
/// for every position of column `col`.
pub open spec fn same_places_in_column(s: Seq<Entity>, r: Seq<Entity>, col: usize) -> bool {
    forall|p: Position| p.col == col ==> #[trigger] vacant(s, p) == vacant(r, p)
}

/// Whether a position is taken by a live enemy is the same in `s` and `r`.
pub open spec fn same_places(s: Seq<Entity>, r: Seq<Entity>) -> bool {
    forall|p: Position| #[trigger] vacant(s, p) == vacant(r, p)
}

/// No two live enemies stand at the same position.
pub open spec fn positions_unique(s: Seq<Entity>) -> bool {
    forall|i: int, j: int|
        0 <= i < j < s.len() && (#[trigger] s[i]).is_enemy() && (#[trigger] s[j]).is_enemy()
            ==> s[i].role->position != s[j].role->position
}

proof fn lemma_taken(s: Seq<Entity>, i: int)
    requires
        0 <= i < s.len(),
        s[i].is_enemy(),
    ensures
        !vacant(s, s[i].role->position),
{
}

proof fn lemma_front_row_carries(
    s: Seq<Entity>,
    r: Seq<Entity>,
    col: usize,
    excluded: Option<usize>,
    row: usize,
)
    requires
        same_places_in_column(s, r, col),
        is_front_row(s, col, excluded, row),
    ensures
        is_front_row(r, col, excluded, row),
{
    let i = choose|i: int|
        0 <= i < s.len() && in_column(#[trigger] s[i], col, excluded) && s[i].role->position.row
            == row;
    let p = s[i].role->position;
    lemma_taken(s, i);
    assert(vacant(s, p) == vacant(r, p));
    let j = choose|j: int| 0 <= j < r.len() && (#[trigger] r[j]).is_enemy()
        && r[j].role->position == p;
    assert(in_column(r[j], col, excluded) && r[j].role->position.row == row);
    assert forall|k: int|
        0 <= k < r.len() && in_column(#[trigger] r[k], col, excluded) implies
        row <= r[k].role->position.row by {
        let q = r[k].role->position;
        lemma_taken(r, k);
        assert(vacant(s, q) == vacant(r, q));
        let m = choose|m: int|
            0 <= m < s.len() && (#[trigger] s[m]).is_enemy() && s[m].role->position == q;
        assert(in_column(s[m], col, excluded));
    }
}

/// The front row of a column depends only on which of the column's
/// positions are taken.
pub proof fn lemma_front_row_by_places(
    s: Seq<Entity>,
    r: Seq<Entity>,
    col: usize,
    excluded: Option<usize>,
)
    requires
        same_places_in_column(s, r, col),
    ensures
        front_row_of(s, col, excluded) == front_row_of(r, col, excluded),
{
    assert(same_places_in_column(r, s, col)) by {
        assert forall|p: Position| p.col == col implies #[trigger] vacant(r, p) == vacant(s, p) by {
            assert(vacant(s, p) == vacant(r, p));
        }
    }
    if !column_empty(s, col, excluded) {
        lemma_front_row_exists(s, col, excluded);
        let row = front_row_of(s, col, excluded)->0;
        lemma_front_row_carries(s, r, col, excluded, row);
        lemma_front_row_unique(r, col, excluded, row);
    } else if !column_empty(r, col, excluded) {
        lemma_front_row_exists(r, col, excluded);
        let row = front_row_of(r, col, excluded)->0;
        lemma_front_row_carries(r, s, col, excluded, row);
        lemma_front_row_unique(s, col, excluded, row);
    }
}

/// Place by place, `r` has live enemies where `s` has them, with the same
/// roles.
pub open spec fn formation_kept(s: Seq<Entity>, r: Seq<Entity>) -> bool {
    &&& r.len() == s.len()
    &&& forall|i: int|
        0 <= i < s.len() ==> (#[trigger] r[i]).is_enemy() == s[i].is_enemy() && (s[i].is_enemy()
            ==> r[i].role == s[i].role)
}

proof fn lemma_formation_kept(s: Seq<Entity>, r: Seq<Entity>)
    requires
        formation_kept(s, r),
    ensures
        same_places(s, r),
        positions_unique(s) ==> positions_unique(r),
{
    assert forall|p: Position| #[trigger] vacant(s, p) == vacant(r, p) by {
        if !vacant(s, p) {
            let i = choose|i: int|
                0 <= i < s.len() && (#[trigger] s[i]).is_enemy() && s[i].role->position == p;
            assert(r[i].is_enemy());
        }
        if !vacant(r, p) {
            let i = choose|i: int|
                0 <= i < r.len() && (#[trigger] r[i]).is_enemy() && r[i].role->position == p;
            assert(s[i].is_enemy());
        }
    }
    if positions_unique(s) {
        assert forall|i: int, j: int|
            0 <= i < j < r.len() && (#[trigger] r[i]).is_enemy() && (#[trigger] r[j]).is_enemy()
            implies r[i].role->position != r[j].role->position by {
            assert(s[i].is_enemy() && s[j].is_enemy());
        }
    }
}

proof fn lemma_pushed_bullet(s: Seq<Entity>, e: Entity)
    requires
        !e.is_enemy(),
    ensures
        same_places(s, s.push(e)),
        positions_unique(s) ==> positions_unique(s.push(e)),
{
    let r = s.push(e);
    assert forall|p: Position| #[trigger] vacant(s, p) == vacant(r, p) by {
        if !vacant(s, p) {
            let i = choose|i: int|
                0 <= i < s.len() && (#[trigger] s[i]).is_enemy() && s[i].role->position == p;
            assert(r[i] == s[i]);
        }
        if !vacant(r, p) {
            let i = choose|i: int|
                0 <= i < r.len() && (#[trigger] r[i]).is_enemy() && r[i].role->position == p;
            assert(r[i] == s[i]);
        }
    }
    if positions_unique(s) {
        assert forall|i: int, j: int|
            0 <= i < j < r.len() && (#[trigger] r[i]).is_enemy() && (#[trigger] r[j]).is_enemy()
            implies r[i].role->position != r[j].role->position by {
            assert(r[i] == s[i] && r[j] == s[j]);
        }
    }
}

proof fn lemma_same_places_chain(a: Seq<Entity>, b: Seq<Entity>, c: Seq<Entity>)
    requires
        same_places(a, b),
        same_places(b, c),
    ensures
        same_places(a, c),
{
    assert forall|p: Position| #[trigger] vacant(a, p) == vacant(c, p) by {
        assert(vacant(a, p) == vacant(b, p));
        assert(vacant(b, p) == vacant(c, p));
    }
}

proof fn lemma_live_only_places(s: Seq<Entity>)
    ensures
        same_places(s, live_only(s)),
        positions_unique(s) ==> positions_unique(live_only(s)),
    decreases s.len(),
{
    reveal(Seq::filter);
    let out = live_only(s);
    lemma_live_only(s);
    assert forall|p: Position| #[trigger] vacant(s, p) == vacant(out, p) by {
        if !vacant(s, p) {
            let i = choose|i: int|
                0 <= i < s.len() && (#[trigger] s[i]).is_enemy() && s[i].role->position == p;
            assert(out.contains(s[i]));
            let j = choose|j: int| 0 <= j < out.len() && out[j] == s[i];
            assert(out[j].is_enemy());
        }
        if !vacant(out, p) {
            let i = choose|i: int|
                0 <= i < out.len() && (#[trigger] out[i]).is_enemy() && out[i].role->position == p;
            assert(s.contains(out[i]));
            let j = choose|j: int| 0 <= j < s.len() && s[j] == out[i];
            assert(s[j].is_enemy());
        }
    }
    if positions_unique(s) && s.len() > 0 {
        let rest = s.drop_last();
        let kept = live_only(rest);
        assert(positions_unique(rest)) by {
            assert forall|i: int, j: int|
                0 <= i < j < rest.len() && (#[trigger] rest[i]).is_enemy() && (#[trigger]
                rest[j]).is_enemy() implies rest[i].role->position != rest[j].role->position by {
                assert(s[i].is_enemy() && s[j].is_enemy());
            }
        }
        lemma_live_only_places(rest);
        lemma_live_only(rest);
        assert forall|i: int, j: int|
            0 <= i < j < out.len() && (#[trigger] out[i]).is_enemy() && (#[trigger]
            out[j]).is_enemy() implies out[i].role->position != out[j].role->position by {
            if j < kept.len() {
                assert(out[i] == kept[i] && out[j] == kept[j]);
            } else {
                assert(out[i] == kept[i]);
                assert(rest.contains(kept[i]));
                let m = choose|m: int| 0 <= m < rest.len() && rest[m] == kept[i];
                assert(s[m].is_enemy() && s[s.len() - 1].is_enemy());
            }
        }
    }
}

/// What became of an entity is the entity itself, or the entity destroyed.
pub open spec fn kept_or_destroyed(a: Entity, b: Entity) -> bool {
    b == a || (a.alive && b == a.destroyed())
}

/// The live enemy at index `i` of `s` is destroyed in `r`.
pub open spec fn fell(s: Seq<Entity>, r: Seq<Entity>, i: int) -> bool {
    0 <= i < s.len() && s[i].is_enemy() && !r[i].alive
}

/// A kill at position `p` is among the reports.
pub open spec fn reported(kills: Seq<EnemyKilled>, p: Position) -> bool {
    exists|k: int| 0 <= k < kills.len() && (#[trigger] kills[k]).position == p
}

/// A live enemy of `s` at position `p` is destroyed in `r`.
pub open spec fn fallen_at(s: Seq<Entity>, r: Seq<Entity>, p: Position) -> bool {
    exists|i: int| #[trigger] fell(s, r, i) && s[i].role->position == p
}

/// The kills that are reported are the enemies that were destroyed: every
/// entity is kept or destroyed, every destroyed enemy is reported, and every
/// report is of a destroyed enemy.
pub proof fn lemma_reports_are_deaths(s: Seq<Entity>, n: nat)
    requires
        n <= s.len(),
    ensures
        enemies_resolved(s, n).len() == s.len(),
        forall|i: int|
            0 <= i < s.len() ==> kept_or_destroyed(s[i], #[trigger] enemies_resolved(s, n)[i]),
        forall|i: int| #[trigger]
            fell(s, enemies_resolved(s, n), i) ==> reported(kills_made(s, n), s[i].role->position),
        forall|k: int|
            0 <= k < kills_made(s, n).len() ==> fallen_at(
                s,
                enemies_resolved(s, n),
                (#[trigger] kills_made(s, n)[k]).position,
            ),
    decreases n,
{
    if n > 0 {
        let now = enemies_resolved(s, (n - 1) as nat);
        let made = kills_made(s, (n - 1) as nat);
        let b = n - 1;
        lemma_reports_are_deaths(s, (n - 1) as nat);
        let r = enemies_resolved(s, n);
        let kills = kills_made(s, n);
        assert(r == enemy_step(now, b));
        if enemy_struck_by(now, b) is Some {
            lemma_first_struck_is_struck(now, now[b].collider, Kind::Enemy);
            let t = enemy_struck_by(now, b)->0;
            assert(kept_or_destroyed(s[t], now[t]));
            assert(kept_or_destroyed(s[b], now[b]));
            assert(kills == made.push(kill_report(now[t])));
            assert forall|i: int|
                0 <= i < s.len() implies kept_or_destroyed(s[i], #[trigger] r[i]) by {
                assert(kept_or_destroyed(s[i], now[i]));
            }
            assert forall|i: int|
                #[trigger] fell(s, r, i) implies reported(kills, s[i].role->position) by {
                if i == t {
                    assert(kills[kills.len() - 1].position == s[i].role->position);
                } else {
                    assert(kept_or_destroyed(s[i], now[i]));
                    assert(fell(s, now, i));
                    let k = choose|k: int|
                        0 <= k < made.len() && (#[trigger] made[k]).position
                            == s[i].role->position;
                    assert(kills[k] == made[k]);
                }
            }
            assert forall|k: int|
                0 <= k < kills.len() implies fallen_at(s, r, (#[trigger] kills[k]).position) by {
                if k < made.len() {
                    assert(kills[k] == made[k]);
                    let i = choose|i: int| #[trigger]
                        fell(s, now, i) && s[i].role->position == made[k].position;
                    assert(fell(s, r, i));
                } else {
                    assert(fell(s, r, t));
                }
            }
        } else {
            assert forall|i: int|
                #[trigger] fell(s, r, i) implies reported(kills, s[i].role->position) by {
                assert(fell(s, now, i));
            }
            assert forall|k: int|
                0 <= k < kills.len() implies fallen_at(s, r, (#[trigger] kills[k]).position) by {
                let i = choose|i: int| #[trigger]
                    fell(s, now, i) && s[i].role->position == made[k].position;
                assert(fell(s, r, i));
            }
        }
    }
}

/// The front-row index is in step with the entities: no two live enemies
/// stand at the same position, no live enemy stands where a kill of the
/// last tick fell, and about every column in which no kill of the last tick
/// fell the index is right.
pub open spec fn front_in_step(v: GameView) -> bool {
    &&& positions_unique(v.entities)
    &&& forall|k: int|
        0 <= k < v.kills.len() ==> vacant(v.entities, (#[trigger] v.kills[k]).position)
    &&& forall|col: usize|
        !killed_in_column(v.kills, col) ==> #[trigger] front_agrees(v.front, v.entities, col)
}

proof fn lemma_places_until_settled(
    v: GameView,
    input: InputState,
    dt_us: u32,
    shooter: Option<usize>,
)
    ensures
        same_places(v.entities, settled(volleyed(begun(v, input, dt_us), dt_us, shooter), dt_us)),
        positions_unique(v.entities) ==> positions_unique(
            settled(volleyed(begun(v, input, dt_us), dt_us, shooter), dt_us),
        ),
{
    let s0 = v.entities;
    let s1 = after_player_movement(s0, input.player_direction, dt_us);
    let s2 = player_done(v, input, dt_us);
    let b = begun(v, input, dt_us);
    let s3 = b.entities;
    let w = volleyed(b, dt_us, shooter);
    let s4 = w.entities;
    let s5 = after_bullet_movement(s4, dt_us);
    let s6 = settled(w, dt_us);
    lemma_player_movement_keeps_enemies(s0, input, dt_us);
    assert(formation_kept(s0, s1));
    lemma_formation_kept(s0, s1);
    if s2 != s1 {
        lemma_pushed_bullet(s1, s2.last());
        assert(s2 =~= s1.push(s2.last()));
    }
    lemma_same_places_chain(s0, s1, s2);
    assert(formation_kept(s2, s3));
    lemma_formation_kept(s2, s3);
    lemma_same_places_chain(s0, s2, s3);
    if s4 != s3 {
        lemma_pushed_bullet(s3, s4.last());
        assert(s4 =~= s3.push(s4.last()));
    }
    lemma_same_places_chain(s0, s3, s4);
    assert(formation_kept(s4, s5));
    lemma_formation_kept(s4, s5);
    lemma_same_places_chain(s0, s4, s5);
    assert(formation_kept(s5, s6));
    lemma_formation_kept(s5, s6);
    lemma_same_places_chain(s0, s5, s6);
}

/// The front-row law, for a whole tick. If the index is in step with the
/// entities before a tick, it is in step with them after it, as long as the
/// game is not over: one tick after a kill the index holds the lowest row of
/// the live enemies of the column, and for a column in which no kill has
/// fallen since, it keeps holding it.
pub proof fn lemma_tick_keeps_front_in_step(
    v: GameView,
    input: InputState,
    dt_us: u32,
    shooter: Option<usize>,
)
    requires
        front_in_step(v),
    ensures
        ticked(v, input, dt_us, shooter).state == v.state ==> front_in_step(
            ticked(v, input, dt_us, shooter),
        ),
{
    let t = ticked(v, input, dt_us, shooter);
    if t.state == v.state {
        let s0 = v.entities;
        let w = volleyed(begun(v, input, dt_us), dt_us, shooter);
        let s6 = settled(w, dt_us);
        let s7 = after_shield_collisions(s6);
        let s8 = fought(w, dt_us);
        let s9 = after_player_collisions(s8, w.hp);
        let out = t.entities;
        let kills = kills_in(w, dt_us);
        let front = t.front;
        assert(out == live_only(s9));
        lemma_places_until_settled(v, input, dt_us, shooter);
        lemma_shields_keep_enemies(s6, s6.len());
        assert(formation_kept(s6, s7));
        lemma_formation_kept(s6, s7);
        lemma_reports_are_deaths(s7, s7.len());
        lemma_player_collisions_keep_enemies(s8, w.hp);
        assert(formation_kept(s8, s9));
        lemma_formation_kept(s8, s9);
        lemma_live_only_places(s9);
        lemma_same_places_chain(s8, s9, out);
        assert(positions_unique(s8)) by {
            assert forall|i: int, j: int|
                0 <= i < j < s8.len() && (#[trigger] s8[i]).is_enemy() && (#[trigger]
                s8[j]).is_enemy() implies s8[i].role->position != s8[j].role->position by {
                assert(kept_or_destroyed(s7[i], s8[i]));
                assert(kept_or_destroyed(s7[j], s8[j]));
                assert(s7[i].is_enemy() && s7[j].is_enemy());
            }
        }
        // The index is right about every column once the bullets have moved.
        assert forall|k: int|
            0 <= k < v.kills.len() implies vacant(s6, (#[trigger] v.kills[k]).position) by {
            assert(vacant(s0, v.kills[k].position) == vacant(s6, v.kills[k].position));
        }
        assert forall|col: usize| #[trigger] front_agrees(front, s6, col) by {
            lemma_front_rows_after_kills(v.front, s6, v.kills, col);
            if !killed_in_column(v.kills, col) {
                assert(front_agrees(v.front, s0, col));
                assert(same_places_in_column(s0, s6, col)) by {
                    assert forall|p: Position|
                        p.col == col implies #[trigger] vacant(s0, p) == vacant(s6, p) by {}
                }
                lemma_front_row_by_places(s0, s6, col, None);
            }
        }
        // Where a kill of this tick fell, nobody stands.
        assert forall|k: int|
            0 <= k < kills.len() implies vacant(out, (#[trigger] kills[k]).position) by {
            let p = kills[k].position;
            let i = choose|i: int| #[trigger] fell(s7, s8, i) && s7[i].role->position == p;
            assert(vacant(s8, p) == vacant(out, p));
            if !vacant(s8, p) {
                let j = choose|j: int|
                    0 <= j < s8.len() && (#[trigger] s8[j]).is_enemy() && s8[j].role->position == p;
                assert(kept_or_destroyed(s7[j], s8[j]));
                assert(s7[j].is_enemy() && s7[i].is_enemy());
            }
        }
        // A column without a kill of this tick has its enemies as before.
        assert forall|col: usize|
            !killed_in_column(kills, col) implies #[trigger] front_agrees(front, out, col) by {
            assert(front_agrees(front, s6, col));
            assert(same_places_in_column(s6, out, col)) by {
                assert forall|p: Position|
                    p.col == col implies #[trigger] vacant(s6, p) == vacant(out, p) by {
                    assert(vacant(s6, p) == vacant(s7, p));
                    assert(vacant(s8, p) == vacant(out, p));
                    if !vacant(s7, p) {
                        let i = choose|i: int|
                            0 <= i < s7.len() && (#[trigger] s7[i]).is_enemy()
                                && s7[i].role->position == p;
                        assert(kept_or_destroyed(s7[i], s8[i]));
                        if !s8[i].alive {
                            assert(fell(s7, s8, i));
                            assert(reported(kills, p));
                            let k = choose|k: int|
                                0 <= k < kills.len() && (#[trigger] kills[k]).position == p;
                            assert(kills[k].position.col == col);
                        }
                        assert(s8[i].is_enemy());
                    }
                    if !vacant(s8, p) {
                        let j = choose|j: int|
                            0 <= j < s8.len() && (#[trigger] s8[j]).is_enemy()
                                && s8[j].role->position == p;
                        assert(kept_or_destroyed(s7[j], s8[j]));
                        assert(s7[j].is_enemy());
                    }
                }
            }
            lemma_front_row_by_places(s6, out, col, None);
        }
    }
}

/// The shield `b` was a shield with the same identifier, and no more hits,
/// among the entities `s`.
pub open spec fn shield_traces_back(s: Seq<Entity>, b: Entity) -> bool {
    exists|j: int|
        0 <= j < s.len() && (#[trigger] s[j]).role is Shield && s[j].id == b.id && s[j].role->hits
            <= b.role->hits
}

/// Every shield among `r` was a shield among `s`, with no more hits.
pub open spec fn shields_trace_back(s: Seq<Entity>, r: Seq<Entity>) -> bool {
    forall|i: int|
        0 <= i < r.len() && (#[trigger] r[i]).role is Shield ==> shield_traces_back(s, r[i])
}

/// Place by place, `r` has the shields of `s`, as they were.
pub open spec fn shields_kept(s: Seq<Entity>, r: Seq<Entity>) -> bool {
    &&& r.len() == s.len()
    &&& forall|i: int|
        0 <= i < s.len() && (#[trigger] r[i]).role is Shield ==> s[i].role is Shield && r[i].role
            == s[i].role && r[i].alive == s[i].alive && r[i].id == s[i].id
}

proof fn lemma_shields_carried(origin: Seq<Entity>, s: Seq<Entity>, r: Seq<Entity>)
    requires
        shields_trace_back(origin, s),
        shields_in_order(s),
        shields_kept(s, r),
    ensures
        shields_trace_back(origin, r),
        shields_in_order(r),
{
    assert forall|i: int|
        0 <= i < r.len() && (#[trigger] r[i]).role is Shield implies
        shield_traces_back(origin, r[i]) by {
        assert(s[i].role is Shield);
        let j = choose|j: int|
            0 <= j < origin.len() && (#[trigger] origin[j]).role is Shield && origin[j].id
                == s[i].id && origin[j].role->hits <= s[i].role->hits;
        assert(origin[j].role is Shield);
    }
    assert forall|i: int|
        0 <= i < r.len() && (#[trigger] r[i]).role is Shield implies
        (r[i].alive <==> r[i].role->hits < SHIELD_STRENGTH) by {
        assert(s[i].role is Shield);
    }
}

proof fn lemma_shields_pushed(origin: Seq<Entity>, s: Seq<Entity>, e: Entity)
    requires
        shields_trace_back(origin, s),
        shields_in_order(s),
        !(e.role is Shield),
    ensures
        shields_trace_back(origin, s.push(e)),
        shields_in_order(s.push(e)),
{
    let r = s.push(e);
    assert forall|i: int|
        0 <= i < r.len() && (#[trigger] r[i]).role is Shield implies shield_traces_back(origin,
        r[i]) && (r[i].alive <==> r[i].role->hits < SHIELD_STRENGTH) by {
        assert(r[i] == s[i]);
        assert(s[i].role is Shield);
    }
}

proof fn lemma_player_hits_keep_shields(s: Seq<Entity>, target: Aabb, hp: u8, n: nat)
    requires
        n <= s.len(),
    ensures
        shields_kept(s, player_resolved(s, target, hp, n)),
    decreases n,
{
    if n > 0 {
        let now = player_resolved(s, target, hp, (n - 1) as nat);
        lemma_player_hits_keep_shields(s, target, hp, (n - 1) as nat);
        let r = player_resolved(s, target, hp, n);
        assert forall|i: int|
            0 <= i < s.len() && (#[trigger] r[i]).role is Shield implies s[i].role is Shield &&
            r[i].role == s[i].role && r[i].alive == s[i].alive && r[i].id == s[i].id by {
            assert(now[i].role is Shield);
        }
    }
}

/// The shield law, for a whole tick. If every shield is alive exactly as
/// long as its hits are below its strength, the same holds after a tick.
/// Every shield that is there after the tick was there before it, under the
/// same identifier and with no more hits than it has now; and it is alive,
/// so its hits are below its strength: a shield whose hits have reached its
/// strength is gone.
pub proof fn lemma_tick_keeps_shields_in_order(
    v: GameView,
    input: InputState,
    dt_us: u32,
    shooter: Option<usize>,
)
    requires
        shields_in_order(v.entities),
    ensures
        shields_in_order(ticked(v, input, dt_us, shooter).entities),
        shields_trace_back(v.entities, ticked(v, input, dt_us, shooter).entities),
        forall|i: int|
            0 <= i < ticked(v, input, dt_us, shooter).entities.len() ==> (#[trigger] ticked(
                v,
                input,
                dt_us,
                shooter,
            ).entities[i]).alive,
{
    let s0 = v.entities;
    let s1 = after_player_movement(s0, input.player_direction, dt_us);
    let s2 = player_done(v, input, dt_us);
    let b = begun(v, input, dt_us);
    let s3 = b.entities;
    let w = volleyed(b, dt_us, shooter);
    let s4 = w.entities;
    let s5 = after_bullet_movement(s4, dt_us);
    let s6 = settled(w, dt_us);
    let s7 = after_shield_collisions(s6);
    let s8 = fought(w, dt_us);
    let s9 = after_player_collisions(s8, w.hp);
    let out = ticked(v, input, dt_us, shooter).entities;
    assert(shields_trace_back(s0, s0)) by {
        assert forall|i: int|
            0 <= i < s0.len() && (#[trigger] s0[i]).role is Shield implies
            shield_traces_back(s0, s0[i]) by {
            assert(s0[i].role is Shield && s0[i].id == s0[i].id);
        }
    }
    lemma_player_movement_frame(s0, input.player_direction, dt_us);
    if first_player(s0) is Some {
        lemma_first_player_is_player(s0);
    }
    assert(shields_kept(s0, s1)) by {
        assert forall|i: int|
            0 <= i < s0.len() && (#[trigger] s1[i]).role is Shield implies s0[i].role is Shield &&
            s1[i].role == s0[i].role && s1[i].alive == s0[i].alive && s1[i].id == s0[i].id by {
            if first_player(s0) != Some(i) {
                assert(s1[i] == s0[i]);
            }
        }
    }
    lemma_shields_carried(s0, s0, s1);
    if s2 != s1 {
        assert(s2 =~= s1.push(s2.last()));
        lemma_shields_pushed(s0, s1, s2.last());
    }
    assert(shields_kept(s2, s3));
    lemma_shields_carried(s0, s2, s3);
    if s4 != s3 {
        assert(s4 =~= s3.push(s4.last()));
        lemma_shields_pushed(s0, s3, s4.last());
    }
    assert(shields_kept(s4, s5));
    lemma_shields_carried(s0, s4, s5);
    assert(shields_kept(s5, s6));
    lemma_shields_carried(s0, s5, s6);
    lemma_shields_stay_in_order(s6, s6.len());
    assert(shields_can_count(s6)) by {
        assert forall|i: int|
            0 <= i < s6.len() && (#[trigger] s6[i]).is_shield() implies
            s6[i].role->hits < u32::MAX by {
            assert(s6[i].role is Shield);
        }
    }
    lemma_shields_resolved_shape(s6, s6.len());
    assert(shields_trace_back(s0, s7)) by {
        assert forall|i: int|
            0 <= i < s7.len() && (#[trigger] s7[i]).role is Shield implies
            shield_traces_back(s0, s7[i]) by {
            assert(s6[i].role is Shield);
            let j = choose|j: int|
                0 <= j < s0.len() && (#[trigger] s0[j]).role is Shield && s0[j].id == s6[i].id
                    && s0[j].role->hits <= s6[i].role->hits;
            assert(s0[j].role is Shield);
        }
    }
    lemma_reports_are_deaths(s7, s7.len());
    assert(shields_kept(s7, s8)) by {
        assert forall|i: int|
            0 <= i < s7.len() && (#[trigger] s8[i]).role is Shield implies s7[i].role is Shield &&
            s8[i].role == s7[i].role && s8[i].alive == s7[i].alive && s8[i].id == s7[i].id by {
            assert(kept_or_destroyed(s7[i], s8[i]));
            lemma_enemy_hits_spare_shields(s7, s7.len(), i);
        }
    }
    lemma_shields_carried(s0, s7, s8);
    if first_player(s8) is Some {
        lemma_first_player_is_player(s8);
        lemma_player_hits_keep_shields(s8, s8[first_player(s8)->0].collider, w.hp, s8.len());
    }
    assert(shields_kept(s8, s9));
    lemma_shields_carried(s0, s8, s9);
    lemma_live_only(s9);
    assert forall|i: int|
        0 <= i < out.len() implies (#[trigger] out[i]).alive && (out[i].role is Shield ==>
        shield_traces_back(s0, out[i]) && out[i].role->hits < SHIELD_STRENGTH) by {
        assert(s9.contains(live_only(s9)[i]));
        let j = choose|j: int| 0 <= j < s9.len() && s9[j] == out[i];
        if out[i].role is Shield {
            assert(s9[j].role is Shield);
        }
    }
}

proof fn lemma_enemy_hits_spare_shields(s: Seq<Entity>, n: nat, i: int)
    requires
        n <= s.len(),
        0 <= i < s.len(),
        s[i].role is Shield,
    ensures
        enemies_resolved(s, n)[i] == s[i],
    decreases n,
{
    if n > 0 {
        let now = enemies_resolved(s, (n - 1) as nat);
        let b = n - 1;
        lemma_enemy_hits_spare_shields(s, (n - 1) as nat, i);
        lemma_enemies_resolved_shape(s, (n - 1) as nat);
        if enemy_struck_by(now, b) is Some {
            lemma_first_struck_is_struck(now, now[b].collider, Kind::Enemy);
        }
    }
}

/// The entity `b` is what became of the entity `a`: it has the same
/// identifier, the same size and the same half extent of its collider, it
/// has the same role, but that a shield may have taken hits, and it is not
/// alive unless `a` was.
pub open spec fn same_entity(a: Entity, b: Entity) -> bool {
    &&& b.id == a.id
    &&& b.transform.scale == a.transform.scale
    &&& b.collider.half == a.collider.half
    &&& match a.role {
        Role::Shield { hits } => b.role is Shield && hits <= b.role->hits,
        _ => b.role == a.role,
    }
    &&& b.alive ==> a.alive
}

/// Place by place, the entities of `r` are what became of those of `s`.
pub open spec fn same_entities(s: Seq<Entity>, r: Seq<Entity>) -> bool {
    &&& r.len() == s.len()
    &&& forall|i: int| 0 <= i < s.len() ==> same_entity(s[i], #[trigger] r[i])
}

/// The entity `b` was among the entities `s`.
pub open spec fn was_among(s: Seq<Entity>, b: Entity) -> bool {
    exists|j: int| 0 <= j < s.len() && same_entity(#[trigger] s[j], b)
}

/// The entity `b` is a bullet that was fired after `next_id` had been
/// reached.
pub open spec fn fired_since(next_id: u64, b: Entity) -> bool {
    b.role is Bullet && next_id <= b.id
}

/// Every entity of `r` was among `s` or is a bullet fired since.
pub open spec fn entities_trace_back(s: Seq<Entity>, next_id: u64, r: Seq<Entity>) -> bool {
    forall|i: int| 0 <= i < r.len() ==> was_among(s, #[trigger] r[i]) || fired_since(next_id, r[i])
}

proof fn lemma_entities_carried(
    origin: Seq<Entity>,
    next_id: u64,
    s: Seq<Entity>,
    r: Seq<Entity>,
)
    requires
        entities_trace_back(origin, next_id, s),
        same_entities(s, r),
    ensures
        entities_trace_back(origin, next_id, r),
{
    assert forall|i: int|
        0 <= i < r.len() implies
        was_among(origin, #[trigger] r[i]) || fired_since(next_id, r[i]) by {
        assert(same_entity(s[i], r[i]));
        assert(was_among(origin, s[i]) || fired_since(next_id, s[i]));
        if was_among(origin, s[i]) {
            let j = choose|j: int| 0 <= j < origin.len() && same_entity(#[trigger] origin[j], s[i]);
            assert(same_entity(origin[j], r[i]));
        }
    }
}

proof fn lemma_entities_pushed(origin: Seq<Entity>, next_id: u64, s: Seq<Entity>, e: Entity)
    requires
        entities_trace_back(origin, next_id, s),
        fired_since(next_id, e),
    ensures
        entities_trace_back(origin, next_id, s.push(e)),
{
    let r = s.push(e);
    assert forall|i: int|
        0 <= i < r.len() implies
        was_among(origin, #[trigger] r[i]) || fired_since(next_id, r[i]) by {
        if i < s.len() {
            assert(r[i] == s[i]);
        }
    }
}

proof fn lemma_shields_keep_entities(s: Seq<Entity>, n: nat)
    requires
        n <= s.len(),
        shields_can_count(s),
    ensures
        same_entities(s, shields_resolved(s, n)),
    decreases n,
{
    if n > 0 {
        let now = shields_resolved(s, (n - 1) as nat);
        let b = n - 1;
        lemma_shields_keep_entities(s, (n - 1) as nat);
        lemma_shields_resolved_shape(s, (n - 1) as nat);
        let r = shield_step(now, b);
        if now[b].is_bullet() && first_struck(now, now[b].collider, Kind::Shield) is Some {
            lemma_first_struck_is_struck(now, now[b].collider, Kind::Shield);
        }
        assert forall|i: int| 0 <= i < s.len() implies same_entity(s[i], #[trigger] r[i]) by {
            assert(same_entity(s[i], now[i]));
        }
    }
}

proof fn lemma_player_hits_keep_entities(s: Seq<Entity>, target: Aabb, hp: u8, n: nat)
    requires
        n <= s.len(),
    ensures
        same_entities(s, player_resolved(s, target, hp, n)),
    decreases n,
{
    if n > 0 {
        let now = player_resolved(s, target, hp, (n - 1) as nat);
        lemma_player_hits_keep_entities(s, target, hp, (n - 1) as nat);
        let r = player_resolved(s, target, hp, n);
        assert forall|i: int| 0 <= i < s.len() implies same_entity(s[i], #[trigger] r[i]) by {
            assert(same_entity(s[i], now[i]));
        }
    }
}

/// The law of lasting entities, for a whole tick of a game within its
/// limits. Every entity that is there after the tick is a bullet fired on
/// this tick, or was there before it: then it has kept its identifier, its
/// size, the half extent of its collider and its role, so an enemy its
/// place in the formation, but that a shield may have taken hits.
pub proof fn lemma_tick_keeps_entities(
    v: GameView,
    input: InputState,
    dt_us: u32,
    shooter: Option<usize>,
)
    requires
        within_limits(v),
    ensures
        entities_trace_back(v.entities, v.next_id, ticked(v, input, dt_us, shooter).entities),
{
    let s0 = v.entities;
    let s1 = after_player_movement(s0, input.player_direction, dt_us);
    let s2 = player_done(v, input, dt_us);
    let b = begun(v, input, dt_us);
    let s3 = b.entities;
    let w = volleyed(b, dt_us, shooter);
    let s4 = w.entities;
    let s5 = after_bullet_movement(s4, dt_us);
    let s6 = settled(w, dt_us);
    let s7 = after_shield_collisions(s6);
    let s8 = fought(w, dt_us);
    let s9 = after_player_collisions(s8, w.hp);
    let out = ticked(v, input, dt_us, shooter).entities;
    let id = v.next_id;
    assert(entities_trace_back(s0, id, s0)) by {
        assert forall|i: int| 0 <= i < s0.len() implies was_among(s0, #[trigger] s0[i]) by {
            assert(same_entity(s0[i], s0[i]));
        }
    }
    lemma_player_movement_frame(s0, input.player_direction, dt_us);
    if first_player(s0) is Some {
        lemma_first_player_is_player(s0);
    }
    assert(same_entities(s0, s1)) by {
        assert forall|i: int| 0 <= i < s0.len() implies same_entity(s0[i], #[trigger] s1[i]) by {
            if first_player(s0) != Some(i) {
                assert(s1[i] == s0[i]);
            }
        }
    }
    lemma_entities_carried(s0, id, s0, s1);
    if s2 != s1 {
        assert(s2 =~= s1.push(s2.last()));
        lemma_entities_pushed(s0, id, s1, s2.last());
    }
    assert(same_entities(s2, s3));
    lemma_entities_carried(s0, id, s2, s3);
    if s4 != s3 {
        assert(s4 =~= s3.push(s4.last()));
        lemma_entities_pushed(s0, id, s3, s4.last());
    }
    assert(same_entities(s4, s5));
    lemma_entities_carried(s0, id, s4, s5);
    assert(same_entities(s5, s6));
    lemma_entities_carried(s0, id, s5, s6);
    lemma_limits_finish(v, input, dt_us, shooter);
    assert(shields_can_count(s6)) by {
        assert forall|i: int|
            0 <= i < s6.len() && (#[trigger] s6[i]).is_shield() implies
            s6[i].role->hits < u32::MAX by {
            assert(s5[i].is_shield());
            assert(s4[i].is_shield());
        }
    }
    lemma_shields_keep_entities(s6, s6.len());
    lemma_entities_carried(s0, id, s6, s7);
    lemma_reports_are_deaths(s7, s7.len());
    assert(same_entities(s7, s8)) by {
        assert forall|i: int| 0 <= i < s7.len() implies same_entity(s7[i], #[trigger] s8[i]) by {
            assert(kept_or_destroyed(s7[i], s8[i]));
        }
    }
    lemma_entities_carried(s0, id, s7, s8);
    if first_player(s8) is Some {
        lemma_first_player_is_player(s8);
        lemma_player_hits_keep_entities(s8, s8[first_player(s8)->0].collider, w.hp, s8.len());
    }
    assert(same_entities(s8, s9));
    lemma_entities_carried(s0, id, s8, s9);
    lemma_live_only(s9);
    assert forall|i: int|
        0 <= i < out.len() implies was_among(s0, #[trigger] out[i]) || fired_since(id, out[i]) by {
        assert(s9.contains(live_only(s9)[i]));
        let j = choose|j: int| 0 <= j < s9.len() && s9[j] == out[i];
        assert(was_among(s0, s9[j]) || fired_since(id, s9[j]));
    }
}

proof fn lemma_enemies_counted(s: Seq<Entity>, r: Seq<Entity>)
    requires
        formation_kept(s, r),
    ensures
        live_count(r, Kind::Enemy) == live_count(s, Kind::Enemy),
{
    lemma_live_count_same(s, r, Kind::Enemy);
}

/// The book-keeping law, for a whole tick of the running game within its
/// limits. The score goes up by ten for each kill of the tick and by
/// nothing else, and while the game runs on, each kill of the tick is one
/// live enemy less. The hit points do not go up. The game is over after the
/// tick exactly if no hit point is left, and then every entity is gone;
/// otherwise the game runs on.
pub proof fn lemma_tick_keeps_the_books(
    v: GameView,
    input: InputState,
    dt_us: u32,
    shooter: Option<usize>,
)
    requires
        v.state == GameState::Running,
        within_limits(v),
    ensures
        ticked(v, input, dt_us, shooter).score == v.score + 10 * ticked(
            v,
            input,
            dt_us,
            shooter,
        ).kills.len(),
        ticked(v, input, dt_us, shooter).hp <= v.hp,
        ticked(v, input, dt_us, shooter).hp == 0 ==> ticked(v, input, dt_us, shooter).state
            == GameState::GameOver && ticked(v, input, dt_us, shooter).entities.len() == 0,
        ticked(v, input, dt_us, shooter).hp > 0 ==> ticked(v, input, dt_us, shooter).state
            == GameState::Running,
        ticked(v, input, dt_us, shooter).hp > 0 ==> live_count(
            ticked(v, input, dt_us, shooter).entities,
            Kind::Enemy,
        ) + ticked(v, input, dt_us, shooter).kills.len() == live_count(v.entities, Kind::Enemy),
{
    let s0 = v.entities;
    let s1 = after_player_movement(s0, input.player_direction, dt_us);
    let s2 = player_done(v, input, dt_us);
    let s3 = begun(v, input, dt_us).entities;
    let w = volleyed(begun(v, input, dt_us), dt_us, shooter);
    let s4 = w.entities;
    let s5 = after_bullet_movement(s4, dt_us);
    let s6 = settled(w, dt_us);
    let s7 = after_shield_collisions(s6);
    let s8 = fought(w, dt_us);
    let s9 = after_player_collisions(s8, w.hp);
    lemma_player_movement_keeps_enemies(s0, input, dt_us);
    assert(formation_kept(s0, s1));
    lemma_enemies_counted(s0, s1);
    if s2 != s1 {
        assert(s2 =~= s1.push(s2.last()));
        lemma_live_count_push(s1, s2.last(), Kind::Enemy);
    }
    assert(formation_kept(s2, s3));
    lemma_enemies_counted(s2, s3);
    if s4 != s3 {
        assert(s4 =~= s3.push(s4.last()));
        lemma_live_count_push(s3, s4.last(), Kind::Enemy);
    }
    assert(formation_kept(s4, s5));
    lemma_enemies_counted(s4, s5);
    assert(formation_kept(s5, s6));
    lemma_enemies_counted(s5, s6);
    lemma_shields_keep_enemies(s6, s6.len());
    assert(formation_kept(s6, s7));
    lemma_enemies_counted(s6, s7);
    lemma_kills_match_deaths(s7, s7.len());
    lemma_player_collisions_keep_enemies(s8, w.hp);
    assert(formation_kept(s8, s9));
    lemma_enemies_counted(s8, s9);
    lemma_live_count_live_only(s9, Kind::Enemy);
    lemma_limits_finish(v, input, dt_us, shooter);
    lemma_limits_volley(v, input, dt_us);
    lemma_shields_resolved_shape(s6, s6.len());
    lemma_enemies_resolved_shape(s7, s7.len());
    lemma_total_points(kills_in(w, dt_us));
    if first_player(s8) is Some {
        lemma_first_player_is_player(s8);
        lemma_hits_match_hit_points(s8, s8[first_player(s8)->0].collider, w.hp, s8.len());
    }
}

/// A game starts with its formation between the side walls, its shields
/// untouched and its front-row index in step.
pub proof fn lemma_start_is_in_order()
    ensures
        formation_in_field(at_start().entities),
        shields_in_order(at_start().entities),
        front_in_step(at_start()),
        within_limits(at_start()),
{
    let s = starting_entities();
    assert forall|i: int| 0 <= i < s.len() implies s[i] == starting_entity(i) by {}
    assert forall|col: usize| #[trigger] front_agrees(at_start().front, s, col) by {
        if col < ENEMY_COLS {
            let i = 1 + col * 15;
            assert(s[i] == starting_entity(i));
            assert(in_column(s[i], col, None) && s[i].role->position.row == 0);
            assert(is_front_row(s, col, None, 0));
            lemma_front_row_unique(s, col, None, 0);
        } else {
            assert forall|i: int|
                0 <= i < s.len() implies !in_column(#[trigger] s[i], col, None) by {
                assert(s[i] == starting_entity(i));
            }
        }
    }
    assert(positions_unique(s)) by {
        assert forall|i: int, j: int|
            0 <= i < j < s.len() && (#[trigger] s[i]).is_enemy() && (#[trigger] s[j]).is_enemy()
            implies s[i].role->position != s[j].role->position by {
            assert(s[i] == starting_entity(i) && s[j] == starting_entity(j));
        }
    }
    assert forall|i: int| 0 <= i < s.len() implies entity_within_limits(#[trigger] s[i]) by {
        assert(s[i] == starting_entity(i));
    }
}

/// The game is in order: its formation stands between the side walls, its
/// shields are alive exactly as long as their hits are below their
/// strength, and while it runs its front-row index is in step.
pub open spec fn in_order(v: GameView) -> bool {
    &&& formation_in_field(v.entities)
    &&& shields_in_order(v.entities)
    &&& v.state == GameState::Running ==> front_in_step(v)
}

/// A game in its menu is in order.
pub proof fn lemma_menu_is_in_order()
    ensures
        in_order(in_menu()),
{
}

/// An intent of the player leaves a game in order.
pub proof fn lemma_intent_keeps_order(v: GameView, intent: Intent)
    requires
        in_order(v),
    ensures
        in_order(after_intent(v, intent)),
{
    lemma_start_is_in_order();
}

/// A tick leaves a running game in order.
pub proof fn lemma_tick_keeps_order(
    v: GameView,
    input: InputState,
    dt_us: u32,
    shooter: Option<usize>,
)
    requires
        in_order(v),
        v.state == GameState::Running,
    ensures
        in_order(ticked(v, input, dt_us, shooter)),
{
    lemma_tick_keeps_formation_in_field(v, input, dt_us, shooter);
    lemma_tick_keeps_shields_in_order(v, input, dt_us, shooter);
    lemma_tick_keeps_front_in_step(v, input, dt_us, shooter);
}

} // verus!
