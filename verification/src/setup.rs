//! The entities with which a game starts.
//!
//! A game starts with the player, then the formation column by column, each
//! from its front row up, then the shields from left to right.

use crate::config::{ENEMY_COLS, ENEMY_ROWS, SHIELD_COUNT, UNIT};
use crate::entity::{Enemy, Entity, Position, Role, Transform};
use crate::formation::FrontEnemies;
use crate::geometry::Vec2;
use crate::registry::{spawned_entity, Registry};
use vstd::prelude::*;

verus! {

broadcast use vstd::std_specs::hash::group_hash_axioms;

/// The number of entities at the start.
pub open spec fn starting_count() -> int {
    1 + ENEMY_COLS * ENEMY_ROWS + SHIELD_COUNT
}

/// The player at the start.
pub open spec fn starting_player(id: u64) -> Entity {
    spawned_entity(
        id,
        Transform {
            translation: Vec2 { x: 0, y: (-250 * UNIT) as i64 },
            scale: Vec2 { x: (30 * UNIT) as i64, y: (30 * UNIT) as i64 },
        },
        Vec2 { x: (15 * UNIT) as i64, y: (15 * UNIT) as i64 },
        Role::Player,
    )
}

/// The enemy at the start in column `col` and row `row`.
pub open spec fn starting_enemy(id: u64, col: int, row: int) -> Entity {
    spawned_entity(
        id,
        Transform {
            translation: Vec2 {
                x: ((col * 50 - 250) * UNIT) as i64,
                y: ((row * 50 + 100) * UNIT) as i64,
            },
            scale: Vec2 { x: (20 * UNIT) as i64, y: (20 * UNIT) as i64 },
        },
        Vec2 { x: (10 * UNIT) as i64, y: (10 * UNIT) as i64 },
        Role::Enemy {
            kind: Enemy::Normal,
            position: Position { row: row as usize, col: col as usize },
        },
    )
}

/// The shield with number `k` from the left at the start.
pub open spec fn starting_shield(id: u64, k: int) -> Entity {
    spawned_entity(
        id,
        Transform {
            translation: Vec2 { x: ((k * 100 - 250) * UNIT) as i64, y: (-75 * UNIT) as i64 },
            scale: Vec2 { x: (30 * UNIT) as i64, y: (20 * UNIT) as i64 },
        },
        Vec2 { x: (15 * UNIT) as i64, y: (10 * UNIT) as i64 },
        Role::Shield { hits: 0 },
    )
}

/// The entity at index `i` at the start. Its identifier is its index.
pub open spec fn starting_entity(i: int) -> Entity {
    if i == 0 {
        starting_player(0)
    } else if i <= ENEMY_COLS * ENEMY_ROWS {
        starting_enemy(i as u64, (i - 1) / (ENEMY_ROWS as int), (i - 1) % (ENEMY_ROWS as int))
    } else {
        starting_shield(i as u64, i - 1 - ENEMY_COLS * ENEMY_ROWS)
    }
}

/// The entities at the start, in their order.
pub open spec fn starting_entities() -> Seq<Entity> {
    Seq::new(starting_count() as nat, |i: int| starting_entity(i))
}

/// The index at the start: every column of the formation has its front enemy
/// in row 0.
pub open spec fn starting_front() -> Map<usize, usize> {
    Map::new(|col: usize| col < ENEMY_COLS, |col: usize| 0usize)
}

/// The registry of a new game.
pub fn game_setup() -> (registry: Registry)
    ensures
        registry@ == starting_entities(),
        registry.spec_next_id() == starting_count(),
        registry.wf(),
{
    let mut registry = Registry::new();
    registry.spawn(
        Transform {
            translation: Vec2 { x: 0, y: -250 * UNIT },
            scale: Vec2 { x: 30 * UNIT, y: 30 * UNIT },
        },
        Vec2 { x: 15 * UNIT, y: 15 * UNIT },
        Role::Player,
    );
    let mut col: usize = 0;
    while col < ENEMY_COLS
        invariant
            col <= ENEMY_COLS,
            registry.wf(),
            registry@.len() == 1 + col * ENEMY_ROWS,
            registry.spec_next_id() == registry@.len(),
            forall|i: int| 0 <= i < registry@.len() ==> registry@[i] == starting_entity(i),
        decreases ENEMY_COLS - col,
    {
        let mut row: usize = 0;
        while row < ENEMY_ROWS
            invariant
                col < ENEMY_COLS,
                row <= ENEMY_ROWS,
                registry.wf(),
                registry@.len() == 1 + col * ENEMY_ROWS + row,
                registry.spec_next_id() == registry@.len(),
                forall|i: int| 0 <= i < registry@.len() ==> registry@[i] == starting_entity(i),
            decreases ENEMY_ROWS - row,
        {
            let x: i64 = (col as i64 * 50 - 250) * UNIT;
            let y: i64 = (row as i64 * 50 + 100) * UNIT;
            registry.spawn(
                Transform {
                    translation: Vec2 { x, y },
                    scale: Vec2 { x: 20 * UNIT, y: 20 * UNIT },
                },
                Vec2 { x: 10 * UNIT, y: 10 * UNIT },
                Role::Enemy { kind: Enemy::Normal, position: Position { row, col } },
            );
            row += 1;
        }
        col += 1;
    }
    let mut k: usize = 0;
    while k < SHIELD_COUNT
        invariant
            k <= SHIELD_COUNT,
            registry.wf(),
            registry@.len() == 1 + ENEMY_COLS * ENEMY_ROWS + k,
            registry.spec_next_id() == registry@.len(),
            forall|i: int| 0 <= i < registry@.len() ==> registry@[i] == starting_entity(i),
        decreases SHIELD_COUNT - k,
    {
        let x: i64 = (k as i64 * 100 - 250) * UNIT;
        registry.spawn(
            Transform {
                translation: Vec2 { x, y: -75 * UNIT },
                scale: Vec2 { x: 30 * UNIT, y: 20 * UNIT },
            },
            Vec2 { x: 15 * UNIT, y: 10 * UNIT },
            Role::Shield { hits: 0 },
        );
        k += 1;
    }
    assert(registry@ =~= starting_entities());
    registry
}

/// The index of a new game.
pub fn front_setup() -> (front: FrontEnemies)
    ensures
        front@ == starting_front(),
{
    let mut front = FrontEnemies::new();
    let mut col: usize = 0;
    while col < ENEMY_COLS
        invariant
            col <= ENEMY_COLS,
            front@ == Map::new(|c: usize| c < col, |c: usize| 0usize),
        decreases ENEMY_COLS - col,
    {
        front.0.insert(col, 0);
        assert(front@ =~= Map::new(|c: usize| c < col + 1, |c: usize| 0usize));
        col += 1;
    }
    front
}

} // verus!
