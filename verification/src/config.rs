//! The fixed numbers of the game.
//!
//! Lengths are in position units, a millionth of a world unit each. Speeds
//! are in world units per second, which is position units per microsecond.

use vstd::prelude::*;

verus! {

/// Position units in one world unit.
pub const UNIT: i64 = 1_000_000;

/// The speed of the player.
pub const PLAYER_SPEED: i64 = 500;

/// The speed of the player's bullets, upwards.
pub const PLAYER_BULLET_SPEED: i64 = 800;

/// The speed of the enemies' bullets, downwards.
pub const ENEMY_BULLET_SPEED: i64 = 500;

/// The speed of the formation to the side.
pub const ENEMY_SPEED: i64 = 120;

/// How far the formation drops when it turns round.
pub const ENEMY_DROP: i64 = 20_000_000;

/// The walls of the field. The player and the formation stay between the
/// side walls; a bullet is gone beyond the bottom or the top wall.
pub const LEFT_WALL: i64 = -400_000_000;

pub const RIGHT_WALL: i64 = 400_000_000;

pub const BOTTOM_WALL: i64 = -300_000_000;

pub const TOP_WALL: i64 = 300_000_000;

/// Microseconds between two shots of the player.
pub const PLAYER_FIRE_PERIOD: u32 = 100_000;

/// Microseconds between two shots of the formation.
pub const ENEMY_FIRE_PERIOD: u32 = 250_000;

/// The hit points with which the player starts.
pub const STARTING_HP: u8 = 5;

/// The number of bullets that a shield absorbs before it is gone.
pub const SHIELD_STRENGTH: u32 = 5;

/// The rows and columns of the formation, and the number of shields, at
/// the start.
pub const ENEMY_ROWS: usize = 15;

pub const ENEMY_COLS: usize = 10;

pub const SHIELD_COUNT: usize = 5;

/// How far from its shooter, towards its target, a bullet appears.
pub const MUZZLE_OFFSET: i64 = 15_000_000;

/// The side of the square that a bullet is drawn as.
pub const BULLET_SIZE: i64 = 5_000_000;

/// The half extent of a bullet's box.
pub const BULLET_HALF: i64 = 2_500_000;

} // verus!
