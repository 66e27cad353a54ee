//! A fixed-timestep arcade shooter simulation on integer coordinates.
//!
//! A formation of enemies strafes and comes down, the player moves along the
//! bottom, both fire, shields absorb bullets, and the game is over when the
//! player has no hit point left. The crate holds the simulation only: it
//! takes the player's intent for each tick and gives back plain data to draw
//! and to play.
//!
//! Positions are counted in millionths of a world unit and time in
//! microseconds, so that a speed in world units per second multiplied by a
//! timestep in microseconds is a displacement in position units.
//!
//! `game` holds the whole state and the tick; `movement`, `firing`,
//! `formation`, `combat` and `ledger` hold its steps; `registry` holds the
//! entities; `invariants` states what every tick keeps. Two calls leave the
//! crate: `timer` runs `bevy`'s repeating timer and `random` picks with
//! `rand`.

pub mod combat;
pub mod config;
pub mod entity;
pub mod events;
pub mod firing;
pub mod formation;
pub mod game;
pub mod geometry;
pub mod input;
pub mod invariants;
pub mod ledger;
pub mod movement;
pub mod random;
pub mod registry;
pub mod setup;
pub mod state;
pub mod timer;
