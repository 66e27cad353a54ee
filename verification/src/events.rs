//! What the simulation reports to those who keep its books.

use crate::entity::{Enemy, Position};
use vstd::prelude::*;

verus! {

/// An enemy was killed: where it stood in the formation, and of what kind it
/// was.
#[derive(Clone, Copy, Debug, PartialEq, Eq, Structural)]
pub struct EnemyKilled {
    pub position: Position,
    pub enemy: Enemy,
}

} // verus!
