//! What the player asks for on a tick.

use vstd::prelude::*;
use vstd::std_specs::convert::FromSpecImpl;

verus! {

/// A horizontal direction, or standing still.
#[derive(Clone, Copy, Debug, PartialEq, Eq, Structural)]
pub enum Direction {
    Left,
    Right,
    Still,
}

impl Direction {
    pub open spec fn spec_flipped(self) -> Direction {
        match self {
            Direction::Left => Direction::Right,
            Direction::Right => Direction::Left,
            Direction::Still => Direction::Still,
        }
    }

    /// The opposite direction.
    #[verifier::when_used_as_spec(spec_flipped)]
    pub fn flipped(self) -> (d: Direction)
        ensures
            d == self.spec_flipped(),
    {
        match self {
            Direction::Left => Direction::Right,
            Direction::Right => Direction::Left,
            Direction::Still => Direction::Still,
        }
    }

    /// Turns round.
    pub fn flip(&mut self)
        ensures
            *final(self) == old(self).spec_flipped(),
    {
        *self = self.flipped();
    }

    /// -1 for left, 1 for right, 0 for standing still.
    pub open spec fn sign(self) -> int {
        match self {
            Direction::Left => -1,
            Direction::Right => 1,
            Direction::Still => 0,
        }
    }

    /// The direction that two keys ask for together: the one that is held
    /// alone, and standing still when both or neither are held.
    pub open spec fn spec_from_keys(left: bool, right: bool) -> Direction {
        if left && !right {
            Direction::Left
        } else if right && !left {
            Direction::Right
        } else {
            Direction::Still
        }
    }

    #[verifier::when_used_as_spec(spec_from_keys)]
    pub fn from_keys(left: bool, right: bool) -> (d: Direction)
        ensures
            d == Direction::spec_from_keys(left, right),
    {
        match (left, right) {
            (true, false) => Direction::Left,
            (false, true) => Direction::Right,
            _ => Direction::Still,
        }
    }
}

impl Default for Direction {
    fn default() -> (d: Direction)
        ensures
            d == Direction::Still,
    {
        Direction::Still
    }
}

impl From<Direction> for i64 {
    fn from(direction: Direction) -> (sign: i64) {
        match direction {
            Direction::Left => -1,
            Direction::Right => 1,
            Direction::Still => 0,
        }
    }
}

impl FromSpecImpl<Direction> for i64 {
    open spec fn obeys_from_spec() -> bool {
        true
    }

    open spec fn from_spec(direction: Direction) -> i64 {
        direction.sign() as i64
    }
}

/// Turning round twice gives the direction back.
pub proof fn lemma_flipped_twice(d: Direction)
    ensures
        d.flipped().flipped() == d,
        d.flipped().sign() == -d.sign(),
{
}

/// The player's intent for one tick.
#[derive(Clone, Copy, Debug, PartialEq, Eq, Structural)]
pub struct InputState {
    pub player_direction: Direction,
    pub player_fire: bool,
}

impl Default for InputState {
    fn default() -> (input: InputState)
        ensures
            input == (InputState { player_direction: Direction::Still, player_fire: false }),
    {
        InputState { player_direction: Direction::Still, player_fire: false }
    }
}

} // verus!
