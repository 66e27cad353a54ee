//! Points and axis-aligned boxes.

use vstd::prelude::*;

verus! {

/// A point or a displacement in the plane.
#[derive(Clone, Copy, Debug, PartialEq, Eq, Structural)]
pub struct Vec2 {
    pub x: i64,
    pub y: i64,
}

impl Vec2 {
    pub fn new(x: i64, y: i64) -> (v: Vec2)
        ensures
            v == (Vec2 { x, y }),
    {
        Vec2 { x, y }
    }
}

/// An axis-aligned box, given by its center and its half extent on each axis.
#[derive(Clone, Copy, Debug, PartialEq, Eq, Structural)]
pub struct Aabb {
    pub center: Vec2,
    pub half: Vec2,
}

impl Aabb {
    pub open spec fn min_x(self) -> int {
        self.center.x - self.half.x
    }

    pub open spec fn max_x(self) -> int {
        self.center.x + self.half.x
    }

    pub open spec fn min_y(self) -> int {
        self.center.y - self.half.y
    }

    pub open spec fn max_y(self) -> int {
        self.center.y + self.half.y
    }

    /// Two boxes overlap when their intervals meet on both axes. Boxes that
    /// only touch overlap.
    pub open spec fn overlaps(self, other: Aabb) -> bool {
        &&& self.min_x() <= other.max_x()
        &&& other.min_x() <= self.max_x()
        &&& self.min_y() <= other.max_y()
        &&& other.min_y() <= self.max_y()
    }

    pub fn new(center: Vec2, half: Vec2) -> (b: Aabb)
        ensures
            b == (Aabb { center, half }),
    {
        Aabb { center, half }
    }

    /// The same box moved so that its center is `center`.
    pub fn recentered(&self, center: Vec2) -> (b: Aabb)
        ensures
            b == (Aabb { center, half: self.half }),
    {
        Aabb { center, half: self.half }
    }

    /// Whether the two boxes overlap.
    pub fn intersects(&self, other: &Aabb) -> (hit: bool)
        ensures
            hit == self.overlaps(*other),
    {
        let ax: i128 = self.center.x as i128;
        let ay: i128 = self.center.y as i128;
        let ahx: i128 = self.half.x as i128;
        let ahy: i128 = self.half.y as i128;
        let bx: i128 = other.center.x as i128;
        let by: i128 = other.center.y as i128;
        let bhx: i128 = other.half.x as i128;
        let bhy: i128 = other.half.y as i128;
        ax - ahx <= bx + bhx && bx - bhx <= ax + ahx && ay - ahy <= by + bhy && by - bhy <= ay
            + ahy
    }
}

/// Overlap does not depend on the order of the two boxes.
pub proof fn lemma_overlaps_symmetric(a: Aabb, b: Aabb)
    ensures
        a.overlaps(b) == b.overlaps(a),
{
}

} // verus!
