//! Two- and three-component fixed-point vectors.

use vstd::prelude::*;
use crate::fixed::iabs;

verus! {

/// A point or direction in space; each component is a fixed-point scalar.
#[derive(Clone, Copy, PartialEq, Eq, Structural, Debug)]
pub struct Vec3Fx {
    pub x: i128,
    pub y: i128,
    pub z: i128,
}

/// A pair of fixed-point scalars (used for yaw/pitch and planar deltas).
#[derive(Clone, Copy, PartialEq, Eq, Structural, Debug)]
pub struct Vec2Fx {
    pub x: i128,
    pub y: i128,
}

impl Vec3Fx {
    /// The origin.
    pub open spec fn spec_zero() -> Vec3Fx {
        Vec3Fx { x: 0, y: 0, z: 0 }
    }

    /// Every component's magnitude is at most `b`.
    pub open spec fn bounded(self, b: int) -> bool {
        iabs(self.x as int) <= b && iabs(self.y as int) <= b && iabs(self.z as int) <= b
    }
}

impl Vec2Fx {
    /// Every component's magnitude is at most `b`.
    pub open spec fn bounded(self, b: int) -> bool {
        iabs(self.x as int) <= b && iabs(self.y as int) <= b
    }
}

} // verus!
