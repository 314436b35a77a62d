//! Triples of scalars: points, directions and colours.

use vstd::prelude::*;
use crate::scalar::at_most;
use crate::scalar::below;
use crate::scalar::is_code;
use crate::scalar::less;
use crate::scalar::not_above;
use crate::scalar::ONE;

verus! {

/// The code of 1e-8: a component below it in absolute value counts as zero.
pub const NEAR_ZERO: i64 = 0x3E45_798E_E230_8C3A;

/// The code of 1e-169: a squared length at or below it is too short to
/// normalise.
pub const SHORTEST_SQUARED_LENGTH: i64 = 0x1CD8_2742_91C6_065B;

/// Three scalars, each held as its order code.
#[derive(Debug, Clone, Copy, PartialEq, Eq, Structural)]
pub struct Vec3 {
    pub x: i64,
    pub y: i64,
    pub z: i64,
}

/// A position.
pub type Point3 = Vec3;

/// A colour: red, green, blue.
pub type Color3 = Vec3;

impl Vec3 {
    /// Every component is a code.
    pub open spec fn wf(&self) -> bool {
        is_code(self.x as int) && is_code(self.y as int) && is_code(self.z as int)
    }

    /// The component on axis `n`: 0 for x, 1 for y, anything else for z.
    pub open spec fn spec_axis(&self, n: int) -> i64 {
        if n == 0 {
            self.x
        } else if n == 1 {
            self.y
        } else {
            self.z
        }
    }

    /// Every component is a number strictly between `-NEAR_ZERO` and
    /// `NEAR_ZERO`.
    pub open spec fn spec_near_zero(&self) -> bool {
        &&& below(-NEAR_ZERO as int, self.x as int) && below(self.x as int, NEAR_ZERO as int)
        &&& below(-NEAR_ZERO as int, self.y as int) && below(self.y as int, NEAR_ZERO as int)
        &&& below(-NEAR_ZERO as int, self.z as int) && below(self.z as int, NEAR_ZERO as int)
    }

    pub fn new(x: i64, y: i64, z: i64) -> (v: Vec3)
        ensures
            v == (Vec3 { x, y, z }),
    {
        Vec3 { x, y, z }
    }

    /// The origin, and the colour black.
    pub fn zero() -> (v: Vec3)
        ensures
            v == (Vec3 { x: 0, y: 0, z: 0 }),
    {
        Vec3 { x: 0, y: 0, z: 0 }
    }

    /// The component on axis `n`, for `n` in 0, 1, 2.
    pub fn axis(&self, n: usize) -> (c: i64)
        requires
            n < 3,
        ensures
            c == self.spec_axis(n as int),
    {
        if n == 0 {
            self.x
        } else if n == 1 {
            self.y
        } else {
            self.z
        }
    }

    /// Whether the vector is too short to serve as a direction.
    pub fn near_zero(&self) -> (b: bool)
        ensures
            b == self.spec_near_zero(),
    {
        less(-NEAR_ZERO, self.x) && less(self.x, NEAR_ZERO) && less(-NEAR_ZERO, self.y) && less(
            self.y,
            NEAR_ZERO,
        ) && less(-NEAR_ZERO, self.z) && less(self.z, NEAR_ZERO)
    }

    /// The opposite vector.
    pub fn negate(&self) -> (v: Vec3)
        requires
            self.wf(),
        ensures
            v.x == -self.x,
            v.y == -self.y,
            v.z == -self.z,
            v.wf(),
    {
        Vec3 { x: -self.x, y: -self.y, z: -self.z }
    }

    /// Whether a point drawn from the cube `[-1, 1]^3` with squared length
    /// `squared_length` is kept as the seed of a uniform unit vector: it is if
    /// it lies in the unit ball and is long enough to normalise.
    pub fn accepts_unit_sample(squared_length: i64) -> (b: bool)
        ensures
            b == (below(SHORTEST_SQUARED_LENGTH as int, squared_length as int) && not_above(
                squared_length as int,
                ONE as int,
            )),
    {
        less(SHORTEST_SQUARED_LENGTH, squared_length) && at_most(squared_length, ONE)
    }

    /// Whether a point drawn from the square `[-1, 1]^2` with squared length
    /// `squared_length` is kept as a sample of the unit disk.
    pub fn accepts_disk_sample(squared_length: i64) -> (b: bool)
        ensures
            b == below(squared_length as int, ONE as int),
    {
        less(squared_length, ONE)
    }
}

} // verus!
