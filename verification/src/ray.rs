//! Rays.

use vstd::prelude::*;
use crate::vec::Point3;
use crate::vec::Vec3;

verus! {

/// A ray: the points `origin + t * dir`, seen at the time `tm` in `[0, 1]`.
#[derive(Debug, Clone, Copy, PartialEq, Eq, Structural)]
pub struct Ray {
    pub origin: Point3,
    pub dir: Vec3,
    pub tm: i64,
}

impl Ray {
    /// A ray at time 0.
    pub fn new(origin: Point3, dir: Vec3) -> (r: Ray)
        ensures
            r == (Ray { origin, dir, tm: 0 }),
    {
        Ray { origin, dir, tm: 0 }
    }

    /// A ray at the time `tm`.
    pub fn new_time(origin: Point3, dir: Vec3, tm: i64) -> (r: Ray)
        ensures
            r == (Ray { origin, dir, tm }),
    {
        Ray { origin, dir, tm }
    }
}

} // verus!
