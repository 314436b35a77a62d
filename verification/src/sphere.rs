//! Spheres, still or moving in a straight line.

use vstd::prelude::*;
use crate::aabb::AABB;
use crate::hittable::Hittable;
use crate::interval::Interval;
use crate::ray::Ray;
use crate::scalar::below;
use crate::scalar::less;
use crate::scalar::not_above;
use crate::vec::Point3;
use crate::vec::Vec3;

verus! {

/// The first of the two parameters at which a ray crosses a sphere that lies
/// strictly inside `ray_t`, the nearer one first. There is none when the
/// discriminant of the quadratic is negative: the ray then misses the sphere,
/// and `near` and `far` mean nothing. A root that is not a number lies inside
/// no range.
pub open spec fn first_root(discriminant: i64, near: i64, far: i64, ray_t: Interval) -> Option<i64> {
    if below(discriminant as int, 0) {
        None
    } else if ray_t.spec_surrounds(near as int) {
        Some(near)
    } else if ray_t.spec_surrounds(far as int) {
        Some(far)
    } else {
        None
    }
}

/// A sphere whose centre moves from `center.origin` at time 0 along
/// `center.dir` to where it is at time 1.
#[derive(Debug, Clone, Copy)]
pub struct Sphere {
    center: Ray,
    radius: i64,
    material: usize,
    bbox: AABB,
}

impl Hittable for Sphere {
    closed spec fn bounds(&self) -> AABB {
        self.bbox
    }

    fn bounding_box(&self) -> (b: &AABB) {
        &self.bbox
    }
}

impl Sphere {
    /// The path of the centre.
    pub closed spec fn spec_center(&self) -> Ray {
        self.center
    }

    pub closed spec fn spec_radius(&self) -> i64 {
        self.radius
    }

    /// The index of the sphere's material in the scene's table.
    pub closed spec fn spec_material(&self) -> usize {
        self.material
    }

    /// The radius is a number and not negative.
    pub open spec fn wf(&self) -> bool {
        not_above(0, self.spec_radius() as int)
    }

    /// A sphere at rest. `low` and `high` are the corners of its bounding box:
    /// the centre moved by the radius down, and up, along every axis.
    pub fn new(center: Point3, radius: i64, material: usize, low: Point3, high: Point3) -> (s:
        Sphere)
        requires
            not_above(0, radius as int),
        ensures
            s.spec_center() == (Ray { origin: center, dir: Vec3 { x: 0, y: 0, z: 0 }, tm: 0 }),
            s.spec_radius() == radius,
            s.spec_material() == material,
            s.bounds() == AABB::spanning(low, high),
            s.wf(),
    {
        Sphere {
            center: Ray::new(center, Vec3::zero()),
            radius,
            material,
            bbox: AABB::from_points(low, high),
        }
    }

    /// A sphere that is at `center` at time 0 and has moved by `motion` at
    /// time 1. Its box is the one around the box between `low` and `high`,
    /// which bounds it at time 0, and the box between `target_low` and
    /// `target_high`, which bounds it at time 1.
    pub fn new_moving(
        center: Point3,
        motion: Vec3,
        radius: i64,
        material: usize,
        low: Point3,
        high: Point3,
        target_low: Point3,
        target_high: Point3,
    ) -> (s: Sphere)
        requires
            not_above(0, radius as int),
        ensures
            s.spec_center() == (Ray { origin: center, dir: motion, tm: 0 }),
            s.spec_radius() == radius,
            s.spec_material() == material,
            s.bounds() == AABB::union(
                AABB::spanning(low, high),
                AABB::spanning(target_low, target_high),
            ),
            s.wf(),
    {
        let box1: AABB = AABB::from_points(low, high);
        let box2: AABB = AABB::from_points(target_low, target_high);
        Sphere {
            center: Ray::new(center, motion),
            radius,
            material,
            bbox: AABB::from_boxes(&box1, &box2),
        }
    }

    pub fn center(&self) -> (c: Ray)
        ensures
            c == self.spec_center(),
    {
        self.center
    }

    pub fn radius(&self) -> (r: i64)
        ensures
            r == self.spec_radius(),
    {
        self.radius
    }

    pub fn material(&self) -> (m: usize)
        ensures
            m == self.spec_material(),
    {
        self.material
    }

    /// The parameter at which a ray hits the sphere within `ray_t`, if it does.
    /// `discriminant` is that of the quadratic in the ray's parameter, and
    /// `near <= far` are its roots where it has any. The nearer root is tried
    /// first, and the farther one only where the nearer one is out of range.
    pub fn hit(&self, discriminant: i64, near: i64, far: i64, ray_t: Interval) -> (t: Option<i64>)
        ensures
            t == first_root(discriminant, near, far, ray_t),
            t matches Some(root) ==> ray_t.spec_surrounds(root as int) && (root == near || root
                == far),
    {
        if less(discriminant, 0) {
            return None;
        }
        if ray_t.surrounds(near) {
            return Some(near);
        }
        if ray_t.surrounds(far) {
            return Some(far);
        }
        None
    }
}

} // verus!
