//! Axis-aligned bounding boxes and the slab test.

use vstd::prelude::*;
use crate::interval::Interval;
use crate::scalar::at_most;
use crate::scalar::below;
use crate::scalar::is_number;
use crate::scalar::less;
use crate::scalar::not_above;
use crate::vec::Point3;

verus! {

/// The entry and exit parameters of a ray through the slab of one axis, in
/// either order.
#[derive(Debug, Clone, Copy, PartialEq, Eq, Structural)]
pub struct Slab {
    pub t0: i64,
    pub t1: i64,
}

/// The part of `t` that lies within the slab. A parameter of the slab that
/// is not a number cuts nothing off.
pub open spec fn narrowed(t: Interval, slab: Slab) -> Interval {
    let entry = if below(slab.t0 as int, slab.t1 as int) {
        slab.t0
    } else {
        slab.t1
    };
    let exit = if below(slab.t0 as int, slab.t1 as int) {
        slab.t1
    } else {
        slab.t0
    };
    Interval {
        min: if below(t.min as int, entry as int) {
            entry
        } else {
            t.min
        },
        max: if below(exit as int, t.max as int) {
            exit
        } else {
            t.max
        },
    }
}

/// A parameter range that holds no open stretch of the ray: its upper end is
/// found to be no greater than its lower end.
pub open spec fn exhausted(t: Interval) -> bool {
    not_above(t.max as int, t.min as int)
}

/// Cuts the parameter range `t` down to the slab.
pub fn narrow(t: Interval, slab: Slab) -> (r: Interval)
    ensures
        r == narrowed(t, slab),
{
    let mut r: Interval = t;
    if less(slab.t0, slab.t1) {
        if less(r.min, slab.t0) {
            r.min = slab.t0;
        }
        if less(slab.t1, r.max) {
            r.max = slab.t1;
        }
    } else {
        if less(r.min, slab.t1) {
            r.min = slab.t1;
        }
        if less(slab.t0, r.max) {
            r.max = slab.t0;
        }
    }
    r
}

/// An axis-aligned bounding box: one range per axis.
#[derive(Debug, Clone, Copy, PartialEq, Eq, Structural)]
pub struct AABB {
    pub x: Interval,
    pub y: Interval,
    pub z: Interval,
}

impl AABB {
    /// The range on axis `n`: 0 for x, 1 for y, anything else for z.
    pub open spec fn spec_axis(&self, n: int) -> Interval {
        if n == 0 {
            self.x
        } else if n == 1 {
            self.y
        } else {
            self.z
        }
    }

    /// Every axis range is ordered.
    pub open spec fn wf(&self) -> bool {
        self.spec_axis(0).wf() && self.spec_axis(1).wf() && self.spec_axis(2).wf()
    }

    /// The box between two opposite corners.
    pub open spec fn spanning(corner: Point3, opposite: Point3) -> AABB {
        AABB {
            x: Interval::between(corner.x, opposite.x),
            y: Interval::between(corner.y, opposite.y),
            z: Interval::between(corner.z, opposite.z),
        }
    }

    /// The smallest box around `a` and `b`.
    pub open spec fn union(a: AABB, b: AABB) -> AABB {
        AABB { x: a.x.join(b.x), y: a.y.join(b.y), z: a.z.join(b.z) }
    }

    /// What the slab test can answer once the ray's parameter range has been
    /// cut down to `t` by the axes before `axis`: the slab of each further axis
    /// is asked for in turn, and the first one that exhausts the range settles
    /// the answer as a miss; the axes after it are not asked for.
    pub open spec fn slab_test<F: Fn(usize, Interval) -> Slab>(
        &self,
        slabs: F,
        t: Interval,
        axis: nat,
        hit: bool,
    ) -> bool
        decreases 3 - axis,
    {
        if axis >= 3 {
            hit
        } else {
            exists|slab: Slab| #[trigger]
                slabs.ensures((axis as usize, self.spec_axis(axis as int)), slab) && {
                    let rest = narrowed(t, slab);
                    if exhausted(rest) {
                        !hit
                    } else {
                        self.slab_test(slabs, rest, axis + 1, hit)
                    }
                }
        }
    }

    pub fn new(x: Interval, y: Interval, z: Interval) -> (b: AABB)
        ensures
            b == (AABB { x, y, z }),
    {
        AABB { x, y, z }
    }

    /// The box between two opposite corners, given in either order.
    pub fn from_points(corner: Point3, opposite: Point3) -> (b: AABB)
        ensures
            b == AABB::spanning(corner, opposite),
            is_number(corner.x as int) || is_number(opposite.x as int) ==> b.x.wf(),
            is_number(corner.y as int) || is_number(opposite.y as int) ==> b.y.wf(),
            is_number(corner.z as int) || is_number(opposite.z as int) ==> b.z.wf(),
    {
        AABB {
            x: Interval::new(corner.x, opposite.x),
            y: Interval::new(corner.y, opposite.y),
            z: Interval::new(corner.z, opposite.z),
        }
    }

    /// The range on axis `n`, for `n` in 0, 1, 2.
    pub fn axis_interval(&self, n: usize) -> (r: &Interval)
        requires
            n < 3,
        ensures
            *r == self.spec_axis(n as int),
    {
        if n == 0 {
            &self.x
        } else if n == 1 {
            &self.y
        } else {
            &self.z
        }
    }

    /// The slab test: whether a ray meets the box within the parameter range
    /// `ray_t`. `slabs(n, range)` gives the parameters at which the ray crosses
    /// the two planes that bound `range` on axis `n`.
    pub fn hit<F: Fn(usize, Interval) -> Slab>(&self, ray_t: &Interval, slabs: &F) -> (hit: bool)
        requires
            forall|n: usize| n < 3 ==> #[trigger] slabs.requires((n, self.spec_axis(n as int))),
        ensures
            self.slab_test(*slabs, *ray_t, 0, hit),
    {
        let mut t: Interval = *ray_t;
        let mut axis: usize = 0;
        while axis < 3
            invariant
                axis <= 3,
                forall|n: usize| n < 3 ==> #[trigger] slabs.requires((n, self.spec_axis(n as int))),
                forall|h: bool|
                    self.slab_test(*slabs, t, axis as nat, h) ==> #[trigger] self.slab_test(
                        *slabs,
                        *ray_t,
                        0,
                        h,
                    ),
            decreases 3 - axis,
        {
            let ax: Interval = *self.axis_interval(axis);
            let slab: Slab = slabs(axis, ax);
            let rest: Interval = narrow(t, slab);
            if at_most(rest.max, rest.min) {
                assert(self.slab_test(*slabs, t, axis as nat, false));
                return false;
            }
            assert forall|h: bool| self.slab_test(*slabs, rest, (axis + 1) as nat, h) implies self.slab_test(
                *slabs,
                t,
                axis as nat,
                h,
            ) by {}
            t = rest;
            axis = axis + 1;
        }
        assert(self.slab_test(*slabs, t, 3, true));
        true
    }

    /// The smallest box around `box1` and `box2`.
    pub fn from_boxes(box1: &AABB, box2: &AABB) -> (b: AABB)
        ensures
            b == AABB::union(*box1, *box2),
            box1.wf() && box2.wf() ==> b.wf(),
    {
        AABB {
            x: Interval::from_intervals(&box1.x, &box2.x),
            y: Interval::from_intervals(&box1.y, &box2.y),
            z: Interval::from_intervals(&box1.z, &box2.z),
        }
    }
}

/// `outer` holds `inner`: on every axis its range reaches at least as far, at
/// both ends.
pub open spec fn encloses(outer: AABB, inner: AABB) -> bool {
    forall|n: int|
        0 <= n < 3 ==> not_above(
            (#[trigger] outer.spec_axis(n)).min as int,
            inner.spec_axis(n).min as int,
        ) && not_above(inner.spec_axis(n).max as int, outer.spec_axis(n).max as int)
}

/// The box around two boxes is a box, holds both, and is the same in either
/// order.
pub proof fn lemma_union_encloses(a: AABB, b: AABB)
    requires
        a.wf(),
        b.wf(),
    ensures
        AABB::union(a, b).wf(),
        encloses(AABB::union(a, b), a),
        encloses(AABB::union(a, b), b),
        AABB::union(a, b) == AABB::union(b, a),
{
}

/// Widening a box by two others gives the same box in either order.
pub proof fn lemma_union_commutes(v: AABB, a: AABB, b: AABB)
    requires
        v.wf(),
        a.wf(),
        b.wf(),
    ensures
        AABB::union(AABB::union(v, a), b) == AABB::union(AABB::union(v, b), a),
{
}

/// The slab test gives one answer for a box: asked of the same box and range
/// twice, `slabs` being a closure that answers the same when asked the same,
/// it cannot hit once and miss once. So the test does not depend on the
/// order in which the corners of the box were given.
pub proof fn lemma_slab_test_is_settled<F: Fn(usize, Interval) -> Slab>(
    slabs: F,
    corner: Point3,
    opposite: Point3,
    t: Interval,
    axis: nat,
    one: bool,
    other: bool,
)
    requires
        forall|n: usize, range: Interval, a: Slab, b: Slab|
            #[trigger] slabs.ensures((n, range), a) && #[trigger] slabs.ensures((n, range), b) ==> a
                == b,
        AABB::spanning(corner, opposite).slab_test(slabs, t, axis, one),
        AABB::spanning(opposite, corner).slab_test(slabs, t, axis, other),
    ensures
        one == other,
    decreases 3 - axis,
{
    if axis < 3 {
        let first = AABB::spanning(corner, opposite);
        let second = AABB::spanning(opposite, corner);
        lemma_corner_order(corner, opposite);
        let a = choose|slab: Slab| #[trigger]
            slabs.ensures((axis as usize, first.spec_axis(axis as int)), slab) && {
                let rest = narrowed(t, slab);
                if exhausted(rest) {
                    !one
                } else {
                    first.slab_test(slabs, rest, axis + 1, one)
                }
            };
        let b = choose|slab: Slab| #[trigger]
            slabs.ensures((axis as usize, second.spec_axis(axis as int)), slab) && {
                let rest = narrowed(t, slab);
                if exhausted(rest) {
                    !other
                } else {
                    second.slab_test(slabs, rest, axis + 1, other)
                }
            };
        assert(a == b);
        if !exhausted(narrowed(t, a)) {
            lemma_slab_test_is_settled(slabs, corner, opposite, narrowed(t, a), axis + 1, one, other);
        }
    }
}

/// A box does not depend on the order in which its two corners are given.
pub proof fn lemma_corner_order(corner: Point3, opposite: Point3)
    ensures
        AABB::spanning(corner, opposite) == AABB::spanning(opposite, corner),
{
}

} // verus!
