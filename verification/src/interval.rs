//! Closed ranges of scalars.

use vstd::prelude::*;
use crate::scalar::below;
use crate::scalar::greater;
use crate::scalar::is_number;
use crate::scalar::less;
use crate::scalar::lesser;
use crate::scalar::max;
use crate::scalar::min;
use crate::scalar::not_above;

verus! {

/// A closed range `[min, max]` of scalar codes.
///
/// A range built by [`Interval::new`] from at least one number is ordered.
/// The fields are public, so a range with `max < min`, or with a bound that
/// is not a number, can be written down; it contains nothing.
#[derive(Debug, Clone, Copy, PartialEq, Eq, Structural)]
pub struct Interval {
    pub min: i64,
    pub max: i64,
}

impl Interval {
    /// Both bounds are numbers, and `min <= max`.
    pub open spec fn wf(&self) -> bool {
        not_above(self.min as int, self.max as int)
    }

    /// `x` lies strictly between the bounds.
    pub open spec fn spec_surrounds(&self, x: int) -> bool {
        below(self.min as int, x) && below(x, self.max as int)
    }

    /// `x` lies between the bounds, which are included.
    pub open spec fn contains(&self, x: int) -> bool {
        not_above(self.min as int, x) && not_above(x, self.max as int)
    }

    /// `x` raised to at least `min`, then lowered to at most `max`. What is
    /// not a number is passed over: in place of such an `x` stands `min`.
    pub open spec fn spec_clamp(&self, x: int) -> int {
        lesser(greater(x, self.min as int), self.max as int)
    }

    /// The range between `a` and `b`, whichever is the smaller. Where just
    /// one of them is a number, both bounds are that number.
    pub open spec fn between(a: i64, b: i64) -> Interval {
        Interval { min: lesser(a as int, b as int) as i64, max: greater(a as int, b as int) as i64 }
    }

    /// The smallest range that holds both `self` and `other`, where all four
    /// bounds are numbers. A bound of `self` is kept only where it is found
    /// to reach farther than that of `other`.
    pub open spec fn join(self, other: Interval) -> Interval {
        Interval {
            min: if below(self.min as int, other.min as int) {
                self.min
            } else {
                other.min
            },
            max: if below(other.max as int, self.max as int) {
                self.max
            } else {
                other.max
            },
        }
    }

    /// The range between two bounds given in either order.
    pub fn new(a: i64, b: i64) -> (r: Interval)
        ensures
            r == Interval::between(a, b),
            is_number(a as int) || is_number(b as int) ==> r.wf(),
    {
        Interval { min: min(a, b), max: max(a, b) }
    }

    /// The smallest range that holds both `i1` and `i2`.
    pub fn from_intervals(i1: &Interval, i2: &Interval) -> (r: Interval)
        ensures
            r == i1.join(*i2),
            i1.wf() && i2.wf() ==> r.wf(),
    {
        let min: i64 = if less(i1.min, i2.min) {
            i1.min
        } else {
            i2.min
        };
        let max: i64 = if less(i2.max, i1.max) {
            i1.max
        } else {
            i2.max
        };
        Interval { min, max }
    }

    /// Whether `x` lies strictly inside the range.
    pub fn surrounds(&self, x: i64) -> (b: bool)
        ensures
            b == self.spec_surrounds(x as int),
    {
        less(self.min, x) && less(x, self.max)
    }

    /// The point of the range nearest to `x`.
    pub fn clamp(&self, x: i64) -> (r: i64)
        ensures
            r == self.spec_clamp(x as int),
            self.wf() ==> self.contains(r as int),
            self.contains(x as int) ==> r == x,
    {
        min(max(x, self.min), self.max)
    }
}

/// The union of two ordered ranges is ordered and holds every point of both.
pub proof fn lemma_union_covers(i1: Interval, i2: Interval, x: int)
    requires
        i1.wf(),
        i2.wf(),
    ensures
        i1.join(i2).wf(),
        i1.contains(x) || i2.contains(x) ==> i1.join(i2).contains(x),
{
}

} // verus!
