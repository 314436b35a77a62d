//! The bounding volume hierarchy: a binary tree of boxes over the objects of
//! a scene, built once and then asked for the nearest hit of each ray.

use vstd::prelude::*;
use vstd::multiset::group_multiset_axioms;
use vstd::multiset::group_multiset_properties;
use vstd::seq_lib::lemma_multiset_commutative;
use vstd::seq_lib::to_multiset_contains;
use vstd::seq_lib::to_multiset_update;
use crate::aabb::Slab;
use crate::aabb::AABB;
use crate::hittable::closer;
use crate::hittable::lemma_bounds_of_rearranged;
use crate::hittable::HitRecord;
use crate::hittable::Hittable;
use crate::hittable::HittableList;
use crate::hittable::Primitive;
use crate::interval::Interval;
use crate::scalar::below;
use crate::scalar::is_number;
use crate::utils::random_u64;

verus! {

/// The lower bound of an object's box on an axis: objects are ordered by its
/// code.
pub open spec fn axis_min(p: Primitive, axis: int) -> i64 {
    p.bbox.spec_axis(axis).min
}

/// `s` is in ascending order of lower bound on `axis`.
pub open spec fn sorted_on(s: Seq<Primitive>, axis: int) -> bool {
    forall|i: int, j: int| 0 <= i <= j < s.len() ==> axis_min(s[i], axis) <= axis_min(s[j], axis)
}

/// No object before position `mid` of `s` has a greater lower bound on `axis`
/// than an object from `mid` on.
pub open spec fn split_on(s: Seq<Primitive>, mid: int, axis: int) -> bool {
    forall|i: int, j: int|
        0 <= i < mid && mid <= j < s.len() ==> axis_min(s[i], axis) <= axis_min(s[j], axis)
}

/// `after` holds the objects of `before`, moved only within the positions
/// from `start` up to `end`.
pub open spec fn rearranged(before: Seq<Primitive>, after: Seq<Primitive>, start: int, end: int) -> bool {
    &&& after.len() == before.len()
    &&& forall|i: int| 0 <= i < before.len() && !(start <= i < end) ==> after[i] == before[i]
    &&& after.subrange(start, end).to_multiset() == before.subrange(start, end).to_multiset()
}

/// The parameter range in which the right subtree is searched after the left
/// one answered `left`: it ends at the left hit where there is one.
pub open spec fn range_after(ray_t: Interval, left: Option<HitRecord>) -> Interval {
    match left {
        Some(h) => Interval::between(ray_t.min, h.t),
        None => Interval::between(ray_t.min, ray_t.max),
    }
}

/// Whether `left` comes before `right` along `axis`: whether its lower bound
/// has the smaller code. Between numbers that is the smaller number; a bound
/// that is not a number has its place beyond the infinities, so that every
/// two bounds are in order and a span can be sorted.
pub fn box_compare(left: &Primitive, right: &Primitive, axis: usize) -> (before: bool)
    requires
        axis < 3,
    ensures
        before == (axis_min(*left, axis as int) < axis_min(*right, axis as int)),
        is_number(axis_min(*left, axis as int) as int) && is_number(
            axis_min(*right, axis as int) as int,
        ) ==> before == below(
            axis_min(*left, axis as int) as int,
            axis_min(*right, axis as int) as int,
        ),
{
    let left_axis_interval: &Interval = left.bounding_box().axis_interval(axis);
    let right_axis_interval: &Interval = right.bounding_box().axis_interval(axis);
    left_axis_interval.min < right_axis_interval.min
}

proof fn lemma_swap_keeps_multiset(s: Seq<Primitive>, i: int, j: int)
    requires
        0 <= i < s.len(),
        0 <= j < s.len(),
    ensures
        s.update(i, s[j]).update(j, s[i]).to_multiset() == s.to_multiset(),
{
    broadcast use group_multiset_axioms, group_multiset_properties;

    let s1 = s.update(i, s[j]);
    to_multiset_update(s, i, s[j]);
    to_multiset_update(s1, j, s[i]);
    to_multiset_contains(s, s[i]);
    to_multiset_contains(s, s[j]);
    assert(s.contains(s[i]) && s.contains(s[j]));
    let m = s.to_multiset();
    let m2 = s1.update(j, s[i]).to_multiset();
    assert forall|v: Primitive| m2.count(v) == m.count(v) by {}
    assert(m2 =~= m);
}

proof fn lemma_member_of_rearranged(a: Seq<Primitive>, b: Seq<Primitive>, i: int)
    requires
        a.to_multiset() == b.to_multiset(),
        0 <= i < a.len(),
    ensures
        exists|k: int| 0 <= k < b.len() && b[k] == a[i],
{
    to_multiset_contains(a, a[i]);
    to_multiset_contains(b, a[i]);
    assert(a.contains(a[i]));
    assert(b.contains(a[i]));
}

proof fn lemma_rearranged_halves(
    before: Seq<Primitive>,
    after: Seq<Primitive>,
    start: int,
    mid: int,
    end: int,
)
    requires
        0 <= start <= mid <= end <= before.len(),
        after.len() == before.len(),
        after.subrange(start, mid).to_multiset() == before.subrange(start, mid).to_multiset(),
        after.subrange(mid, end).to_multiset() == before.subrange(mid, end).to_multiset(),
    ensures
        after.subrange(start, end).to_multiset() == before.subrange(start, end).to_multiset(),
{
    lemma_multiset_commutative(after.subrange(start, mid), after.subrange(mid, end));
    lemma_multiset_commutative(before.subrange(start, mid), before.subrange(mid, end));
    assert(after.subrange(start, end) =~= after.subrange(start, mid) + after.subrange(mid, end));
    assert(before.subrange(start, end) =~= before.subrange(start, mid) + before.subrange(
        mid,
        end,
    ));
}

/// Sorts the objects at the positions from `start` up to `end` by their lower
/// bound on `axis`, in place.
pub fn sort_span(objects: &mut Vec<Primitive>, start: usize, end: usize, axis: usize)
    requires
        start <= end <= old(objects)@.len(),
        axis < 3,
    ensures
        rearranged(old(objects)@, final(objects)@, start as int, end as int),
        sorted_on(final(objects)@.subrange(start as int, end as int), axis as int),
{
    let mut i: usize = start;
    while i < end
        invariant
            start <= i <= end <= objects@.len(),
            axis < 3,
            rearranged(old(objects)@, objects@, start as int, end as int),
            forall|a: int, b: int|
                start <= a <= b < i ==> axis_min(objects@[a], axis as int) <= axis_min(
                    objects@[b],
                    axis as int,
                ),
        decreases end - i,
    {
        let mut j: usize = i;
        let mut moving: bool = true;
        while moving && j > start
            invariant
                start <= j <= i < end <= objects@.len(),
                axis < 3,
                rearranged(old(objects)@, objects@, start as int, end as int),
                forall|a: int, b: int|
                    start <= a <= b <= i && a != j && b != j ==> axis_min(objects@[a], axis as int)
                        <= axis_min(objects@[b], axis as int),
                forall|b: int|
                    j < b <= i ==> axis_min(objects@[j as int], axis as int) <= axis_min(
                        objects@[b],
                        axis as int,
                    ),
                !moving && j > start ==> axis_min(objects@[j - 1], axis as int) <= axis_min(
                    objects@[j as int],
                    axis as int,
                ),
            decreases j + (if moving { 1int } else { 0int }),
        {
            let lower: Primitive = objects[j - 1];
            let upper: Primitive = objects[j];
            if box_compare(&upper, &lower, axis) {
                let ghost s = objects@;
                objects.set(j - 1, upper);
                objects.set(j, lower);
                proof {
                    let part = s.subrange(start as int, end as int);
                    let at = j - start;
                    lemma_swap_keeps_multiset(part, at - 1, at);
                    assert(objects@.subrange(start as int, end as int) =~= part.update(
                        at - 1,
                        part[at],
                    ).update(at, part[at - 1]));
                }
                j = j - 1;
            } else {
                moving = false;
            }
        }
        i = i + 1;
    }
    proof {
        let part = objects@.subrange(start as int, end as int);
        assert forall|a: int, b: int| 0 <= a <= b < part.len() implies axis_min(part[a], axis as int)
            <= axis_min(part[b], axis as int) by {
            assert(part[a] == objects@[start + a]);
            assert(part[b] == objects@[start + b]);
        }
    }
}

/// One side of a node: a single object or a smaller hierarchy.
pub enum Branch {
    Leaf(Primitive),
    Node(Box<BVHNode>),
}

/// A node of the hierarchy: two sides and the box around both.
pub struct BVHNode {
    bbox: AABB,
    left: Branch,
    right: Branch,
}

impl Hittable for Branch {
    open spec fn bounds(&self) -> AABB {
        match self {
            Branch::Leaf(p) => p.bbox,
            Branch::Node(n) => n.bounds(),
        }
    }

    fn bounding_box(&self) -> (b: &AABB) {
        match self {
            Branch::Leaf(p) => &p.bbox,
            Branch::Node(n) => n.bounding_box(),
        }
    }
}

impl Hittable for BVHNode {
    closed spec fn bounds(&self) -> AABB {
        self.bbox
    }

    fn bounding_box(&self) -> (b: &AABB) {
        &self.bbox
    }
}

impl Branch {
    /// Whether the object numbered `id` is on this side.
    pub open spec fn has_id(&self, id: usize) -> bool
        decreases self,
    {
        match self {
            Branch::Leaf(p) => p.id == id,
            Branch::Node(n) => n.has_id(id),
        }
    }

    /// What a search of this side within `ray_t` can answer: for a single
    /// object, what `probe` answers for it; for a hierarchy, see
    /// [`BVHNode::traced`].
    pub open spec fn traced<F: Fn(usize, Interval) -> Slab, G: Fn(usize, Interval) -> Option<HitRecord>>(
        &self,
        slabs: F,
        probe: G,
        ray_t: Interval,
        hit: Option<HitRecord>,
    ) -> bool
        decreases self,
    {
        match self {
            Branch::Leaf(p) => probe.ensures((p.id, ray_t), hit),
            Branch::Node(n) => n.traced(slabs, probe, ray_t, hit),
        }
    }

    /// Searches this side for a hit within `ray_t`.
    pub fn hit<F: Fn(usize, Interval) -> Slab, G: Fn(usize, Interval) -> Option<HitRecord>>(
        &self,
        ray_t: Interval,
        slabs: &F,
        probe: &G,
    ) -> (hit: Option<HitRecord>)
        requires
            forall|n: usize, range: Interval| n < 3 ==> #[trigger] slabs.requires((n, range)),
            forall|id: usize, range: Interval|
                self.has_id(id) ==> #[trigger] probe.requires((id, range)),
        ensures
            self.traced(*slabs, *probe, ray_t, hit),
        decreases self,
    {
        match self {
            Branch::Leaf(p) => probe(p.id, ray_t),
            Branch::Node(n) => n.hit(ray_t, slabs, probe),
        }
    }
}

impl BVHNode {
    /// The left side.
    pub closed spec fn spec_left(&self) -> Branch {
        self.left
    }

    /// The right side.
    pub closed spec fn spec_right(&self) -> Branch {
        self.right
    }

    /// Whether the object numbered `id` is in the hierarchy.
    pub open spec fn has_id(&self, id: usize) -> bool
        decreases self,
    {
        self.spec_left().has_id(id) || self.spec_right().has_id(id)
    }

    pub fn left(&self) -> (b: &Branch)
        ensures
            *b == self.spec_left(),
    {
        &self.left
    }

    pub fn right(&self) -> (b: &Branch)
        ensures
            *b == self.spec_right(),
    {
        &self.right
    }

    /// The node is a hierarchy over exactly the objects of `s`, in this
    /// order from left to right.
    ///
    /// Its box is the one around the boxes of its two sides. Over one object,
    /// both sides are that object. Over two, the sides are the two objects.
    /// Over more, the sides are hierarchies over the first half of `s` and
    /// over the rest, the first half being the shorter where the number is
    /// odd, and on at least one axis no object of the first half has a greater
    /// lower bound than an object of the rest.
    pub open spec fn spans(&self, s: Seq<Primitive>) -> bool
        decreases s.len(),
    {
        &&& self.bounds() == AABB::union(self.spec_left().bounds(), self.spec_right().bounds())
        &&& if s.len() == 1 {
            self.spec_left() == Branch::Leaf(s[0]) && self.spec_right() == Branch::Leaf(s[0])
        } else if s.len() == 2 {
            self.spec_left() == Branch::Leaf(s[0]) && self.spec_right() == Branch::Leaf(s[1])
        } else if s.len() > 2 {
            let mid = (s.len() / 2) as int;
            &&& self.spec_left() matches Branch::Node(l) && l.spans(s.subrange(0, mid))
            &&& self.spec_right() matches Branch::Node(r) && r.spans(s.subrange(mid, s.len() as int))
            &&& exists|axis: int| 0 <= axis < 3 && #[trigger] split_on(s, mid, axis)
        } else {
            false
        }
    }

    /// What a search of the hierarchy within `ray_t` can answer.
    ///
    /// Where the slab test of the node's box fails, nothing. Otherwise the
    /// left side is searched within `ray_t`, then the right side within the
    /// range that ends at the left side's hit, and a hit on the right side is
    /// preferred.
    pub open spec fn traced<F: Fn(usize, Interval) -> Slab, G: Fn(usize, Interval) -> Option<HitRecord>>(
        &self,
        slabs: F,
        probe: G,
        ray_t: Interval,
        hit: Option<HitRecord>,
    ) -> bool
        decreases self,
    {
        ||| hit is None && self.bounds().slab_test(slabs, ray_t, 0, false)
        ||| self.bounds().slab_test(slabs, ray_t, 0, true) && exists|
            left: Option<HitRecord>,
            right: Option<HitRecord>,
        |
            self.spec_left().traced(slabs, probe, ray_t, left) && self.spec_right().traced(
                slabs,
                probe,
                range_after(ray_t, left),
                right,
            ) && hit == #[trigger] closer(left, right)
    }

    /// Builds the hierarchy over all objects of a scene, which it may
    /// reorder.
    pub fn new(hittable_list: &mut HittableList) -> (node: BVHNode)
        requires
            old(hittable_list)@.len() > 0,
        ensures
            rearranged(
                old(hittable_list)@,
                final(hittable_list)@,
                0,
                old(hittable_list)@.len() as int,
            ),
            final(hittable_list).bounds() == old(hittable_list).bounds(),
            old(hittable_list).wf() ==> final(hittable_list).wf(),
            old(hittable_list)@.len() <= 2 ==> final(hittable_list)@ == old(hittable_list)@,
            node.spans(final(hittable_list)@),
    {
        let objects = hittable_list.get_objects();
        let end: usize = objects.len();
        let node = BVHNode::new_span(objects, 0, end);
        proof {
            assert(objects@.subrange(0, end as int) =~= objects@);
            assert(old(hittable_list)@.subrange(0, end as int) =~= old(hittable_list)@);
            if old(hittable_list).wf() {
                lemma_bounds_of_rearranged(old(hittable_list)@, objects@);
            }
        }
        node
    }

    /// Builds the hierarchy over the objects at the positions from `start` up
    /// to `end`, which it may reorder among themselves.
    ///
    /// A span of one or two objects is left as it is. A longer one is sorted
    /// along an axis drawn at random and split in the middle.
    pub fn new_span(objects: &mut Vec<Primitive>, start: usize, end: usize) -> (node: BVHNode)
        requires
            start < end <= old(objects)@.len(),
        ensures
            rearranged(old(objects)@, final(objects)@, start as int, end as int),
            end - start <= 2 ==> final(objects)@ == old(objects)@,
            node.spans(final(objects)@.subrange(start as int, end as int)),
        decreases end - start,
    {
        let axis: usize = random_u64(0, 2) as usize;
        let object_span: usize = end - start;
        let left: Branch;
        let right: Branch;
        if object_span == 1 {
            left = Branch::Leaf(objects[start]);
            right = Branch::Leaf(objects[start]);
        } else if object_span == 2 {
            left = Branch::Leaf(objects[start]);
            right = Branch::Leaf(objects[start + 1]);
        } else {
            sort_span(objects, start, end, axis);
            let ghost sorted = objects@;
            let mid: usize = start + object_span / 2;
            let lower: BVHNode = BVHNode::new_span(objects, start, mid);
            let ghost halfway = objects@;
            let upper: BVHNode = BVHNode::new_span(objects, mid, end);
            proof {
                let s = objects@;
                let part = s.subrange(start as int, end as int);
                assert(s.subrange(start as int, mid as int) =~= halfway.subrange(
                    start as int,
                    mid as int,
                ));
                assert(halfway.subrange(mid as int, end as int) =~= sorted.subrange(
                    mid as int,
                    end as int,
                ));
                lemma_rearranged_halves(sorted, s, start as int, mid as int, end as int);
                assert(part.subrange(0, mid - start) =~= s.subrange(start as int, mid as int));
                assert(part.subrange(mid - start, part.len() as int) =~= s.subrange(
                    mid as int,
                    end as int,
                ));
                assert forall|i: int, j: int|
                    0 <= i < mid - start && mid - start <= j < part.len() implies axis_min(
                    part[i],
                    axis as int,
                ) <= axis_min(part[j], axis as int) by {
                    let sorted_part = sorted.subrange(start as int, end as int);
                    lemma_member_of_rearranged(
                        s.subrange(start as int, mid as int),
                        sorted.subrange(start as int, mid as int),
                        i,
                    );
                    lemma_member_of_rearranged(
                        s.subrange(mid as int, end as int),
                        sorted.subrange(mid as int, end as int),
                        j - (mid - start),
                    );
                    let a = choose|k: int|
                        0 <= k < mid - start && sorted.subrange(start as int, mid as int)[k]
                            == s.subrange(start as int, mid as int)[i];
                    let b = choose|k: int|
                        0 <= k < end - mid && sorted.subrange(mid as int, end as int)[k]
                            == s.subrange(mid as int, end as int)[j - (mid - start)];
                    assert(sorted_part[a] == part[i]);
                    assert(sorted_part[b + (mid - start)] == part[j]);
                }
                assert(split_on(part, mid - start, axis as int));
            }
            left = Branch::Node(Box::new(lower));
            right = Branch::Node(Box::new(upper));
        }
        BVHNode { bbox: AABB::from_boxes(left.bounding_box(), right.bounding_box()), left, right }
    }

    /// The nearest hit of a ray with the objects of the hierarchy within
    /// `ray_t`, if there is one. `slabs(n, range)` gives the parameters at
    /// which the ray crosses the planes that bound `range` on axis `n`, and
    /// `probe(id, range)` tests the object numbered `id` within `range`. No
    /// side whose box the ray misses is searched.
    pub fn hit<F: Fn(usize, Interval) -> Slab, G: Fn(usize, Interval) -> Option<HitRecord>>(
        &self,
        ray_t: Interval,
        slabs: &F,
        probe: &G,
    ) -> (hit: Option<HitRecord>)
        requires
            forall|n: usize, range: Interval| n < 3 ==> #[trigger] slabs.requires((n, range)),
            forall|id: usize, range: Interval|
                self.has_id(id) ==> #[trigger] probe.requires((id, range)),
        ensures
            self.traced(*slabs, *probe, ray_t, hit),
        decreases self,
    {
        if !self.bbox.hit(&ray_t, slabs) {
            return None;
        }
        let left_hit_record: Option<HitRecord> = self.left.hit(ray_t, slabs, probe);
        let interval: Interval = match left_hit_record {
            Some(h) => Interval::new(ray_t.min, h.t),
            None => Interval::new(ray_t.min, ray_t.max),
        };
        let right_hit_record: Option<HitRecord> = self.right.hit(interval, slabs, probe);
        let hit: Option<HitRecord> = if right_hit_record.is_some() {
            right_hit_record
        } else {
            left_hit_record
        };
        assert(hit == closer(left_hit_record, right_hit_record));
        hit
    }
}

/// The objects of a hierarchy are those of the sequence it was built over.
pub proof fn lemma_ids_of_hierarchy(node: BVHNode, s: Seq<Primitive>, id: usize)
    requires
        node.spans(s),
    ensures
        node.has_id(id) <==> exists|i: int| 0 <= i < s.len() && (#[trigger] s[i]).id == id,
    decreases s.len(),
{
    if s.len() > 2 {
        let mid = (s.len() / 2) as int;
        let lower = s.subrange(0, mid);
        let upper = s.subrange(mid, s.len() as int);
        let l = node.spec_left()->Node_0;
        let r = node.spec_right()->Node_0;
        lemma_ids_of_hierarchy(*l, lower, id);
        lemma_ids_of_hierarchy(*r, upper, id);
        if node.has_id(id) {
            if l.has_id(id) {
                let i = choose|i: int| 0 <= i < lower.len() && (#[trigger] lower[i]).id == id;
                assert(s[i].id == id);
            } else {
                let i = choose|i: int| 0 <= i < upper.len() && (#[trigger] upper[i]).id == id;
                assert(s[i + mid].id == id);
            }
        }
        if exists|i: int| 0 <= i < s.len() && (#[trigger] s[i]).id == id {
            let i = choose|i: int| 0 <= i < s.len() && (#[trigger] s[i]).id == id;
            if i < mid {
                assert(lower[i].id == id);
            } else {
                assert(upper[i - mid].id == id);
            }
        }
    } else if s.len() == 2 {
        if exists|i: int| 0 <= i < s.len() && (#[trigger] s[i]).id == id {
            let i = choose|i: int| 0 <= i < s.len() && (#[trigger] s[i]).id == id;
            assert(i == 0 || i == 1);
        }
        if node.has_id(id) {
            assert(s[0].id == id || s[1].id == id);
        }
    } else {
        if node.has_id(id) {
            assert(s[0].id == id);
        }
    }
}

} // verus!
