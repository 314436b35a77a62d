//! Hit records, the protocol of things a ray can hit, and the scene list.

use vstd::prelude::*;
use crate::aabb::AABB;
use crate::interval::Interval;
use crate::scalar::below;
use crate::scalar::less;
use crate::scalar::lesser;
use crate::scalar::min;
use crate::vec::Point3;
use crate::vec::Vec3;

verus! {

/// Where and how a ray met a surface.
///
/// `normal` always points out of the surface; whether the ray came from
/// outside is recorded in `is_front_face` and the normal is not flipped.
/// `material` is the index of the surface's material in the scene's table.
#[derive(Debug, Clone, Copy, PartialEq, Eq, Structural)]
pub struct HitRecord {
    pub p: Point3,
    pub normal: Vec3,
    pub material: usize,
    pub t: i64,
    pub is_front_face: bool,
}

impl HitRecord {
    /// The record of a hit at parameter `t`. `facing` is the dot product of the
    /// ray's direction with `outward_normal`, which must be a unit vector: the
    /// ray meets the front of the surface exactly when it is negative.
    pub fn new(p: Point3, outward_normal: Vec3, facing: i64, material: usize, t: i64) -> (r:
        HitRecord)
        ensures
            r == (HitRecord {
                p,
                normal: outward_normal,
                material,
                t,
                is_front_face: below(facing as int, 0),
            }),
    {
        HitRecord { p, normal: outward_normal, material, t, is_front_face: less(facing, 0) }
    }
}

/// Anything a ray can be tested against exposes the box that bounds it.
pub trait Hittable {
    /// The box that bounds the object.
    spec fn bounds(&self) -> AABB;

    fn bounding_box(&self) -> (b: &AABB)
        ensures
            *b == self.bounds(),
    ;
}

/// One object of a scene, as the hierarchy sees it: the number under which
/// the scene knows it, and its bounding box.
#[derive(Debug, Clone, Copy, PartialEq, Eq, Structural)]
pub struct Primitive {
    pub id: usize,
    pub bbox: AABB,
}

impl Hittable for Primitive {
    open spec fn bounds(&self) -> AABB {
        self.bbox
    }

    fn bounding_box(&self) -> (b: &AABB) {
        &self.bbox
    }
}

/// The parameter range in which the next object is searched once `best` has
/// been found: `ray_t`, cut off at the parameter of `best` where that is the
/// nearer end.
pub open spec fn search_range(ray_t: Interval, best: Option<HitRecord>) -> Interval {
    match best {
        Some(h) => Interval::between(ray_t.min, lesser(ray_t.max as int, h.t as int) as i64),
        None => Interval::between(ray_t.min, ray_t.max),
    }
}

/// The better of an earlier hit and what the next object answered: a new hit
/// was found in a range that ends at the earlier one, so it replaces it.
pub open spec fn closer(prev: Option<HitRecord>, found: Option<HitRecord>) -> Option<HitRecord> {
    if found is Some {
        found
    } else {
        prev
    }
}

/// What a scan of the first `n` of `objects` can end with: `probe(id, range)`
/// is asked once for each in turn, each time with the range narrowed by the
/// best hit so far.
pub open spec fn scanned<F: Fn(usize, Interval) -> Option<HitRecord>>(
    probe: F,
    objects: Seq<Primitive>,
    ray_t: Interval,
    n: nat,
    best: Option<HitRecord>,
) -> bool
    decreases n,
{
    if n == 0 {
        best is None
    } else {
        exists|prev: Option<HitRecord>, found: Option<HitRecord>|
            scanned(probe, objects, ray_t, (n - 1) as nat, prev) && #[trigger] probe.ensures(
                (objects[n - 1].id, search_range(ray_t, prev)),
                found,
            ) && best == closer(prev, found)
    }
}

/// The box of every object is a box of numbers, ordered on each axis.
pub open spec fn boxed(objects: Seq<Primitive>) -> bool {
    forall|i: int| 0 <= i < objects.len() ==> (#[trigger] objects[i]).bbox.wf()
}

/// The box around the boxes of all `objects`: the box of the first, widened
/// by that of each further one. An empty scene is given the single point at
/// the origin for its box.
pub open spec fn bounds_of(objects: Seq<Primitive>) -> AABB
    decreases objects.len(),
{
    if objects.len() == 0 {
        AABB::spanning(Vec3 { x: 0, y: 0, z: 0 }, Vec3 { x: 0, y: 0, z: 0 })
    } else if objects.len() == 1 {
        objects[0].bbox
    } else {
        AABB::union(bounds_of(objects.drop_last()), objects.last().bbox)
    }
}

/// One step of widening: nothing yet becomes the box of `p`, and a box is
/// widened by it. What is no box of numbers is passed over.
spec fn widened(around: Option<AABB>, p: Primitive) -> Option<AABB> {
    if !p.bbox.wf() {
        around
    } else {
        match around {
            None => Some(p.bbox),
            Some(b) => if b.wf() {
                Some(AABB::union(b, p.bbox))
            } else {
                around
            },
        }
    }
}

proof fn lemma_bounds_of_is_a_fold(s: Seq<Primitive>)
    requires
        boxed(s),
    ensures
        s.len() > 0 ==> bounds_of(s).wf() && s.fold_left(
            None,
            |around: Option<AABB>, p: Primitive| widened(around, p),
        ) == Some(bounds_of(s)),
        s.len() == 0 ==> s.fold_left(None, |around: Option<AABB>, p: Primitive| widened(around, p))
            == None::<AABB>,
    decreases s.len(),
{
    if s.len() > 0 {
        assert(s.last().bbox.wf());
        assert(boxed(s.drop_last())) by {
            assert forall|i: int| 0 <= i < s.drop_last().len() implies (
            #[trigger] s.drop_last()[i]).bbox.wf() by {
                assert(s.drop_last()[i] == s[i]);
            }
        }
        lemma_bounds_of_is_a_fold(s.drop_last());
        if s.len() == 1 {
            assert(s.last() == s[0]);
        } else {
            crate::aabb::lemma_union_encloses(bounds_of(s.drop_last()), s.last().bbox);
        }
    }
}

/// The box around a scene does not depend on the order of its objects.
pub proof fn lemma_bounds_of_rearranged(a: Seq<Primitive>, b: Seq<Primitive>)
    requires
        boxed(a),
        a.to_multiset() == b.to_multiset(),
    ensures
        boxed(b),
        bounds_of(a) == bounds_of(b),
{
    let widen = |around: Option<AABB>, p: Primitive| widened(around, p);
    assert forall|x: Primitive, y: Primitive, v: Option<AABB>| #[trigger]
        widen(widen(v, x), y) == widen(widen(v, y), x) by {
        if x.bbox.wf() && y.bbox.wf() {
            crate::aabb::lemma_union_encloses(x.bbox, y.bbox);
            if let Some(around) = v {
                if around.wf() {
                    crate::aabb::lemma_union_encloses(around, x.bbox);
                    crate::aabb::lemma_union_encloses(around, y.bbox);
                    crate::aabb::lemma_union_commutes(around, x.bbox, y.bbox);
                }
            }
        }
    }
    assert forall|i: int| 0 <= i < b.len() implies (#[trigger] b[i]).bbox.wf() by {
        vstd::seq_lib::to_multiset_contains(a, b[i]);
        vstd::seq_lib::to_multiset_contains(b, b[i]);
        assert(b.contains(b[i]));
        assert(a.contains(b[i]));
    }
    vstd::seq_lib::to_multiset_len(a);
    vstd::seq_lib::to_multiset_len(b);
    lemma_bounds_of_is_a_fold(a);
    lemma_bounds_of_is_a_fold(b);
    vstd::seq_lib::lemma_fold_left_permutation(a, b, widen, None);
}

/// Computes [`search_range`].
pub fn next_search_range(ray_t: &Interval, best: &Option<HitRecord>) -> (r: Interval)
    ensures
        r == search_range(*ray_t, *best),
{
    let upper: i64 = match best {
        Some(h) => min(ray_t.max, h.t),
        None => ray_t.max,
    };
    Interval::new(ray_t.min, upper)
}

/// A scene: objects in the order in which they were added, and the box
/// around all of them.
pub struct HittableList {
    objects: Vec<Primitive>,
    bbox: AABB,
}

impl View for HittableList {
    type V = Seq<Primitive>;

    closed spec fn view(&self) -> Seq<Primitive> {
        self.objects@
    }
}

impl Hittable for HittableList {
    closed spec fn bounds(&self) -> AABB {
        self.bbox
    }

    fn bounding_box(&self) -> (b: &AABB) {
        &self.bbox
    }
}

impl HittableList {
    /// The box of every object is a box of numbers, and the box of the scene
    /// is the one around them.
    pub open spec fn wf(&self) -> bool {
        boxed(self@) && self.bounds() == bounds_of(self@)
    }

    /// The empty scene. Its box is the single point at the origin.
    pub fn new() -> (list: HittableList)
        ensures
            list@ == Seq::<Primitive>::empty(),
            list.wf(),
    {
        HittableList { objects: Vec::new(), bbox: AABB::from_points(Vec3::zero(), Vec3::zero()) }
    }

    /// Adds `object` at the end. The box of the scene becomes the box of the
    /// object where it is the first, and is widened by it otherwise. The
    /// object is known to the scene by the number returned: its position.
    pub fn add<H: Hittable>(&mut self, object: &H) -> (id: usize)
        ensures
            id == old(self)@.len(),
            final(self)@ == old(self)@.push(Primitive { id, bbox: object.bounds() }),
            final(self).bounds() == if old(self)@.len() == 0 {
                object.bounds()
            } else {
                AABB::union(old(self).bounds(), object.bounds())
            },
            old(self).wf() && object.bounds().wf() ==> final(self).wf(),
    {
        let id: usize = self.objects.len();
        let bbox: AABB = *object.bounding_box();
        if id == 0 {
            self.bbox = bbox;
        } else {
            self.bbox = AABB::from_boxes(&self.bbox, &bbox);
        }
        self.objects.push(Primitive { id, bbox });
        proof {
            assert(self@.drop_last() == old(self)@);
        }
        id
    }

    /// The objects, for rearranging in place.
    pub fn get_objects(&mut self) -> (objects: &mut Vec<Primitive>)
        ensures
            objects@ == old(self)@,
            final(self)@ == final(objects)@,
            final(self).bounds() == old(self).bounds(),
    {
        &mut self.objects
    }

    /// The nearest hit among all objects within `ray_t`, if any.
    /// `probe(id, range)` tests the object numbered `id` within `range`. Every
    /// object is probed, in order, each within a range that ends at the best
    /// hit so far.
    pub fn hit<F: Fn(usize, Interval) -> Option<HitRecord>>(&self, ray_t: Interval, probe: &F) -> (best:
        Option<HitRecord>)
        requires
            forall|i: int, t: Interval|
                0 <= i < self@.len() ==> #[trigger] probe.requires((self@[i].id, t)),
        ensures
            scanned(*probe, self@, ray_t, self@.len(), best),
    {
        let mut best: Option<HitRecord> = None;
        let mut i: usize = 0;
        while i < self.objects.len()
            invariant
                i <= self.objects.len(),
                forall|k: int, t: Interval|
                    0 <= k < self@.len() ==> #[trigger] probe.requires((self@[k].id, t)),
                scanned(*probe, self@, ray_t, i as nat, best),
            decreases self.objects.len() - i,
        {
            let range: Interval = next_search_range(&ray_t, &best);
            let found: Option<HitRecord> = probe(self.objects[i].id, range);
            let ghost prev = best;
            if found.is_some() {
                best = found;
            }
            i = i + 1;
            assert(scanned(*probe, self@, ray_t, (i - 1) as nat, prev) && probe.ensures(
                (self@[i - 1].id, search_range(ray_t, prev)),
                found,
            ) && best == closer(prev, found));
        }
        best
    }
}

} // verus!
