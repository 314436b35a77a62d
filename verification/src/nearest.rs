//! Why the hierarchy can stand in for the scene list: searched with the same
//! ray, both find the same hit.

use vstd::prelude::*;
use crate::aabb::encloses;
use crate::aabb::lemma_union_encloses;
use crate::aabb::Slab;
use crate::aabb::AABB;
use crate::bvh::range_after;
use crate::bvh::BVHNode;
use crate::bvh::Branch;
use crate::hittable::boxed;
use crate::hittable::closer;
use crate::hittable::scanned;
use crate::hittable::search_range;
use crate::hittable::HitRecord;
use crate::hittable::Hittable;
use crate::hittable::Primitive;
use crate::interval::Interval;
use crate::scalar::not_above;

verus! {

/// Every hit that `probe` reports lies strictly inside the range it was
/// asked for.
pub open spec fn answers_in_range<G: Fn(usize, Interval) -> Option<HitRecord>>(probe: G) -> bool {
    forall|id: usize, t: Interval, h: HitRecord| #[trigger]
        probe.ensures((id, t), Some(h)) ==> t.spec_surrounds(h.t as int)
}

/// What `probe` answers for an object in an ordered range settles what it
/// answers in every ordered range that starts at the same parameter and ends
/// no later: the same hit where that hit is still inside, and nothing
/// otherwise. In particular it answers the same whenever it is asked the
/// same.
pub open spec fn answers_steadily<G: Fn(usize, Interval) -> Option<HitRecord>>(probe: G) -> bool {
    forall|id: usize, t: Interval, u: Interval, a: Option<HitRecord>, b: Option<HitRecord>|
        #[trigger] probe.ensures((id, t), a) && #[trigger] probe.ensures((id, u), b) && t.wf()
            && u.wf() && u.min == t.min && u.max <= t.max ==> b == match a {
            Some(h) => if h.t < u.max {
                Some(h)
            } else {
                None
            },
            None => None,
        }
}

/// The box of `p` bounds it for the ray: where `probe` finds a hit with `p`
/// within a range, the slab test of any box that holds the box of `p` does
/// not fail within that range.
pub open spec fn bounded_for<F: Fn(usize, Interval) -> Slab, G: Fn(usize, Interval) -> Option<HitRecord>>(
    slabs: F,
    probe: G,
    p: Primitive,
) -> bool {
    forall|outer: AABB, t: Interval, h: HitRecord|
        encloses(outer, p.bbox) && #[trigger] probe.ensures((p.id, t), Some(h)) ==> !#[trigger] outer.slab_test(
            slabs,
            t,
            0,
            false,
        )
}

/// What a scan of the objects of `s` at the positions from `a` up to `b` can
/// end with, when it starts with the hit `first` in hand.
pub open spec fn scanned_span<G: Fn(usize, Interval) -> Option<HitRecord>>(
    probe: G,
    s: Seq<Primitive>,
    t: Interval,
    first: Option<HitRecord>,
    a: int,
    b: int,
    best: Option<HitRecord>,
) -> bool
    decreases b - a,
{
    if b <= a {
        best == first
    } else {
        exists|prev: Option<HitRecord>, found: Option<HitRecord>|
            scanned_span(probe, s, t, first, a, b - 1, prev) && #[trigger] probe.ensures(
                (s[b - 1].id, range_after(t, prev)),
                found,
            ) && best == closer(prev, found)
    }
}

proof fn lemma_scan_stays_in_range<G: Fn(usize, Interval) -> Option<HitRecord>>(
    probe: G,
    s: Seq<Primitive>,
    t: Interval,
    a: int,
    b: int,
    best: Option<HitRecord>,
)
    requires
        t.wf(),
        answers_in_range(probe),
        scanned_span(probe, s, t, None, a, b, best),
    ensures
        best matches Some(h) ==> t.spec_surrounds(h.t as int),
    decreases b - a,
{
    if b > a {
        let (prev, found) = choose|prev: Option<HitRecord>, found: Option<HitRecord>|
            scanned_span(probe, s, t, None, a, b - 1, prev) && #[trigger] probe.ensures(
                (s[b - 1].id, range_after(t, prev)),
                found,
            ) && best == closer(prev, found);
        lemma_scan_stays_in_range(probe, s, t, a, b - 1, prev);
    }
}

proof fn lemma_scan_of_the_list<G: Fn(usize, Interval) -> Option<HitRecord>>(
    probe: G,
    s: Seq<Primitive>,
    t: Interval,
    n: nat,
    best: Option<HitRecord>,
)
    requires
        t.wf(),
        answers_in_range(probe),
        scanned(probe, s, t, n, best),
    ensures
        scanned_span(probe, s, t, None, 0, n as int, best),
    decreases n,
{
    if n > 0 {
        let (prev, found) = choose|prev: Option<HitRecord>, found: Option<HitRecord>|
            scanned(probe, s, t, (n - 1) as nat, prev) && #[trigger] probe.ensures(
                (s[n - 1].id, search_range(t, prev)),
                found,
            ) && best == closer(prev, found);
        lemma_scan_of_the_list(probe, s, t, (n - 1) as nat, prev);
        lemma_scan_stays_in_range(probe, s, t, 0, n - 1, prev);
        assert(search_range(t, prev) == range_after(t, prev));
    }
}

proof fn lemma_scan_splits<G: Fn(usize, Interval) -> Option<HitRecord>>(
    probe: G,
    s: Seq<Primitive>,
    t: Interval,
    first: Option<HitRecord>,
    a: int,
    m: int,
    b: int,
    best: Option<HitRecord>,
) -> (middle: Option<HitRecord>)
    requires
        a <= m <= b,
        scanned_span(probe, s, t, first, a, b, best),
    ensures
        scanned_span(probe, s, t, first, a, m, middle),
        scanned_span(probe, s, t, middle, m, b, best),
    decreases b - m,
{
    if b == m {
        best
    } else {
        let (prev, found) = choose|prev: Option<HitRecord>, found: Option<HitRecord>|
            scanned_span(probe, s, t, first, a, b - 1, prev) && #[trigger] probe.ensures(
                (s[b - 1].id, range_after(t, prev)),
                found,
            ) && best == closer(prev, found);
        let middle = lemma_scan_splits(probe, s, t, first, a, m, b - 1, prev);
        assert(scanned_span(probe, s, t, middle, m, b - 1, prev) && probe.ensures(
            (s[b - 1].id, range_after(t, prev)),
            found,
        ) && best == closer(prev, found));
        middle
    }
}

proof fn lemma_scan_below_a_hit<G: Fn(usize, Interval) -> Option<HitRecord>>(
    probe: G,
    s: Seq<Primitive>,
    t: Interval,
    h: HitRecord,
    m: int,
    b: int,
    best: Option<HitRecord>,
) -> (rest: Option<HitRecord>)
    requires
        m <= b,
        not_above(t.min as int, h.t as int),
        scanned_span(probe, s, t, Some(h), m, b, best),
    ensures
        scanned_span(probe, s, range_after(t, Some(h)), None, m, b, rest),
        best == closer(Some(h), rest),
    decreases b - m,
{
    let u = range_after(t, Some(h));
    if b == m {
        None
    } else {
        let (prev, found) = choose|prev: Option<HitRecord>, found: Option<HitRecord>|
            scanned_span(probe, s, t, Some(h), m, b - 1, prev) && #[trigger] probe.ensures(
                (s[b - 1].id, range_after(t, prev)),
                found,
            ) && best == closer(prev, found);
        let before = lemma_scan_below_a_hit(probe, s, t, h, m, b - 1, prev);
        assert(range_after(u, before) == range_after(t, prev));
        let rest = closer(before, found);
        assert(scanned_span(probe, s, u, None, m, b - 1, before) && probe.ensures(
            (s[b - 1].id, range_after(u, before)),
            found,
        ) && rest == closer(before, found));
        rest
    }
}

proof fn lemma_scan_finds_nothing_outside<
    F: Fn(usize, Interval) -> Slab,
    G: Fn(usize, Interval) -> Option<HitRecord>,
>(slabs: F, probe: G, s: Seq<Primitive>, t: Interval, outer: AABB, a: int, b: int, best: Option<
    HitRecord,
>)
    requires
        0 <= a <= b <= s.len(),
        t.wf(),
        forall|i: int| a <= i < b ==> encloses(outer, #[trigger] s[i].bbox),
        forall|i: int| a <= i < b ==> bounded_for(slabs, probe, #[trigger] s[i]),
        outer.slab_test(slabs, t, 0, false),
        scanned_span(probe, s, t, None, a, b, best),
    ensures
        best is None,
    decreases b - a,
{
    if b > a {
        let (prev, found) = choose|prev: Option<HitRecord>, found: Option<HitRecord>|
            scanned_span(probe, s, t, None, a, b - 1, prev) && #[trigger] probe.ensures(
                (s[b - 1].id, range_after(t, prev)),
                found,
            ) && best == closer(prev, found);
        lemma_scan_finds_nothing_outside(slabs, probe, s, t, outer, a, b - 1, prev);
        assert(range_after(t, prev) == t);
        if let Some(h) = found {
            assert(bounded_for(slabs, probe, s[b - 1]));
            assert(encloses(outer, s[b - 1].bbox));
            assert(probe.ensures((s[b - 1].id, t), Some(h)));
            assert(!outer.slab_test(slabs, t, 0, false));
        }
    }
}

proof fn lemma_encloses_twice(outer: AABB, middle: AABB, inner: AABB)
    requires
        encloses(outer, middle),
        encloses(middle, inner),
    ensures
        encloses(outer, inner),
{
    assert forall|n: int| 0 <= n < 3 implies (#[trigger] outer.spec_axis(n)).min <= inner.spec_axis(
        n,
    ).min && inner.spec_axis(n).max <= outer.spec_axis(n).max by {
        assert(outer.spec_axis(n).min <= middle.spec_axis(n).min);
        assert(middle.spec_axis(n).min <= inner.spec_axis(n).min);
    }
}

proof fn lemma_encloses_itself(b: AABB)
    requires
        b.wf(),
    ensures
        encloses(b, b),
{
}

/// The box of a hierarchy holds the box of every object below it.
pub proof fn lemma_hierarchy_encloses(node: BVHNode, s: Seq<Primitive>)
    requires
        node.spans(s),
        boxed(s),
    ensures
        node.bounds().wf(),
        forall|i: int| 0 <= i < s.len() ==> encloses(node.bounds(), #[trigger] s[i].bbox),
    decreases s.len(),
{
    let left = node.spec_left();
    let right = node.spec_right();
    if s.len() == 1 {
        assert(s[0].bbox.wf());
        lemma_union_encloses(left.bounds(), right.bounds());
        lemma_encloses_itself(s[0].bbox);
    } else if s.len() == 2 {
        assert(s[0].bbox.wf() && s[1].bbox.wf());
        lemma_union_encloses(left.bounds(), right.bounds());
        lemma_encloses_itself(s[0].bbox);
        lemma_encloses_itself(s[1].bbox);
    } else {
        let mid = (s.len() / 2) as int;
        let l = left->Node_0;
        let r = right->Node_0;
        let s1 = s.subrange(0, mid);
        let s2 = s.subrange(mid, s.len() as int);
        assert forall|i: int| 0 <= i < s1.len() implies (#[trigger] s1[i]).bbox.wf() by {
            assert(s1[i] == s[i]);
        }
        assert forall|i: int| 0 <= i < s2.len() implies (#[trigger] s2[i]).bbox.wf() by {
            assert(s2[i] == s[i + mid]);
        }
        lemma_hierarchy_encloses(*l, s1);
        lemma_hierarchy_encloses(*r, s2);
        lemma_union_encloses(left.bounds(), right.bounds());
        assert forall|i: int| 0 <= i < s.len() implies encloses(node.bounds(), #[trigger] s[i].bbox) by {
            if i < mid {
                assert(s1[i] == s[i]);
                lemma_encloses_twice(node.bounds(), l.bounds(), s[i].bbox);
            } else {
                assert(s2[i - mid] == s[i]);
                lemma_encloses_twice(node.bounds(), r.bounds(), s[i].bbox);
            }
        }
    }
}

proof fn lemma_tree_agrees_with_span<
    F: Fn(usize, Interval) -> Slab,
    G: Fn(usize, Interval) -> Option<HitRecord>,
>(
    node: BVHNode,
    slabs: F,
    probe: G,
    s: Seq<Primitive>,
    a: int,
    b: int,
    t: Interval,
    through_tree: Option<HitRecord>,
    by_scan: Option<HitRecord>,
)
    requires
        0 <= a < b <= s.len(),
        node.spans(s.subrange(a, b)),
        t.wf(),
        answers_in_range(probe),
        answers_steadily(probe),
        boxed(s),
        forall|i: int| 0 <= i < s.len() ==> bounded_for(slabs, probe, #[trigger] s[i]),
        node.traced(slabs, probe, t, through_tree),
        scanned_span(probe, s, t, None, a, b, by_scan),
    ensures
        through_tree == by_scan,
    decreases b - a,
{
    let part = s.subrange(a, b);
    if node.bounds().slab_test(slabs, t, 0, false) && through_tree is None {
        lemma_hierarchy_encloses(node, part);
        assert forall|i: int| a <= i < b implies encloses(node.bounds(), #[trigger] s[i].bbox) by {
            assert(part[i - a] == s[i]);
        }
        lemma_scan_finds_nothing_outside(slabs, probe, s, t, node.bounds(), a, b, by_scan);
    } else {
        let (left, right) = choose|left: Option<HitRecord>, right: Option<HitRecord>|
            node.spec_left().traced(slabs, probe, t, left) && node.spec_right().traced(
                slabs,
                probe,
                range_after(t, left),
                right,
            ) && through_tree == #[trigger] closer(left, right);
        let m = if b - a > 2 {
            a + (b - a) / 2
        } else {
            a + 1
        };
        let middle = lemma_scan_splits(probe, s, t, None, a, m, b, by_scan);
        lemma_scan_stays_in_range(probe, s, t, a, m, middle);
        // The left side finds what the scan has found half-way.
        if b - a <= 2 {
            assert(part[0] == s[a]);
            assert(node.spec_left() == Branch::Leaf(s[a]));
            let (none, found) = choose|prev: Option<HitRecord>, found: Option<HitRecord>|
                scanned_span(probe, s, t, None, a, a, prev) && #[trigger] probe.ensures(
                    (s[a].id, range_after(t, prev)),
                    found,
                ) && middle == closer(prev, found);
            assert(range_after(t, none) == t);
            assert(probe.ensures((s[a].id, t), left));
            assert(left == middle);
        } else {
            assert(part.subrange(0, m - a) =~= s.subrange(a, m));
            lemma_tree_agrees_with_span(
                *node.spec_left()->Node_0,
                slabs,
                probe,
                s,
                a,
                m,
                t,
                left,
                middle,
            );
        }
        // The right side finds what the rest of the scan adds to that.
        let u = range_after(t, left);
        let rest = match left {
            Some(h) => lemma_scan_below_a_hit(probe, s, t, h, m, b, by_scan),
            None => by_scan,
        };
        assert(scanned_span(probe, s, u, None, m, b, rest));
        assert(by_scan == closer(left, rest));
        if b - a == 1 {
            assert(node.spec_right() == Branch::Leaf(s[a]));
            assert(probe.ensures((s[a].id, u), right));
            assert(right is None);
            assert(rest is None);
        } else if b - a == 2 {
            assert(part[1] == s[a + 1]);
            assert(node.spec_right() == Branch::Leaf(s[a + 1]));
            let (none, found) = choose|prev: Option<HitRecord>, found: Option<HitRecord>|
                scanned_span(probe, s, u, None, m, m, prev) && #[trigger] probe.ensures(
                    (s[m].id, range_after(u, prev)),
                    found,
                ) && rest == closer(prev, found);
            assert(range_after(u, none) == u);
            lemma_scan_stays_in_range(probe, s, u, m, b, rest);
            assert(probe.ensures((s[a + 1].id, u), right));
            assert(right == rest);
        } else {
            assert(part.subrange(m - a, part.len() as int) =~= s.subrange(m, b));
            lemma_tree_agrees_with_span(
                *node.spec_right()->Node_0,
                slabs,
                probe,
                s,
                m,
                b,
                u,
                right,
                rest,
            );
        }
    }
}

/// The hit that a scan of the scene list finds is the nearest one.
///
/// Whatever an object answers when probed within the whole of `ray_t`, the
/// scan ends with a hit that is no farther. And the hit it ends with is what
/// one of the objects answered within a range that starts where `ray_t`
/// starts and ends no later.
pub proof fn lemma_scan_finds_the_nearest<G: Fn(usize, Interval) -> Option<HitRecord>>(
    probe: G,
    s: Seq<Primitive>,
    ray_t: Interval,
    best: Option<HitRecord>,
)
    requires
        ray_t.wf(),
        answers_in_range(probe),
        answers_steadily(probe),
        scanned(probe, s, ray_t, s.len(), best),
    ensures
        forall|i: int, h: HitRecord|
            0 <= i < s.len() && #[trigger] probe.ensures((s[i].id, ray_t), Some(h)) ==> best is Some
                && best->0.t <= h.t,
        best is Some ==> exists|i: int, u: Interval|
            0 <= i < s.len() && u.wf() && u.min == ray_t.min && u.max <= ray_t.max
                && #[trigger] probe.ensures(
                (s[i].id, u),
                best,
            ),
{
    lemma_scan_of_the_list(probe, s, ray_t, s.len(), best);
    lemma_span_finds_the_nearest(probe, s, ray_t, s.len() as int, best);
}

proof fn lemma_span_finds_the_nearest<G: Fn(usize, Interval) -> Option<HitRecord>>(
    probe: G,
    s: Seq<Primitive>,
    t: Interval,
    n: int,
    best: Option<HitRecord>,
)
    requires
        0 <= n <= s.len(),
        t.wf(),
        answers_in_range(probe),
        answers_steadily(probe),
        scanned_span(probe, s, t, None, 0, n, best),
    ensures
        forall|i: int, h: HitRecord|
            0 <= i < n && #[trigger] probe.ensures((s[i].id, t), Some(h)) ==> best is Some
                && best->0.t <= h.t,
        best is Some ==> exists|i: int, u: Interval|
            0 <= i < n && u.wf() && u.min == t.min && u.max <= t.max && #[trigger] probe.ensures(
                (s[i].id, u),
                best,
            ),
    decreases n,
{
    if n > 0 {
        let (prev, found) = choose|prev: Option<HitRecord>, found: Option<HitRecord>|
            scanned_span(probe, s, t, None, 0, n - 1, prev) && #[trigger] probe.ensures(
                (s[n - 1].id, range_after(t, prev)),
                found,
            ) && best == closer(prev, found);
        lemma_span_finds_the_nearest(probe, s, t, n - 1, prev);
        lemma_scan_stays_in_range(probe, s, t, 0, n - 1, prev);
        let u = range_after(t, prev);
        assert(u.wf() && u.min == t.min && u.max <= t.max);
        assert forall|i: int, h: HitRecord|
            0 <= i < n && #[trigger] probe.ensures((s[i].id, t), Some(h)) implies best is Some
            && best->0.t <= h.t by {
            if i == n - 1 {
                assert(probe.ensures((s[n - 1].id, u), found));
            }
        }
        if best is Some {
            if found is Some {
                assert(0 <= n - 1 < n && u.wf() && u.min == t.min && u.max <= t.max && probe.ensures(
                    (s[n - 1].id, u),
                    best,
                ));
            } else {
                let (i, v) = choose|i: int, v: Interval|
                    0 <= i < n - 1 && v.wf() && v.min == t.min && v.max <= t.max
                        && #[trigger] probe.ensures(
                        (s[i].id, v),
                        prev,
                    );
                assert(0 <= i < n && v.wf() && v.min == t.min && v.max <= t.max && probe.ensures(
                    (s[i].id, v),
                    best,
                ));
            }
        }
    }
}

/// What a scan made of the object at position `j`: the range in which it
/// was probed and what it answered. The range starts where `t` starts and is
/// cut off only at a hit that the scan had in hand, and the scan ends with a
/// hit no farther than that one and than the answer.
proof fn lemma_scan_probed_each<G: Fn(usize, Interval) -> Option<HitRecord>>(
    probe: G,
    s: Seq<Primitive>,
    t: Interval,
    n: int,
    best: Option<HitRecord>,
    j: int,
) -> (asked: (Interval, Option<HitRecord>))
    requires
        0 <= j < n <= s.len(),
        t.wf(),
        answers_in_range(probe),
        scanned_span(probe, s, t, None, 0, n, best),
    ensures
        probe.ensures((s[j].id, asked.0), asked.1),
        asked.0.wf(),
        asked.0.min == t.min,
        asked.0.max <= t.max,
        asked.0.max < t.max ==> best is Some && best->0.t <= asked.0.max,
        asked.1 matches Some(h) ==> best is Some && best->0.t <= h.t,
    decreases n,
{
    let (prev, found) = choose|prev: Option<HitRecord>, found: Option<HitRecord>|
        scanned_span(probe, s, t, None, 0, n - 1, prev) && #[trigger] probe.ensures(
            (s[n - 1].id, range_after(t, prev)),
            found,
        ) && best == closer(prev, found);
    lemma_scan_stays_in_range(probe, s, t, 0, n - 1, prev);
    if j == n - 1 {
        (range_after(t, prev), found)
    } else {
        lemma_scan_probed_each(probe, s, t, n - 1, prev, j)
    }
}

proof fn lemma_scan_is_no_farther<G: Fn(usize, Interval) -> Option<HitRecord>>(
    probe: G,
    first: Seq<Primitive>,
    second: Seq<Primitive>,
    t: Interval,
    one: HitRecord,
    other: Option<HitRecord>,
)
    requires
        first.to_multiset() == second.to_multiset(),
        t.wf(),
        answers_in_range(probe),
        answers_steadily(probe),
        scanned_span(probe, first, t, None, 0, first.len() as int, Some(one)),
        scanned_span(probe, second, t, None, 0, second.len() as int, other),
    ensures
        other is Some && other->0.t <= one.t,
{
    lemma_span_finds_the_nearest(probe, first, t, first.len() as int, Some(one));
    let (i, v) = choose|i: int, v: Interval|
        0 <= i < first.len() && v.wf() && v.min == t.min && v.max <= t.max
            && #[trigger] probe.ensures(
            (first[i].id, v),
            Some(one),
        );
    vstd::seq_lib::to_multiset_contains(first, first[i]);
    vstd::seq_lib::to_multiset_contains(second, first[i]);
    assert(first.contains(first[i]));
    assert(second.contains(first[i]));
    let j = choose|j: int| 0 <= j < second.len() && second[j] == first[i];
    let (w, answer) = lemma_scan_probed_each(probe, second, t, second.len() as int, other, j);
    assert(v.spec_surrounds(one.t as int));
    if w.max <= v.max {
        assert(probe.ensures((first[i].id, v), Some(one)) && probe.ensures(
            (first[i].id, w),
            answer,
        ));
    } else {
        assert(probe.ensures((first[i].id, w), answer) && probe.ensures(
            (first[i].id, v),
            Some(one),
        ));
    }
}

/// A scan finds a hit at the same parameter in whatever order the objects
/// stand: of two scans of the same objects, either both find nothing or both
/// find a hit, and at the same parameter. So the hierarchy, which
/// agrees with the scan of the list as it left it, is as near as the scan of
/// the list as it was.
pub proof fn lemma_scan_in_any_order<G: Fn(usize, Interval) -> Option<HitRecord>>(
    probe: G,
    first: Seq<Primitive>,
    second: Seq<Primitive>,
    ray_t: Interval,
    one: Option<HitRecord>,
    other: Option<HitRecord>,
)
    requires
        first.to_multiset() == second.to_multiset(),
        ray_t.wf(),
        answers_in_range(probe),
        answers_steadily(probe),
        scanned(probe, first, ray_t, first.len(), one),
        scanned(probe, second, ray_t, second.len(), other),
    ensures
        one is Some <==> other is Some,
        one is Some ==> one->0.t == other->0.t,
{
    lemma_scan_of_the_list(probe, first, ray_t, first.len(), one);
    lemma_scan_of_the_list(probe, second, ray_t, second.len(), other);
    if let Some(h) = one {
        lemma_scan_is_no_farther(probe, first, second, ray_t, h, other);
    }
    if let Some(h) = other {
        lemma_scan_is_no_farther(probe, second, first, ray_t, h, one);
    }
}

/// `probe` has an answer for the object numbered `id` within `t`.
pub open spec fn answers<G: Fn(usize, Interval) -> Option<HitRecord>>(probe: G, id: usize, t: Interval) -> bool {
    exists|r: Option<HitRecord>| #[trigger] probe.ensures((id, t), r)
}

/// `probe` has an answer for every object of `s` within every range.
pub open spec fn answers_always<G: Fn(usize, Interval) -> Option<HitRecord>>(
    probe: G,
    s: Seq<Primitive>,
) -> bool {
    forall|i: int, t: Interval| 0 <= i < s.len() ==> #[trigger] answers(probe, s[i].id, t)
}

proof fn lemma_some_scan<G: Fn(usize, Interval) -> Option<HitRecord>>(
    probe: G,
    s: Seq<Primitive>,
    t: Interval,
    n: nat,
) -> (best: Option<HitRecord>)
    requires
        n <= s.len(),
        answers_always(probe, s),
    ensures
        scanned(probe, s, t, n, best),
    decreases n,
{
    if n == 0 {
        None
    } else {
        let prev = lemma_some_scan(probe, s, t, (n - 1) as nat);
        assert(answers(probe, s[n - 1].id, search_range(t, prev)));
        let found = choose|r: Option<HitRecord>| #[trigger]
            probe.ensures((s[n - 1].id, search_range(t, prev)), r);
        let best = closer(prev, found);
        assert(scanned(probe, s, t, (n - 1) as nat, prev) && probe.ensures(
            (s[n - 1].id, search_range(t, prev)),
            found,
        ) && best == closer(prev, found));
        best
    }
}

/// A search of the hierarchy is as near as a scan of the scene list in any
/// order, also the one in which the list stood before the hierarchy was
/// built over it: both find nothing, or both find a hit at the same
/// parameter.
///
/// This holds under what [`lemma_hierarchy_agrees_with_scan`] asks for, of a
/// `probe` that has an answer whenever it is asked.
pub proof fn lemma_hierarchy_is_as_near_as_any_scan<
    F: Fn(usize, Interval) -> Slab,
    G: Fn(usize, Interval) -> Option<HitRecord>,
>(
    node: BVHNode,
    slabs: F,
    probe: G,
    before: Seq<Primitive>,
    after: Seq<Primitive>,
    ray_t: Interval,
    through_tree: Option<HitRecord>,
    by_scan: Option<HitRecord>,
)
    requires
        before.to_multiset() == after.to_multiset(),
        node.spans(after),
        boxed(after),
        ray_t.wf(),
        answers_always(probe, after),
        answers_in_range(probe),
        answers_steadily(probe),
        forall|i: int| 0 <= i < after.len() ==> bounded_for(slabs, probe, #[trigger] after[i]),
        node.traced(slabs, probe, ray_t, through_tree),
        scanned(probe, before, ray_t, before.len(), by_scan),
    ensures
        through_tree is Some <==> by_scan is Some,
        through_tree is Some ==> through_tree->0.t == by_scan->0.t,
{
    let in_order = lemma_some_scan(probe, after, ray_t, after.len());
    lemma_hierarchy_agrees_with_scan(node, slabs, probe, after, ray_t, through_tree, in_order);
    lemma_scan_in_any_order(probe, after, before, ray_t, in_order, by_scan);
}

/// A search of the hierarchy finds exactly the hit that a scan of the scene
/// list finds, for the list in the order in which the hierarchy was built
/// over it.
///
/// This holds of a scene whose boxes are boxes of numbers, of a ray whose
/// parameter range is ordered, and of a `probe` and `slabs` that behave as a
/// ray does: hits lie
/// in the range asked for ([`answers_in_range`]), the answer for a shorter
/// range follows from that for a longer one ([`answers_steadily`]), and the
/// box of each object bounds it ([`bounded_for`]).
pub proof fn lemma_hierarchy_agrees_with_scan<
    F: Fn(usize, Interval) -> Slab,
    G: Fn(usize, Interval) -> Option<HitRecord>,
>(
    node: BVHNode,
    slabs: F,
    probe: G,
    s: Seq<Primitive>,
    ray_t: Interval,
    through_tree: Option<HitRecord>,
    by_scan: Option<HitRecord>,
)
    requires
        node.spans(s),
        boxed(s),
        ray_t.wf(),
        answers_in_range(probe),
        answers_steadily(probe),
        forall|i: int| 0 <= i < s.len() ==> bounded_for(slabs, probe, #[trigger] s[i]),
        node.traced(slabs, probe, ray_t, through_tree),
        scanned(probe, s, ray_t, s.len(), by_scan),
    ensures
        through_tree == by_scan,
{
    lemma_scan_of_the_list(probe, s, ray_t, s.len(), by_scan);
    assert(s.subrange(0, s.len() as int) =~= s);
    lemma_tree_agrees_with_span(
        node,
        slabs,
        probe,
        s,
        0,
        s.len() as int,
        ray_t,
        through_tree,
        by_scan,
    );
}

} // verus!
