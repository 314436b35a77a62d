use raytracer::aabb::Slab;
use raytracer::aabb::AABB;
use raytracer::bvh::box_compare;
use raytracer::bvh::sort_span;
use raytracer::bvh::BVHNode;
use raytracer::bvh::Branch;
use raytracer::hittable::HitRecord;
use raytracer::hittable::Hittable;
use raytracer::hittable::HittableList;
use raytracer::hittable::Primitive;
use raytracer::interval::Interval;
use raytracer::scalar;
use raytracer::sphere::Sphere;
use raytracer::utils::random_u64;
use raytracer::vec::Vec3;
use std::cell::Cell;

fn code(x: f64) -> i64 {
    scalar::from_bits(x.to_bits())
}

fn number(c: i64) -> f64 {
    f64::from_bits(scalar::to_bits(c))
}

fn point(v: [f64; 3]) -> Vec3 {
    Vec3::new(code(v[0]), code(v[1]), code(v[2]))
}

fn range(a: f64, b: f64) -> Interval {
    Interval::new(code(a), code(b))
}

/// A small generator of its own, so that the scenes are the same in every run.
struct Lcg(u64);

impl Lcg {
    fn next(&mut self) -> f64 {
        self.0 = self.0.wrapping_mul(6364136223846793005).wrapping_add(1442695040888963407);
        ((self.0 >> 11) as f64) / ((1u64 << 53) as f64)
    }

    fn between(&mut self, low: f64, high: f64) -> f64 {
        low + (high - low) * self.next()
    }
}

#[derive(Clone, Copy)]
struct Ball {
    center: [f64; 3],
    radius: f64,
}

fn dot(a: [f64; 3], b: [f64; 3]) -> f64 {
    a[0] * b[0] + a[1] * b[1] + a[2] * b[2]
}

fn boxed(ball: &Ball, material: usize) -> Sphere {
    let c = ball.center;
    let r = ball.radius;
    Sphere::new(
        point(c),
        code(r),
        material,
        point([c[0] - r, c[1] - r, c[2] - r]),
        point([c[0] + r, c[1] + r, c[2] + r]),
    )
}

fn scene(balls: &[Ball]) -> (HittableList, Vec<Sphere>) {
    let mut list = HittableList::new();
    let mut spheres = Vec::new();
    for (k, ball) in balls.iter().enumerate() {
        let sphere = boxed(ball, k);
        assert_eq!(list.add(&sphere), k);
        spheres.push(sphere);
    }
    (list, spheres)
}

fn slab_of(origin: [f64; 3], dir: [f64; 3], n: usize, ax: Interval) -> Slab {
    let adinv = 1.0 / dir[n];
    let t0 = (number(ax.min) - origin[n]) * adinv;
    let t1 = (number(ax.max) - origin[n]) * adinv;
    Slab { t0: code(t0), t1: code(t1) }
}

fn probe_ball(
    ball: &Ball,
    sphere: &Sphere,
    origin: [f64; 3],
    dir: [f64; 3],
    t: Interval,
) -> Option<HitRecord> {
    let oc = [ball.center[0] - origin[0], ball.center[1] - origin[1], ball.center[2] - origin[2]];
    let a = dot(dir, dir);
    let h = dot(dir, oc);
    let c = dot(oc, oc) - ball.radius * ball.radius;
    let discriminant = h * h - a * c;
    let (near, far) = if discriminant < 0.0 {
        (0.0, 0.0)
    } else {
        ((h - discriminant.sqrt()) / a, (h + discriminant.sqrt()) / a)
    };
    let root = number(sphere.hit(code(discriminant), code(near), code(far), t)?);
    let p = [origin[0] + root * dir[0], origin[1] + root * dir[1], origin[2] + root * dir[2]];
    let normal = [
        (p[0] - ball.center[0]) / ball.radius,
        (p[1] - ball.center[1]) / ball.radius,
        (p[2] - ball.center[2]) / ball.radius,
    ];
    Some(HitRecord::new(point(p), point(normal), code(dot(dir, normal)), sphere.material(), code(root)))
}

fn leaves(branch: &Branch, out: &mut Vec<usize>) {
    match branch {
        Branch::Leaf(p) => out.push(p.id),
        Branch::Node(n) => {
            leaves(n.left(), out);
            leaves(n.right(), out);
        }
    }
}

fn check_boxes(node: &BVHNode) {
    let both = AABB::from_boxes(node.left().bounding_box(), node.right().bounding_box());
    assert_eq!(*node.bounding_box(), both);
    if let Branch::Node(n) = node.left() {
        check_boxes(n);
    }
    if let Branch::Node(n) = node.right() {
        check_boxes(n);
    }
}

fn grid(side: usize) -> Vec<Ball> {
    let mut balls = Vec::new();
    for i in 0..side {
        for j in 0..side {
            balls.push(Ball { center: [i as f64 * 3.0, j as f64 * 3.0, -10.0 - (i + j) as f64], radius: 1.0 });
        }
    }
    balls
}

fn cloud(rng: &mut Lcg, count: usize, spread: f64, largest: f64) -> Vec<Ball> {
    let mut balls = Vec::new();
    for _ in 0..count {
        balls.push(Ball {
            center: [rng.between(-spread, spread), rng.between(-spread, spread), rng.between(-spread, spread)],
            radius: rng.between(0.1, largest),
        });
    }
    balls
}

fn compare_with_scan(balls: Vec<Ball>, rays: usize, seed: u64) {
    let (mut list, spheres) = scene(&balls);
    let tree = BVHNode::new(&mut list);
    let mut rng = Lcg(seed);
    let mut hits = 0;
    for _ in 0..rays {
        let origin = [rng.between(-30.0, 30.0), rng.between(-30.0, 30.0), rng.between(20.0, 40.0)];
        let target = balls[(rng.next() * balls.len() as f64) as usize % balls.len()].center;
        let dir = [
            target[0] - origin[0] + rng.between(-1.5, 1.5),
            target[1] - origin[1] + rng.between(-1.5, 1.5),
            target[2] - origin[2] + rng.between(-1.5, 1.5),
        ];
        let slabs = |n: usize, ax: Interval| slab_of(origin, dir, n, ax);
        let probe = |id: usize, t: Interval| probe_ball(&balls[id], &spheres[id], origin, dir, t);
        let t = range(0.001, f64::MAX);
        let through_tree = tree.hit(t, &slabs, &probe);
        let by_scan = list.hit(t, &probe);
        match (through_tree, by_scan) {
            (None, None) => {}
            (Some(a), Some(b)) => {
                hits += 1;
                assert!((number(a.t) - number(b.t)).abs() <= 1e-9, "{} {}", number(a.t), number(b.t));
            }
            (a, b) => panic!("tree {:?}, scan {:?}", a, b),
        }
    }
    assert!(hits > rays / 10, "only {} of {} rays hit anything", hits, rays);
}

#[test]
fn random_axis_is_one_of_three() {
    let mut seen = [false; 3];
    for _ in 0..300 {
        let axis = random_u64(0, 2);
        assert!(axis <= 2);
        seen[axis as usize] = true;
    }
    assert_eq!(seen, [true, true, true]);
    for _ in 0..100 {
        let n = random_u64(40, 41);
        assert!(n == 40 || n == 41);
    }
    assert_eq!(random_u64(7, 7), 7);
    assert_eq!(random_u64(u64::MAX, u64::MAX), u64::MAX);
    for _ in 0..100 {
        assert!(random_u64(u64::MAX - 1, u64::MAX) >= u64::MAX - 1);
    }
    let mut high = false;
    for _ in 0..200 {
        high = high || random_u64(0, u64::MAX) > u64::MAX / 2;
    }
    assert!(high);
}

#[test]
fn box_compare_orders_by_lower_bound() {
    let a = Primitive { id: 0, bbox: AABB::from_points(point([0.0, 5.0, -1.0]), point([9.0, 6.0, 0.0])) };
    let b = Primitive { id: 1, bbox: AABB::from_points(point([1.0, 4.0, -1.0]), point([2.0, 5.0, 8.0])) };
    assert!(box_compare(&a, &b, 0));
    assert!(!box_compare(&b, &a, 0));
    assert!(!box_compare(&a, &b, 1));
    assert!(box_compare(&b, &a, 1));
    assert!(!box_compare(&a, &b, 2));
    assert!(!box_compare(&b, &a, 2));
}

#[test]
fn sort_span_sorts_only_the_span() {
    let lows = [5.0, 9.0, 3.0, 7.0, 1.0, 8.0, 2.0];
    let mut objects: Vec<Primitive> = lows
        .iter()
        .enumerate()
        .map(|(id, low)| Primitive {
            id,
            bbox: AABB::from_points(point([*low, -*low, 0.0]), point([*low + 1.0, -*low + 1.0, 1.0])),
        })
        .collect();
    let before = objects.clone();
    sort_span(&mut objects, 1, 6, 0);
    let ids: Vec<usize> = objects.iter().map(|p| p.id).collect();
    assert_eq!(ids, vec![0, 4, 2, 3, 5, 1, 6]);
    for p in &objects {
        assert_eq!(*p, before[p.id]);
    }
    sort_span(&mut objects, 0, 7, 1);
    let ids: Vec<usize> = objects.iter().map(|p| p.id).collect();
    assert_eq!(ids, vec![1, 5, 3, 0, 2, 6, 4]);
    sort_span(&mut objects, 3, 3, 0);
    sort_span(&mut objects, 7, 7, 2);
    let ids: Vec<usize> = objects.iter().map(|p| p.id).collect();
    assert_eq!(ids, vec![1, 5, 3, 0, 2, 6, 4]);
}

#[test]
fn hierarchy_over_one_object_has_it_on_both_sides() {
    let balls = [Ball { center: [0.0, 0.0, -1.0], radius: 0.5 }];
    let (mut list, spheres) = scene(&balls);
    let tree = BVHNode::new(&mut list);
    let only = Primitive { id: 0, bbox: *spheres[0].bounding_box() };
    assert!(matches!(tree.left(), Branch::Leaf(p) if *p == only));
    assert!(matches!(tree.right(), Branch::Leaf(p) if *p == only));
    assert_eq!(*tree.bounding_box(), *spheres[0].bounding_box());
}

#[test]
fn hierarchy_over_two_objects_keeps_their_order() {
    let balls = [Ball { center: [5.0, 0.0, 0.0], radius: 1.0 }, Ball { center: [-5.0, 0.0, 0.0], radius: 2.0 }];
    let (mut list, spheres) = scene(&balls);
    let tree = BVHNode::new(&mut list);
    assert!(matches!(tree.left(), Branch::Leaf(p) if p.id == 0));
    assert!(matches!(tree.right(), Branch::Leaf(p) if p.id == 1));
    let order: Vec<usize> = list.get_objects().iter().map(|p| p.id).collect();
    assert_eq!(order, vec![0, 1]);
    assert_eq!(
        *tree.bounding_box(),
        AABB::from_boxes(spheres[0].bounding_box(), spheres[1].bounding_box())
    );
}

#[test]
fn hierarchy_splits_in_the_middle_along_some_axis() {
    let mut rng = Lcg(11);
    for count in [3usize, 4, 5, 8, 13, 64] {
        let balls = cloud(&mut rng, count, 20.0, 2.0);
        let (mut list, spheres) = scene(&balls);
        let list_box = *list.bounding_box();
        let tree = BVHNode::new(&mut list);
        assert_eq!(*list.bounding_box(), list_box);
        check_boxes(&tree);
        let mut left = Vec::new();
        let mut right = Vec::new();
        leaves(tree.left(), &mut left);
        leaves(tree.right(), &mut right);
        left.sort();
        left.dedup();
        right.sort();
        right.dedup();
        assert_eq!(left.len(), count / 2, "count {}", count);
        assert_eq!(right.len(), count - count / 2, "count {}", count);
        let mut all: Vec<usize> = left.iter().chain(right.iter()).copied().collect();
        all.sort();
        all.dedup();
        assert_eq!(all, (0..count).collect::<Vec<usize>>());
        let ordered: Vec<usize> = list.get_objects().iter().map(|p| p.id).collect();
        let mut sorted_ids = ordered.clone();
        sorted_ids.sort();
        assert_eq!(sorted_ids, (0..count).collect::<Vec<usize>>());
        for p in list.get_objects().iter() {
            assert_eq!(p.bbox, *spheres[p.id].bounding_box());
        }
        let split = (0..3).any(|axis| {
            let greatest_left = left
                .iter()
                .map(|id| spheres[*id].bounding_box().axis_interval(axis).min)
                .max()
                .unwrap();
            let least_right = right
                .iter()
                .map(|id| spheres[*id].bounding_box().axis_interval(axis).min)
                .min()
                .unwrap();
            greatest_left <= least_right
        });
        assert!(split, "count {}", count);
    }
}

#[test]
fn hierarchy_skips_what_the_ray_misses() {
    let balls = grid(8);
    let (mut list, spheres) = scene(&balls);
    let tree = BVHNode::new(&mut list);
    let origin = [0.0, 0.0, 20.0];
    let dir = [0.0, 0.0, -1.0];
    let probed = Cell::new(0usize);
    let slabs = |n: usize, ax: Interval| slab_of(origin, dir, n, ax);
    let probe = |id: usize, t: Interval| {
        probed.set(probed.get() + 1);
        probe_ball(&balls[id], &spheres[id], origin, dir, t)
    };
    let hit = tree.hit(range(0.001, f64::MAX), &slabs, &probe).unwrap();
    assert_eq!(hit.material, 0);
    assert!((number(hit.t) - 29.0).abs() < 1e-9);
    assert!(hit.is_front_face);
    assert!(probed.get() < balls.len() / 2, "{} probes", probed.get());
    probed.set(0);
    let away = [0.0, 0.0, 1.0];
    let slabs_away = |n: usize, ax: Interval| slab_of(origin, away, n, ax);
    let probe_away = |id: usize, t: Interval| {
        probed.set(probed.get() + 1);
        probe_ball(&balls[id], &spheres[id], origin, away, t)
    };
    assert_eq!(tree.hit(range(0.001, f64::MAX), &slabs_away, &probe_away), None);
    assert_eq!(probed.get(), 0);
}

#[test]
fn hierarchy_prefers_the_hit_on_the_right() {
    let balls = [Ball { center: [0.0, 0.0, -5.0], radius: 1.0 }, Ball { center: [0.0, 0.0, -2.0], radius: 1.0 }];
    let (mut list, spheres) = scene(&balls);
    let tree = BVHNode::new(&mut list);
    let origin = [0.0, 0.0, 0.0];
    let dir = [0.0, 0.0, -1.0];
    let slabs = |n: usize, ax: Interval| slab_of(origin, dir, n, ax);
    let asked: std::cell::RefCell<Vec<(usize, Interval)>> = std::cell::RefCell::new(Vec::new());
    let probe = |id: usize, t: Interval| {
        asked.borrow_mut().push((id, t));
        probe_ball(&balls[id], &spheres[id], origin, dir, t)
    };
    let hit = tree.hit(range(0.001, f64::MAX), &slabs, &probe).unwrap();
    assert_eq!(hit.material, 1);
    assert_eq!(number(hit.t), 1.0);
    assert_eq!(*asked.borrow(), vec![(0, range(0.001, f64::MAX)), (1, range(0.001, 4.0))]);
}

#[test]
fn hierarchy_agrees_with_scan_on_a_grid() {
    compare_with_scan(grid(10), 400, 1);
}

#[test]
fn hierarchy_agrees_with_scan_on_overlapping_spheres() {
    let mut rng = Lcg(2);
    compare_with_scan(cloud(&mut rng, 137, 8.0, 4.0), 400, 3);
}

#[test]
fn hierarchy_agrees_with_scan_on_many_spheres() {
    let mut rng = Lcg(4);
    let mut balls = cloud(&mut rng, 300, 25.0, 1.5);
    balls.extend(cloud(&mut rng, 200, 5.0, 3.0));
    assert_eq!(balls.len(), 500);
    compare_with_scan(balls, 300, 5);
}

#[test]
fn hierarchy_agrees_with_scan_on_ten_spheres() {
    let mut rng = Lcg(6);
    compare_with_scan(cloud(&mut rng, 10, 6.0, 2.0), 400, 7);
}

#[test]
fn dead_centre_ray_meets_the_sphere_at_both_roots() {
    for (d, r) in [(5.0f64, 1.0f64), (10.0, 0.5), (3.25, 2.0), (1000.0, 1.0)] {
        let ball = Ball { center: [0.0, 0.0, -d], radius: r };
        let sphere = boxed(&ball, 0);
        let origin = [0.0, 0.0, 0.0];
        let dir = [0.0, 0.0, -1.0];
        let first = probe_ball(&ball, &sphere, origin, dir, range(0.001, f64::MAX)).unwrap();
        assert!((number(first.t) - (d - r)).abs() <= 1e-6);
        assert!(first.is_front_face);
        let beyond = range(number(first.t), f64::MAX);
        let second = probe_ball(&ball, &sphere, origin, dir, beyond).unwrap();
        assert!((number(second.t) - (d + r)).abs() <= 1e-6);
        assert!(!second.is_front_face);
        let past = range(number(second.t), f64::MAX);
        assert_eq!(probe_ball(&ball, &sphere, origin, dir, past), None);
        let slanted = [0.0, 0.0, -2.0];
        let scaled = probe_ball(&ball, &sphere, origin, slanted, range(0.001, f64::MAX)).unwrap();
        assert!((number(scaled.t) - (d - r) / 2.0).abs() <= 1e-6);
    }
}
