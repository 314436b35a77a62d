use raytracer::camera::Bounce;
use raytracer::camera::Camera;
use raytracer::camera::PathEnd;
use raytracer::camera::Rows;
use raytracer::image::assemble;
use raytracer::image::channel;
use raytracer::image::header;
use raytracer::image::intensity;
use raytracer::image::push_decimal;
use raytracer::image::Rgb;
use raytracer::interval::Interval;
use raytracer::material::ScatterRecord;
use raytracer::ray::Ray;
use raytracer::scalar;
use raytracer::vec::Vec3;
use std::cell::RefCell;

fn code(x: f64) -> i64 {
    scalar::from_bits(x.to_bits())
}

fn number(c: i64) -> f64 {
    f64::from_bits(scalar::to_bits(c))
}

fn point(x: f64, y: f64, z: f64) -> Vec3 {
    Vec3::new(code(x), code(y), code(z))
}

fn text(bytes: &[u8]) -> String {
    String::from_utf8(bytes.to_vec()).unwrap()
}

/// The linear colour that is written as the bytes `r`, `g`, `b`.
fn shade(r: u8, g: u8, b: u8) -> Vec3 {
    let linear = |byte: u8| {
        let shown = (byte as f64 + 0.5) / 256.0;
        shown * shown
    };
    point(linear(r), linear(g), linear(b))
}

fn camera(width: usize, rows: usize, depth: usize) -> Camera {
    Camera::new(width, rows, 1, depth, code(0.0), false)
}

fn ray(k: f64) -> Ray {
    Ray::new(point(k, 0.0, 0.0), point(0.0, 0.0, -1.0))
}

fn scatter(k: f64) -> ScatterRecord {
    ScatterRecord { scattered: ray(k), attenuation: point(0.5, 0.5, 0.5) }
}

fn root(c: i64) -> i64 {
    code(number(c).sqrt())
}

fn scale(c: i64) -> u8 {
    (number(c) * 256.0) as u8
}

/// The byte that a linear colour channel is written as.
fn quantise(linear: f64) -> u8 {
    channel(code(linear), &root, &scale)
}

#[test]
fn header_of_a_square_image() {
    let width = 100usize;
    let aspect_ratio = 1.0f64;
    let rows = (width as f64 / aspect_ratio) as usize;
    let c = Camera::new(width, rows, 10, 50, code(0.0), false);
    assert_eq!(c.image_width(), 100);
    assert_eq!(c.image_height(), 100);
    let image = c.render(&vec![]);
    assert_eq!(text(&image), "P3\n100 100\n255\n");
    assert_eq!(text(&header(100, 100)), "P3\n100 100\n255\n");
    let first = vec![b"1 2 3\n".to_vec()];
    assert!(text(&c.render(&first)).starts_with("P3\n100 100\n255\n"));
}

#[test]
fn header_of_other_sizes() {
    assert_eq!(text(&header(1280, 720)), "P3\n1280 720\n255\n");
    assert_eq!(text(&header(1, 1)), "P3\n1 1\n255\n");
    assert_eq!(text(&header(0, 7)), "P3\n0 7\n255\n");
}

#[test]
fn decimal_digits() {
    for n in [0usize, 1, 9, 10, 11, 99, 100, 101, 255, 256, 1000, 65535, 4294967295, usize::MAX] {
        let mut out = b"x".to_vec();
        push_decimal(&mut out, n);
        assert_eq!(text(&out), format!("x{}", n));
    }
}

#[test]
fn pixel_line_has_three_channels() {
    let mut out = Vec::new();
    Rgb { r: 255, g: 0, b: 17 }.write(&mut out);
    assert_eq!(text(&out), "255 0 17\n");
    Rgb { r: 1, g: 20, b: 200 }.write(&mut out);
    assert_eq!(text(&out), "255 0 17\n1 20 200\n");
}

#[test]
fn channels_are_clamped_below_full_brightness() {
    assert_eq!(intensity(), Interval { min: code(0.0), max: code(0.999) });
    assert_eq!(quantise(0.0), 0);
    assert_eq!(quantise(-3.0), 0);
    assert_eq!(quantise(0.25), 128);
    assert_eq!(quantise(0.0625), 64);
    assert_eq!(quantise(0.99), 254);
    assert_eq!(quantise(1.0), 255);
    assert_eq!(quantise(50.0), 255);
    assert_eq!(quantise(f64::INFINITY), 255);
}

#[test]
fn channel_asks_for_no_root_of_what_is_not_positive() {
    let asked: RefCell<Vec<i64>> = RefCell::new(Vec::new());
    let noting_root = |c: i64| {
        asked.borrow_mut().push(c);
        root(c)
    };
    let scaled: RefCell<Vec<i64>> = RefCell::new(Vec::new());
    let noting_scale = |c: i64| {
        scaled.borrow_mut().push(c);
        scale(c)
    };
    assert_eq!(channel(code(-1.0), &noting_root, &noting_scale), 0);
    assert_eq!(channel(code(0.0), &noting_root, &noting_scale), 0);
    assert!(asked.borrow().is_empty());
    assert_eq!(channel(code(4.0), &noting_root, &noting_scale), 255);
    assert_eq!(*asked.borrow(), vec![code(4.0)]);
    assert_eq!(*scaled.borrow(), vec![code(0.0), code(0.0), code(0.999)]);
}

#[test]
fn colour_is_written_as_a_line_of_three_bytes() {
    let mut out = b"0 0 0\n".to_vec();
    point(0.25, -1.0, 9.0).write(&mut out, &root, &scale);
    assert_eq!(text(&out), "0 0 0\n128 0 255\n");
    point(1.0, 0.0625, 0.0).write(&mut out, &root, &scale);
    assert_eq!(text(&out), "0 0 0\n128 0 255\n255 64 0\n");
}

#[test]
fn assemble_keeps_the_order_of_chunks() {
    let chunks = vec![b"1 1 1\n2 2 2\n".to_vec(), Vec::new(), b"3 3 3\n".to_vec()];
    assert_eq!(text(&assemble(3, 1, &chunks)), "P3\n3 1\n255\n1 1 1\n2 2 2\n3 3 3\n");
    assert_eq!(text(&assemble(3, 1, &vec![])), "P3\n3 1\n255\n");
}

#[test]
fn camera_is_at_least_one_row_high() {
    assert_eq!(camera(10, 0, 5).image_height(), 1);
    assert_eq!(camera(10, 1, 5).image_height(), 1);
    assert_eq!(camera(1280, 720, 5).image_height(), 720);
    let c = Camera::new(4, 3, 256, 50, code(0.6), true);
    assert_eq!(c.image_width(), 4);
    assert_eq!(c.samples_per_pixel(), 256);
    assert_eq!(c.max_depth(), 50);
    assert!(c.uses_defocus());
    assert!(c.uses_motion_blur());
    assert!(!camera(4, 3, 1).uses_defocus());
    assert!(!camera(4, 3, 1).uses_motion_blur());
    assert!(!Camera::new(4, 3, 1, 1, code(-1.0), false).uses_defocus());
    assert!(Camera::new(4, 3, 1, 1, code(f64::NAN), false).uses_defocus());
    assert!(Camera::new(4, 3, 1, 1, code(-f64::NAN), false).uses_defocus());
}

#[test]
fn four_processors_are_left_free() {
    assert_eq!(Camera::thread_count(0), 1);
    assert_eq!(Camera::thread_count(1), 1);
    assert_eq!(Camera::thread_count(4), 1);
    assert_eq!(Camera::thread_count(5), 1);
    assert_eq!(Camera::thread_count(6), 2);
    assert_eq!(Camera::thread_count(24), 20);
    assert_eq!(Camera::thread_count(usize::MAX), usize::MAX - 4);
}

#[test]
fn batches_cover_the_rows_in_order() {
    let c = camera(4, 10, 1);
    assert_eq!(
        c.batches(3),
        vec![Rows { start: 0, end: 3 }, Rows { start: 3, end: 6 }, Rows { start: 6, end: 10 }]
    );
    assert_eq!(c.batches(1), vec![Rows { start: 0, end: 10 }]);
    assert_eq!(
        c.batches(5),
        vec![
            Rows { start: 0, end: 2 },
            Rows { start: 2, end: 4 },
            Rows { start: 4, end: 6 },
            Rows { start: 6, end: 8 },
            Rows { start: 8, end: 10 },
        ]
    );
    let small = camera(4, 2, 1);
    assert_eq!(
        small.batches(4),
        vec![
            Rows { start: 0, end: 0 },
            Rows { start: 0, end: 0 },
            Rows { start: 0, end: 0 },
            Rows { start: 0, end: 2 },
        ]
    );
    for height in [1usize, 7, 64, 720, 1000] {
        for workers in [1usize, 2, 3, 7, 20, 64, 2000] {
            let plan = camera(4, height, 1).batches(workers);
            assert_eq!(plan.len(), workers);
            let mut next = 0;
            for rows in &plan {
                assert_eq!(rows.start, next);
                assert!(rows.start <= rows.end);
                next = rows.end;
            }
            assert_eq!(next, height);
        }
    }
}

#[test]
fn plan_for_this_machine_covers_the_rows() {
    let c = camera(4, 123, 1);
    let plan = c.plan();
    assert!(!plan.is_empty());
    assert_eq!(plan, c.batches(plan.len()));
    assert_eq!(plan[0].start, 0);
    assert_eq!(plan[plan.len() - 1].end, 123);
}

#[test]
fn rows_are_rendered_from_the_top_and_from_the_left() {
    let c = camera(3, 4, 1);
    let asked: RefCell<Vec<(usize, usize)>> = RefCell::new(Vec::new());
    let pixel = |i: usize, j: usize| {
        asked.borrow_mut().push((i, j));
        shade(i as u8, j as u8, 9)
    };
    let data = c.render_rows(Rows { start: 1, end: 3 }, &pixel, &root, &scale);
    assert_eq!(text(&data), "0 1 9\n1 1 9\n2 1 9\n0 2 9\n1 2 9\n2 2 9\n");
    assert_eq!(*asked.borrow(), vec![(0, 1), (1, 1), (2, 1), (0, 2), (1, 2), (2, 2)]);
    assert_eq!(c.render_rows(Rows { start: 2, end: 2 }, &pixel, &root, &scale), Vec::<u8>::new());
}

#[test]
fn image_is_the_same_however_the_rows_are_split() {
    let c = camera(5, 7, 1);
    let pixel = |i: usize, j: usize| shade((i * 40) as u8, (j * 30) as u8, (i + j) as u8);
    let whole = c.render(&vec![c.render_rows(Rows { start: 0, end: 7 }, &pixel, &root, &scale)]);
    assert!(text(&whole).ends_with("120 180 9\n160 180 10\n"));
    for workers in [1usize, 2, 3, 7, 12] {
        let chunks: Vec<Vec<u8>> = c
            .batches(workers)
            .iter()
            .map(|rows| c.render_rows(*rows, &pixel, &root, &scale))
            .collect();
        assert_eq!(c.render(&chunks), whole);
    }
    assert_eq!(text(&whole).lines().count(), 3 + 35);
}

#[test]
fn visible_range_starts_just_off_the_surface() {
    assert_eq!(Camera::visible_range(), Interval { min: code(0.001), max: code(f64::INFINITY) });
}

#[test]
fn path_without_depth_is_exhausted_at_once() {
    let c = camera(2, 2, 0);
    let never = |_r: Ray| -> Bounce { panic!("no bounce is due") };
    let path = c.ray_color(ray(0.0), 0, &never);
    assert_eq!(path.end, PathEnd::Exhausted);
    assert!(path.bounces.is_empty());
}

#[test]
fn path_ends_where_the_ray_escapes_or_is_absorbed() {
    let c = camera(2, 2, 50);
    let miss = |_r: Ray| Bounce::Miss;
    let escaped = c.ray_color(ray(0.0), 50, &miss);
    assert_eq!(escaped.end, PathEnd::Escaped);
    assert!(escaped.bounces.is_empty());
    assert_eq!(escaped.last_ray(ray(0.0)), ray(0.0));
    let absorb = |_r: Ray| Bounce::Absorbed;
    let absorbed = c.ray_color(ray(0.0), 50, &absorb);
    assert_eq!(absorbed.end, PathEnd::Absorbed);
    assert!(absorbed.bounces.is_empty());
}

#[test]
fn path_follows_each_scattered_ray() {
    let c = camera(2, 2, 50);
    let asked: RefCell<Vec<Ray>> = RefCell::new(Vec::new());
    let bounce = |r: Ray| {
        asked.borrow_mut().push(r);
        let k = number(r.origin.x);
        if k < 3.0 {
            Bounce::Scattered(scatter(k + 1.0))
        } else {
            Bounce::Miss
        }
    };
    let path = c.ray_color(ray(0.0), 50, &bounce);
    assert_eq!(path.end, PathEnd::Escaped);
    assert_eq!(path.bounces, vec![scatter(1.0), scatter(2.0), scatter(3.0)]);
    assert_eq!(path.last_ray(ray(0.0)), ray(3.0));
    assert_eq!(*asked.borrow(), vec![ray(0.0), ray(1.0), ray(2.0), ray(3.0)]);
    asked.borrow_mut().clear();
    let cut = c.ray_color(ray(0.0), 2, &bounce);
    assert_eq!(cut.end, PathEnd::Exhausted);
    assert_eq!(cut.bounces, vec![scatter(1.0), scatter(2.0)]);
    assert_eq!(*asked.borrow(), vec![ray(0.0), ray(1.0)]);
    let exact = c.ray_color(ray(0.0), 3, &bounce);
    assert_eq!(exact.end, PathEnd::Exhausted);
    assert_eq!(exact.bounces.len(), 3);
    let one_more = c.ray_color(ray(0.0), 4, &bounce);
    assert_eq!(one_more.end, PathEnd::Escaped);
    assert_eq!(one_more.bounces.len(), 3);
}

#[test]
fn channel_that_is_not_a_number_is_written_as_zero() {
    let asked: RefCell<Vec<i64>> = RefCell::new(Vec::new());
    let noting_root = |c: i64| {
        asked.borrow_mut().push(c);
        root(c)
    };
    assert_eq!(channel(code(f64::NAN), &noting_root, &scale), 0);
    assert_eq!(channel(code(-f64::NAN), &noting_root, &scale), 0);
    assert!(asked.borrow().is_empty());
    assert_eq!(channel(code(f64::INFINITY), &noting_root, &scale), 255);
    assert_eq!(*asked.borrow(), vec![code(f64::INFINITY)]);
    let no_root = |_c: i64| code(f64::NAN);
    assert_eq!(channel(code(0.5), &no_root, &scale), 0);
    let mut out = Vec::new();
    point(f64::NAN, 0.0, -f64::NAN).write(&mut out, &root, &scale);
    assert_eq!(text(&out), "0 0 0\n");
}

#[test]
fn larger_channel_never_gives_a_smaller_byte() {
    let mut last = 0u8;
    for k in 0..2000 {
        let linear = (k as f64 - 100.0) / 1500.0;
        let byte = quantise(linear);
        assert!(byte >= last);
        assert_eq!(byte as f64, (256.0 * linear.max(0.0).sqrt().clamp(0.0, 0.999)).floor());
        last = byte;
    }
    assert_eq!(last, 255);
}
