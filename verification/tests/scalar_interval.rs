use raytracer::interval::Interval;
use raytracer::scalar;

fn code(x: f64) -> i64 {
    scalar::from_bits(x.to_bits())
}

fn number(c: i64) -> f64 {
    f64::from_bits(scalar::to_bits(c))
}

#[test]
fn codes_of_constants_match_their_numbers() {
    assert_eq!(scalar::ONE, code(1.0));
    assert_eq!(scalar::MAX, code(f64::MAX));
    assert_eq!(scalar::INFINITY, code(f64::INFINITY));
    assert_eq!(raytracer::vec::NEAR_ZERO, code(1e-8));
    assert_eq!(raytracer::vec::SHORTEST_SQUARED_LENGTH, code(1e-169));
    assert_eq!(raytracer::image::BRIGHTEST, code(0.999));
    assert_eq!(raytracer::camera::NEAREST_HIT, code(0.001));
    assert_eq!(scalar::SIGN_BIT, (-0.0f64).to_bits());
}

#[test]
fn zero_has_code_zero_whatever_its_sign() {
    assert_eq!(code(0.0), 0);
    assert_eq!(code(-0.0), 0);
    assert_eq!(scalar::to_bits(0), 0);
}

#[test]
fn codes_round_trip() {
    let samples = [
        1.0, -1.0, 0.5, -0.5, 1e-300, -1e-300, 123456.789, -987.125, f64::MAX, f64::MIN,
        f64::INFINITY, f64::NEG_INFINITY, f64::MIN_POSITIVE, 5e-324,
    ];
    for x in samples {
        assert_eq!(number(code(x)), x);
        assert_eq!(code(number(code(x))), code(x));
    }
    assert_eq!(scalar::from_bits(0x4000_0000_0000_0000), 0x4000_0000_0000_0000);
    assert_eq!(scalar::from_bits(0xC000_0000_0000_0000), -0x4000_0000_0000_0000);
    assert_eq!(scalar::to_bits(-0x4000_0000_0000_0000), 0xC000_0000_0000_0000);
}

#[test]
fn codes_order_as_numbers_do() {
    let samples = [
        f64::NEG_INFINITY, f64::MIN, -1e10, -2.0, -1.0, -1e-8, -5e-324, 0.0, 5e-324, 1e-169, 1e-8,
        0.001, 0.5, 0.999, 1.0, 2.0, 1e10, f64::MAX, f64::INFINITY,
    ];
    for (i, a) in samples.iter().enumerate() {
        for (j, b) in samples.iter().enumerate() {
            assert_eq!(code(*a) < code(*b), a < b, "{} {}", i, j);
            assert_eq!(code(*a) == code(*b), a == b, "{} {}", i, j);
        }
    }
}

#[test]
fn negation_negates_the_code() {
    for x in [1.0, 0.25, 3.5e7, 0.0, f64::INFINITY] {
        assert_eq!(scalar::negate(code(x)), code(-x));
        assert_eq!(scalar::negate(code(-x)), code(x));
    }
}

#[test]
fn interval_new_puts_bounds_in_order() {
    let a = Interval::new(code(3.0), code(-2.0));
    assert_eq!(a, Interval { min: code(-2.0), max: code(3.0) });
    let b = Interval::new(code(-2.0), code(3.0));
    assert_eq!(a, b);
    let point = Interval::new(code(1.5), code(1.5));
    assert_eq!(point, Interval { min: code(1.5), max: code(1.5) });
}

#[test]
fn interval_union_takes_outer_bounds() {
    let a = Interval::new(code(0.0), code(2.0));
    let b = Interval::new(code(-1.0), code(1.0));
    assert_eq!(Interval::from_intervals(&a, &b), Interval { min: code(-1.0), max: code(2.0) });
    assert_eq!(Interval::from_intervals(&b, &a), Interval { min: code(-1.0), max: code(2.0) });
    let c = Interval::new(code(5.0), code(6.0));
    assert_eq!(Interval::from_intervals(&a, &c), Interval { min: code(0.0), max: code(6.0) });
    assert_eq!(Interval::from_intervals(&a, &a), a);
}

#[test]
fn interval_surrounds_is_strict() {
    let a = Interval::new(code(1.0), code(2.0));
    assert!(a.surrounds(code(1.5)));
    assert!(!a.surrounds(code(1.0)));
    assert!(!a.surrounds(code(2.0)));
    assert!(!a.surrounds(code(0.0)));
    assert!(!a.surrounds(code(3.0)));
    let point = Interval::new(code(1.0), code(1.0));
    assert!(!point.surrounds(code(1.0)));
}

#[test]
fn interval_clamp_projects_into_the_range() {
    let a = Interval::new(code(-1.0), code(2.0));
    assert_eq!(a.clamp(code(0.5)), code(0.5));
    assert_eq!(a.clamp(code(-1.0)), code(-1.0));
    assert_eq!(a.clamp(code(2.0)), code(2.0));
    assert_eq!(a.clamp(code(-7.0)), code(-1.0));
    assert_eq!(a.clamp(code(9.0)), code(2.0));
    assert_eq!(a.clamp(code(f64::INFINITY)), code(2.0));
    assert_eq!(a.clamp(code(f64::NEG_INFINITY)), code(-1.0));
    for x in [-3.0, -1.0, -0.5, 0.0, 1.0, 2.0, 2.5, 100.0] {
        let clamped = number(a.clamp(code(x)));
        assert!(-1.0 <= clamped && clamped <= 2.0);
        assert_eq!(clamped, x.max(-1.0).min(2.0));
    }
}

#[test]
fn interval_clamp_of_a_reversed_range_is_its_upper_field() {
    let reversed = Interval { min: code(2.0), max: code(1.0) };
    assert_eq!(reversed.clamp(code(0.0)), code(1.0));
    assert_eq!(reversed.clamp(code(5.0)), code(1.0));
}

#[test]
fn comparisons_pass_over_what_is_not_a_number() {
    let samples = [f64::NEG_INFINITY, -2.5, 0.0, 1e-300, 7.0, f64::INFINITY, f64::NAN, -f64::NAN];
    for a in samples {
        assert_eq!(scalar::is_a_number(code(a)), !a.is_nan());
        for b in samples {
            assert_eq!(scalar::less(code(a), code(b)), a < b, "{} < {}", a, b);
            assert_eq!(scalar::at_most(code(a), code(b)), a <= b, "{} <= {}", a, b);
            let low = number(scalar::min(code(a), code(b)));
            let high = number(scalar::max(code(a), code(b)));
            assert_eq!(low.is_nan(), a.min(b).is_nan());
            assert_eq!(high.is_nan(), a.max(b).is_nan());
            if !low.is_nan() {
                assert_eq!(low, a.min(b));
                assert_eq!(high, a.max(b));
            }
        }
    }
}

#[test]
fn interval_of_a_number_and_none_is_that_number() {
    for bad in [code(f64::NAN), code(-f64::NAN)] {
        assert_eq!(Interval::new(bad, code(3.0)), Interval { min: code(3.0), max: code(3.0) });
        assert_eq!(Interval::new(code(3.0), bad), Interval { min: code(3.0), max: code(3.0) });
        assert_eq!(Interval::new(bad, bad), Interval { min: bad, max: bad });
    }
    assert_eq!(
        Interval::new(code(f64::NAN), code(-f64::NAN)),
        Interval::new(code(-f64::NAN), code(f64::NAN))
    );
}

#[test]
fn interval_clamp_of_what_is_not_a_number_is_the_lower_bound() {
    let a = Interval::new(code(-1.0), code(2.0));
    assert_eq!(a.clamp(code(f64::NAN)), code(-1.0));
    assert_eq!(a.clamp(code(-f64::NAN)), code(-1.0));
    assert_eq!(number(a.clamp(code(f64::NAN))), f64::NAN.max(-1.0).min(2.0));
    let open_above = Interval { min: code(-1.0), max: code(f64::NAN) };
    assert_eq!(open_above.clamp(code(9.0)), code(9.0));
    assert_eq!(open_above.clamp(code(-9.0)), code(-1.0));
    let open_below = Interval { min: code(f64::NAN), max: code(2.0) };
    assert_eq!(open_below.clamp(code(-9.0)), code(-9.0));
    assert_eq!(open_below.clamp(code(9.0)), code(2.0));
}

#[test]
fn interval_union_keeps_a_bound_only_where_it_reaches_farther() {
    let a = Interval { min: code(f64::NAN), max: code(2.0) };
    let b = Interval { min: code(-1.0), max: code(f64::NAN) };
    assert_eq!(Interval::from_intervals(&a, &b), b);
    assert_eq!(Interval::from_intervals(&b, &a), a);
}
