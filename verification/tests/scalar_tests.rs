use rustbrain::math::matrix::Matrix;
use rustbrain::math::scalar::Double;
use rustbrain::math::vector::Vector;

fn d(x: f64) -> Double {
    Double::from_bits(x.to_bits())
}

fn f(x: Double) -> f64 {
    f64::from_bits(x.to_bits())
}

fn samples() -> Vec<f64> {
    vec![
        0.0,
        -0.0,
        1.0,
        -1.0,
        1e-10,
        -1e-10,
        5e-324,
        -5e-324,
        1e308,
        -1e308,
        f64::INFINITY,
        f64::NEG_INFINITY,
        f64::NAN,
        2.5,
        -2.5,
        0.1,
        3.0,
        1.0 / 3.0,
        f64::MAX,
        f64::MIN,
        f64::MIN_POSITIVE,
        -f64::MIN_POSITIVE,
        f64::MIN_POSITIVE / 2.0,
        f64::EPSILON,
        1.0 + f64::EPSILON,
        1.0 - f64::EPSILON / 2.0,
        2.0,
        4.0,
        0.5,
        1e-300,
        1e300,
        -1e-300,
        123456789.125,
        -987654321.0625,
        1e16,
        9007199254740993.0,
        1.7976931348623155e308,
        4.9406564584124654e-324 * 3.0,
        std::f64::consts::PI,
        -std::f64::consts::E,
    ]
}

#[test]
fn test_ordering_matches_native() {
    for &a in samples().iter() {
        for &b in samples().iter() {
            assert_eq!(d(a).lt(d(b)), a < b, "{} < {}", a, b);
            assert_eq!(d(a).le(d(b)), a <= b, "{} <= {}", a, b);
            assert_eq!(d(a).gt(d(b)), a > b, "{} > {}", a, b);
            assert_eq!(d(a).ge(d(b)), a >= b, "{} >= {}", a, b);
            assert_eq!(d(a).same(d(b)), a == b, "{} == {}", a, b);
        }
    }
}

#[test]
fn test_sign_operations_match_native() {
    for &a in samples().iter() {
        assert_eq!(d(a).abs().to_bits(), a.abs().to_bits());
        assert_eq!(d(a).neg().to_bits(), (-a).to_bits());
        assert_eq!(d(a).is_nan(), a.is_nan());
    }
}

#[test]
fn test_constants() {
    assert_eq!(f(Double::zero()), 0.0);
    assert_eq!(f(Double::one()), 1.0);
    assert_eq!(f(Double::two()), 2.0);
    assert_eq!(f(Double::pivot_tolerance()), 1e-10);
    assert_eq!(f(Double::epsilon()), f64::EPSILON);
    assert_eq!(f(Double::infinity()), f64::INFINITY);
}

#[test]
fn test_clamp() {
    assert_eq!(f(d(0.5).clamp(d(0.0), d(1.0))), 0.5);
    assert_eq!(f(d(-0.5).clamp(d(0.0), d(1.0))), 0.0);
    assert_eq!(f(d(1.5).clamp(d(0.0), d(1.0))), 1.0);
    assert_eq!(f(d(f64::NAN).clamp(d(0.0), d(1.0))), 0.0);
    assert_eq!(f(d(f64::INFINITY).clamp(d(0.0), d(10.0))), 10.0);
}

#[test]
fn test_smaller() {
    assert_eq!(f(d(1.0).smaller(d(2.0))), 1.0);
    assert_eq!(f(d(2.0).smaller(d(1.0))), 1.0);
    assert_eq!(f(d(f64::NAN).smaller(d(1.0))), 1.0);
}

#[test]
fn test_close() {
    assert!(d(1.0).close(d(1.0)));
    assert!(d(1.0).close(d(1.0 + f64::EPSILON)));
    assert!(!d(1.0).close(d(1.0 + 4.0 * f64::EPSILON)));
    assert!(d(1e-17).close(d(-1e-17)));
    assert!(!d(f64::NAN).close(d(1.0)));
    assert!(!d(1.0).close(d(2.0)));
}

// The rounded operations, each seen through a public function of the
// library, against the machine's own arithmetic.

#[test]
fn test_sum_matches_native() {
    for &a in samples().iter() {
        for &b in samples().iter() {
            let got = Vector::new(vec![d(a)]).add(&Vector::new(vec![d(b)])).unwrap();
            let want = a + b;
            let got = f(got.get(0).unwrap());
            assert!(got.to_bits() == want.to_bits() || (got.is_nan() && want.is_nan()), "{} + {}", a, b);
        }
    }
}

#[test]
fn test_product_matches_native() {
    for &a in samples().iter() {
        for &b in samples().iter() {
            let got = f(Vector::new(vec![d(a)]).scale(d(b)).get(0).unwrap());
            let want = a * b;
            assert!(got.to_bits() == want.to_bits() || (got.is_nan() && want.is_nan()), "{} * {}", a, b);
        }
    }
}

#[test]
fn test_square_root_matches_native() {
    for &a in samples().iter() {
        // norm of [a] is sqrt(0 + a*a)
        let got = f(Vector::new(vec![d(a)]).norm());
        let want = (0.0 + a * a).sqrt();
        assert!(got.to_bits() == want.to_bits() || (got.is_nan() && want.is_nan()), "sqrt({}^2)", a);
    }
    assert_eq!(f(Vector::new(vec![d(3.0), d(4.0)]).norm()), 5.0);
}

fn same_double(got: f64, want: f64) -> bool {
    got.to_bits() == want.to_bits() || (got.is_nan() && want.is_nan())
}

#[test]
fn test_difference_matches_native() {
    // In the decomposition of [[1, b], [1, a]] the last entry is a - 1 * b.
    for &a in samples().iter() {
        for &b in samples().iter() {
            let m = Matrix::new(vec![vec![d(1.0), d(b)], vec![d(1.0), d(a)]]).unwrap();
            let (lu, _) = m.lu_decomposition().unwrap();
            let got = f(lu.get(1, 1).unwrap());
            assert!(same_double(got, a - 1.0 * b), "{} - {}", a, b);
        }
    }
}

#[test]
fn test_quotient_matches_native() {
    // In the decomposition of [[b, 0], [a, 0]] the multiplier a / b is kept
    // below the pivot, where b is the larger of the two and not negligible.
    for &a in samples().iter() {
        for &b in samples().iter() {
            if !(b.abs() >= a.abs()) || !(b.abs() >= 1e-10) {
                continue;
            }
            let m = Matrix::new(vec![vec![d(b), d(0.0)], vec![d(a), d(0.0)]]).unwrap();
            let (lu, _) = m.lu_decomposition().unwrap();
            let got = f(lu.get(1, 0).unwrap());
            assert!(same_double(got, a / b), "{} / {}", a, b);
        }
    }
}

#[test]
fn test_one_is_neutral_in_products() {
    for &a in samples().iter() {
        if a.is_nan() {
            continue;
        }
        let got = Vector::new(vec![d(a)]).scale(d(1.0)).get(0).unwrap();
        assert_eq!(got.to_bits(), a.to_bits());
    }
}

#[test]
fn test_zero_times_finite_is_signed_zero() {
    for &z in [0.0f64, -0.0].iter() {
        for &a in samples().iter() {
            if !a.is_finite() {
                continue;
            }
            let got = f(Vector::new(vec![d(z)]).scale(d(a)).get(0).unwrap());
            assert_eq!(got, 0.0);
            assert_eq!(got.is_sign_negative(), z.is_sign_negative() != a.is_sign_negative());
        }
    }
}

#[test]
fn test_taking_off_zero_changes_nothing() {
    // [[1, 0], [1, a]]: the last entry is a - 1 * 0.
    for &a in samples().iter() {
        if a.is_nan() {
            continue;
        }
        let m = Matrix::new(vec![vec![d(1.0), d(0.0)], vec![d(1.0), d(a)]]).unwrap();
        let (lu, _) = m.lu_decomposition().unwrap();
        assert_eq!(lu.get(1, 1).unwrap().to_bits(), a.to_bits());
    }
}

#[test]
fn test_zero_over_a_value_is_signed_zero() {
    // [[b, 0], [z, 0]]: the multiplier is z / b.
    for &z in [0.0f64, -0.0].iter() {
        for &b in samples().iter() {
            if b.is_nan() || !(b.abs() >= 1e-10) {
                continue;
            }
            let m = Matrix::new(vec![vec![d(b), d(0.0)], vec![d(z), d(0.0)]]).unwrap();
            let (lu, _) = m.lu_decomposition().unwrap();
            let got = f(lu.get(1, 0).unwrap());
            assert_eq!(got, 0.0);
            assert_eq!(got.is_sign_negative(), z.is_sign_negative() != b.is_sign_negative());
        }
    }
}

#[test]
fn test_double_equality_is_that_of_values() {
    assert!(d(0.0) == d(-0.0));
    assert!(d(f64::NAN) != d(f64::NAN));
    assert!(d(1.5) == d(1.5));
    assert!(d(1.5) != d(2.5));
}
