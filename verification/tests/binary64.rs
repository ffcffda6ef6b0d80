use natal_chart_solver::binary64::{abs, f64_same_sign, is_finite_bits, is_nan_bits, le, lt, max};

fn bits(x: f64) -> u64 {
    x.to_bits()
}

#[test]
fn comparisons_match_ieee_semantics() {
    let samples = [
        f64::NEG_INFINITY,
        -1.0e300,
        -2.5,
        -f64::MIN_POSITIVE,
        -0.0,
        0.0,
        5e-324,
        1.0,
        2_453_371.5,
        f64::MAX,
        f64::INFINITY,
        f64::NAN,
        -f64::NAN,
    ];
    for a in samples {
        for b in samples {
            assert_eq!(le(bits(a), bits(b)), a <= b, "{a} <= {b}");
            assert_eq!(lt(bits(a), bits(b)), a < b, "{a} < {b}");
        }
        assert_eq!(is_finite_bits(bits(a)), a.is_finite());
        assert_eq!(is_nan_bits(bits(a)), a.is_nan());
        assert_eq!(f64::from_bits(abs(bits(a))).to_bits(), a.abs().to_bits());
    }
}

#[test]
fn max_prefers_the_larger_and_ignores_nan() {
    assert_eq!(max(bits(1.0), bits(2.0)), bits(2.0));
    assert_eq!(max(bits(3.0), bits(2.0)), bits(3.0));
    assert_eq!(max(bits(f64::NAN), bits(2.0)), bits(2.0));
    assert_eq!(max(bits(2.0), bits(f64::NAN)), bits(2.0));
    assert_eq!(max(bits(-0.0), bits(0.0)), bits(-0.0));
    assert_eq!(max(bits(-4.0), bits(-7.0)), bits(-4.0));
}

#[test]
fn same_sign_ignores_zeros() {
    assert!(f64_same_sign(bits(0.5), bits(3.0)));
    assert!(f64_same_sign(bits(-0.5), bits(-3.0)));
    assert!(!f64_same_sign(bits(0.5), bits(-3.0)));
    assert!(!f64_same_sign(bits(-0.5), bits(3.0)));
    assert!(!f64_same_sign(bits(0.0), bits(3.0)));
    assert!(!f64_same_sign(bits(-0.0), bits(-3.0)));
    assert!(!f64_same_sign(bits(0.0), bits(0.0)));
    assert!(!f64_same_sign(bits(2.0), bits(-0.0)));
    assert!(f64_same_sign(bits(5e-324), bits(1.0e300)));
}
