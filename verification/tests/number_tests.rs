use dp_graph::number::{clamp_all, Binary64};

fn num(x: f64) -> Binary64 {
    Binary64::from_bits(x.to_bits())
}

fn back(x: Binary64) -> f64 {
    f64::from_bits(x.to_bits())
}

fn samples() -> Vec<f64> {
    vec![
        0.0,
        -0.0,
        1.0,
        -1.0,
        0.5,
        -0.5,
        2.0,
        1e-320,
        -1e-320,
        f64::MIN_POSITIVE,
        f64::MAX,
        f64::MIN,
        f64::INFINITY,
        f64::NEG_INFINITY,
        f64::NAN,
        -f64::NAN,
        3.141592653589793,
        -2.718281828459045,
        1e300,
        -1e300,
    ]
}

#[test]
fn order_agrees_with_floating_point_comparison() {
    for a in samples() {
        for b in samples() {
            assert_eq!(num(a).is_below(num(b)), a < b, "{} < {}", a, b);
            assert_eq!(num(a).is_at_most(num(b)), a <= b, "{} <= {}", a, b);
            assert_eq!(num(a).is_above(num(b)), a > b, "{} > {}", a, b);
            assert_eq!(num(a).is_at_least(num(b)), a >= b, "{} >= {}", a, b);
            assert_eq!(num(a).is_same(num(b)), a == b, "{} == {}", a, b);
            assert_eq!(num(a) == num(b), a == b);
            assert_eq!(num(a) < num(b), a < b);
            assert_eq!(num(a).partial_cmp(&num(b)), a.partial_cmp(&b));
        }
    }
}

#[test]
fn classification_agrees_with_floating_point() {
    for a in samples() {
        assert_eq!(num(a).is_nan(), a.is_nan());
        assert_eq!(num(a).is_finite(), a.is_finite());
        assert_eq!(num(a).is_positive(), a.is_finite() && a > 0.0);
    }
}

#[test]
fn clamp_keeps_a_value_inside() {
    assert_eq!(back(num(5.0).clamp(num(0.0), num(10.0))), 5.0);
}

#[test]
fn clamp_raises_a_value_below() {
    assert_eq!(back(num(-3.0).clamp(num(0.0), num(10.0))), 0.0);
}

#[test]
fn clamp_lowers_a_value_above() {
    assert_eq!(back(num(12.5).clamp(num(0.0), num(10.0))), 10.0);
}

#[test]
fn clamp_leaves_nan() {
    assert!(back(num(f64::NAN).clamp(num(0.0), num(10.0))).is_nan());
}

#[test]
fn clamp_agrees_with_floating_point_clamp() {
    for x in samples() {
        if x.is_nan() {
            continue;
        }
        let got = back(num(x).clamp(num(-1.5), num(2.5)));
        assert_eq!(got, x.clamp(-1.5, 2.5));
        assert!(-1.5 <= got && got <= 2.5);
    }
}

#[test]
fn clamp_all_clamps_each_element_in_order() {
    let data: Vec<Binary64> = vec![num(-1.0), num(0.5), num(7.0), num(1.0)];
    let out = clamp_all(&data, num(0.0), num(1.0));
    let got: Vec<f64> = out.iter().map(|x| back(*x)).collect();
    assert_eq!(got, vec![0.0, 0.5, 1.0, 1.0]);
}

#[test]
fn zero_is_positive_zero() {
    assert_eq!(Binary64::zero().to_bits(), 0);
    assert_eq!(back(Binary64::zero()), 0.0);
}
