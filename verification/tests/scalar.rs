use face_auth::scalar::{maximum, Scalar, NEG_INFINITY};

fn num(v: f32) -> Scalar {
    Scalar::from_bits(v.to_bits())
}

#[test]
fn order_is_that_of_the_numbers() {
    let all = [
        f32::NEG_INFINITY, -3.5, -1.0e-40, -0.0, 0.0, 1.0e-40, 0.5, 0.70, 1.0, 250.0, f32::MAX, f32::INFINITY,
        f32::NAN,
    ];
    for a in all {
        for b in all {
            assert_eq!(num(a).lt(num(b)), a < b, "{a} < {b}");
            assert_eq!(num(a).gt(num(b)), a > b, "{a} > {b}");
            assert_eq!(num(a).ge(num(b)), a >= b, "{a} >= {b}");
            assert_eq!(num(a).le(num(b)), a <= b, "{a} <= {b}");
            assert_eq!(num(a).differs(num(b)), a != b, "{a} != {b}");
        }
    }
}

#[test]
fn rounding_towards_zero() {
    for v in [
        0.0f32, 0.99, 1.0, 1.5, 2.0, 255.99, 639.5, 8388607.5, 8388608.0, 16777216.0, 33554432.0, 4294967040.0,
        4294967296.0, 1.0e20, f32::INFINITY, f32::NAN, -0.5, -7.0, f32::MIN_POSITIVE,
    ] {
        assert_eq!(num(v).truncate(), v as u32, "{v}");
    }
}

#[test]
fn signs() {
    for v in [0.0f32, -0.0, 2.5, -2.5, f32::INFINITY] {
        assert_eq!(num(v).neg().bits, (-v).to_bits());
        assert_eq!(num(v).abs().bits, v.abs().to_bits());
        assert_eq!(num(v).neg().neg(), num(v));
    }
    assert!(num(f32::NAN).is_nan());
    assert!(!num(f32::INFINITY).is_nan());
}

#[test]
fn largest_value() {
    let floor = Scalar::from_bits(NEG_INFINITY);
    assert_eq!(maximum(floor, &vec![]), floor);
    assert_eq!(maximum(floor, &vec![num(0.3), num(f32::NAN), num(0.8), num(-2.0)]), num(0.8));
    assert_eq!(maximum(num(0.9), &vec![num(0.3)]), num(0.9));
}

#[test]
fn negation_turns_the_order_round() {
    assert!(num(1.0).lt(num(2.0)));
    assert!(num(2.0).neg().lt(num(1.0).neg()));
}
