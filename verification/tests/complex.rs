use qsim::complex::{Scalar, C};

fn c(a: i64, b: i64) -> C {
    C::new(a, b)
}

fn whole(a: i64) -> C {
    C::new(a, 0)
}

#[test]
fn test_macr() {
    assert_eq!(c(1, 1), c(1, 1));
    assert_eq!(c(1, 0), whole(1));
}

#[test]
fn equality() {
    assert_eq!(c(1, 1), c(1, 1));
    assert_ne!(c(1, 1), c(1, 2));
    assert_ne!(c(2, 1), c(1, 2));
}

#[test]
fn add() {
    assert_eq!(c(1, 1) + c(1, 1), c(2, 2));
    assert_eq!(c(1, 1) + c(1, 2), c(2, 3));
    assert_eq!(c(2, 1) + c(1, 2), c(3, 3));
}

#[test]
fn mul() {
    assert_eq!(c(3, -1) * c(1, 4), c(7, 11));
}

#[test]
fn sub() {
    assert_eq!(c(1, 1) - c(1, 1), c(0, 0));
    assert_eq!(c(1, 1) - c(1, 2), c(0, -1));
    assert_eq!(c(2, 1) - c(1, 2), c(1, -1));
}

#[test]
fn conjugate() {
    assert_eq!(c(1, -1).conjugate(), c(1, 1));
    assert_eq!(c(1, 1).conjugate(), c(1, -1));
}

#[test]
fn operators_agree_with_the_scalar_operations() {
    let x = c(3, -7);
    let y = c(-2, 5);
    assert_eq!(x + y, x.plus(y));
    assert_eq!(x - y, x.minus(y));
    assert_eq!(x * y, x.times(y));
    assert_eq!(C::zero(), c(0, 0));
    assert_eq!(C::one(), c(1, 0));
}

#[test]
fn parts_wrap_around() {
    assert_eq!(c(i64::MAX, 0) + c(1, 0), c(i64::MIN, 0));
    assert_eq!(c(i64::MIN, 0) - c(1, 0), c(i64::MAX, 0));
    assert_eq!(c(1 << 32, 0) * c(1 << 32, 0), c(0, 0));
    assert_eq!(c(0, i64::MIN).conjugate(), c(0, i64::MIN));
    assert_eq!(c(1 << 62, 1 << 62) * c(2, 2), c(0, 0));
}

#[test]
fn ring_laws_on_samples() {
    let samples = [
        c(0, 0),
        c(1, 0),
        c(0, 1),
        c(-3, 4),
        c(i64::MAX, i64::MIN),
        c(123_456_789_012, -98_765_432_109),
    ];
    for x in samples {
        assert_eq!(x + C::zero(), x);
        assert_eq!(x * C::one(), x);
        assert_eq!(x * C::zero(), C::zero());
        assert_eq!(x - x, C::zero());
        assert_eq!(x.conjugate().conjugate(), x);
        for y in samples {
            assert_eq!(x + y, y + x);
            assert_eq!(x * y, y * x);
            assert_eq!((x - y) + y, x);
            assert_eq!((x + y).conjugate(), x.conjugate() + y.conjugate());
            assert_eq!((x * y).conjugate(), x.conjugate() * y.conjugate());
            for z in samples {
                assert_eq!((x + y) + z, x + (y + z));
                assert_eq!((x * y) * z, x * (y * z));
                assert_eq!((x + y) * z, x * z + y * z);
            }
        }
    }
}

#[test]
fn nearness_is_equality() {
    assert!(c(2, 3).near(c(2, 3)));
    assert!(!c(2, 3).near(c(2, 4)));
    assert!(!c(2, 3).near(c(3, 3)));
}

#[test]
fn weight_is_the_squared_modulus() {
    assert_eq!(c(3, 4).weight(), 25);
    assert_eq!(c(0, 0).weight(), 0);
    assert_eq!(c(-3, -4).weight(), 25);
    assert_eq!(c(1 << 31, 0).weight(), 1 << 62);
    assert_eq!(c(1 << 32, 0).weight(), u64::MAX);
    assert_eq!(c(i64::MIN, i64::MIN).weight(), u64::MAX);
}

#[test]
fn the_fourth_roots_of_unity_are_held() {
    assert_eq!(C::polar(1, 0, 4), Some(c(1, 0)));
    assert_eq!(C::polar(1, 1, 4), Some(c(0, 1)));
    assert_eq!(C::polar(1, 2, 4), Some(c(-1, 0)));
    assert_eq!(C::polar(1, 3, 4), Some(c(0, -1)));
    assert_eq!(C::polar(1, 4, 4), Some(c(1, 0)));
    assert_eq!(C::polar(1, 1, 2), Some(c(-1, 0)));
    assert_eq!(C::polar(1, 5, 1), Some(c(1, 0)));
    assert_eq!(C::polar(1, 6, 8), Some(c(0, -1)));
    assert_eq!(C::polar(1, u64::MAX, 1), Some(c(1, 0)));
}

#[test]
fn other_polar_numbers_are_not_held() {
    assert_eq!(C::polar(1, 1, 8), None);
    assert_eq!(C::polar(2, 0, 1), None);
    assert_eq!(C::polar(0, 0, 1), None);
    assert_eq!(C::polar(1, 1, 0), None);
    assert_eq!(C::polar(1, 1, 3), None);
}

#[test]
fn div() {
    assert_eq!(c(-2, 1) / c(1, 2), c(0, 1));
}

#[test]
fn quotients_are_rounded_towards_zero() {
    assert_eq!(c(7, 0) / c(2, 0), c(3, 0));
    assert_eq!(c(-7, 0) / c(2, 0), c(-3, 0));
    assert_eq!(c(0, -7) / c(2, 0), c(0, -3));
    assert_eq!(c(7, 11) / c(1, 4), c(3, -1));
    assert_eq!(c(5, 0) / c(0, 1), c(0, -5));
    assert_eq!(
        c(-(i32::MAX as i64), -(i32::MAX as i64)) / c(-(i32::MAX as i64), -(i32::MAX as i64)),
        c(1, 0)
    );
    assert_eq!(
        c(i32::MAX as i64, -(i32::MAX as i64)) / c(1, 0),
        c(i32::MAX as i64, -(i32::MAX as i64))
    );
}
