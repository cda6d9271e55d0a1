use nbody::arith::{gcd_u, isqrt_u};
use nbody::rat::Rat;
use nbody::vec3::Vec3;

fn rat(n: i128, d: i128) -> Rat {
    Rat::new(n, d).unwrap()
}

#[test]
fn gcd_of_machine_integers() {
    assert_eq!(gcd_u(12, 18), 6);
    assert_eq!(gcd_u(0, 7), 7);
    assert_eq!(gcd_u(7, 0), 7);
    assert_eq!(gcd_u(1, 1), 1);
    assert_eq!(gcd_u(1_000_000_000_000_000_000_000_000, 1_000_000_000_000_000), 1_000_000_000_000_000);
}

#[test]
fn floor_square_roots() {
    assert_eq!(isqrt_u(0), 0);
    assert_eq!(isqrt_u(1), 1);
    assert_eq!(isqrt_u(3), 1);
    assert_eq!(isqrt_u(4), 2);
    assert_eq!(isqrt_u(10), 3);
    assert_eq!(isqrt_u(10_000_000_000_000_000_000_000_000_000_000_000), 100_000_000_000_000_000);
    assert_eq!(isqrt_u(u128::MAX), (1u128 << 64) - 1);
}

#[test]
fn rationals_are_stored_reduced() {
    let r = rat(2, 4);
    assert_eq!(r.num(), 1);
    assert_eq!(r.den(), 2);
    let r = rat(-30, 12);
    assert_eq!(r.num(), -5);
    assert_eq!(r.den(), 2);
    let r = rat(0, 9);
    assert_eq!(r.num(), 0);
    assert_eq!(r.den(), 1);
}

#[test]
fn rational_construction_rejects_bad_denominators() {
    assert!(Rat::new(1, 0).is_none());
    assert!(Rat::new(1, -2).is_none());
    assert!(Rat::new(i128::MIN, 3).is_none());
    assert!(Rat::from_int(i128::MIN).is_none());
    assert!(Rat::new(i128::MAX, 1).is_some());
}

#[test]
fn exact_rational_arithmetic() {
    let half = rat(1, 2);
    let third = rat(1, 3);
    let sum = half.add(&third).unwrap();
    assert_eq!((sum.num(), sum.den()), (5, 6));
    let diff = half.sub(&third).unwrap();
    assert_eq!((diff.num(), diff.den()), (1, 6));
    let prod = rat(2, 3).mul(&rat(3, 4)).unwrap();
    assert_eq!((prod.num(), prod.den()), (1, 2));
    let quot = rat(2, 3).div(&rat(-4, 9)).unwrap();
    assert_eq!((quot.num(), quot.den()), (-3, 2));
    assert!(rat(1, 2).div(&rat(0, 5)).is_none());
    let neg = rat(3, 7).neg();
    assert_eq!((neg.num(), neg.den()), (-3, 7));
    assert!(half.is_positive());
    assert!(!neg.is_positive());
    assert!(rat(0, 3).is_zero());
}

#[test]
fn arithmetic_reports_overflow_as_none() {
    let big = Rat::from_int(i128::MAX / 2 + 1).unwrap();
    assert!(big.mul(&big).is_none());
    assert!(big.add(&rat(1, 3)).is_none());
}

#[test]
fn value_equality_is_by_value() {
    assert_eq!(rat(1, 2).value_eq(&rat(3, 6)), Some(true));
    assert_eq!(rat(1, 2).value_eq(&rat(2, 3)), Some(false));
    assert_eq!(rat(-4, 8).value_eq(&rat(1, 2).neg()), Some(true));
}

#[test]
fn vector_norms_and_components() {
    let v = Vec3::new(
        Rat::from_int(3).unwrap(),
        Rat::from_int(4).unwrap(),
        Rat::from_int(0).unwrap(),
    );
    let n2 = v.norm2().unwrap();
    assert_eq!((n2.num(), n2.den()), (25, 1));
    let w = v.sub(&Vec3::zero()).unwrap();
    assert_eq!(w.x().num(), 3);
    let s = v.scale(&rat(1, 2)).unwrap();
    assert_eq!((s.y().num(), s.y().den()), (2, 1));
    let d = v.div_by(&rat(2, 1)).unwrap();
    assert_eq!((d.x().num(), d.x().den()), (3, 2));
    let neg = v.neg();
    assert_eq!(neg.y().num(), -4);
}
