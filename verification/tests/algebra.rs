//! Scalar helpers and vector algebra, on concrete values.

use raymath::{Vector, SCALE};

#[test]
fn scalar_almost_equal_within_default_tolerance() {
    // the default tolerance is 100 units, strictly
    assert!(raymath::almost_equal(5, 104));
    assert!(raymath::almost_equal(104, 5));
    assert!(!raymath::almost_equal(0, 100));
    assert!(raymath::almost_equal(-3, -3));
}

#[test]
fn scalar_almost_equal_with_epsilon() {
    assert!(raymath::almost_equal_with_epsilon(SCALE, SCALE + 999, 1_000));
    assert!(!raymath::almost_equal_with_epsilon(SCALE, SCALE + 1_000, 1_000));
    assert!(raymath::almost_equal_with_epsilon(-7, 7, 15));
}

#[test]
fn posunit_to_unit_endpoints_and_center() {
    assert_eq!(raymath::posunit_to_unit(0), -SCALE);
    assert_eq!(raymath::posunit_to_unit(SCALE), SCALE);
    assert_eq!(raymath::posunit_to_unit(SCALE / 2), 0);
    assert_eq!(raymath::posunit_to_unit(SCALE / 4), -SCALE / 2);
}

#[test]
fn vector_constructors() {
    let z = Vector::zero();
    assert_eq!((z.x, z.y, z.z), (0, 0, 0));
    let x = Vector::unitx();
    assert_eq!((x.x, x.y, x.z), (SCALE, 0, 0));
    let y = Vector::unity();
    assert_eq!((y.x, y.y, y.z), (0, SCALE, 0));
    let w = Vector::unitz();
    assert_eq!((w.x, w.y, w.z), (0, 0, SCALE));
}

#[test]
fn vector_almost_equal_reflexive() {
    let v = Vector { x: 1_250_000_000, y: -3 * SCALE, z: 7 };
    assert!(v.almost_equal(&v));
}

#[test]
fn vector_almost_equal_is_componentwise() {
    let a = Vector { x: 0, y: 0, z: 0 };
    // within tolerance on every component
    let b = Vector { x: 99, y: -99, z: 50 };
    assert!(a.almost_equal(&b));
    // one component out of tolerance is enough to differ
    let c = Vector { x: 99, y: 100, z: 0 };
    assert!(!a.almost_equal(&c));
    assert!(a.almost_equal_with_epsilon(&c, 101));
}

#[test]
fn vector_add_sub_neg() {
    let a = Vector { x: SCALE, y: 2 * SCALE, z: -3 * SCALE };
    let b = Vector { x: 10, y: -20, z: 30 };
    let s = a.add(&b);
    assert_eq!((s.x, s.y, s.z), (SCALE + 10, 2 * SCALE - 20, -3 * SCALE + 30));
    let d = a.sub(&b);
    assert_eq!((d.x, d.y, d.z), (SCALE - 10, 2 * SCALE + 20, -3 * SCALE - 30));
    let n = a.neg();
    assert_eq!((n.x, n.y, n.z), (-SCALE, -2 * SCALE, 3 * SCALE));
}

#[test]
fn vector_add_neg_is_zero() {
    let a = Vector { x: 123_456_789, y: -987_654_321, z: 42 };
    let sum = a.add(&a.neg());
    assert_eq!((sum.x, sum.y, sum.z), (0, 0, 0));
    assert!(sum.almost_equal(&Vector::zero()));
}

#[test]
fn vector_scalar_mul_div() {
    let a = Vector { x: 1_500_000_000, y: -SCALE, z: 0 };
    let m = a.mul(2 * SCALE);
    assert_eq!((m.x, m.y, m.z), (3 * SCALE, -2 * SCALE, 0));
    let d = a.div(2 * SCALE);
    assert_eq!((d.x, d.y, d.z), (750_000_000, -500_000_000, 0));
}

#[test]
fn vector_dot_exact_value() {
    // (1, 2, 3) . (4, 5, 6) = 32
    let a = Vector { x: SCALE, y: 2 * SCALE, z: 3 * SCALE };
    let b = Vector { x: 4 * SCALE, y: 5 * SCALE, z: 6 * SCALE };
    assert_eq!(a.dot(&b), 32 * SCALE);
}

#[test]
fn vector_dot_symmetric() {
    let a = Vector { x: 987_654_321, y: -123_456_789, z: 555_555_555 };
    let b = Vector { x: -42, y: 3 * SCALE, z: 1_234_567 };
    assert_eq!(a.dot(&b), b.dot(&a));
}

#[test]
fn cross_of_unit_axes_is_right_handed() {
    let c = Vector::unitx().cross(&Vector::unity());
    assert!(c.almost_equal(&Vector::unitz()));
    assert_eq!((c.x, c.y, c.z), (0, 0, SCALE));
}

#[test]
fn cross_is_antisymmetric() {
    let a = Vector { x: SCALE, y: 2 * SCALE, z: -3 * SCALE };
    let b = Vector { x: -5 * SCALE, y: 7 * SCALE, z: 11 * SCALE };
    let ab = a.cross(&b);
    let ba_neg = b.cross(&a).neg();
    assert_eq!((ab.x, ab.y, ab.z), (ba_neg.x, ba_neg.y, ba_neg.z));
}

#[test]
fn len_of_pythagorean_triple() {
    // |(3, 4, 0)| = 5 exactly
    let v = Vector { x: 3 * SCALE, y: 4 * SCALE, z: 0 };
    assert_eq!(v.len(), 5 * SCALE);
}

#[test]
fn normalized_pythagorean_triple_is_exact() {
    let v = Vector { x: 3 * SCALE, y: 4 * SCALE, z: 0 };
    let n = v.normalized();
    assert_eq!((n.x, n.y, n.z), (600_000_000, 800_000_000, 0));
    assert_eq!(n.len(), SCALE);
}

#[test]
fn normalized_length_is_almost_one() {
    let samples = vec![
        Vector { x: SCALE, y: SCALE, z: 0 },
        Vector { x: SCALE, y: SCALE, z: SCALE },
        Vector { x: 12_345_678_912, y: -9_876_543_210, z: 1 },
        Vector { x: -SCALE / 2, y: SCALE / 3, z: SCALE },
        Vector { x: 9_999_999_999_999, y: 123, z: -7_000_000_000_000 },
    ];
    for v in samples {
        let n = v.normalized();
        assert!(raymath::almost_equal(n.len(), SCALE));
    }
}
