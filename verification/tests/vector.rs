//! Vector algebra behaviour on concrete values.

use raytrace::fx::{FX_MAX, SCALE};
use raytrace::vec3::Vec3;

#[test]
fn test_dot_equals_length_squared() {
    let vs = [
        Vec3::new(SCALE, 2 * SCALE, 3 * SCALE),
        Vec3::new(-SCALE / 2, SCALE / 4, 7 * SCALE),
        Vec3::new(0, 0, 0),
        Vec3::new(-3 * SCALE, -5 * SCALE, SCALE / 8),
    ];
    for v in vs {
        assert_eq!(v.dot(v), v.length_squared());
    }
}

#[test]
fn test_unit_length_near_one() {
    let vs = [
        Vec3::new(SCALE, 2 * SCALE, 3 * SCALE),
        Vec3::new(-4 * SCALE, 2 * SCALE, 7 * SCALE),
        Vec3::new(SCALE / 2, 0, 0),
        Vec3::new(100 * SCALE, -50 * SCALE, 25 * SCALE),
    ];
    for v in vs {
        let u = v.unit();
        let diff = u.length_squared() - SCALE;
        assert!(diff.abs() <= 1000, "unit length squared off by {}", diff);
        let ldiff = u.length() - SCALE;
        assert!(ldiff.abs() <= 1000, "unit length off by {}", ldiff);
    }
}

#[test]
fn test_near_zero() {
    assert!(Vec3::zero().is_near_zero());
    assert!(!Vec3::new(1, 0, 0).is_near_zero());
    assert!(!Vec3::new(0, -1, 0).is_near_zero());
    assert!(!Vec3::new(SCALE, SCALE, SCALE).is_near_zero());
}

#[test]
fn test_reflect_exact() {
    // v = (1, -1, 0) against the unit normal n = (0, 1, 0).
    let v = Vec3::new(SCALE, -SCALE, 0);
    let n = Vec3::new(0, SCALE, 0);
    let r = v.reflect(n);
    assert_eq!(r, Vec3::new(SCALE, SCALE, 0));
    // The normal component is negated exactly: dot(r, n) == -dot(v, n).
    assert_eq!(r.dot(n), SCALE);
    assert_eq!(v.dot(n), -SCALE);
    assert_eq!(r.dot(n), -v.dot(n));
}

#[test]
fn test_cross_basis() {
    let x = Vec3::new(SCALE, 0, 0);
    let y = Vec3::new(0, SCALE, 0);
    let z = Vec3::new(0, 0, SCALE);
    assert_eq!(x.cross(y), z);
    assert_eq!(y.cross(z), x);
    assert_eq!(y.cross(x), z.neg());
}

#[test]
fn test_componentwise_operations() {
    let a = Vec3::new(2 * SCALE, -3 * SCALE, SCALE / 2);
    let b = Vec3::new(SCALE, SCALE / 2, -SCALE);
    assert_eq!(a.add(b), Vec3::new(3 * SCALE, -(5 * SCALE) / 2, -SCALE / 2));
    assert_eq!(a.sub(b), Vec3::new(SCALE, -(7 * SCALE) / 2, (3 * SCALE) / 2));
    assert_eq!(a.mul(b), Vec3::new(2 * SCALE, -(3 * SCALE) / 2, -SCALE / 2));
    assert_eq!(a.scale(2 * SCALE), Vec3::new(4 * SCALE, -6 * SCALE, SCALE));
    assert_eq!(a.div(2 * SCALE), Vec3::new(SCALE, -(3 * SCALE) / 2, SCALE / 4));
    assert_eq!(a.neg(), Vec3::new(-2 * SCALE, 3 * SCALE, -SCALE / 2));
    assert_eq!(a.x(), 2 * SCALE);
    assert_eq!(a.y(), -3 * SCALE);
    assert_eq!(a.z(), SCALE / 2);
}

#[test]
fn test_addition_saturates_at_bound() {
    let big = Vec3::new(FX_MAX, 0, 0);
    assert_eq!(big.add(big), Vec3::new(FX_MAX, 0, 0));
    assert_eq!(big.neg().add(big.neg()), Vec3::new(-FX_MAX, 0, 0));
}

#[test]
fn test_division_by_zero_saturates() {
    let v = Vec3::new(SCALE, -SCALE, 0);
    let q = v.div(0);
    assert_eq!(q, Vec3::new(FX_MAX, -FX_MAX, FX_MAX));
}

#[test]
fn test_random_range_stays_in_bounds() {
    let mut seen = Vec::new();
    for _ in 0..200 {
        let v = Vec3::random_range(-SCALE, SCALE);
        for c in [v.x(), v.y(), v.z()] {
            assert!(-SCALE <= c && c < SCALE);
            seen.push(c);
        }
    }
    for _ in 0..200 {
        let v = Vec3::random();
        for c in [v.x(), v.y(), v.z()] {
            assert!(0 <= c && c < SCALE);
            seen.push(c);
        }
    }
    // An actual draw, not a constant: 1200 uniform samples of a
    // 25-bit-wide range cannot plausibly all coincide.
    let first = seen[0];
    assert!(seen.iter().any(|c| *c != first));
}

#[test]
fn test_random_in_unit_ball_is_inside() {
    for _ in 0..200 {
        let v = Vec3::random_in_unit_ball();
        assert!(v.length_squared() < SCALE);
    }
}

#[test]
fn test_random_in_unit_half_ball_faces_normal_and_stays_in_ball() {
    let n = Vec3::new(0, SCALE, 0);
    for _ in 0..200 {
        let v = Vec3::random_in_unit_half_ball(n);
        assert!(v.dot(n) >= 0);
        assert!(v.length_squared() < SCALE);
    }
}

#[test]
fn test_random_on_unit_sphere_has_unit_length() {
    for _ in 0..200 {
        let v = Vec3::random_on_unit_sphere();
        let diff = v.length_squared() - SCALE;
        assert!(diff.abs() <= 1000, "sphere sample length squared off by {}", diff);
        for c in [v.x(), v.y(), v.z()] {
            assert!(-2 * SCALE <= c && c <= 2 * SCALE);
        }
    }
}
