//! Fixed-point scalar and vector math.

use rtwlib::fixed::{Fx, FX_SCALE};
use rtwlib::vec3::{cross, dot, Vec3};

fn fxi(n: i64) -> Fx {
    Fx::from_int(n)
}

fn fxr(n: i64, d: i64) -> Fx {
    Fx::from_ratio(n, d)
}

#[test]
fn fx_arithmetic_exact() {
    assert_eq!(fxi(3).add(fxi(4)), fxi(7));
    assert_eq!(fxi(3).sub(fxi(4)), fxi(-1));
    assert_eq!(fxi(3).mul(fxi(2)), fxi(6));
    assert_eq!(fxi(3).div(fxi(2)), fxr(3, 2));
    assert_eq!(fxr(1, 2).bits, 32768);
    assert_eq!(fxi(1).neg(), fxi(-1));
    assert_eq!(fxi(-5).abs(), fxi(5));
    assert_eq!(fxi(2).min(fxi(3)), fxi(2));
    assert_eq!(fxi(2).max(fxi(3)), fxi(3));
    assert!(fxi(2).lt(fxi(3)));
    assert!(fxi(3).ge(fxi(3)));
}

#[test]
fn fx_sqrt_exact() {
    assert_eq!(fxr(1, 4).sqrt(), fxr(1, 2));
    assert_eq!(fxi(4).sqrt(), fxi(2));
    assert_eq!(fxi(0).sqrt(), fxi(0));
    assert_eq!(fxi(-9).sqrt(), fxi(0));
    // sqrt(2) to the fixed-point grid: floor(sqrt(2) * 65536) = 92681.
    assert_eq!(fxi(2).sqrt().bits, 92681);
}

#[test]
fn fx_saturates_at_the_rails() {
    let top = Fx::max_value();
    assert_eq!(top.add(Fx::one()), top);
    assert_eq!(Fx::from_bits(i64::MIN).sub(Fx::one()).bits, i64::MIN);
    assert_eq!(top.mul(fxi(2)), top);
    // Division by zero saturates toward the dividend's sign.
    assert_eq!(fxi(1).div(Fx::zero()), top);
    assert_eq!(fxi(-1).div(Fx::zero()).bits, i64::MIN);
    assert_eq!(fxi(0).div(Fx::zero()), Fx::zero());
}

#[test]
fn normalize_has_unit_length() {
    // |(3, 4, 0)| = 5, so the normalized vector is (0.6, 0.8, 0).
    let v = Vec3::new(fxi(3), fxi(4), fxi(0));
    let n = v.normalized();
    let ls = n.length_squared();
    assert!((ls.bits - FX_SCALE).abs() <= 16, "squared length {}", ls.bits);
    // A non-axis direction.
    let v2 = Vec3::new(fxi(1), fxi(2), fxi(2));
    let ls2 = v2.normalized().length_squared();
    assert!((ls2.bits - FX_SCALE).abs() <= 16, "squared length {}", ls2.bits);
    // A small but representable vector.
    let v3 = Vec3::new(fxr(1, 8), fxr(-1, 16), fxr(1, 32));
    let ls3 = v3.normalized().length_squared();
    assert!((ls3.bits - FX_SCALE).abs() <= 4096, "squared length {}", ls3.bits);
}

#[test]
fn cross_is_orthogonal_to_its_inputs() {
    // Integer-valued vectors multiply exactly, so the dot products are
    // exactly zero.
    let a = Vec3::new(fxi(1), fxi(2), fxi(3));
    let b = Vec3::new(fxi(4), fxi(5), fxi(6));
    let c = cross(&a, &b);
    assert_eq!(c, Vec3::new(fxi(-3), fxi(6), fxi(-3)));
    assert_eq!(dot(&a, &c), Fx::zero());
    assert_eq!(dot(&b, &c), Fx::zero());
}

#[test]
fn reflect_twice_returns_the_vector() {
    // About a unit axis normal every product is exact, so the double
    // reflection is the identity, bit for bit.
    let v = Vec3::new(fxr(3, 10), fxr(7, 10), fxr(-1, 5));
    let n = Vec3::new(fxi(0), fxi(0), fxi(1));
    let once = v.reflect(&n);
    assert_eq!(once, Vec3::new(fxr(3, 10), fxr(7, 10), fxr(1, 5)));
    assert_eq!(once.reflect(&n), v);
}

#[test]
fn cross_stays_orthogonal_within_truncation() {
    // Fractional components truncate, but the measured dot product of a
    // vector with its own cross product stays within a few counts of zero.
    let a = Vec3::new(fxr(3, 10), fxr(7, 10), fxr(-1, 5));
    let b = Vec3::new(fxr(1, 2), fxr(-1, 10), fxr(9, 10));
    let c = cross(&a, &b);
    assert!(dot(&a, &c).bits.abs() <= 6, "dot bits {}", dot(&a, &c).bits);
    assert!(dot(&b, &c).bits.abs() <= 6, "dot bits {}", dot(&b, &c).bits);
}

#[test]
fn dot_matches_hand_computation() {
    let a = Vec3::new(fxi(1), fxi(2), fxi(3));
    let b = Vec3::new(fxi(4), fxi(5), fxi(6));
    assert_eq!(dot(&a, &b), fxi(32));
}

#[test]
fn random_vectors_stay_in_their_box() {
    let mut rng = rand::thread_rng();
    for _ in 0..100 {
        let v = Vec3::random(fxi(5), fxi(6), &mut rng);
        assert!(5 * FX_SCALE <= v.x.bits && v.x.bits < 6 * FX_SCALE);
        assert!(5 * FX_SCALE <= v.y.bits && v.y.bits < 6 * FX_SCALE);
        assert!(5 * FX_SCALE <= v.z.bits && v.z.bits < 6 * FX_SCALE);
    }
}

#[test]
fn random_draws_are_not_constant() {
    let mut rng = rand::thread_rng();
    let mut seen_distinct = false;
    let first = Vec3::random(Fx::zero(), Fx::one(), &mut rng);
    for _ in 0..1000 {
        let v = Vec3::random(Fx::zero(), Fx::one(), &mut rng);
        if v != first {
            seen_distinct = true;
            break;
        }
    }
    assert!(seen_distinct);
}

#[test]
fn random_normalized_is_roughly_unit() {
    let mut rng = rand::thread_rng();
    for _ in 0..50 {
        let v = Vec3::random_normalized(&mut rng);
        let ls = v.length_squared().bits;
        assert!((ls - FX_SCALE).abs() <= 32, "squared length {}", ls);
    }
}

#[test]
fn hemisphere_samples_face_the_normal() {
    let mut rng = rand::thread_rng();
    let n = Vec3::new(fxi(0), fxi(1), fxi(0));
    for _ in 0..50 {
        let v = Vec3::random_on_hemisphere(n, &mut rng);
        assert!(dot(&v, &n).bits >= 0);
        assert!((v.length_squared().bits - FX_SCALE).abs() <= 32);
    }
}

#[test]
fn random_in_unit_disk_is_flat_and_short() {
    let mut rng = rand::thread_rng();
    for _ in 0..100 {
        let v = Vec3::random_in_unit_disk(&mut rng);
        assert_eq!(v.z, Fx::zero());
        assert!(v.length_squared().bits < FX_SCALE);
    }
}

#[test]
fn near_zero_only_on_the_zero_vector() {
    assert!(Vec3::new(fxi(0), fxi(0), fxi(0)).near_zero());
    assert!(!Vec3::new(Fx::from_bits(1), fxi(0), fxi(0)).near_zero());
}

#[test]
fn refract_straight_through_at_matched_indices() {
    // With an index ratio of 1 the refracted ray continues straight.
    let uv = Vec3::new(fxi(0), fxi(0), fxi(-1));
    let n = Vec3::new(fxi(0), fxi(0), fxi(1));
    let r = rtwlib::vec3::refract(uv, &n, Fx::one());
    assert!((r.x.bits).abs() <= 2);
    assert!((r.y.bits).abs() <= 2);
    assert!((r.z.bits + FX_SCALE).abs() <= 16, "z {}", r.z.bits);
}
