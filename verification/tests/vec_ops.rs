//! Vector and scalar arithmetic on the fixed-point grid.

use raytrace::fixed::{degrees_to_radians, fx_add, fx_div, fx_mul, fx_sqrt, fx_sub, fx_tzdiv, ONE, PI_FX};
use raytrace::ray::Ray;
use raytrace::vec3::Vec3;

#[test]
fn scalar_mul_rounds_toward_zero() {
    // 3/65536 * 1/2 rounds down to 1/65536 ...
    assert_eq!(fx_mul(3, ONE / 2), 1);
    // ... and toward zero from below.
    assert_eq!(fx_mul(-3, ONE / 2), -1);
    assert_eq!(fx_mul(ONE, ONE), ONE);
    assert_eq!(fx_mul(2 * ONE, 3 * ONE), 6 * ONE);
    assert_eq!(fx_mul(0, 12345), 0);
}

#[test]
fn scalar_div_rounds_toward_zero() {
    assert_eq!(fx_div(ONE, 2 * ONE), ONE / 2);
    assert_eq!(fx_div(1, 3), 21845); // (1/65536) / (3/65536) = 1/3
    assert_eq!(fx_div(-1, 3), -21845);
    assert_eq!(fx_div(ONE, -ONE), -ONE);
}

#[test]
fn scalar_ops_saturate_at_the_ends() {
    assert_eq!(fx_add(i64::MAX, 1), i64::MAX);
    assert_eq!(fx_sub(i64::MIN, 1), i64::MIN);
    assert_eq!(fx_mul(i64::MAX, i64::MAX), i64::MAX);
    assert_eq!(fx_mul(i64::MAX, -i64::MAX), i64::MIN);
}

#[test]
fn scalar_sqrt_is_exact_on_squares_and_rounds_down() {
    assert_eq!(fx_sqrt(ONE), ONE); // sqrt(1) = 1
    assert_eq!(fx_sqrt(4 * ONE), 2 * ONE);
    assert_eq!(fx_sqrt(2 * ONE), 92681); // sqrt(2) rounded down to the grid
    assert_eq!(fx_sqrt(0), 0);
    assert_eq!(fx_sqrt(-ONE), 0);
}

#[test]
fn unscaled_division_averages_samples() {
    assert_eq!(fx_tzdiv(10 * ONE, 4), 163840);
    assert_eq!(fx_tzdiv(-7, 2), -3);
}

#[test]
fn vector_componentwise_arithmetic() {
    let a = Vec3::new(ONE, 2 * ONE, -3 * ONE);
    let b = Vec3::new(ONE / 2, ONE, ONE);
    assert_eq!(a.add(b), Vec3::new(3 * ONE / 2, 3 * ONE, -2 * ONE));
    assert_eq!(a.sub(b), Vec3::new(ONE / 2, ONE, -4 * ONE));
    assert_eq!(a.mul(b), Vec3::new(ONE / 2, 2 * ONE, -3 * ONE));
    assert_eq!(a.scale(2 * ONE), Vec3::new(2 * ONE, 4 * ONE, -6 * ONE));
    assert_eq!(a.div_scalar(2 * ONE), Vec3::new(ONE / 2, ONE, -3 * ONE / 2));
    assert_eq!(a.neg(), Vec3::new(-ONE, -2 * ONE, 3 * ONE));
}

#[test]
fn dot_cross_and_length() {
    let a = Vec3::new(ONE, 0, 0);
    let b = Vec3::new(0, ONE, 0);
    assert_eq!(a.dot(b), 0);
    assert_eq!(a.cross(b), Vec3::new(0, 0, ONE));
    let c = Vec3::new(3 * ONE, 4 * ONE, 0);
    assert_eq!(c.length_squared(), 25 * ONE);
    assert_eq!(c.length(), 5 * ONE);
    assert_eq!(c.unit(), Vec3::new(3 * ONE / 5, 4 * ONE / 5, 0));
}

#[test]
fn near_zero_only_accepts_the_zero_vector() {
    assert!(Vec3::zero().near_zero());
    assert!(!Vec3::new(1, 0, 0).near_zero());
    assert!(!Vec3::new(0, 0, -1).near_zero());
}

#[test]
fn reflect_mirrors_about_the_normal() {
    let v = Vec3::new(ONE, -ONE, 0);
    let n = Vec3::new(0, ONE, 0);
    assert_eq!(v.reflect(n), Vec3::new(ONE, ONE, 0));
}

#[test]
fn refract_with_matched_index_keeps_the_direction() {
    let v = Vec3::new(0, 0, -ONE);
    let n = Vec3::new(0, 0, ONE);
    assert_eq!(v.refract(n, ONE), v);
}

#[test]
fn ray_at_is_origin_plus_t_times_direction() {
    let origin = Vec3::new(ONE, 2 * ONE, 3 * ONE);
    let direction = Vec3::new(ONE, -2 * ONE, ONE / 2);
    let ray = Ray::new(origin, direction);
    // t = 1.5
    assert_eq!(ray.at(98304), Vec3::new(163840, -65536, 245760));
    assert_eq!(ray.at(0), origin);
    assert_eq!(ray.at(ONE), origin.add(direction));
    assert_eq!(ray.at(-ONE), origin.sub(direction));
}

#[test]
fn ray_accessors_return_the_parts() {
    let ray = Ray::new(Vec3::new(1, 2, 3), Vec3::new(4, 5, 6));
    assert_eq!(ray.origin(), Vec3::new(1, 2, 3));
    assert_eq!(ray.direction(), Vec3::new(4, 5, 6));
}

#[test]
fn degrees_to_radians_scales_by_pi_over_180() {
    assert_eq!(degrees_to_radians(180 * ONE), PI_FX);
    assert_eq!(degrees_to_radians(90 * ONE), 102943);
    assert_eq!(degrees_to_radians(360 * ONE), 2 * PI_FX);
    assert_eq!(degrees_to_radians(0), 0);
    assert_eq!(degrees_to_radians(-180 * ONE), -PI_FX);
}
