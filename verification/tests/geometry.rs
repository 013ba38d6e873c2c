//! Sphere intersection and closest-hit selection across the scene.

use raytrace::fixed::ONE;
use raytrace::hittable::{HittableList, Sphere};
use raytrace::material::{Lambertian, Material};
use raytrace::ray::Ray;
use raytrace::vec3::Vec3;

fn gray() -> Material {
    Material::Lambertian(Lambertian::new(Vec3::new(ONE / 2, ONE / 2, ONE / 2)))
}

fn red() -> Material {
    Material::Lambertian(Lambertian::new(Vec3::new(ONE, 0, 0)))
}

#[test]
fn head_on_unit_sphere_hits_at_distance_minus_radius() {
    let sphere = Sphere::new(Vec3::zero(), ONE, gray());
    let ray = Ray::new(Vec3::new(0, 0, 3 * ONE), Vec3::new(0, 0, -ONE));
    let rec = sphere.hit(ray, 0, i64::MAX).expect("the ray points at the center");
    assert_eq!(rec.t, 2 * ONE);
    assert!(rec.front_face);
    assert_eq!(rec.normal, Vec3::new(0, 0, ONE));
    assert_eq!(rec.p, Vec3::new(0, 0, ONE));
}

#[test]
fn interval_bounds_are_inclusive_and_select_the_far_root() {
    let sphere = Sphere::new(Vec3::zero(), ONE, gray());
    let ray = Ray::new(Vec3::new(0, 0, 3 * ONE), Vec3::new(0, 0, -ONE));
    // The near root is exactly 2, accepted at an upper bound of exactly 2.
    let rec = sphere.hit(ray, 0, 2 * ONE).expect("inclusive upper bound");
    assert_eq!(rec.t, 2 * ONE);
    // Below the near root the far root (4) is tried and rejected too.
    assert!(sphere.hit(ray, 0, 2 * ONE - 1).is_none());
    // With the near root below the lower bound, the far root is taken.
    let far = sphere.hit(ray, 3 * ONE, i64::MAX).expect("far root in range");
    assert_eq!(far.t, 4 * ONE);
    assert!(!far.front_face);
}

#[test]
fn missing_ray_reports_nothing() {
    let sphere = Sphere::new(Vec3::zero(), ONE, gray());
    let ray = Ray::new(Vec3::new(0, 3 * ONE, 3 * ONE), Vec3::new(0, 0, -ONE));
    assert!(sphere.hit(ray, 0, i64::MAX).is_none());
}

#[test]
fn zero_radius_sphere_reports_nothing() {
    let sphere = Sphere::new(Vec3::zero(), 0, gray());
    let ray = Ray::new(Vec3::new(0, 0, 3 * ONE), Vec3::new(0, 0, -ONE));
    assert!(sphere.hit(ray, 0, i64::MAX).is_none());
}

#[test]
fn negative_radius_flips_the_stored_normal() {
    let solid = Sphere::new(Vec3::zero(), ONE, gray());
    let hollow = Sphere::new(Vec3::zero(), -ONE, gray());
    let ray = Ray::new(Vec3::new(0, 0, 3 * ONE), Vec3::new(0, 0, -ONE));
    let r1 = solid.hit(ray, 0, i64::MAX).unwrap();
    let r2 = hollow.hit(ray, 0, i64::MAX).unwrap();
    assert_eq!(r1.t, r2.t);
    assert_eq!(r2.normal, Vec3::new(0, 0, ONE));
    assert!(r1.front_face);
    assert!(!r2.front_face);
}

#[test]
fn scene_returns_the_closer_of_two_overlapping_spheres() {
    let near = Sphere::new(Vec3::new(0, 0, 3 * ONE), ONE, red());
    let far = Sphere::new(Vec3::new(0, 0, 6 * ONE), ONE, gray());
    let ray = Ray::new(Vec3::zero(), Vec3::new(0, 0, ONE));

    let mut world = HittableList::new();
    world.add(near);
    world.add(far);
    let rec = world.hit(ray, 0, i64::MAX).expect("both spheres lie on the ray");
    assert_eq!(rec.t, 2 * ONE);
    assert_eq!(rec.material, red());

    let mut reversed = HittableList::new();
    reversed.add(far);
    reversed.add(near);
    let rec2 = reversed.hit(ray, 0, i64::MAX).expect("both spheres lie on the ray");
    assert_eq!(rec2.t, 2 * ONE);
    assert_eq!(rec2.material, red());
}

#[test]
fn empty_scene_reports_nothing() {
    let world = HittableList::new();
    let ray = Ray::new(Vec3::zero(), Vec3::new(0, 0, ONE));
    assert!(world.hit(ray, 0, i64::MAX).is_none());
}

#[test]
fn scene_well_formedness_is_decided_at_runtime() {
    let mut world = HittableList::new();
    world.add(Sphere::new(Vec3::zero(), ONE, gray()));
    assert!(world.well_formed());
    let hot = Material::Lambertian(Lambertian::new(Vec3::new(2 * ONE, 0, 0)));
    world.add(Sphere::new(Vec3::new(3 * ONE, 0, 0), ONE, hot));
    assert!(!world.well_formed());
    assert!(!hot.is_wf());
    assert!(gray().is_wf());
}
