//! The scattering model, exercised with a seeded generator.

use raytrace::fixed::ONE;
use raytrace::hittable::HitRecord;
use raytrace::material::{Dielectric, Lambertian, Material, Metal};
use raytrace::ray::Ray;
use raytrace::rng::Rng;
use raytrace::vec3::Vec3;

fn record(normal: Vec3, front_face: bool) -> HitRecord {
    HitRecord {
        p: Vec3::zero(),
        normal,
        material: Material::Dielectric(Dielectric::new(ONE)),
        t: ONE,
        front_face,
    }
}

#[test]
fn lambertian_scatter_is_never_degenerate() {
    let mut rng = Rng::from_seed(7);
    let albedo = Vec3::new(ONE / 2, ONE / 4, ONE / 8);
    let material = Lambertian::new(albedo);
    let rec = record(Vec3::new(0, 0, ONE), true);
    let incoming = Ray::new(Vec3::new(0, 0, 3 * ONE), Vec3::new(0, 0, -ONE));
    for _ in 0..200 {
        let (attenuation, scattered) =
            material.scatter(incoming, &rec, &mut rng).expect("diffuse never absorbs");
        assert_eq!(attenuation, albedo);
        assert_eq!(scattered.origin(), rec.p);
        assert_ne!(scattered.direction(), Vec3::zero());
    }
}

#[test]
fn metal_with_zero_fuzz_is_exactly_specular() {
    let mut rng = Rng::from_seed(11);
    let albedo = Vec3::new(ONE, ONE, ONE);
    let material = Metal::new(albedo, 0);
    let rec = record(Vec3::new(0, 0, ONE), true);
    let incoming = Ray::new(Vec3::new(0, 0, 3 * ONE), Vec3::new(0, 0, -ONE));
    for _ in 0..50 {
        let (attenuation, scattered) =
            material.scatter(incoming, &rec, &mut rng).expect("mirror reflection");
        assert_eq!(attenuation, albedo);
        assert_eq!(scattered.direction(), Vec3::new(0, 0, ONE));
    }
}

#[test]
fn metal_absorbs_rays_reflected_into_the_surface() {
    let mut rng = Rng::from_seed(13);
    let material = Metal::new(Vec3::new(ONE, ONE, ONE), 0);
    // A hit record whose normal points along the incoming ray: the
    // mirrored direction lands inside the surface.
    let rec = record(Vec3::new(0, 0, -ONE), false);
    let incoming = Ray::new(Vec3::new(0, 0, 3 * ONE), Vec3::new(0, 0, -ONE));
    assert!(material.scatter(incoming, &rec, &mut rng).is_none());
}

#[test]
fn metal_clamps_fuzz_into_the_unit_interval() {
    let albedo = Vec3::new(ONE, ONE, ONE);
    assert_eq!(Metal::new(albedo, 3 * ONE).fuzz, ONE);
    assert_eq!(Metal::new(albedo, -ONE).fuzz, 0);
    assert_eq!(Metal::new(albedo, ONE / 2).fuzz, ONE / 2);
}

#[test]
fn matched_index_dielectric_round_trip_keeps_the_direction() {
    let mut rng = Rng::from_seed(17);
    let material = Dielectric::new(ONE);
    let incoming = Ray::new(Vec3::new(0, 0, 3 * ONE), Vec3::new(0, 0, -ONE));

    // Entering the sphere: the boundary is met from outside.
    let entry = record(Vec3::new(0, 0, ONE), true);
    let (attenuation, inside) =
        material.scatter(incoming, &entry, &mut rng).expect("transparent");
    assert_eq!(attenuation, Vec3::new(ONE, ONE, ONE));
    assert_eq!(inside.direction(), Vec3::new(0, 0, -ONE));

    // Leaving through the far boundary, met from inside.
    let exit = record(Vec3::new(0, 0, ONE), false);
    let (_, outgoing) = material.scatter(inside, &exit, &mut rng).expect("transparent");
    assert_eq!(outgoing.direction(), Vec3::new(0, 0, -ONE));
}

#[test]
fn dielectric_reflects_under_total_internal_reflection() {
    let mut rng = Rng::from_seed(19);
    // Dense medium, shallow exit angle: refraction is impossible.
    let material = Dielectric::new(2 * ONE);
    let rec = record(Vec3::new(0, 0, ONE), false);
    let incoming = Ray::new(Vec3::zero(), Vec3::new(ONE, 0, -ONE));
    let (_, scattered) = material.scatter(incoming, &rec, &mut rng).expect("transparent");
    // The mirror of unit(1, 0, -1) about the third axis.
    let expected = Vec3::new(ONE, 0, -ONE).unit().reflect(Vec3::new(0, 0, ONE));
    assert_eq!(scattered.direction(), expected);
    assert!(scattered.direction().z() > 0);
}
