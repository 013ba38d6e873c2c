//! The camera, the integrator and the full render driver.

use raytrace::camera::Camera;
use raytrace::fixed::ONE;
use raytrace::hittable::{HittableList, Sphere};
use raytrace::material::{Lambertian, Material};
use raytrace::ray::Ray;
use raytrace::render::{ray_color, render, render_row, write_color};
use raytrace::rng::Rng;
use raytrace::vec3::Vec3;

fn pinhole_camera() -> Camera {
    Camera::new(
        Vec3::zero(),            // look from the origin
        Vec3::new(0, 0, -ONE),   // toward the sphere
        Vec3::new(0, ONE, 0),    // up
        ONE,                     // tan of half a 90-degree field of view
        ONE,                     // square aspect ratio
        0,                       // no aperture: exact pinhole
        ONE,                     // focus plane at distance one
    )
    .expect("the view configuration is non-degenerate")
}

fn single_sphere_world() -> HittableList {
    let mut world = HittableList::new();
    world.add(Sphere::new(
        Vec3::new(0, 0, -ONE),
        ONE / 2,
        Material::Lambertian(Lambertian::new(Vec3::new(ONE / 2, ONE / 2, ONE / 2))),
    ));
    world
}

#[test]
fn gamma_correction_and_quantization() {
    // An accumulated color of (1.0, 0.25, 0.0) over one sample: the red
    // channel saturates at 0.999 and quantizes to 255, the green gamma
    // corrects to exactly one half and quantizes to 128.
    let color = Vec3::new(ONE, ONE / 4, 0);
    assert_eq!(write_color(&color, 1), (255, 128, 0));
}

#[test]
fn quantization_averages_over_the_sample_count() {
    // Four samples of full white average back to 1.0 per channel.
    let color = Vec3::new(4 * ONE, 4 * ONE, 4 * ONE);
    assert_eq!(write_color(&color, 4), (255, 255, 255));
    // A quarter after averaging: sqrt(0.25) = 0.5.
    let quarter = Vec3::new(ONE, ONE, ONE);
    assert_eq!(write_color(&quarter, 4), (128, 128, 128));
    // Channels above one saturate at the clamp bound.
    let hot = Vec3::new(2 * ONE, 4 * ONE, ONE);
    assert_eq!(write_color(&hot, 1), (255, 255, 255));
}

#[test]
fn quantization_clamps_negative_channels_to_zero() {
    let color = Vec3::new(-ONE, 0, 0);
    assert_eq!(write_color(&color, 1), (0, 0, 0));
}

#[test]
fn pinhole_camera_aims_at_the_viewport() {
    let camera = pinhole_camera();
    let mut rng = Rng::from_seed(1);
    let corner = camera.get_ray(&mut rng, 0, 0);
    assert_eq!(corner.origin(), Vec3::zero());
    assert_eq!(corner.direction(), Vec3::new(-ONE, -ONE, -ONE));
    let center = camera.get_ray(&mut rng, ONE / 2, ONE / 2);
    assert_eq!(center.origin(), Vec3::zero());
    assert_eq!(center.direction(), Vec3::new(0, 0, -ONE));
}

#[test]
fn degenerate_view_configurations_are_rejected() {
    // Eye and target coincide.
    assert!(Camera::new(
        Vec3::zero(),
        Vec3::zero(),
        Vec3::new(0, ONE, 0),
        ONE,
        ONE,
        0,
        ONE
    )
    .is_none());
    // Up vector parallel to the view direction.
    assert!(Camera::new(
        Vec3::zero(),
        Vec3::new(0, 0, -ONE),
        Vec3::new(0, 0, ONE),
        ONE,
        ONE,
        0,
        ONE
    )
    .is_none());
}

#[test]
fn integrator_returns_the_background_on_a_miss() {
    let world = single_sphere_world();
    let camera = pinhole_camera();
    let mut rng = Rng::from_seed(2);
    // The corner-aimed ray passes the sphere and reads the gradient.
    let ray = camera.get_ray(&mut rng, 0, 0);
    let color = ray_color(&mut rng, ray, &world, 1);
    assert_eq!(color, Vec3::new(58611, 61381, 65536));
}

#[test]
fn integrator_with_depth_one_shades_the_sphere_black() {
    let world = single_sphere_world();
    let camera = pinhole_camera();
    let mut rng = Rng::from_seed(3);
    // The center-aimed ray hits the sphere; with one bounce left the
    // scattered ray's budget is exhausted and contributes nothing.
    let ray = camera.get_ray(&mut rng, ONE / 2, ONE / 2);
    let color = ray_color(&mut rng, ray, &world, 1);
    assert_eq!(color, Vec3::zero());
}

#[test]
fn integrator_with_depth_zero_is_black() {
    let world = single_sphere_world();
    let mut rng = Rng::from_seed(4);
    let ray = Ray::new(Vec3::zero(), Vec3::new(0, 0, -ONE));
    assert_eq!(ray_color(&mut rng, ray, &world, 0), Vec3::zero());
}

#[test]
fn degenerate_ray_direction_contributes_black() {
    let world = single_sphere_world();
    let mut rng = Rng::from_seed(5);
    let ray = Ray::new(Vec3::zero(), Vec3::zero());
    assert_eq!(ray_color(&mut rng, ray, &world, 8), Vec3::zero());
}

#[test]
fn render_row_has_one_pixel_per_column() {
    let world = single_sphere_world();
    let camera = pinhole_camera();
    let mut rng = Rng::from_seed(6);
    let row = render_row(&mut rng, &camera, &world, 0, 5, 4, 2, 3);
    assert_eq!(row.len(), 5);
    for &(r, g, b) in row.iter() {
        assert!(r <= 255 && g <= 255 && b <= 255);
    }
}

#[test]
fn rendering_twice_with_one_seed_is_byte_identical() {
    let world = single_sphere_world();
    let camera = pinhole_camera();
    let mut rng1 = Rng::from_seed(42);
    let img1 = render(&mut rng1, &camera, &world, 4, 4, 2, 5);
    let mut rng2 = Rng::from_seed(42);
    let img2 = render(&mut rng2, &camera, &world, 4, 4, 2, 5);
    assert_eq!(img1.len(), 16);
    assert_eq!(img1, img2);
}

#[test]
fn seeded_draws_are_reproducible_and_bounded() {
    let mut a = Rng::from_seed(9);
    let mut b = Rng::from_seed(9);
    let mut c = Rng::from_seed(10);
    let mut same = true;
    for _ in 0..64 {
        let x = a.gen_range(-ONE, ONE);
        let y = b.gen_range(-ONE, ONE);
        let z = c.gen_range(-ONE, ONE);
        assert!(-ONE <= x && x < ONE);
        assert_eq!(x, y);
        same = same && x == z;
    }
    assert!(!same, "different seeds should give different streams");
}

#[test]
fn cube_and_ball_samples_stay_inside_their_bounds() {
    let mut rng = Rng::from_seed(12);
    for _ in 0..100 {
        let p = Vec3::random(&mut rng);
        assert!(0 <= p.x() && p.x() < ONE);
        assert!(0 <= p.y() && p.y() < ONE);
        assert!(0 <= p.z() && p.z() < ONE);
        let q = Vec3::random_in_range(&mut rng, -ONE, ONE);
        assert!(-ONE <= q.x() && q.x() < ONE);
        let b = Vec3::random_in_unit_sphere(&mut rng);
        assert!(b.length_squared() < ONE);
        let d = Vec3::random_in_unit_disk(&mut rng);
        assert!(d.length_squared() < ONE);
        assert_eq!(d.z(), 0);
        let u = Vec3::random_unit_vector(&mut rng);
        assert_ne!(u, Vec3::zero());
    }
}
