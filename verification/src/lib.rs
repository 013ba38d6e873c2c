//! A Monte Carlo path tracer over exact fixed-point arithmetic.

pub mod camera;
pub mod fixed;
pub mod hittable;
pub mod laws;
pub mod material;
pub mod ray;
pub mod render;
pub mod rng;
pub mod vec3;

pub use fixed::ONE;
