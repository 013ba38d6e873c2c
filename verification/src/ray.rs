//! Rays: an origin and a direction, with the parametric position
//! `at(t) = origin + t·direction`.

use crate::vec3::{v_add, v_scale, Vec3, V3};
use vstd::prelude::*;

verus! {

/// Mathematical image of a ray.
pub ghost struct RayV {
    pub origin: V3,
    pub direction: V3,
}

#[derive(Clone, Copy, PartialEq, Eq, Structural, Debug)]
pub struct Ray {
    pub origin: Vec3,
    pub direction: Vec3,
}

impl View for Ray {
    type V = RayV;

    open spec fn view(&self) -> RayV {
        RayV { origin: self.origin@, direction: self.direction@ }
    }
}

/// The position a ray reaches after parameter `t`.
pub open spec fn ray_at(r: RayV, t: int) -> V3 {
    v_add(r.origin, v_scale(t, r.direction))
}

impl Ray {
    pub fn new(origin: Vec3, direction: Vec3) -> (r: Ray)
        ensures
            r@.origin == origin@,
            r@.direction == direction@,
    {
        Ray { origin, direction }
    }

    pub fn origin(&self) -> (r: Vec3)
        ensures
            r@ == self@.origin,
    {
        self.origin
    }

    pub fn direction(&self) -> (r: Vec3)
        ensures
            r@ == self@.direction,
    {
        self.direction
    }

    /// For every parameter, the position is exactly
    /// `origin + t·direction` in the fixed-point model.
    pub fn at(&self, t: i64) -> (r: Vec3)
        ensures
            r@ == ray_at(self@, t as int),
    {
        self.origin.add(self.direction.scale(t))
    }
}

} // verus!
