//! The camera: maps image-plane sample coordinates, plus a lens-aperture
//! offset, to a world-space ray.
//!
//! Construction derives an orthonormal-by-intent basis from the view
//! configuration; a view direction or basis vector whose squared length
//! rounds to zero cannot be normalized, and construction reports it
//! instead of producing a degenerate camera.

use crate::fixed::{fdiv, fmul, fx_div, fx_mul, ONE};
use crate::ray::{Ray, RayV};
use crate::rng::Rng;
use crate::vec3::{
    crossv, in_ball, lsqv, unitv, v_add, v_divs, v_scale, v_sub, zerov, Vec3, V3,
};
use vstd::prelude::*;

verus! {

#[derive(Clone, Copy)]
pub struct Camera {
    pub origin: Vec3,
    pub lower_left_corner: Vec3,
    pub horizontal: Vec3,
    pub vertical: Vec3,
    pub u: Vec3,
    pub v: Vec3,
    pub w: Vec3,
    pub lens_radius: i64,
}

/// Basis vector pointing from the target back to the eye.
pub open spec fn cam_w(look_from: V3, look_at: V3) -> V3 {
    unitv(v_sub(look_from, look_at))
}

/// Basis vector pointing right across the viewport.
pub open spec fn cam_u(look_from: V3, look_at: V3, vup: V3) -> V3 {
    unitv(crossv(vup, cam_w(look_from, look_at)))
}

/// Basis vector pointing up across the viewport.
pub open spec fn cam_v(look_from: V3, look_at: V3, vup: V3) -> V3 {
    crossv(cam_w(look_from, look_at), cam_u(look_from, look_at, vup))
}

/// Full height of the viewport for a given tangent of half the vertical
/// field of view.
pub open spec fn viewport_h(tan_half_fov: int) -> int {
    fmul(2 * (ONE as int), tan_half_fov)
}

pub open spec fn viewport_w(tan_half_fov: int, aspect_ratio: int) -> int {
    fmul(aspect_ratio, viewport_h(tan_half_fov))
}

/// Whether the view configuration spans a usable basis: the view
/// direction and the up-cross-view vector both have measurable length.
pub open spec fn camera_basis_ok(look_from: V3, look_at: V3, vup: V3) -> bool {
    &&& lsqv(v_sub(look_from, look_at)) >= 1
    &&& lsqv(crossv(vup, cam_w(look_from, look_at))) >= 1
}

/// The ray aimed at viewport coordinates `(s, t)` once the lens sample
/// `rd` is fixed.
pub open spec fn camera_ray(c: Camera, s: int, t: int, rd: V3) -> RayV {
    let scaled = v_scale(c.lens_radius as int, rd);
    let offset = v_add(v_scale(scaled.x, c.u@), v_scale(scaled.y, c.v@));
    let o = v_add(c.origin@, offset);
    let dir = v_sub(
        v_add(v_add(c.lower_left_corner@, v_scale(s, c.horizontal@)), v_scale(t, c.vertical@)),
        o,
    );
    RayV { origin: o, direction: dir }
}

impl Camera {
    /// Build a camera from the view configuration.  `tan_half_fov` is
    /// the tangent of half the vertical field of view, as a fixed-point
    /// scalar; `aperture` is the lens diameter; `focus_dist` the
    /// distance of the plane in focus.
    pub fn new(
        look_from: Vec3,
        look_at: Vec3,
        vup: Vec3,
        tan_half_fov: i64,
        aspect_ratio: i64,
        aperture: i64,
        focus_dist: i64,
    ) -> (res: Option<Camera>)
        ensures
            res is Some <==> camera_basis_ok(look_from@, look_at@, vup@),
            res matches Some(c) ==> {
                let w = cam_w(look_from@, look_at@);
                let u = cam_u(look_from@, look_at@, vup@);
                let v = cam_v(look_from@, look_at@, vup@);
                let vh = viewport_h(tan_half_fov as int);
                let vw = viewport_w(tan_half_fov as int, aspect_ratio as int);
                &&& c.origin@ == look_from@
                &&& c.w@ == w
                &&& c.u@ == u
                &&& c.v@ == v
                &&& c.horizontal@ == v_scale(fmul(focus_dist as int, vw), u)
                &&& c.vertical@ == v_scale(fmul(focus_dist as int, vh), v)
                &&& c.lower_left_corner@ == v_sub(
                    v_sub(
                        v_sub(look_from@, v_divs(c.horizontal@, 2 * (ONE as int))),
                        v_divs(c.vertical@, 2 * (ONE as int)),
                    ),
                    v_scale(focus_dist as int, w),
                )
                &&& c.lens_radius as int == fdiv(aperture as int, 2 * (ONE as int))
            },
    {
        let view = look_from.sub(look_at);
        if view.length_squared() < 1 {
            return None;
        }
        let w = view.unit();
        let uc = vup.cross(w);
        if uc.length_squared() < 1 {
            return None;
        }
        let u = uc.unit();
        let v = w.cross(u);

        let viewport_height = fx_mul(2 * ONE, tan_half_fov);
        let viewport_width = fx_mul(aspect_ratio, viewport_height);

        let horizontal = u.scale(fx_mul(focus_dist, viewport_width));
        let vertical = v.scale(fx_mul(focus_dist, viewport_height));
        let lower_left_corner = look_from
            .sub(horizontal.div_scalar(2 * ONE))
            .sub(vertical.div_scalar(2 * ONE))
            .sub(w.scale(focus_dist));

        Some(
            Camera {
                origin: look_from,
                lower_left_corner,
                horizontal,
                vertical,
                u,
                v,
                w,
                lens_radius: fx_div(aperture, 2 * ONE),
            },
        )
    }

    /// The ray for normalized image-plane coordinates `(s, t)`.  The
    /// origin is offset by a random point of the lens disk; with a lens
    /// radius of zero the camera is an exact pinhole.
    pub fn get_ray(&self, rng: &mut Rng, s: i64, t: i64) -> (r: Ray)
        ensures
            exists|rd: V3|
                in_ball(rd) && rd.z == 0 && r@ == #[trigger] camera_ray(
                    *self,
                    s as int,
                    t as int,
                    rd,
                ),
            self.lens_radius == 0 ==> r@ == camera_ray(*self, s as int, t as int, zerov()),
    {
        let d = Vec3::random_in_unit_disk(rng);
        let rd = d.scale(self.lens_radius);
        let offset = self.u.scale(rd.x()).add(self.v.scale(rd.y()));
        let origin = self.origin.add(offset);
        let direction = self
            .lower_left_corner
            .add(self.horizontal.scale(s))
            .add(self.vertical.scale(t))
            .sub(origin);
        let r = Ray::new(origin, direction);
        proof {
            assert(r@ == camera_ray(*self, s as int, t as int, d@));
            if self.lens_radius == 0 {
                assert(v_scale(0, d@) == zerov());
                assert(v_scale(0, zerov()) == zerov());
                assert(r@ == camera_ray(*self, s as int, t as int, zerov()));
            }
        }
        r
    }
}

} // verus!
