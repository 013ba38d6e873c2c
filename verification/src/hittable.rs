//! Geometric primitives and the scene aggregate.
//!
//! A sphere intersects a ray where `|origin + t·direction - center|² = r²`;
//! the spec functions below mirror the fixed-point evaluation of that
//! quadratic step by step, so the executable intersection code is pinned
//! to an exact mathematical account of the root it accepts.

use crate::fixed::{
    fadd, fdiv, fmul, fneg, fsqrt, fsub, fx_add, fx_div, fx_mul, fx_neg, fx_sqrt, fx_sub,
};
use crate::material::Material;
use crate::ray::{ray_at, Ray, RayV};
use crate::vec3::{dotv, lsqv, v_divs, v_neg, v_sub, Vec3, V3};
use vstd::prelude::*;

verus! {

/// Mathematical image of a sphere.
pub ghost struct SphereV {
    pub center: V3,
    pub radius: int,
    pub material: Material,
}

/// A sphere; a negative radius flips the stored normal to model a hollow
/// shell.
#[derive(Clone, Copy)]
pub struct Sphere {
    pub center: Vec3,
    pub radius: i64,
    pub material: Material,
}

impl View for Sphere {
    type V = SphereV;

    open spec fn view(&self) -> SphereV {
        SphereV { center: self.center@, radius: self.radius as int, material: self.material }
    }
}

/// What an intersection query reports: the hit point, the normal oriented
/// against the ray, the governing material, the parametric distance and
/// the original orientation.
#[derive(Clone, Copy)]
pub struct HitRecord {
    pub p: Vec3,
    pub normal: Vec3,
    pub material: Material,
    pub t: i64,
    pub front_face: bool,
}

/// Whether the ray meets the surface from its outside.
pub open spec fn front_face_of(r: RayV, outward: V3) -> bool {
    dotv(r.direction, outward) < 0
}

/// The stored normal: the outward normal, flipped to face the ray.
pub open spec fn oriented_normal(r: RayV, outward: V3) -> V3 {
    if front_face_of(r, outward) {
        outward
    } else {
        v_neg(outward)
    }
}

impl HitRecord {
    /// Build a record at distance `t`, orienting the outward normal
    /// against the incoming ray.
    pub fn new(ray: &Ray, t: i64, p: Vec3, outward_normal: Vec3, material: Material) -> (rec:
        HitRecord)
        ensures
            rec.t == t,
            rec.p == p,
            rec.material == material,
            rec.front_face == front_face_of(ray@, outward_normal@),
            rec.normal@ == oriented_normal(ray@, outward_normal@),
    {
        let front_face = ray.direction().dot(outward_normal) < 0;
        let normal = if front_face {
            outward_normal
        } else {
            outward_normal.neg()
        };
        HitRecord { p, normal, material, t, front_face }
    }
}

/// Quadratic coefficient `a = |direction|²`.
pub open spec fn hit_a(r: RayV) -> int {
    lsqv(r.direction)
}

/// Quadratic coefficient `half_b = (origin - center)·direction`.
pub open spec fn hit_half_b(s: SphereV, r: RayV) -> int {
    dotv(v_sub(r.origin, s.center), r.direction)
}

/// Quadratic coefficient `c = |origin - center|² - radius²`.
pub open spec fn hit_c(s: SphereV, r: RayV) -> int {
    fsub(lsqv(v_sub(r.origin, s.center)), fmul(s.radius, s.radius))
}

/// Discriminant `half_b² - a·c`.
pub open spec fn hit_disc(s: SphereV, r: RayV) -> int {
    fsub(fmul(hit_half_b(s, r), hit_half_b(s, r)), fmul(hit_a(r), hit_c(s, r)))
}

/// The nearer candidate root `(-half_b - √disc) / a`.
pub open spec fn hit_root1(s: SphereV, r: RayV) -> int {
    fdiv(fsub(fneg(hit_half_b(s, r)), fsqrt(hit_disc(s, r))), hit_a(r))
}

/// The farther candidate root `(-half_b + √disc) / a`.
pub open spec fn hit_root2(s: SphereV, r: RayV) -> int {
    fdiv(fadd(fneg(hit_half_b(s, r)), fsqrt(hit_disc(s, r))), hit_a(r))
}

/// The parametric distance a sphere intersection reports within
/// `[t_min, t_max]`: the nearer root when it lies in the interval, else
/// the farther root, else nothing.  A sphere of radius zero is a target
/// of no measure and reports nothing.
pub open spec fn sphere_hit_t(s: SphereV, r: RayV, t_min: int, t_max: int) -> Option<int> {
    if s.radius == 0 || hit_disc(s, r) < 0 {
        None
    } else {
        let r1 = hit_root1(s, r);
        let r2 = hit_root2(s, r);
        if t_min <= r1 <= t_max {
            Some(r1)
        } else if t_min <= r2 <= t_max {
            Some(r2)
        } else {
            None
        }
    }
}

/// The outward normal of a sphere at the hit point of distance `t`.
pub open spec fn sphere_outward_normal(s: SphereV, r: RayV, t: int) -> V3 {
    v_divs(v_sub(ray_at(r, t), s.center), s.radius)
}

/// What a correct record of a hit on sphere `s` at distance `t` holds.
pub open spec fn rec_matches(s: SphereV, r: RayV, rec: HitRecord, t: int) -> bool {
    &&& rec.t as int == t
    &&& rec.p@ == ray_at(r, t)
    &&& rec.front_face == front_face_of(r, sphere_outward_normal(s, r, t))
    &&& rec.normal@ == oriented_normal(r, sphere_outward_normal(s, r, t))
    &&& rec.material == s.material
}

impl Sphere {
    pub fn new(center: Vec3, radius: i64, material: Material) -> (s: Sphere)
        ensures
            s.center == center,
            s.radius == radius,
            s.material == material,
    {
        Sphere { center, radius, material }
    }

    /// Intersect a ray within `[t_min, t_max]`; the direction must have
    /// measurable squared length.
    pub fn hit(&self, ray: Ray, t_min: i64, t_max: i64) -> (res: Option<HitRecord>)
        requires
            lsqv(ray@.direction) >= 1,
        ensures
            res is None ==> sphere_hit_t(self@, ray@, t_min as int, t_max as int) is None,
            res matches Some(rec) ==> sphere_hit_t(self@, ray@, t_min as int, t_max as int)
                == Some(rec.t as int) && rec_matches(self@, ray@, rec, rec.t as int),
    {
        if self.radius == 0 {
            return None;
        }
        let oc = ray.origin().sub(self.center);
        let a = ray.direction().length_squared();
        let half_b = oc.dot(ray.direction());
        let c = fx_sub(oc.length_squared(), fx_mul(self.radius, self.radius));
        let discriminant = fx_sub(fx_mul(half_b, half_b), fx_mul(a, c));

        if discriminant < 0 {
            return None;
        }

        let sqrtd = fx_sqrt(discriminant);
        let mut root = fx_div(fx_sub(fx_neg(half_b), sqrtd), a);
        if root < t_min || t_max < root {
            root = fx_div(fx_add(fx_neg(half_b), sqrtd), a);
            if root < t_min || t_max < root {
                return None;
            }
        }

        let p = ray.at(root);
        let outward = p.sub(self.center).div_scalar(self.radius);
        Some(HitRecord::new(&ray, root, p, outward, self.material))
    }
}

/// The record an insertion-ordered scene reports: fold over the spheres,
/// each later sphere competing only below the best distance so far.
/// The result names the winning sphere by index, with its distance.
pub open spec fn scene_sel(objs: Seq<Sphere>, r: RayV, t_min: int, t_max: int) -> Option<
    (int, int),
>
    decreases objs.len(),
{
    if objs.len() == 0 {
        None
    } else {
        let pre = scene_sel(objs.drop_last(), r, t_min, t_max);
        let bound = match pre {
            Some(it) => it.1,
            None => t_max,
        };
        match sphere_hit_t(objs.last()@, r, t_min, bound) {
            Some(t) => Some((objs.len() - 1, t)),
            None => pre,
        }
    }
}

/// Every material of the scene carries well-formed parameters.
pub open spec fn scene_wf(objs: Seq<Sphere>) -> bool {
    forall|i: int|
        0 <= i < objs.len() ==> crate::material::material_wf(#[trigger] objs[i].material)
}

/// The insertion-ordered scene aggregate.
pub struct HittableList {
    pub objects: Vec<Sphere>,
}

impl HittableList {
    pub fn new() -> (res: HittableList)
        ensures
            res.objects@ == Seq::<Sphere>::empty(),
    {
        HittableList { objects: Vec::new() }
    }

    pub fn add(&mut self, object: Sphere)
        ensures
            final(self).objects@ == old(self).objects@.push(object),
    {
        self.objects.push(object)
    }

    /// Whether every material of the scene is well-formed, decided at
    /// run time; rendering asks for this of the whole scene.
    pub fn well_formed(&self) -> (r: bool)
        ensures
            r == scene_wf(self.objects@),
    {
        let mut i: usize = 0;
        while i < self.objects.len()
            invariant
                i <= self.objects@.len(),
                forall|k: int|
                    0 <= k < i ==> crate::material::material_wf(
                        #[trigger] self.objects@[k].material,
                    ),
            decreases self.objects@.len() - i,
        {
            if !self.objects[i].material.is_wf() {
                return false;
            }
            i = i + 1;
        }
        true
    }

    /// The closest hit across all members, found in one pass by
    /// shrinking the upper search bound to each accepted distance.
    pub fn hit(&self, ray: Ray, t_min: i64, t_max: i64) -> (res: Option<HitRecord>)
        requires
            lsqv(ray@.direction) >= 1,
        ensures
            res is None ==> scene_sel(self.objects@, ray@, t_min as int, t_max as int) is None,
            res matches Some(rec) ==> scene_sel(self.objects@, ray@, t_min as int, t_max as int)
                matches Some(it) && 0 <= it.0 < self.objects@.len() && rec.t as int == it.1
                && rec_matches(self.objects@[it.0]@, ray@, rec, it.1),
    {
        let ghost r = ray@;
        let ghost tmin = t_min as int;
        let ghost tmax = t_max as int;
        let mut rec: Option<HitRecord> = None;
        let mut closest_so_far: i64 = t_max;
        let mut idx: usize = 0;

        while idx < self.objects.len()
            invariant
                lsqv(r.direction) >= 1,
                r == ray@,
                tmin == t_min as int,
                tmax == t_max as int,
                idx <= self.objects@.len(),
                rec is None ==> scene_sel(self.objects@.subrange(0, idx as int), r, tmin, tmax)
                    is None && closest_so_far == t_max,
                rec matches Some(rc) ==> scene_sel(
                    self.objects@.subrange(0, idx as int),
                    r,
                    tmin,
                    tmax,
                ) matches Some(it) && 0 <= it.0 < idx && rc.t as int == it.1 && closest_so_far
                    == rc.t && rec_matches(self.objects@[it.0]@, r, rc, it.1),
            decreases self.objects@.len() - idx,
        {
            let ghost prefix = self.objects@.subrange(0, idx as int);
            let ghost next_prefix = self.objects@.subrange(0, idx as int + 1);
            proof {
                assert(next_prefix.drop_last() =~= prefix);
                assert(next_prefix.last() == self.objects@[idx as int]);
            }
            match self.objects[idx].hit(ray, t_min, closest_so_far) {
                Some(r2) => {
                    closest_so_far = r2.t;
                    rec = Some(r2);
                },
                None => {},
            }
            idx = idx + 1;
        }
        proof {
            assert(self.objects@.subrange(0, self.objects@.len() as int) =~= self.objects@);
        }
        rec
    }
}

} // verus!
