//! The scattering model: diffuse, metallic and refractive surfaces.
//!
//! A scatter consumes an incoming ray and a hit record and yields either
//! an attenuation color with an outgoing ray, or absorption.  Randomness
//! is drawn from an explicit generator, so the contracts state exactly
//! what holds of every possible draw.

use crate::fixed::{
    fadd, fclamp, fdiv, fmul, fsqrt, fsub, fx_add, fx_clamp, fx_div, fx_min, fx_mul, fx_sqrt,
    fx_sub, lemma_fdiv_ordered, ONE,
};
use crate::hittable::HitRecord;
use crate::ray::{Ray, RayV};
use crate::rng::Rng;
use crate::vec3::{
    in_ball, lsqv, reflectv, refractv, unit_sample, unitv, v_add, v_neg, v_scale, zerov, Vec3, V3,
};
use vstd::prelude::*;

verus! {

/// A diffuse surface tinted by its albedo.
#[derive(Clone, Copy, PartialEq, Eq, Structural, Debug)]
pub struct Lambertian {
    pub albedo: Vec3,
}

/// A reflective surface with a roughness coefficient.
#[derive(Clone, Copy, PartialEq, Eq, Structural, Debug)]
pub struct Metal {
    pub albedo: Vec3,
    pub fuzz: i64,
}

/// A transparent surface with a refractive index.
#[derive(Clone, Copy, PartialEq, Eq, Structural, Debug)]
pub struct Dielectric {
    pub ir: i64,
}

/// The closed set of surface kinds, dispatched by tag.
#[derive(Clone, Copy, PartialEq, Eq, Structural, Debug)]
pub enum Material {
    Lambertian(Lambertian),
    Metal(Metal),
    Dielectric(Dielectric),
}

/// The diffuse scatter direction: the oriented normal plus a unit
/// sample, or the normal alone when their sum vanishes.
pub open spec fn lambertian_dir(n: V3, u: V3) -> V3 {
    if v_add(n, u) == zerov() {
        n
    } else {
        v_add(n, u)
    }
}

/// What holds of a metallic scatter once the ball sample `b` is fixed:
/// the fuzzed mirror direction is returned when it still points away
/// from the surface, else the ray is absorbed.
pub open spec fn metal_scatter_ok(
    m: Metal,
    r: RayV,
    rec: HitRecord,
    res: Option<(Vec3, Ray)>,
    b: V3,
) -> bool {
    let d = v_add(reflectv(unitv(r.direction), rec.normal@), v_scale(m.fuzz as int, b));
    if dotv_pos(d, rec.normal@) {
        res matches Some(p) && p.0 == m.albedo && p.1@.origin == rec.p@ && p.1@.direction == d
    } else {
        res is None
    }
}

/// Whether a direction points to the same side as the normal.
pub open spec fn dotv_pos(d: V3, n: V3) -> bool {
    crate::vec3::dotv(d, n) > 0
}

/// What holds of every diffuse scatter: a ray from the hit point,
/// tinted by the albedo, aimed along the normal offset by some unit
/// sample — never the zero vector while the normal itself is not zero.
pub open spec fn lambertian_scatter_ok(
    m: Lambertian,
    rec: HitRecord,
    res: Option<(Vec3, Ray)>,
) -> bool {
    &&& res matches Some(p)
    &&& res matches Some(p) ==> {
        &&& p.0 == m.albedo
        &&& p.1@.origin == rec.p@
        &&& (rec.normal@ != zerov() ==> p.1@.direction != zerov())
        &&& exists|u: V3|
            unit_sample(u) && p.1@.direction == #[trigger] lambertian_dir(rec.normal@, u)
    }
}

/// What holds of a refractive scatter once the uniform draw is fixed:
/// a white-attenuated ray from the hit point, aimed along the mirror
/// direction exactly when refraction is impossible or the Schlick
/// reflectance exceeds the draw, and along the refracted direction
/// otherwise.
pub open spec fn dielectric_scatter_ok(
    d: Dielectric,
    r: RayV,
    rec: HitRecord,
    res: Option<(Vec3, Ray)>,
    draw: int,
) -> bool {
    let ratio = refraction_ratio(d, rec.front_face);
    let refl = reflectv(unitv(r.direction), rec.normal@);
    let refr = refractv(unitv(r.direction), rec.normal@, ratio);
    &&& res matches Some(p)
    &&& res matches Some(p) ==> {
        &&& p.0@ == (V3 { x: ONE as int, y: ONE as int, z: ONE as int })
        &&& p.1@.origin == rec.p@
        &&& p.1@.direction == if cannot_refract(r, rec.normal@, ratio) || reflectance_s(
            cos_theta_of(r, rec.normal@),
            ratio,
        ) > draw {
            refl
        } else {
            refr
        }
    }
}

/// The ratio of refractive indices at the boundary: entering the medium
/// divides one by the index, leaving multiplies by it.
pub open spec fn refraction_ratio(d: Dielectric, front_face: bool) -> int {
    if front_face {
        fdiv(ONE as int, d.ir as int)
    } else {
        d.ir as int
    }
}

pub open spec fn cos_theta_of(r: RayV, n: V3) -> int {
    let c = crate::vec3::dotv(v_neg(unitv(r.direction)), n);
    if c <= ONE as int {
        c
    } else {
        ONE as int
    }
}

pub open spec fn sin_theta_of(r: RayV, n: V3) -> int {
    fsqrt(fsub(ONE as int, fmul(cos_theta_of(r, n), cos_theta_of(r, n))))
}

/// Total internal reflection: no refracted direction exists.
pub open spec fn cannot_refract(r: RayV, n: V3, ratio: int) -> bool {
    fmul(ratio, sin_theta_of(r, n)) > ONE as int
}

/// The Schlick polynomial approximating Fresnel reflectance.
pub open spec fn reflectance_s(cosine: int, ref_idx: int) -> int {
    let r0a = fdiv(fsub(ONE as int, ref_idx), fadd(ONE as int, ref_idx));
    let r0 = fmul(r0a, r0a);
    let om = fsub(ONE as int, cosine);
    fadd(r0, fmul(fsub(ONE as int, r0), fmul(fmul(fmul(fmul(om, om), om), om), om)))
}

/// The Schlick reflectance approximation.
pub fn reflectance(cosine: i64, ref_idx: i64) -> (r: i64)
    requires
        ref_idx >= 0,
    ensures
        r as int == reflectance_s(cosine as int, ref_idx as int),
{
    let r0a = fx_div(fx_sub(ONE, ref_idx), fx_add(ONE, ref_idx));
    let r0 = fx_mul(r0a, r0a);
    let om = fx_sub(ONE, cosine);
    fx_add(r0, fx_mul(fx_sub(ONE, r0), fx_mul(fx_mul(fx_mul(fx_mul(om, om), om), om), om)))
}

impl Lambertian {
    pub fn new(albedo: Vec3) -> (r: Lambertian)
        ensures
            r.albedo == albedo,
    {
        Lambertian { albedo }
    }

    /// Diffuse scatter: always returns a ray from the hit point whose
    /// direction is the normal offset by a unit sample, never the zero
    /// vector as long as the normal itself is not zero.
    pub fn scatter(&self, _ray: Ray, rec: &HitRecord, rng: &mut Rng) -> (res: Option<(Vec3, Ray)>)
        ensures
            lambertian_scatter_ok(*self, *rec, res),
    {
        let u = Vec3::random_unit_vector(rng);
        let mut scatter_direction = rec.normal.add(u);

        if scatter_direction.near_zero() {
            scatter_direction = rec.normal;
        }
        proof {
            assert(scatter_direction@ == lambertian_dir(rec.normal@, u@));
        }

        Some((self.albedo, Ray::new(rec.p, scatter_direction)))
    }
}

impl Metal {
    /// The roughness coefficient is clamped into `[0, 1]`.
    pub fn new(albedo: Vec3, fuzz: i64) -> (r: Metal)
        ensures
            r.albedo == albedo,
            r.fuzz as int == fclamp(fuzz as int, 0, ONE as int),
    {
        Metal { albedo, fuzz: fx_clamp(fuzz, 0, ONE) }
    }

    /// Specular scatter: mirror the incoming direction about the normal,
    /// perturb by the roughness, and absorb rays that end up inside the
    /// surface.  With roughness zero the mirror direction is exact.
    pub fn scatter(&self, ray: Ray, rec: &HitRecord, rng: &mut Rng) -> (res: Option<(Vec3, Ray)>)
        requires
            lsqv(ray@.direction) >= 1,
        ensures
            exists|b: V3| in_ball(b) && #[trigger] metal_scatter_ok(*self, ray@, *rec, res, b),
            self.fuzz == 0 ==> metal_scatter_ok(*self, ray@, *rec, res, zerov()),
    {
        let reflected = ray.direction().unit().reflect(rec.normal);
        let b = Vec3::random_in_unit_sphere(rng);
        let dir = reflected.add(b.scale(self.fuzz));
        let scattered = Ray::new(rec.p, dir);

        let res: Option<(Vec3, Ray)> = if scattered.direction().dot(rec.normal) > 0 {
            Some((self.albedo, scattered))
        } else {
            None
        };
        proof {
            assert(metal_scatter_ok(*self, ray@, *rec, res, b@));
            if self.fuzz == 0 {
                assert(v_scale(0, b@) == zerov());
                assert(v_add(reflectv(unitv(ray@.direction), rec.normal@), zerov())
                    == reflectv(unitv(ray@.direction), rec.normal@)) by {
                    crate::vec3::lemma_v_add_zero(
                        reflectv(unitv(ray@.direction), rec.normal@),
                    );
                }
                assert(metal_scatter_ok(*self, ray@, *rec, res, zerov()));
            }
        }
        res
    }
}

impl Dielectric {
    pub fn new(ir: i64) -> (r: Dielectric)
        ensures
            r.ir == ir,
    {
        Dielectric { ir }
    }

    /// Refractive scatter: always returns a ray from the hit point with
    /// no attenuation.  A uniform draw decides the direction: the mirror
    /// direction exactly when refraction is impossible (total internal
    /// reflection) or the Schlick reflectance exceeds the draw, and the
    /// refracted direction otherwise.
    pub fn scatter(&self, ray: Ray, rec: &HitRecord, rng: &mut Rng) -> (res: Option<(Vec3, Ray)>)
        requires
            lsqv(ray@.direction) >= 1,
            self.ir > 0,
        ensures
            res matches Some(p),
            exists|draw: int|
                0 <= draw < ONE as int && #[trigger] dielectric_scatter_ok(
                    *self,
                    ray@,
                    *rec,
                    res,
                    draw,
                ),
            res matches Some(p) ==> {
                let ratio = refraction_ratio(*self, rec.front_face);
                let refl = reflectv(unitv(ray@.direction), rec.normal@);
                let refr = refractv(unitv(ray@.direction), rec.normal@, ratio);
                &&& cannot_refract(ray@, rec.normal@, ratio) ==> p.1@.direction == refl
                &&& !cannot_refract(ray@, rec.normal@, ratio) && reflectance_s(
                    cos_theta_of(ray@, rec.normal@),
                    ratio,
                ) <= 0 ==> p.1@.direction == refr
            },
    {
        let refraction_ratio = if rec.front_face {
            fx_div(ONE, self.ir)
        } else {
            self.ir
        };
        proof {
            lemma_fdiv_ordered(0, ONE as int, self.ir as int);
        }

        let unit_direction = ray.direction().unit();
        let cos_theta = fx_min(unit_direction.neg().dot(rec.normal), ONE);
        let sin_theta = fx_sqrt(fx_sub(ONE, fx_mul(cos_theta, cos_theta)));

        let tir = fx_mul(refraction_ratio, sin_theta) > ONE;
        let draw = rng.gen_range(0, ONE);
        let random_reflect = reflectance(cos_theta, refraction_ratio) > draw;
        let direction = if tir || random_reflect {
            unit_direction.reflect(rec.normal)
        } else {
            unit_direction.refract(rec.normal, refraction_ratio)
        };

        let res: Option<(Vec3, Ray)> = Some((Vec3::new(ONE, ONE, ONE), Ray::new(rec.p, direction)));
        proof {
            assert(dielectric_scatter_ok(*self, ray@, *rec, res, draw as int));
        }
        res
    }
}

impl Material {
    /// Scatter an incoming ray at a hit governed by this material,
    /// promising each kind's own scattering predicate for its arm.
    pub fn scatter(&self, ray: Ray, rec: &HitRecord, rng: &mut Rng) -> (res: Option<(Vec3, Ray)>)
        requires
            lsqv(ray@.direction) >= 1,
            material_wf(*self),
        ensures
            res matches Some(p) ==> p.1@.origin == rec.p@ && color_wf(p.0@),
            self matches Material::Lambertian(m) ==> lambertian_scatter_ok(*m, *rec, res),
            self matches Material::Metal(m) ==> exists|b: V3|
                in_ball(b) && #[trigger] metal_scatter_ok(*m, ray@, *rec, res, b),
            self matches Material::Metal(m) ==> (m.fuzz == 0 ==> metal_scatter_ok(
                *m,
                ray@,
                *rec,
                res,
                zerov(),
            )),
            self matches Material::Dielectric(d) ==> exists|draw: int|
                0 <= draw < ONE as int && #[trigger] dielectric_scatter_ok(
                    *d,
                    ray@,
                    *rec,
                    res,
                    draw,
                ),
            self matches Material::Lambertian(_) ==> res is Some,
            self matches Material::Dielectric(_) ==> res is Some,
    {
        match self {
            Material::Lambertian(m) => m.scatter(ray, rec, rng),
            Material::Metal(m) => {
                let res = m.scatter(ray, rec, rng);
                proof {
                    let b = choose|b: V3|
                        in_ball(b) && #[trigger] metal_scatter_ok(*m, ray@, *rec, res, b);
                    assert(metal_scatter_ok(*m, ray@, *rec, res, b));
                }
                res
            },
            Material::Dielectric(m) => {
                let res = m.scatter(ray, rec, rng);
                proof {
                    let draw = choose|draw: int|
                        0 <= draw < ONE as int && #[trigger] dielectric_scatter_ok(
                            *m,
                            ray@,
                            *rec,
                            res,
                            draw,
                        );
                    assert(dielectric_scatter_ok(*m, ray@, *rec, res, draw));
                }
                res
            },
        }
    }
}

impl Material {
    /// Whether this material's parameters are well-formed, decided at
    /// run time.
    pub fn is_wf(&self) -> (r: bool)
        ensures
            r == material_wf(*self),
    {
        match self {
            Material::Lambertian(l) => {
                0 <= l.albedo.x && l.albedo.x <= ONE && 0 <= l.albedo.y && l.albedo.y <= ONE
                    && 0 <= l.albedo.z && l.albedo.z <= ONE
            },
            Material::Metal(m) => {
                0 <= m.albedo.x && m.albedo.x <= ONE && 0 <= m.albedo.y && m.albedo.y <= ONE
                    && 0 <= m.albedo.z && m.albedo.z <= ONE && 0 <= m.fuzz && m.fuzz <= ONE
            },
            Material::Dielectric(d) => d.ir > 0,
        }
    }
}

/// A color whose channels lie inside `[0, 1]`.
pub open spec fn color_wf(c: V3) -> bool {
    &&& 0 <= c.x <= ONE as int
    &&& 0 <= c.y <= ONE as int
    &&& 0 <= c.z <= ONE as int
}

/// Filtering one well-formed color by another yields a well-formed
/// color.
pub proof fn lemma_color_mul(a: V3, b: V3)
    requires
        color_wf(a),
        color_wf(b),
    ensures
        color_wf(crate::vec3::v_mul(a, b)),
{
    crate::fixed::lemma_fmul_unit_range(a.x, b.x);
    crate::fixed::lemma_fmul_unit_range(a.y, b.y);
    crate::fixed::lemma_fmul_unit_range(a.z, b.z);
}

/// Well-formed material parameters: albedo channels inside `[0, 1]`,
/// roughness inside `[0, 1]`, refractive index above zero.
pub open spec fn material_wf(m: Material) -> bool {
    match m {
        Material::Lambertian(l) => color_wf(l.albedo@),
        Material::Metal(mt) => color_wf(mt.albedo@) && 0 <= mt.fuzz as int <= ONE as int,
        Material::Dielectric(d) => d.ir > 0,
    }
}

} // verus!
