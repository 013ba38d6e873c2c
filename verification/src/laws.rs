//! Laws relating the components: what the scene fold selects, what an
//! exactly representable sphere intersection reports, and how a matched
//! refractive boundary leaves a head-on ray unbent.

use crate::fixed::{
    fabs, fadd, fdiv, fmul, fneg, fsqrt, fsub, lemma_fdiv_ordered, lemma_fmul_one,
    lemma_isq_unique, ONE,
};
use crate::hittable::{
    front_face_of, hit_a, hit_c, hit_disc, hit_half_b, hit_root1, hit_root2, scene_sel,
    sphere_hit_t, sphere_outward_normal, Sphere, SphereV,
};
use crate::material::{
    cannot_refract, cos_theta_of, reflectance_s, refraction_ratio, sin_theta_of, Dielectric,
};
use crate::ray::{ray_at, RayV};
use crate::vec3::{dotv, lsqv, refractv, unitv, v_add, v_neg, v_scale, v_sub, zerov, V3};
use vstd::arithmetic::div_mod::{lemma_div_is_ordered, lemma_div_multiples_vanish};
use vstd::math::abs;
use vstd::prelude::*;

verus! {

/// The nearer candidate root never exceeds the farther one.
proof fn lemma_roots_ordered(s: SphereV, r: RayV)
    requires
        hit_a(r) >= 1,
    ensures
        hit_root1(s, r) <= hit_root2(s, r),
{
    let hb = hit_half_b(s, r);
    let sq = fsqrt(hit_disc(s, r));
    assert(sq >= 0);
    lemma_fdiv_ordered(fsub(fneg(hb), sq), fadd(fneg(hb), sq), hit_a(r));
}

/// Shrinking the upper search bound keeps exactly the hits at or below
/// it: the distance a sphere reports does not depend on how far past it
/// the search reached.
pub proof fn lemma_sphere_hit_monotone(s: SphereV, r: RayV, t_min: int, b: int, t_max: int)
    requires
        hit_a(r) >= 1,
        b <= t_max,
    ensures
        sphere_hit_t(s, r, t_min, b) == (match sphere_hit_t(s, r, t_min, t_max) {
            Some(t) => if t <= b {
                Some(t)
            } else {
                None::<int>
            },
            None => None::<int>,
        }),
{
    lemma_roots_ordered(s, r);
}

/// A reported distance lies inside the search interval.
pub proof fn lemma_sphere_hit_in_range(s: SphereV, r: RayV, t_min: int, t_max: int)
    ensures
        sphere_hit_t(s, r, t_min, t_max) matches Some(t) ==> t_min <= t <= t_max,
{
}

/// The scene aggregate selects the closest hit: it reports nothing only
/// when no member reports anything over the whole interval, and what it
/// reports is a member's own full-interval distance, at or below every
/// other member's.  Insertion order never makes it report a farther hit.
#[verifier::rlimit(100)]
pub proof fn lemma_scene_sel_closest(objs: Seq<Sphere>, r: RayV, t_min: int, t_max: int)
    requires
        hit_a(r) >= 1,
    ensures
        scene_sel(objs, r, t_min, t_max) is None ==> forall|i: int|
            0 <= i < objs.len() ==> #[trigger] sphere_hit_t(objs[i]@, r, t_min, t_max) is None,
        scene_sel(objs, r, t_min, t_max) matches Some(it) ==> {
            &&& 0 <= it.0 < objs.len()
            &&& sphere_hit_t(objs[it.0]@, r, t_min, t_max) == Some(it.1)
            &&& forall|i: int|
                0 <= i < objs.len() ==> match #[trigger] sphere_hit_t(
                    objs[i]@,
                    r,
                    t_min,
                    t_max,
                ) {
                    Some(ti) => it.1 <= ti,
                    None => true,
                }
        },
    decreases objs.len(),
{
    if objs.len() == 0 {
    } else {
        let prefix = objs.drop_last();
        lemma_scene_sel_closest(prefix, r, t_min, t_max);
        let pre = scene_sel(prefix, r, t_min, t_max);
        let last = objs.last();
        match pre {
            Some(it0) => {
                lemma_sphere_hit_in_range(prefix[it0.0]@, r, t_min, t_max);
                lemma_sphere_hit_monotone(last@, r, t_min, it0.1, t_max);
            },
            None => {
                lemma_sphere_hit_monotone(last@, r, t_min, t_max, t_max);
            },
        }
        assert(forall|i: int| 0 <= i < objs.len() - 1 ==> objs[i] == prefix[i]);
    }
}

/// Two overlapping spheres along one ray: whichever order they were
/// inserted in, the scene reports the smaller of the two distances,
/// never the farther one.
#[verifier::rlimit(100)]
pub proof fn lemma_two_sphere_order(
    s1: Sphere,
    s2: Sphere,
    r: RayV,
    t_min: int,
    t_max: int,
    t1: int,
    t2: int,
)
    requires
        hit_a(r) >= 1,
        sphere_hit_t(s1@, r, t_min, t_max) == Some(t1),
        sphere_hit_t(s2@, r, t_min, t_max) == Some(t2),
    ensures
        scene_sel(seq![s1, s2], r, t_min, t_max) matches Some(it) && it.1 == if t1 <= t2 {
            t1
        } else {
            t2
        },
        scene_sel(seq![s2, s1], r, t_min, t_max) matches Some(it) && it.1 == if t1 <= t2 {
            t1
        } else {
            t2
        },
{
    let a = seq![s1, s2];
    let b = seq![s2, s1];
    lemma_scene_sel_closest(a, r, t_min, t_max);
    lemma_scene_sel_closest(b, r, t_min, t_max);
    assert(a[0] == s1 && a[1] == s2 && b[0] == s2 && b[1] == s1);
    match scene_sel(a, r, t_min, t_max) {
        Some(it) => {
            assert(it.0 == 0 || it.0 == 1);
            assert(sphere_hit_t(a[0]@, r, t_min, t_max) matches Some(x) && it.1 <= x);
            assert(sphere_hit_t(a[1]@, r, t_min, t_max) matches Some(x) && it.1 <= x);
        },
        None => {
            assert(sphere_hit_t(a[0]@, r, t_min, t_max) is None);
        },
    }
    match scene_sel(b, r, t_min, t_max) {
        Some(it) => {
            assert(it.0 == 0 || it.0 == 1);
            assert(sphere_hit_t(b[0]@, r, t_min, t_max) matches Some(x) && it.1 <= x);
            assert(sphere_hit_t(b[1]@, r, t_min, t_max) matches Some(x) && it.1 <= x);
        },
        None => {
            assert(sphere_hit_t(b[0]@, r, t_min, t_max) is None);
        },
    }
}

/// A ray fired from outside a unit sphere straight at its center along
/// the third axis meets it exactly at `distance - radius`, facing
/// front, with the outward normal pointing back at the ray's origin.
#[verifier::rlimit(100)]
pub proof fn lemma_unit_sphere_head_on(s: SphereV, r: RayV, t_min: int, t_max: int, d: int)
    requires
        s.radius == ONE as int,
        -65536000 <= s.center.x <= 65536000,
        -65536000 <= s.center.y <= 65536000,
        -65536000 <= s.center.z <= 65536000,
        (ONE as int) < d <= 0x80_0000_0000,
        r.origin == (V3 { x: s.center.x, y: s.center.y, z: s.center.z + d }),
        r.direction == (V3 { x: 0, y: 0, z: -(ONE as int) }),
        t_min <= d - ONE as int <= t_max,
    ensures
        sphere_hit_t(s, r, t_min, t_max) == Some(d - ONE as int),
        sphere_outward_normal(s, r, d - ONE as int) == (V3 { x: 0, y: 0, z: ONE as int }),
        front_face_of(r, sphere_outward_normal(s, r, d - ONE as int)),
{
    let one = ONE as int;
    let oc = v_sub(r.origin, s.center);
    assert(oc == (V3 { x: 0, y: 0, z: d }));

    assert(fmul(0, 0) == 0);
    assert(fmul(-one, -one) == one);
    assert(hit_a(r) == one);

    assert(fmul(d, -one) == -d) by {
        assert(d * -65536 == -(65536 * d)) by (nonlinear_arith);
        lemma_div_multiples_vanish(d, 65536);
    }
    assert(hit_half_b(s, r) == -d);

    assert(0 < d * d <= 0x4000_0000_0000_0000_0000) by (nonlinear_arith)
        requires
            0 < d <= 0x80_0000_0000,
    ;
    let q = (d * d) / 65536;
    assert(fmul(d, d) == q) by {
        assert(abs(d * d) == d * d);
    }
    assert(0 <= q <= 0x4000_0000_0000_0000) by {
        lemma_div_is_ordered(d * d, 0x4000_0000_0000_0000_0000, 65536);
        vstd::arithmetic::div_mod::lemma_div_pos_is_pos(d * d, 65536);
    }
    assert(fmul(-d, -d) == q) by {
        assert(-d * -d == d * d) by (nonlinear_arith);
    }
    assert(fmul(one, one) == one);
    assert(hit_c(s, r) == q - one);
    assert(fmul(one, q - one) == q - one) by {
        lemma_fmul_one(q - one);
    }
    assert(hit_disc(s, r) == one);

    assert(fsqrt(one) == one) by {
        lemma_isq_unique(0x1_0000_0000nat, 65536int);
    }
    assert(fneg(-d) == d);
    assert(fsub(d, one) == d - one);
    assert(fdiv(d - one, one) == d - one) by {
        assert((d - one) * 65536 == 65536 * (d - one)) by (nonlinear_arith);
        lemma_div_multiples_vanish(d - one, 65536);
        assert(abs((d - one) * 65536) == (d - one) * 65536);
    }
    assert(hit_root1(s, r) == d - one);
    assert(sphere_hit_t(s, r, t_min, t_max) == Some(d - one));

    let t = d - one;
    assert(fmul(t, 0) == 0);
    assert(fmul(t, -one) == -t) by {
        assert(t * -65536 == -(65536 * t)) by (nonlinear_arith);
        lemma_div_multiples_vanish(t, 65536);
    }
    assert(ray_at(r, t) == (V3 { x: s.center.x, y: s.center.y, z: s.center.z + one }));
    assert(v_sub(ray_at(r, t), s.center) == (V3 { x: 0, y: 0, z: one }));
    assert(fdiv(0, one) == 0);
    assert(fdiv(one, one) == one);
    assert(sphere_outward_normal(s, r, t) == (V3 { x: 0, y: 0, z: one }));

    assert(fmul(-one, one) == -one);
    assert(dotv(r.direction, sphere_outward_normal(s, r, t)) == -one);
}

/// At a boundary whose refractive index matches the surroundings, a
/// head-on ray passes straight through: total internal reflection does
/// not apply, the Schlick reflectance vanishes, and the refracted
/// direction equals the incoming unit direction — entering (front face)
/// and leaving (back face) alike.
#[verifier::rlimit(100)]
pub proof fn lemma_dielectric_matched_head_on(dl: Dielectric, r: RayV, n: V3, front_face: bool)
    requires
        dl.ir == ONE,
        n == (V3 { x: 0, y: 0, z: ONE as int }) || n == (V3 { x: 0, y: 0, z: -(ONE as int) }),
        unitv(r.direction) == v_neg(n),
    ensures
        refraction_ratio(dl, front_face) == ONE as int,
        !cannot_refract(r, n, refraction_ratio(dl, front_face)),
        reflectance_s(cos_theta_of(r, n), refraction_ratio(dl, front_face)) <= 0,
        refractv(unitv(r.direction), n, refraction_ratio(dl, front_face)) == unitv(r.direction),
{
    let one = ONE as int;
    assert(one == 65536);
    assert(4294967296int / 65536int == 65536int);
    assert(0int / 65536int == 0int);
    assert(0int / 131072int == 0int);
    assert(fdiv(65536, 65536) == 65536);
    assert(refraction_ratio(dl, front_face) == one);

    let ud = unitv(r.direction);
    assert(fmul(0, 0) == 0);
    assert(fmul(65536, 65536) == 65536);
    assert(fmul(-65536, -65536) == 65536);
    assert(fmul(65536, -65536) == -65536);
    assert(fmul(-65536, 65536) == -65536);
    assert(fmul(65536, 0) == 0);
    assert(fneg(0) == 0);
    assert(fsub(65536, 65536) == 0);
    assert(fadd(65536, 65536) == 131072);
    assert(fdiv(0, 131072) == 0);
    assert(fmul(0, 0) == 0);
    assert(fsqrt(0) == 0);
    assert(fsqrt(65536) == 65536) by {
        lemma_isq_unique(0x1_0000_0000nat, 65536int);
    }
    assert(fabs(65536) == 65536);
    assert(fsub(65536, 0) == 65536);
    assert(fneg(65536) == -65536);
    assert(fadd(-65536, 65536) == 0);
    assert(fadd(65536, -65536) == 0);
    assert(fadd(0, 0) == 0);
    assert(fadd(0, 65536) == 65536);
    assert(fadd(0, -65536) == -65536);

    let e = n.z;
    assert(e == 65536 || e == -65536);
    assert(fneg(fneg(e)) == e);
    assert(ud == (V3 { x: 0, y: 0, z: fneg(e) }));
    assert(v_neg(ud) == n);
    assert(fmul(e, e) == 65536);
    assert(dotv(n, n) == 65536);
    assert(cos_theta_of(r, n) == 65536);
    assert(sin_theta_of(r, n) == 0);
    assert(!cannot_refract(r, n, 65536));
    assert(reflectance_s(65536, 65536) == 0);

    assert(fmul(65536, e) == e);
    assert(v_scale(65536, n) == n);
    assert(fadd(fneg(e), e) == 0);
    assert(v_add(ud, n) == zerov());
    assert(v_scale(65536, zerov()) == zerov());
    assert(lsqv(zerov()) == 0);
    assert(fmul(-65536, e) == fneg(e));
    assert(v_scale(-65536, n) == ud);
    assert(v_add(zerov(), ud) == ud);
    assert(refractv(ud, n, 65536) == ud);
}


} // verus!

