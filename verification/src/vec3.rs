//! Three-component vectors over fixed-point scalars.
//!
//! One type serves as point, direction and color.  Each executable
//! operation is pinned to a spec-level counterpart over `V3`, the
//! mathematical image of a vector.

use crate::fixed::{
    fabs, fadd, fdiv, fmul, fneg, fsqrt, fsub, fx_abs, fx_add, fx_div, fx_min, fx_mul, fx_neg,
    fx_sqrt, fx_sub, ONE,
};
use crate::rng::Rng;
use vstd::prelude::*;

verus! {

/// Mathematical image of a vector: three unbounded integers, each counting
/// 1/65536ths of a unit.
pub ghost struct V3 {
    pub x: int,
    pub y: int,
    pub z: int,
}

/// A point, direction or color.
#[derive(Clone, Copy, PartialEq, Eq, Structural, Debug)]
pub struct Vec3 {
    pub x: i64,
    pub y: i64,
    pub z: i64,
}

impl View for Vec3 {
    type V = V3;

    open spec fn view(&self) -> V3 {
        V3 { x: self.x as int, y: self.y as int, z: self.z as int }
    }
}

pub open spec fn zerov() -> V3 {
    V3 { x: 0, y: 0, z: 0 }
}

pub open spec fn v_neg(a: V3) -> V3 {
    V3 { x: fneg(a.x), y: fneg(a.y), z: fneg(a.z) }
}

pub open spec fn v_add(a: V3, b: V3) -> V3 {
    V3 { x: fadd(a.x, b.x), y: fadd(a.y, b.y), z: fadd(a.z, b.z) }
}

pub open spec fn v_sub(a: V3, b: V3) -> V3 {
    V3 { x: fsub(a.x, b.x), y: fsub(a.y, b.y), z: fsub(a.z, b.z) }
}

pub open spec fn v_mul(a: V3, b: V3) -> V3 {
    V3 { x: fmul(a.x, b.x), y: fmul(a.y, b.y), z: fmul(a.z, b.z) }
}

pub open spec fn v_scale(k: int, a: V3) -> V3 {
    V3 { x: fmul(k, a.x), y: fmul(k, a.y), z: fmul(k, a.z) }
}

pub open spec fn v_divs(a: V3, k: int) -> V3 {
    V3 { x: fdiv(a.x, k), y: fdiv(a.y, k), z: fdiv(a.z, k) }
}

pub open spec fn dotv(a: V3, b: V3) -> int {
    fadd(fadd(fmul(a.x, b.x), fmul(a.y, b.y)), fmul(a.z, b.z))
}

pub open spec fn lsqv(a: V3) -> int {
    dotv(a, a)
}

pub open spec fn lenv(a: V3) -> int {
    fsqrt(lsqv(a))
}

pub open spec fn crossv(a: V3, b: V3) -> V3 {
    V3 {
        x: fsub(fmul(a.y, b.z), fmul(a.z, b.y)),
        y: fsub(fmul(a.z, b.x), fmul(a.x, b.z)),
        z: fsub(fmul(a.x, b.y), fmul(a.y, b.x)),
    }
}

pub open spec fn unitv(a: V3) -> V3 {
    v_divs(a, lenv(a))
}

pub open spec fn reflectv(v: V3, n: V3) -> V3 {
    v_sub(v, v_scale(fmul(2 * (ONE as int), dotv(v, n)), n))
}

pub open spec fn refractv(v: V3, n: V3, etai_over_etat: int) -> V3 {
    let cos_theta = if dotv(v_neg(v), n) <= ONE as int {
        dotv(v_neg(v), n)
    } else {
        ONE as int
    };
    let r_out_perp = v_scale(etai_over_etat, v_add(v, v_scale(cos_theta, n)));
    let r_out_parallel = v_scale(fneg(fsqrt(fabs(fsub(ONE as int, lsqv(r_out_perp))))), n);
    v_add(r_out_perp, r_out_parallel)
}

/// Strictly inside the unit ball.
pub open spec fn in_ball(a: V3) -> bool {
    lsqv(a) < ONE as int
}

/// The image of some unit-ball sample of measurable length under
/// normalization.
pub open spec fn unit_sample(u: V3) -> bool {
    exists|v: V3| 1 <= lsqv(v) < ONE as int && u == #[trigger] unitv(v)
}

/// Filtering any color by black gives black.
pub proof fn lemma_v_mul_zero(a: V3)
    ensures
        v_mul(a, zerov()) == zerov(),
{
    crate::fixed::lemma_fmul_zero(a.x);
    crate::fixed::lemma_fmul_zero(a.y);
    crate::fixed::lemma_fmul_zero(a.z);
}

/// Adding the zero vector changes nothing, as long as the components
/// already lie in the scalar range.
pub proof fn lemma_v_add_zero(a: V3)
    requires
        i64::MIN <= a.x <= i64::MAX,
        i64::MIN <= a.y <= i64::MAX,
        i64::MIN <= a.z <= i64::MAX,
    ensures
        v_add(a, zerov()) == a,
{
}

/// The unit vector along the third axis is the normalized image of a
/// short sample along the same axis.
proof fn lemma_unit_fallback(u: V3)
    requires
        u == (V3 { x: 0, y: 0, z: ONE as int }),
    ensures
        unit_sample(u),
{
    let w = V3 { x: 0, y: 0, z: 256 };
    assert(fmul(256, 256) == 1);
    assert(fmul(0, 0) == 0);
    assert(lsqv(w) == 1);
    crate::fixed::lemma_isq_unique(65536nat, 256int);
    assert(lenv(w) == 256);
    assert(fdiv(0, 256) == 0);
    assert(fdiv(256, 256) == ONE as int);
    assert(unitv(w) == u);
    assert(1 <= lsqv(w) < ONE as int && u == #[trigger] unitv(w));
}

impl Vec3 {
    /// The origin; black, as a color.
    pub fn zero() -> (r: Vec3)
        ensures
            r@ == zerov(),
    {
        Vec3 { x: 0, y: 0, z: 0 }
    }

    pub fn new(e0: i64, e1: i64, e2: i64) -> (r: Vec3)
        ensures
            r@ == (V3 { x: e0 as int, y: e1 as int, z: e2 as int }),
    {
        Vec3 { x: e0, y: e1, z: e2 }
    }

    /// A sample of the half-open unit cube `[0, 1)^3`.
    pub fn random(rng: &mut Rng) -> (r: Vec3)
        ensures
            0 <= r@.x < ONE as int,
            0 <= r@.y < ONE as int,
            0 <= r@.z < ONE as int,
    {
        let x = rng.gen_range(0, ONE);
        let y = rng.gen_range(0, ONE);
        let z = rng.gen_range(0, ONE);
        Vec3 { x, y, z }
    }

    /// A sample of the half-open cube `[min, max)^3`.
    pub fn random_in_range(rng: &mut Rng, min: i64, max: i64) -> (r: Vec3)
        requires
            min < max,
        ensures
            min as int <= r@.x < max as int,
            min as int <= r@.y < max as int,
            min as int <= r@.z < max as int,
    {
        let x = rng.gen_range(min, max);
        let y = rng.gen_range(min, max);
        let z = rng.gen_range(min, max);
        Vec3 { x, y, z }
    }

    /// Rejection sampling: draw cube samples until one falls strictly
    /// inside the unit ball.  Each draw succeeds with probability about
    /// one half, so the budget below fails only with vanishing
    /// probability; the center of the ball then stands in.
    pub fn random_in_unit_sphere(rng: &mut Rng) -> (r: Vec3)
        ensures
            in_ball(r@),
    {
        let mut tries: u32 = 64;
        while tries > 0
            invariant
                true,
            decreases tries,
        {
            let p = Vec3::random_in_range(rng, -ONE, ONE);
            if p.length_squared() < ONE {
                return p;
            }
            tries = tries - 1;
        }
        let c = Vec3 { x: 0, y: 0, z: 0 };
        proof {
            assert(lsqv(c@) == 0);
        }
        c
    }

    /// A normalized unit-ball sample.  Samples whose squared length rounds
    /// to zero cannot be normalized and are rejected with the rest.
    pub fn random_unit_vector(rng: &mut Rng) -> (r: Vec3)
        ensures
            unit_sample(r@),
    {
        let mut tries: u32 = 64;
        while tries > 0
            invariant
                true,
            decreases tries,
        {
            let p = Vec3::random_in_unit_sphere(rng);
            if p.length_squared() >= 1 {
                let u = p.unit();
                proof {
                    assert(1 <= lsqv(p@) < ONE as int && u@ == unitv(p@));
                }
                return u;
            }
            tries = tries - 1;
        }
        let f = Vec3 { x: 0, y: 0, z: ONE };
        proof {
            lemma_unit_fallback(f@);
        }
        f
    }

    /// Rejection sampling in the plane: a point strictly inside the unit
    /// disk, with the third component zero.
    pub fn random_in_unit_disk(rng: &mut Rng) -> (r: Vec3)
        ensures
            in_ball(r@),
            r@.z == 0,
    {
        let mut tries: u32 = 64;
        while tries > 0
            invariant
                true,
            decreases tries,
        {
            let x = rng.gen_range(-ONE, ONE);
            let y = rng.gen_range(-ONE, ONE);
            let p = Vec3 { x, y, z: 0 };
            if p.length_squared() < ONE {
                return p;
            }
            tries = tries - 1;
        }
        let c = Vec3 { x: 0, y: 0, z: 0 };
        proof {
            assert(lsqv(c@) == 0);
        }
        c
    }

    pub fn x(&self) -> (r: i64)
        ensures
            r as int == self@.x,
    {
        self.x
    }

    pub fn y(&self) -> (r: i64)
        ensures
            r as int == self@.y,
    {
        self.y
    }

    pub fn z(&self) -> (r: i64)
        ensures
            r as int == self@.z,
    {
        self.z
    }

    pub fn length(&self) -> (r: i64)
        ensures
            r as int == lenv(self@),
    {
        fx_sqrt(self.length_squared())
    }

    pub fn length_squared(&self) -> (r: i64)
        ensures
            r as int == lsqv(self@),
    {
        fx_add(fx_add(fx_mul(self.x, self.x), fx_mul(self.y, self.y)), fx_mul(self.z, self.z))
    }

    pub fn dot(&self, rhs: Vec3) -> (r: i64)
        ensures
            r as int == dotv(self@, rhs@),
    {
        fx_add(fx_add(fx_mul(self.x, rhs.x), fx_mul(self.y, rhs.y)), fx_mul(self.z, rhs.z))
    }

    pub fn cross(&self, rhs: Vec3) -> (r: Vec3)
        ensures
            r@ == crossv(self@, rhs@),
    {
        Vec3 {
            x: fx_sub(fx_mul(self.y, rhs.z), fx_mul(self.z, rhs.y)),
            y: fx_sub(fx_mul(self.z, rhs.x), fx_mul(self.x, rhs.z)),
            z: fx_sub(fx_mul(self.x, rhs.y), fx_mul(self.y, rhs.x)),
        }
    }

    /// Normalization.  The squared length must not round to zero: a
    /// direction of measurable length is the caller's obligation.
    pub fn unit(self) -> (r: Vec3)
        requires
            lsqv(self@) >= 1,
        ensures
            r@ == unitv(self@),
            lenv(self@) >= 1,
    {
        let ls = self.length_squared();
        let len = fx_sqrt(ls);
        proof {
            crate::fixed::lemma_fsqrt_pos(ls as int);
        }
        self.div_scalar(len)
    }

    /// Whether every component is smaller in magnitude than the
    /// customary degeneracy threshold of `1e-8`; that bound falls below
    /// one fixed-point step, so only the zero vector qualifies.
    pub fn near_zero(&self) -> (r: bool)
        ensures
            r == (self@ == zerov()),
    {
        let r = self.x == 0 && self.y == 0 && self.z == 0;
        proof {
            if self.x == 0 && self.y == 0 && self.z == 0 {
                assert(self@ == zerov());
            }
        }
        r
    }

    /// Mirror about a surface normal.
    pub fn reflect(self, other: Vec3) -> (r: Vec3)
        ensures
            r@ == reflectv(self@, other@),
    {
        let d = self.dot(other);
        let k = fx_mul(2 * ONE, d);
        self.sub(other.scale(k))
    }

    /// Snell decomposition into perpendicular and parallel parts.
    pub fn refract(self, n: Vec3, etai_over_etat: i64) -> (r: Vec3)
        ensures
            r@ == refractv(self@, n@, etai_over_etat as int),
    {
        let cos_theta = fx_min(self.neg().dot(n), ONE);
        let r_out_perp = self.add(n.scale(cos_theta)).scale(etai_over_etat);
        let r_out_parallel = n.scale(fx_neg(fx_sqrt(fx_abs(fx_sub(ONE, r_out_perp.length_squared())))));
        r_out_perp.add(r_out_parallel)
    }

    pub fn neg(self) -> (r: Vec3)
        ensures
            r@ == v_neg(self@),
    {
        Vec3 { x: fx_neg(self.x), y: fx_neg(self.y), z: fx_neg(self.z) }
    }

    pub fn add(self, rhs: Vec3) -> (r: Vec3)
        ensures
            r@ == v_add(self@, rhs@),
    {
        Vec3 {
            x: fx_add(self.x, rhs.x),
            y: fx_add(self.y, rhs.y),
            z: fx_add(self.z, rhs.z),
        }
    }

    pub fn sub(self, rhs: Vec3) -> (r: Vec3)
        ensures
            r@ == v_sub(self@, rhs@),
    {
        Vec3 {
            x: fx_sub(self.x, rhs.x),
            y: fx_sub(self.y, rhs.y),
            z: fx_sub(self.z, rhs.z),
        }
    }

    /// Component-wise product; colors filter colors this way.
    pub fn mul(self, rhs: Vec3) -> (r: Vec3)
        ensures
            r@ == v_mul(self@, rhs@),
    {
        Vec3 {
            x: fx_mul(self.x, rhs.x),
            y: fx_mul(self.y, rhs.y),
            z: fx_mul(self.z, rhs.z),
        }
    }

    /// Product with a scalar.
    pub fn scale(self, k: i64) -> (r: Vec3)
        ensures
            r@ == v_scale(k as int, self@),
    {
        Vec3 { x: fx_mul(k, self.x), y: fx_mul(k, self.y), z: fx_mul(k, self.z) }
    }

    /// Quotient by a scalar.
    pub fn div_scalar(self, k: i64) -> (r: Vec3)
        requires
            k != 0,
        ensures
            r@ == v_divs(self@, k as int),
    {
        Vec3 { x: fx_div(self.x, k), y: fx_div(self.y, k), z: fx_div(self.z, k) }
    }
}

} // verus!
