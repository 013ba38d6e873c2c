//! Fixed-point scalar arithmetic.
//!
//! Every scalar quantity of the renderer (coordinates, directions, colors,
//! parametric distances) is a signed count of 1/65536ths of a unit, kept in
//! an `i64`.  Multiplication and division round toward zero, as the quotient
//! of two machine integers does; results that would leave the `i64` range
//! saturate at its ends.  This gives every operation an exact mathematical
//! meaning that the contracts below state in full.

use vstd::arithmetic::div_mod::{lemma_div_is_ordered, lemma_div_multiples_vanish};
use vstd::math::abs;
use vstd::prelude::*;

verus! {

/// Number of fraction steps per whole unit.
pub const ONE: i64 = 65536;

/// Clip a mathematical integer to the `i64` range.
pub open spec fn sat(x: int) -> int {
    if x > i64::MAX {
        i64::MAX as int
    } else if x < i64::MIN {
        i64::MIN as int
    } else {
        x
    }
}

/// Quotient rounded toward zero; zero when the divisor is zero.
pub open spec fn tz(a: int, b: int) -> int {
    if b == 0 {
        0
    } else if (a < 0) == (b < 0) {
        abs(a) as int / abs(b) as int
    } else {
        -(abs(a) as int / abs(b) as int)
    }
}

/// Product of two fixed-point scalars.
pub open spec fn fmul(a: int, b: int) -> int {
    sat(tz(a * b, ONE as int))
}

/// Quotient of two fixed-point scalars.
pub open spec fn fdiv(a: int, b: int) -> int {
    sat(tz(a * (ONE as int), b))
}

pub open spec fn fadd(a: int, b: int) -> int {
    sat(a + b)
}

pub open spec fn fsub(a: int, b: int) -> int {
    sat(a - b)
}

pub open spec fn fneg(a: int) -> int {
    sat(-a)
}

/// Integer square root, defined by counting up.
pub open spec fn isq(n: nat) -> nat
    decreases n,
{
    if n == 0 {
        0
    } else {
        let r = isq((n - 1) as nat);
        if (r + 1) * (r + 1) <= n {
            r + 1
        } else {
            r
        }
    }
}

/// Square root of a nonnegative fixed-point scalar; zero below zero.
pub open spec fn fsqrt(x: int) -> int {
    if x <= 0 {
        0
    } else {
        isq((x * (ONE as int)) as nat) as int
    }
}

/// `isq` is the rounded-down square root.
pub proof fn lemma_isq(n: nat)
    ensures
        (isq(n) as int) * (isq(n) as int) <= n as int,
        (n as int) < (isq(n) as int + 1) * (isq(n) as int + 1),
    decreases n,
{
    if n != 0 {
        lemma_isq((n - 1) as nat);
        let r = isq((n - 1) as nat) as int;
        let s = isq(n) as int;
        assert(r * r <= n - 1 && n - 1 < (r + 1) * (r + 1));
        if (r + 1) * (r + 1) <= n as int {
            assert(s == r + 1);
            assert((n as int) < (s + 1) * (s + 1)) by (nonlinear_arith)
                requires
                    n - 1 < (r + 1) * (r + 1),
                    (r + 1) * (r + 1) <= n as int,
                    r >= 0,
                    s == r + 1,
            ;
        } else {
            assert(s == r);
            assert(s * s <= n as int);
            assert((n as int) < (s + 1) * (s + 1));
        }
    } else {
        assert(isq(0nat) == 0);
    }
}

/// No two naturals both satisfy the rounded-down square root bounds.
pub proof fn lemma_isq_unique(n: nat, r: int)
    requires
        r >= 0,
        r * r <= n as int,
        (n as int) < (r + 1) * (r + 1),
    ensures
        r == isq(n) as int,
{
    lemma_isq(n);
    let s = isq(n) as int;
    assert(r == s) by (nonlinear_arith)
        requires
            r >= 0,
            s >= 0,
            r * r <= n as int,
            (n as int) < (r + 1) * (r + 1),
            s * s <= n as int,
            (n as int) < (s + 1) * (s + 1),
    ;
}

/// A scalar at or above one fixed-point step has a root at or above one.
pub proof fn lemma_fsqrt_pos(x: int)
    requires
        x >= 1,
    ensures
        fsqrt(x) >= 1,
{
    assert(x * (ONE as int) >= 65536) by (nonlinear_arith)
        requires
            x >= 1,
    ;
    let n = (x * (ONE as int)) as nat;
    lemma_isq(n);
    if isq(n) == 0 {
        assert((n as int) < (0 + 1) * (0 + 1));
    }
}

/// Multiplying by `ONE` is the identity.
pub proof fn lemma_fmul_one(a: int)
    requires
        i64::MIN <= a <= i64::MAX,
    ensures
        fmul(a, ONE as int) == a,
        fmul(ONE as int, a) == a,
{
    let s = ONE as int;
    assert(abs(a * s) == abs(a) * s) by (nonlinear_arith)
        requires
            s == 65536,
    ;
    assert(abs(s * a) == abs(a) * s) by (nonlinear_arith)
        requires
            s == 65536,
    ;
    lemma_div_multiples_vanish(abs(a) as int, s);
    assert((abs(a) * s) as int / s == abs(a)) by {
        assert(s * abs(a) == abs(a) * s) by (nonlinear_arith);
    }
}

/// Multiplying by zero gives zero.
pub proof fn lemma_fmul_zero(a: int)
    ensures
        fmul(a, 0) == 0,
        fmul(0, a) == 0,
{
    assert(a * 0 == 0) by (nonlinear_arith);
    assert(0 * a == 0) by (nonlinear_arith);
    assert(0int / 65536int == 0int);
}

/// A product of factors inside `[0, ONE]` stays inside `[0, ONE]`.
pub proof fn lemma_fmul_unit_range(a: int, b: int)
    requires
        0 <= a <= ONE as int,
        0 <= b <= ONE as int,
    ensures
        0 <= fmul(a, b) <= ONE as int,
        fmul(a, b) <= a,
        fmul(a, b) <= b,
{
    let s = ONE as int;
    assert(0 <= a * b <= a * s && a * b <= b * s) by (nonlinear_arith)
        requires
            0 <= a <= s,
            0 <= b <= s,
    ;
    lemma_div_is_ordered(a * b, a * s, s);
    lemma_div_is_ordered(a * b, b * s, s);
    lemma_div_multiples_vanish(a, s);
    lemma_div_multiples_vanish(b, s);
    assert(s * a == a * s && s * b == b * s) by (nonlinear_arith);
    assert(tz(a * b, s) == a * b / s);
}

/// Rounding toward zero keeps the order of numerators over a positive divisor.
pub proof fn lemma_tz_ordered(a1: int, a2: int, b: int)
    requires
        b > 0,
        a1 <= a2,
    ensures
        tz(a1, b) <= tz(a2, b),
{
    if a1 >= 0 {
        lemma_div_is_ordered(a1, a2, b);
    } else if a2 < 0 {
        lemma_div_is_ordered(-a2, -a1, b);
    } else {
        assert(tz(a1, b) <= 0) by {
            assert(abs(a1) as int / b >= 0) by (nonlinear_arith)
                requires
                    b > 0,
                    abs(a1) >= 0,
            ;
        }
        assert(tz(a2, b) >= 0) by {
            assert(abs(a2) as int / b >= 0) by (nonlinear_arith)
                requires
                    b > 0,
                    abs(a2) >= 0,
            ;
        }
    }
}

/// Fixed-point division keeps the order of numerators over a positive divisor.
pub proof fn lemma_fdiv_ordered(a1: int, a2: int, b: int)
    requires
        b > 0,
        a1 <= a2,
    ensures
        fdiv(a1, b) <= fdiv(a2, b),
{
    lemma_tz_ordered(a1 * (ONE as int), a2 * (ONE as int), b);
}

/// Clip a wide intermediate back to the scalar range.
fn sat_i64(q: i128) -> (r: i64)
    ensures
        r as int == sat(q as int),
{
    if q > i64::MAX as i128 {
        i64::MAX
    } else if q < i64::MIN as i128 {
        i64::MIN
    } else {
        q as i64
    }
}

/// Wide quotient rounded toward zero.
fn tz_i128(a: i128, b: i128) -> (q: i128)
    requires
        a > i128::MIN,
        b > i128::MIN,
        b != 0,
    ensures
        q == tz(a as int, b as int),
{
    let neg: bool = (a < 0) != (b < 0);
    let au: u128 = if a < 0 { (-a) as u128 } else { a as u128 };
    let bu: u128 = if b < 0 { (-b) as u128 } else { b as u128 };
    assert(au == abs(a as int) && bu == abs(b as int));
    let qu: u128 = au / bu;
    assert(qu <= au) by {
        assert(au / bu <= au) by (nonlinear_arith)
            requires
                bu >= 1,
        ;
    }
    if neg {
        -(qu as i128)
    } else {
        qu as i128
    }
}

/// Saturating fixed-point addition.
pub fn fx_add(a: i64, b: i64) -> (r: i64)
    ensures
        r as int == fadd(a as int, b as int),
{
    let s: i128 = a as i128 + b as i128;
    sat_i64(s)
}

/// Saturating fixed-point subtraction.
pub fn fx_sub(a: i64, b: i64) -> (r: i64)
    ensures
        r as int == fsub(a as int, b as int),
{
    let s: i128 = a as i128 - b as i128;
    sat_i64(s)
}

/// Saturating negation.
pub fn fx_neg(a: i64) -> (r: i64)
    ensures
        r as int == fneg(a as int),
{
    let s: i128 = -(a as i128);
    sat_i64(s)
}

/// Saturating fixed-point product, rounded toward zero.
pub fn fx_mul(a: i64, b: i64) -> (r: i64)
    ensures
        r as int == fmul(a as int, b as int),
{
    proof {
        assert(i128::MIN < (a as int) * (b as int) < i128::MAX) by (nonlinear_arith)
            requires
                i64::MIN <= a <= i64::MAX,
                i64::MIN <= b <= i64::MAX,
        ;
    }
    let p: i128 = (a as i128) * (b as i128);
    let q: i128 = tz_i128(p, 65536);
    sat_i64(q)
}

/// Saturating fixed-point quotient, rounded toward zero.
pub fn fx_div(a: i64, b: i64) -> (r: i64)
    requires
        b != 0,
    ensures
        r as int == fdiv(a as int, b as int),
{
    let p: i128 = (a as i128) * 65536;
    let q: i128 = tz_i128(p, b as i128);
    sat_i64(q)
}

/// Quotient of two scalars rounded toward zero, without rescaling;
/// averaging accumulated samples divides this way.
pub fn fx_tzdiv(a: i64, b: i64) -> (r: i64)
    requires
        b >= 1,
    ensures
        r as int == tz(a as int, b as int),
{
    let q = tz_i128(a as i128, b as i128);
    proof {
        assert(abs(a as int) as int / abs(b as int) as int <= abs(a as int)) by (nonlinear_arith)
            requires
                abs(b as int) >= 1,
        ;
    }
    q as i64
}

/// Rounded-down square root of a wide unsigned integer.
fn isqrt_u128(n: u128) -> (r: u128)
    ensures
        r * r <= n,
        n < (r + 1) * (r + 1),
{
    if n == 0 {
        return 0;
    }
    let cap: u128 = 0x1_0000_0000_0000_0000;
    let mut lo: u128 = 0;
    let mut hi: u128 = if n < cap { n + 1 } else { cap };
    proof {
        if n < cap {
            assert(n < (n + 1) * (n + 1)) by (nonlinear_arith);
        } else {
            assert(n < cap * cap) by (nonlinear_arith)
                requires
                    cap == 0x1_0000_0000_0000_0000,
                    n <= u128::MAX,
            ;
        }
    }
    while lo + 1 < hi
        invariant
            lo < hi,
            hi <= 0x1_0000_0000_0000_0000,
            lo * lo <= n,
            n < hi * hi,
        decreases hi - lo,
    {
        let mid: u128 = lo + (hi - lo) / 2;
        proof {
            assert(mid * mid < 0x1_0000_0000_0000_0000 * 0x1_0000_0000_0000_0000) by (nonlinear_arith)
                requires
                    mid < 0x1_0000_0000_0000_0000,
            ;
        }
        let m2: u128 = mid * mid;
        if m2 <= n {
            lo = mid;
        } else {
            hi = mid;
        }
    }
    lo
}

/// Saturating fixed-point square root; zero below zero.
pub fn fx_sqrt(x: i64) -> (r: i64)
    ensures
        r as int == fsqrt(x as int),
{
    if x <= 0 {
        return 0;
    }
    let n: u128 = (x as u128) * 65536;
    let s: u128 = isqrt_u128(n);
    proof {
        lemma_isq_unique(n as nat, s as int);
        assert(s * s <= n < 0x8000_0000_0000_0000 * 65536);
        assert(s <= 0x8000_0000_0000) by (nonlinear_arith)
            requires
                s * s < 0x8000_0000_0000_0000 * 65536,
        ;
    }
    s as i64
}

/// Magnitude, clipped to the scalar range.
pub open spec fn fabs(a: int) -> int {
    sat(abs(a) as int)
}

/// Saturating absolute value.
pub fn fx_abs(a: i64) -> (r: i64)
    ensures
        r as int == fabs(a as int),
{
    if a < 0 {
        fx_neg(a)
    } else {
        a
    }
}

/// The smaller of two scalars.
pub fn fx_min(a: i64, b: i64) -> (r: i64)
    ensures
        r == if a as int <= b as int { a } else { b },
{
    if a <= b {
        a
    } else {
        b
    }
}

/// Clamp a scalar into a closed interval.
pub fn fx_clamp(x: i64, lo: i64, hi: i64) -> (r: i64)
    requires
        lo <= hi,
    ensures
        r as int == fclamp(x as int, lo as int, hi as int),
{
    if x < lo {
        lo
    } else if x > hi {
        hi
    } else {
        x
    }
}

/// Clamp into a closed interval, in the model.
pub open spec fn fclamp(x: int, lo: int, hi: int) -> int {
    if x < lo {
        lo
    } else if x > hi {
        hi
    } else {
        x
    }
}

/// The circle constant, rounded down to the fixed-point grid.
pub const PI_FX: i64 = 205887;

/// An angle in degrees, as the scalar `degrees · π / 180`.
pub open spec fn deg_to_rad(degrees: int) -> int {
    fdiv(fmul(degrees, PI_FX as int), 180 * (ONE as int))
}

/// Convert an angle from degrees to radians on the fixed-point grid.
pub fn degrees_to_radians(degrees: i64) -> (r: i64)
    ensures
        r as int == deg_to_rad(degrees as int),
{
    fx_div(fx_mul(degrees, PI_FX), 180 * ONE)
}

} // verus!
