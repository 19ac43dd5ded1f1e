//! Fixed-point scalar arithmetic.
//!
//! A scalar with mathematical value `v` is stored as the integer `v * FX_ONE`,
//! rounded toward negative infinity.  All derived operations (`fxmul`, `fxdiv`,
//! square roots) are specified exactly over `int`, with rounding pinned to
//! floor semantics, so that every geometric routine built on top of them has a
//! deterministic, machine-checkable contract.

use vstd::prelude::*;
use vstd::arithmetic::div_mod::{
    lemma_div_is_ordered, lemma_fundamental_div_mod, lemma_fundamental_div_mod_converse,
    lemma_div_multiples_vanish,
};

verus! {

/// The fixed-point representation of the scalar one: sixteen fractional bits.
pub const FX_ONE: i64 = 65536;

/// Floor division by a nonzero divisor of either sign.
///
/// Verus's `/` on `int` is Euclidean division, which coincides with floor
/// division exactly when the divisor is positive; a negative divisor is
/// handled by negating both operands.
pub open spec fn sdiv(x: int, d: int) -> int {
    if d >= 0 {
        x / d
    } else {
        (-x) / (-d)
    }
}

/// The product of two fixed-point scalars, floor-rounded back to scale.
pub open spec fn fxmul(a: int, b: int) -> int {
    (a * b) / (FX_ONE as int)
}

/// The quotient of two fixed-point scalars, floor-rounded.
pub open spec fn fxdiv(a: int, d: int) -> int {
    sdiv(a * (FX_ONE as int), d)
}

/// `r` is the integer square root of `n`, rounded down.
pub open spec fn is_sqrt(n: int, r: int) -> bool {
    0 <= r && r * r <= n && n < (r + 1) * (r + 1)
}

/// The integer square root of `n`, rounded down (meaningful for `n >= 0`).
pub open spec fn sqrt_floor(n: int) -> int {
    choose|r: int| #[trigger] is_sqrt(n, r)
}

proof fn lemma_sqrt_exists(n: nat)
    ensures
        exists|r: int| is_sqrt(n as int, r),
    decreases n,
{
    if n == 0 {
        assert(is_sqrt(0, 0));
    } else {
        lemma_sqrt_exists((n - 1) as nat);
        let r = choose|r: int| #[trigger] is_sqrt(n - 1, r);
        if n < (r + 1) * (r + 1) {
            assert(is_sqrt(n as int, r));
        } else {
            assert(is_sqrt(n as int, r + 1)) by (nonlinear_arith)
                requires
                    is_sqrt(n - 1, r),
                    n >= (r + 1) * (r + 1),
            ;
        }
    }
}

/// Integer square roots are unique, so `sqrt_floor` is pinned down by `is_sqrt`.
pub proof fn lemma_sqrt_unique(n: int, r1: int, r2: int)
    by (nonlinear_arith)
    requires
        is_sqrt(n, r1),
        is_sqrt(n, r2),
    ensures
        r1 == r2,
{
}

/// `sqrt_floor(n)` really is the floor square root of any `n >= 0`.
pub proof fn lemma_sqrt_floor(n: int)
    requires
        n >= 0,
    ensures
        is_sqrt(n, sqrt_floor(n)),
{
    lemma_sqrt_exists(n as nat);
    let r = choose|r: int| #[trigger] is_sqrt(n, r);
    assert(is_sqrt(n, r));
}

/// Quotients by a divisor `d >= 1` move toward zero and never past it.
pub proof fn lemma_div_bounds(a: int, d: int)
    requires
        d >= 1,
    ensures
        a >= 0 ==> 0 <= a / d <= a,
        a < 0 ==> a <= a / d <= 0,
{
    lemma_fundamental_div_mod(a, d);
    let q = a / d;
    let r = a % d;
    assert(a == d * q + r);
    if a >= 0 {
        assert(q >= 0) by (nonlinear_arith)
            requires
                d >= 1,
                0 <= r < d,
                a == d * q + r,
                a >= 0,
        ;
        assert(q <= a) by (nonlinear_arith)
            requires
                d >= 1,
                0 <= r < d,
                a == d * q + r,
                q >= 0,
        ;
    } else {
        assert(q < 0) by (nonlinear_arith)
            requires
                d >= 1,
                0 <= r < d,
                a == d * q + r,
                a < 0,
        ;
        assert(q >= a) by (nonlinear_arith)
            requires
                d >= 1,
                0 <= r < d,
                a == d * q + r,
                q < 0,
        ;
    }
}

/// A quotient by `d >= 1` respects a symmetric bound on the numerator,
/// up to the one unit floor rounding can lose on the negative side.
pub proof fn lemma_div_abs(x: int, xx: int, d: int)
    requires
        -xx <= x <= xx,
        0 <= xx,
        d >= 1,
    ensures
        -(xx / d) - 1 <= x / d <= xx / d,
        -xx - d < d * (x / d) <= xx,
{
    lemma_fundamental_div_mod(x, d);
    assert(d * (x / d) == x - x % d);
    lemma_div_is_ordered(x, xx, d);
    lemma_div_is_ordered(-xx, x, d);
    lemma_fundamental_div_mod(xx, d);
    let q = xx / d;
    let r = xx % d;
    if r == 0 {
        assert(-xx == (-q) * d + 0) by (nonlinear_arith)
            requires
                xx == d * q + r,
                r == 0,
        ;
        lemma_fundamental_div_mod_converse(-xx, d, -q, 0);
    } else {
        assert(-xx == (-q - 1) * d + (d - r)) by (nonlinear_arith)
            requires
                xx == d * q + r,
        ;
        lemma_fundamental_div_mod_converse(-xx, d, -q - 1, d - r);
    }
}

/// A fixed-point quotient respects a symmetric bound on its scaled numerator.
pub proof fn lemma_fxdiv_abs(a: int, d: int, aa: int)
    requires
        -aa <= a * (FX_ONE as int) <= aa,
        0 <= aa,
        d != 0,
    ensures
        -aa <= fxdiv(a, d) <= aa,
{
    if d >= 0 {
        lemma_div_bounds(a * (FX_ONE as int), d);
    } else {
        lemma_div_bounds(-(a * (FX_ONE as int)), -d);
    }
}

/// A ratio of fixed-point scalars whose numerator does not exceed the
/// denominator in magnitude stays within one.
pub proof fn lemma_fxdiv_unit(a: int, d: int)
    requires
        d != 0,
        d > 0 ==> -d <= a <= d,
        d < 0 ==> d <= a <= -d,
    ensures
        -(FX_ONE as int) <= fxdiv(a, d) <= FX_ONE as int,
{
    let f = FX_ONE as int;
    if d > 0 {
        assert(-(d * f) <= a * f <= d * f) by (nonlinear_arith)
            requires
                -d <= a <= d,
                d > 0,
                f > 0,
        ;
        lemma_div_is_ordered(a * f, d * f, d);
        lemma_div_is_ordered(-(d * f), a * f, d);
        lemma_div_multiples_vanish(f, d);
        lemma_div_multiples_vanish(-f, d);
        assert(d * f == f * d && -(d * f) == d * (-f)) by (nonlinear_arith);
    } else {
        let dn = -d;
        let an = -a;
        assert(-(dn * f) <= an * f <= dn * f) by (nonlinear_arith)
            requires
                -dn <= an <= dn,
                dn > 0,
                f > 0,
        ;
        lemma_div_is_ordered(an * f, dn * f, dn);
        lemma_div_is_ordered(-(dn * f), an * f, dn);
        lemma_div_multiples_vanish(f, dn);
        lemma_div_multiples_vanish(-f, dn);
        assert(dn * f == f * dn && -(dn * f) == dn * (-f)) by (nonlinear_arith);
        assert((-a) * f == -(a * f)) by (nonlinear_arith);
        assert(an * f == -(a * f));
    }
}

/// Signed products stay within the product of the operand bounds.
pub proof fn lemma_mul_abs(a: int, b: int, aa: int, bb: int)
    by (nonlinear_arith)
    requires
        -aa <= a <= aa,
        -bb <= b <= bb,
        0 <= aa,
        0 <= bb,
    ensures
        -(aa * bb) <= a * b <= aa * bb,
{
}

/// `fxmul` stays within the floor-divided product of the operand bounds.
pub proof fn lemma_fxmul_abs(a: int, b: int, aa: int, bb: int)
    requires
        -aa <= a <= aa,
        -bb <= b <= bb,
        0 <= aa,
        0 <= bb,
    ensures
        -(aa * bb) / (FX_ONE as int) - 1 <= fxmul(a, b) <= (aa * bb) / (FX_ONE as int),
        -(aa * bb) - (FX_ONE as int) < (FX_ONE as int) * fxmul(a, b) <= aa * bb,
{
    lemma_mul_abs(a, b, aa, bb);
    lemma_div_abs(a * b, aa * bb, FX_ONE as int);
    lemma_div_is_ordered(a * b, aa * bb, FX_ONE as int);
    lemma_div_is_ordered(-(aa * bb), a * b, FX_ONE as int);
    lemma_div_bounds(-(aa * bb), FX_ONE as int);
    lemma_fundamental_div_mod(-(aa * bb), FX_ONE as int);
    lemma_fundamental_div_mod(aa * bb, FX_ONE as int);
    assert(-(aa * bb) / (FX_ONE as int) >= -((aa * bb) / (FX_ONE as int)) - 1)
        by (nonlinear_arith)
        requires
            aa * bb >= 0,
            aa * bb == (FX_ONE as int) * ((aa * bb) / (FX_ONE as int)) + (aa * bb) % (
            FX_ONE as int),
            -(aa * bb) == (FX_ONE as int) * ((-(aa * bb)) / (FX_ONE as int)) + (-(aa * bb)) % (
            FX_ONE as int),
            0 <= (aa * bb) % (FX_ONE as int) < (FX_ONE as int),
            0 <= (-(aa * bb)) % (FX_ONE as int) < (FX_ONE as int),
    ;
}

/// Floor division of `x` by a positive divisor, computed on `i128`.
pub fn div_floor(x: i128, d: i128) -> (q: i128)
    requires
        0 < d <= 0x8000_0000_0000_0000,
        -0x4000_0000_0000_0000_0000_0000_0000_0000 <= x <= 0x4000_0000_0000_0000_0000_0000_0000_0000,
    ensures
        q == (x as int) / (d as int),
{
    if x >= 0 {
        x / d
    } else {
        let m: i128 = -x;
        let q0: i128 = (m + (d - 1)) / d;
        proof {
            let mi = m as int;
            let di = d as int;
            let s = mi + di - 1;
            lemma_fundamental_div_mod(s, di);
            let r0 = s % di;
            assert(s == di * (s / di) + r0);
            assert(-mi == (s / di) * (-1) * di + (di - 1 - r0)) by (nonlinear_arith)
                requires
                    s == mi + di - 1,
                    s == di * (s / di) + r0,
            ;
            lemma_fundamental_div_mod_converse(-mi, di, -(s / di), di - 1 - r0);
            assert((-mi) / di == -(s / di));
            lemma_div_bounds(s, di);
        }
        -q0
    }
}

/// The fixed-point product, on `i64` operands.
pub fn fx_mul(a: i64, b: i64) -> (r: i64)
    requires
        i64::MIN <= fxmul(a as int, b as int) <= i64::MAX,
    ensures
        r as int == fxmul(a as int, b as int),
{
    proof {
        lemma_mul_abs(
            a as int,
            b as int,
            0x8000_0000_0000_0000,
            0x8000_0000_0000_0000,
        );
    }
    let p: i128 = (a as i128) * (b as i128);
    let q: i128 = div_floor(p, FX_ONE as i128);
    q as i64
}

/// The fixed-point quotient, on `i64` operands.
pub fn fx_div(a: i64, b: i64) -> (r: i64)
    requires
        b != 0,
        i64::MIN <= fxdiv(a as int, b as int) <= i64::MAX,
    ensures
        r as int == fxdiv(a as int, b as int),
{
    let p: i128 = (a as i128) * (FX_ONE as i128);
    let q: i128 = if b >= 0 {
        div_floor(p, b as i128)
    } else {
        div_floor(-p, -(b as i128))
    };
    q as i64
}

/// Floor division of an `i64` by a positive `i64`.
pub fn div_i64(a: i64, d: i64) -> (r: i64)
    requires
        d > 0,
    ensures
        r as int == (a as int) / (d as int),
{
    proof {
        lemma_div_bounds(a as int, d as int);
    }
    let q: i128 = div_floor(a as i128, d as i128);
    q as i64
}

/// The integer square root, rounded down.
pub fn isqrt(n: u128) -> (r: u64)
    requires
        n < 0x4000_0000_0000_0000_0000_0000_0000_0000,
    ensures
        is_sqrt(n as int, r as int),
        r as int == sqrt_floor(n as int),
{
    let mut lo: u64 = 0;
    let mut hi: u64 = 0x8000_0000_0000_0000;
    proof {
        assert((0x8000_0000_0000_0000 as int) * (0x8000_0000_0000_0000 as int)
            == 0x4000_0000_0000_0000_0000_0000_0000_0000) by (nonlinear_arith);
    }
    while lo + 1 < hi
        invariant
            lo < hi <= 0x8000_0000_0000_0000,
            (lo as int) * (lo as int) <= n as int,
            (n as int) < (hi as int) * (hi as int),
        decreases hi - lo,
    {
        let mid: u64 = lo + (hi - lo) / 2;
        proof {
            assert(lo < mid < hi);
            assert((mid as int) * (mid as int) <= (0x8000_0000_0000_0000 as int) * (
            0x8000_0000_0000_0000 as int)) by (nonlinear_arith)
                requires
                    0 <= mid <= 0x8000_0000_0000_0000,
            ;
            assert((0x8000_0000_0000_0000 as int) * (0x8000_0000_0000_0000 as int)
                == 0x4000_0000_0000_0000_0000_0000_0000_0000) by (nonlinear_arith);
        }
        let sq: u128 = (mid as u128) * (mid as u128);
        if sq <= n {
            lo = mid;
        } else {
            hi = mid;
        }
    }
    proof {
        assert(is_sqrt(n as int, lo as int)) by (nonlinear_arith)
            requires
                lo + 1 >= hi,
                lo < hi,
                (lo as int) * (lo as int) <= n as int,
                (n as int) < (hi as int) * (hi as int),
        ;
        lemma_sqrt_floor(n as int);
        lemma_sqrt_unique(n as int, lo as int, sqrt_floor(n as int));
    }
    lo
}

} // verus!
