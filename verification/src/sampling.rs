//! Cosine-weighted hemisphere sampling via the concentric disc mapping.
//!
//! A structured grid of points in the unit square is remapped to the unit
//! disc — the larger-magnitude axis drives a polar radius/angle pair, which
//! keeps the grid's low-discrepancy property — and the disc point is then
//! projected up onto the hemisphere, which weights directions by the cosine
//! of their angle to the surface normal.  The sine and cosine of the (at
//! most an eighth of a turn) polar angle are degree-five and degree-four
//! polynomial approximations whose rounding is pinned exactly.

use vstd::prelude::*;
use crate::fx::{fxmul, fxdiv, sqrt_floor, is_sqrt, isqrt, fx_mul, fx_div, div_i64, FX_ONE};
use crate::fx::{lemma_mul_abs, lemma_fxmul_abs, lemma_div_bounds};
use crate::math::vec3::{Vec3, spec_cross3, spec_normalized};
use crate::math::norm3::{Norm3, lemma_unit_abs};

verus! {

/// A quarter of the circle constant, at fixed-point scale.
pub const PI_QUARTER: i64 = 51472;

/// What `cos_pi4` computes for `t` in `[-1, 1]`: the degree-four Taylor
/// polynomial of `cos` at the angle `t` quarter-turns-of-a-half, that is
/// `1 - w^2/2 + w^4/24` for `w = (pi/4) * t`, every product floored back to
/// scale.
pub open spec fn spec_cos_pi4(t: int) -> int {
    let w = fxmul(PI_QUARTER as int, t);
    let c2 = fxmul(w, w);
    let c4 = fxmul(c2, c2);
    FX_ONE - c2 / 2 + c4 / 24
}

/// What `sin_pi4` computes for `t` in `[-1, 1]`: the degree-five Taylor
/// polynomial `w - w^3/6 + w^5/120` for `w = (pi/4) * t`, every product
/// floored back to scale.
pub open spec fn spec_sin_pi4(t: int) -> int {
    let w = fxmul(PI_QUARTER as int, t);
    let c2 = fxmul(w, w);
    let c4 = fxmul(c2, c2);
    w - fxmul(c2, w) / 6 + fxmul(c4, w) / 120
}

/// The approximate cosine of `(pi/4) * t`, at fixed-point scale.
pub fn cos_pi4(t: i64) -> (r: i64)
    requires
        -FX_ONE <= t <= FX_ONE,
    ensures
        r as int == spec_cos_pi4(t as int),
        -66700 <= r <= 66700,
{
    proof {
        lemma_fxmul_abs(PI_QUARTER as int, t as int, PI_QUARTER as int, FX_ONE as int);
    }
    let w: i64 = fx_mul(PI_QUARTER, t);
    proof {
        lemma_fxmul_abs(w as int, w as int, 51473, 51473);
        assert((w as int) * (w as int) >= 0) by (nonlinear_arith);
        lemma_div_bounds((w as int) * (w as int), FX_ONE as int);
    }
    let c2: i64 = fx_mul(w, w);
    proof {
        lemma_fxmul_abs(c2 as int, c2 as int, 40427, 40427);
        assert((c2 as int) * (c2 as int) >= 0) by (nonlinear_arith);
        lemma_div_bounds((c2 as int) * (c2 as int), FX_ONE as int);
        lemma_div_bounds(c2 as int, 2);
        crate::fx::lemma_div_abs(c2 as int, 40427, 2);
    }
    let c4: i64 = fx_mul(c2, c2);
    proof {
        lemma_div_bounds(c4 as int, 24);
        crate::fx::lemma_div_abs(c4 as int, 24938, 24);
    }
    FX_ONE - div_i64(c2, 2) + div_i64(c4, 24)
}

/// The approximate sine of `(pi/4) * t`, at fixed-point scale.
pub fn sin_pi4(t: i64) -> (r: i64)
    requires
        -FX_ONE <= t <= FX_ONE,
    ensures
        r as int == spec_sin_pi4(t as int),
        -57000 <= r <= 57000,
{
    proof {
        lemma_fxmul_abs(PI_QUARTER as int, t as int, PI_QUARTER as int, FX_ONE as int);
    }
    let w: i64 = fx_mul(PI_QUARTER, t);
    proof {
        lemma_fxmul_abs(w as int, w as int, 51473, 51473);
        assert((w as int) * (w as int) >= 0) by (nonlinear_arith);
        lemma_div_bounds((w as int) * (w as int), FX_ONE as int);
    }
    let c2: i64 = fx_mul(w, w);
    proof {
        lemma_fxmul_abs(c2 as int, c2 as int, 40427, 40427);
        assert((c2 as int) * (c2 as int) >= 0) by (nonlinear_arith);
        lemma_div_bounds((c2 as int) * (c2 as int), FX_ONE as int);
    }
    let c4: i64 = fx_mul(c2, c2);
    proof {
        lemma_fxmul_abs(c2 as int, w as int, 40427, 51473);
        lemma_fxmul_abs(c4 as int, w as int, 24938, 51473);
    }
    let s3: i64 = fx_mul(c2, w);
    let s5: i64 = fx_mul(c4, w);
    proof {
        lemma_div_bounds(s3 as int, 6);
        lemma_div_bounds(-(s3 as int), 6);
        lemma_div_bounds(s5 as int, 120);
        lemma_div_bounds(-(s5 as int), 120);
        crate::fx::lemma_div_abs(s3 as int, 31753, 6);
        crate::fx::lemma_div_abs(s5 as int, 19587, 120);
    }
    w - div_i64(s3, 6) + div_i64(s5, 120)
}

/// What `concentric_sample_disc` computes: the square point, remapped to
/// `[-1, 1]` on each axis, goes to the origin if it is the center, and
/// otherwise the larger-magnitude axis supplies the polar radius while the
/// ratio of the axes supplies the polar angle.
pub open spec fn spec_concentric_disc(px: int, py: int) -> (int, int) {
    let ox = 2 * px - FX_ONE;
    let oy = 2 * py - FX_ONE;
    if ox == 0 && oy == 0 {
        (0, 0)
    } else {
        let ax = if ox < 0 { -ox } else { ox };
        let ay = if oy < 0 { -oy } else { oy };
        if ax > ay {
            let u = fxdiv(oy, ox);
            (fxmul(ox, spec_cos_pi4(u)), fxmul(ox, spec_sin_pi4(u)))
        } else {
            let u = fxdiv(ox, oy);
            (fxmul(oy, spec_sin_pi4(u)), fxmul(oy, spec_cos_pi4(u)))
        }
    }
}

/// Maps a point of the unit square onto the unit disc, Shirley-style.
pub fn concentric_sample_disc(px: i64, py: i64) -> (r: (i64, i64))
    requires
        0 <= px <= FX_ONE,
        0 <= py <= FX_ONE,
    ensures
        (r.0 as int, r.1 as int) == spec_concentric_disc(px as int, py as int),
        -66701 <= r.0 <= 66701,
        -66701 <= r.1 <= 66701,
{
    let ox: i64 = 2 * px - FX_ONE;
    let oy: i64 = 2 * py - FX_ONE;
    if ox == 0 && oy == 0 {
        return (0, 0);
    }
    let ax: i64 = if ox < 0 { -ox } else { ox };
    let ay: i64 = if oy < 0 { -oy } else { oy };
    if ax > ay {
        proof {
            crate::fx::lemma_fxdiv_unit(oy as int, ox as int);
        }
        let u: i64 = fx_div(oy, ox);
        let c: i64 = cos_pi4(u);
        let s: i64 = sin_pi4(u);
        proof {
            lemma_fxmul_abs(ox as int, c as int, FX_ONE as int, 66700);
            lemma_fxmul_abs(ox as int, s as int, FX_ONE as int, 66700);
        }
        (fx_mul(ox, c), fx_mul(ox, s))
    } else {
        proof {
            crate::fx::lemma_fxdiv_unit(ox as int, oy as int);
        }
        let u: i64 = fx_div(ox, oy);
        let c: i64 = cos_pi4(u);
        let s: i64 = sin_pi4(u);
        proof {
            lemma_fxmul_abs(oy as int, s as int, FX_ONE as int, 66700);
            lemma_fxmul_abs(oy as int, c as int, FX_ONE as int, 66700);
        }
        (fx_mul(oy, s), fx_mul(oy, c))
    }
}

/// What `cosine_sample_hemisphere` computes: the disc point, lifted onto
/// the unit hemisphere by `z = sqrt(max(0, 1 - x^2 - y^2))`.
pub open spec fn spec_cosine_hemisphere(px: int, py: int) -> Vec3 {
    let (dx, dy) = spec_concentric_disc(px, py);
    let m = (FX_ONE as int) * (FX_ONE as int) - dx * dx - dy * dy;
    let z = sqrt_floor(if m < 0 { 0 } else { m });
    Vec3 { x: dx as i64, y: dy as i64, z: z as i64 }
}

/// Maps a point of the unit square to a cosine-weighted direction on the
/// hemisphere around `+z`.
pub fn cosine_sample_hemisphere(px: i64, py: i64) -> (r: Vec3)
    requires
        0 <= px <= FX_ONE,
        0 <= py <= FX_ONE,
    ensures
        r == spec_cosine_hemisphere(px as int, py as int),
        r.bounded(66701),
        r.z >= 0,
{
    let (dx, dy): (i64, i64) = concentric_sample_disc(px, py);
    proof {
        lemma_mul_abs(dx as int, dx as int, 66701, 66701);
        lemma_mul_abs(dy as int, dy as int, 66701, 66701);
        assert((dx as int) * (dx as int) >= 0) by (nonlinear_arith);
        assert((dy as int) * (dy as int) >= 0) by (nonlinear_arith);
    }
    let m: i128 = (FX_ONE as i128) * (FX_ONE as i128) - (dx as i128) * (dx as i128) - (
    dy as i128) * (dy as i128);
    let mc: i128 = if m < 0 { 0 } else { m };
    let z64: u64 = isqrt(mc as u128);
    proof {
        assert(z64 as int <= 65536) by (nonlinear_arith)
            requires
                is_sqrt(mc as int, z64 as int),
                0 <= mc as int <= (FX_ONE as int) * (FX_ONE as int),
        ;
    }
    Vec3 { x: dx, y: dy, z: z64 as i64 }
}

/// What `hemisphere_sample` computes: an orthonormal basis is built around
/// the normal — the seed axis is `+x` unless the normal is nearly parallel
/// to it, in which case `+y` — and the hemisphere point's coordinates are
/// combined along that basis.  Nothing is returned if either basis vector
/// fails to normalize.
pub open spec fn spec_hemisphere_sample(n: Norm3, px: int, py: int) -> Option<Vec3> {
    let seed = if n.x > 65529 || n.x < -65529 {
        Vec3 { x: 0, y: FX_ONE, z: 0 }
    } else {
        Vec3 { x: FX_ONE, y: 0, z: 0 }
    };
    let xv = spec_cross3(seed.x as int, seed.y as int, seed.z as int, n.x as int, n.y as int,
        n.z as int);
    match spec_normalized(xv) {
        None => None,
        Some(xx) => {
            let yv = spec_cross3(n.x as int, n.y as int, n.z as int, xx.x as int, xx.y as int,
                xx.z as int);
            match spec_normalized(yv) {
                None => None,
                Some(yy) => {
                    let s = spec_cosine_hemisphere(px, py);
                    Some(
                        Vec3 {
                            x: (fxmul(xx.x as int, s.x as int) + fxmul(yy.x as int, s.y as int)
                                + fxmul(n.x as int, s.z as int)) as i64,
                            y: (fxmul(xx.y as int, s.x as int) + fxmul(yy.y as int, s.y as int)
                                + fxmul(n.y as int, s.z as int)) as i64,
                            z: (fxmul(xx.z as int, s.x as int) + fxmul(yy.z as int, s.y as int)
                                + fxmul(n.z as int, s.z as int)) as i64,
                        },
                    )
                },
            }
        },
    }
}

/// Draws the hemisphere direction for one grid point around a surface
/// normal, in world coordinates.
pub fn hemisphere_sample(n: &Norm3, px: i64, py: i64) -> (r: Option<Vec3>)
    requires
        n.wf(),
        0 <= px <= FX_ONE,
        0 <= py <= FX_ONE,
    ensures
        r == spec_hemisphere_sample(*n, px as int, py as int),
        r is Some ==> r.unwrap().bounded(0x4_0000_0000),
{
    proof {
        lemma_unit_abs(*n);
    }
    let seed: Vec3 = if n.x > 65529 || n.x < -65529 {
        Vec3 { x: 0, y: FX_ONE, z: 0 }
    } else {
        Vec3 { x: FX_ONE, y: 0, z: 0 }
    };
    let xv: Vec3 = seed.cross(n);
    let xxo: Option<Norm3> = xv.normalized();
    match xxo {
        None => None,
        Some(xx) => {
            proof {
                lemma_unit_abs(xx);
            }
            let yv: Vec3 = n.to_vec3().cross(&xx);
            let yyo: Option<Norm3> = yv.normalized();
            match yyo {
                None => None,
                Some(yy) => {
                    proof {
                        lemma_unit_abs(yy);
                    }
                    let s: Vec3 = cosine_sample_hemisphere(px, py);
                    proof {
                        lemma_fxmul_abs(xx.x as int, s.x as int, 65568, 66701);
                        lemma_fxmul_abs(xx.y as int, s.x as int, 65568, 66701);
                        lemma_fxmul_abs(xx.z as int, s.x as int, 65568, 66701);
                        lemma_fxmul_abs(yy.x as int, s.y as int, 65568, 66701);
                        lemma_fxmul_abs(yy.y as int, s.y as int, 65568, 66701);
                        lemma_fxmul_abs(yy.z as int, s.y as int, 65568, 66701);
                        lemma_fxmul_abs(n.x as int, s.z as int, 65568, 66701);
                        lemma_fxmul_abs(n.y as int, s.z as int, 65568, 66701);
                        lemma_fxmul_abs(n.z as int, s.z as int, 65568, 66701);
                    }
                    let rx: i64 = fx_mul(xx.x, s.x) + fx_mul(yy.x, s.y) + fx_mul(n.x, s.z);
                    let ry: i64 = fx_mul(xx.y, s.x) + fx_mul(yy.y, s.y) + fx_mul(n.y, s.z);
                    let rz: i64 = fx_mul(xx.z, s.x) + fx_mul(yy.z, s.y) + fx_mul(n.z, s.z);
                    Some(Vec3 { x: rx, y: ry, z: rz })
                },
            }
        },
    }
}

} // verus!
