//! General-purpose three-component vectors.

use vstd::prelude::*;
use vstd::arithmetic::div_mod::lemma_fundamental_div_mod;
use crate::fx::{fxmul, fxdiv, sqrt_floor, is_sqrt, isqrt, div_floor, fx_mul, fx_div,
    FX_ONE};
use crate::fx::{lemma_mul_abs, lemma_fxmul_abs, lemma_div_abs, lemma_div_bounds,
    lemma_sqrt_floor};
use super::norm3::{Norm3, is_unit_triple, UNIT_TOL};
use super::Object3D;

verus! {

/// Largest component magnitude the dot, cross and component-wise products
/// accept without overflowing their 64-bit results.
pub const COMP_MAX: i64 = 0x40_0000_0000;

/// Largest component magnitude `normalized` accepts; beyond it the raw
/// squared length would not fit the square-root routine.
pub const NORM_IN_MAX: i64 = 0x4000_0000;

/// Smallest raw squared length `normalized` accepts: a length of one
/// sixteenth of a unit.  Anything shorter is treated as degenerate.
pub const NORM_MIN_SQ: i64 = 16777216;

/// A displacement, an unscaled direction, or an RGB color.
#[derive(Clone, Copy, Debug, PartialEq, Eq, Structural)]
pub struct Vec3 {
    pub x: i64,
    pub y: i64,
    pub z: i64,
}

/// The dot product of two component triples, floored back to scale.
pub open spec fn spec_dot3(ax: int, ay: int, az: int, bx: int, by: int, bz: int) -> int {
    (ax * bx + ay * by + az * bz) / (FX_ONE as int)
}

/// The cross product of two component triples, each component floored back
/// to scale.
pub open spec fn spec_cross3(ax: int, ay: int, az: int, bx: int, by: int, bz: int) -> Vec3 {
    Vec3 {
        x: ((ay * bz - az * by) / (FX_ONE as int)) as i64,
        y: ((az * bx - ax * bz) / (FX_ONE as int)) as i64,
        z: ((ax * by - ay * bx) / (FX_ONE as int)) as i64,
    }
}

/// The raw squared length of a triple, at the squared fixed-point scale.
pub open spec fn spec_lsq_raw(v: Vec3) -> int {
    (v.x as int) * (v.x as int) + (v.y as int) * (v.y as int) + (v.z as int) * (v.z as int)
}

/// What `Vec3::normalized` returns: the components divided by the floor
/// square root of the raw squared length, or nothing when the input is out
/// of range, degenerately short, or when rounding pushed the result outside
/// the unit tolerance.
pub open spec fn spec_normalized(v: Vec3) -> Option<Norm3> {
    if !v.bounded(NORM_IN_MAX as int) {
        None
    } else {
        let q = spec_lsq_raw(v);
        if q < NORM_MIN_SQ {
            None
        } else {
            let l = sqrt_floor(q);
            let nx = (v.x * FX_ONE) / l;
            let ny = (v.y * FX_ONE) / l;
            let nz = (v.z * FX_ONE) / l;
            if is_unit_triple(nx, ny, nz) {
                Some(Norm3 { x: nx as i64, y: ny as i64, z: nz as i64 })
            } else {
                None
            }
        }
    }
}

/// The dot product of two bounded component triples.
pub fn dot3(ax: i64, ay: i64, az: i64, bx: i64, by: i64, bz: i64) -> (r: i64)
    requires
        -COMP_MAX <= ax <= COMP_MAX,
        -COMP_MAX <= ay <= COMP_MAX,
        -COMP_MAX <= az <= COMP_MAX,
        -COMP_MAX <= bx <= COMP_MAX,
        -COMP_MAX <= by <= COMP_MAX,
        -COMP_MAX <= bz <= COMP_MAX,
    ensures
        r as int == spec_dot3(ax as int, ay as int, az as int, bx as int, by as int, bz as int),
{
    proof {
        lemma_mul_abs(ax as int, bx as int, COMP_MAX as int, COMP_MAX as int);
        lemma_mul_abs(ay as int, by as int, COMP_MAX as int, COMP_MAX as int);
        lemma_mul_abs(az as int, bz as int, COMP_MAX as int, COMP_MAX as int);
    }
    let p: i128 = (ax as i128) * (bx as i128) + (ay as i128) * (by as i128) + (az as i128) * (
    bz as i128);
    proof {
        lemma_div_abs(p as int, 0x3000_0000_0000_0000_0000, FX_ONE as int);
    }
    let q: i128 = div_floor(p, FX_ONE as i128);
    q as i64
}

/// The cross product of two bounded component triples.
pub fn cross3(ax: i64, ay: i64, az: i64, bx: i64, by: i64, bz: i64) -> (r: Vec3)
    requires
        -COMP_MAX <= ax <= COMP_MAX,
        -COMP_MAX <= ay <= COMP_MAX,
        -COMP_MAX <= az <= COMP_MAX,
        -COMP_MAX <= bx <= COMP_MAX,
        -COMP_MAX <= by <= COMP_MAX,
        -COMP_MAX <= bz <= COMP_MAX,
    ensures
        r == spec_cross3(ax as int, ay as int, az as int, bx as int, by as int, bz as int),
{
    proof {
        lemma_mul_abs(ay as int, bz as int, COMP_MAX as int, COMP_MAX as int);
        lemma_mul_abs(az as int, by as int, COMP_MAX as int, COMP_MAX as int);
        lemma_mul_abs(az as int, bx as int, COMP_MAX as int, COMP_MAX as int);
        lemma_mul_abs(ax as int, bz as int, COMP_MAX as int, COMP_MAX as int);
        lemma_mul_abs(ax as int, by as int, COMP_MAX as int, COMP_MAX as int);
        lemma_mul_abs(ay as int, bx as int, COMP_MAX as int, COMP_MAX as int);
    }
    let px: i128 = (ay as i128) * (bz as i128) - (az as i128) * (by as i128);
    let py: i128 = (az as i128) * (bx as i128) - (ax as i128) * (bz as i128);
    let pz: i128 = (ax as i128) * (by as i128) - (ay as i128) * (bx as i128);
    proof {
        lemma_div_abs(px as int, 0x2000_0000_0000_0000_0000, FX_ONE as int);
        lemma_div_abs(py as int, 0x2000_0000_0000_0000_0000, FX_ONE as int);
        lemma_div_abs(pz as int, 0x2000_0000_0000_0000_0000, FX_ONE as int);
    }
    let cx: i128 = div_floor(px, FX_ONE as i128);
    let cy: i128 = div_floor(py, FX_ONE as i128);
    let cz: i128 = div_floor(pz, FX_ONE as i128);
    Vec3 { x: cx as i64, y: cy as i64, z: cz as i64 }
}

impl Vec3 {
    /// Every component lies within `b` of zero.
    pub open spec fn bounded(self, b: int) -> bool {
        &&& -b <= self.x <= b
        &&& -b <= self.y <= b
        &&& -b <= self.z <= b
    }

    /// Builds the vector with the given components.
    pub fn new(x: i64, y: i64, z: i64) -> (r: Vec3)
        ensures
            r == (Vec3 { x, y, z }),
    {
        Vec3 { x, y, z }
    }

    /// Component-wise sum.
    pub fn add(&self, other: &Vec3) -> (r: Vec3)
        requires
            self.bounded(0x2000_0000_0000_0000),
            other.bounded(0x2000_0000_0000_0000),
        ensures
            r.x == self.x + other.x,
            r.y == self.y + other.y,
            r.z == self.z + other.z,
    {
        Vec3 { x: self.x + other.x, y: self.y + other.y, z: self.z + other.z }
    }

    /// Component-wise difference.
    pub fn sub(&self, other: &Vec3) -> (r: Vec3)
        requires
            self.bounded(0x2000_0000_0000_0000),
            other.bounded(0x2000_0000_0000_0000),
        ensures
            r.x == self.x - other.x,
            r.y == self.y - other.y,
            r.z == self.z - other.z,
    {
        Vec3 { x: self.x - other.x, y: self.y - other.y, z: self.z - other.z }
    }

    /// Component-wise negation.
    pub fn neg(&self) -> (r: Vec3)
        requires
            self.bounded(0x2000_0000_0000_0000),
        ensures
            r.x == -self.x,
            r.y == -self.y,
            r.z == -self.z,
    {
        Vec3 { x: -self.x, y: -self.y, z: -self.z }
    }

    /// Component-wise product, used to combine colors.
    pub fn mul(&self, other: &Vec3) -> (r: Vec3)
        requires
            self.bounded(COMP_MAX as int),
            other.bounded(COMP_MAX as int),
        ensures
            r.x == fxmul(self.x as int, other.x as int),
            r.y == fxmul(self.y as int, other.y as int),
            r.z == fxmul(self.z as int, other.z as int),
    {
        proof {
            lemma_fxmul_abs(self.x as int, other.x as int, COMP_MAX as int, COMP_MAX as int);
            lemma_fxmul_abs(self.y as int, other.y as int, COMP_MAX as int, COMP_MAX as int);
            lemma_fxmul_abs(self.z as int, other.z as int, COMP_MAX as int, COMP_MAX as int);
        }
        Vec3 {
            x: fx_mul(self.x, other.x),
            y: fx_mul(self.y, other.y),
            z: fx_mul(self.z, other.z),
        }
    }

    /// Product with a scalar.
    pub fn scale(&self, s: i64) -> (r: Vec3)
        requires
            self.bounded(COMP_MAX as int),
            -COMP_MAX <= s <= COMP_MAX,
        ensures
            r.x == fxmul(self.x as int, s as int),
            r.y == fxmul(self.y as int, s as int),
            r.z == fxmul(self.z as int, s as int),
    {
        proof {
            lemma_fxmul_abs(self.x as int, s as int, COMP_MAX as int, COMP_MAX as int);
            lemma_fxmul_abs(self.y as int, s as int, COMP_MAX as int, COMP_MAX as int);
            lemma_fxmul_abs(self.z as int, s as int, COMP_MAX as int, COMP_MAX as int);
        }
        Vec3 { x: fx_mul(self.x, s), y: fx_mul(self.y, s), z: fx_mul(self.z, s) }
    }

    /// Component-wise quotient, used to map pixel coordinates into the
    /// screen rectangle.
    pub fn div(&self, other: &Vec3) -> (r: Vec3)
        requires
            self.bounded(COMP_MAX as int),
            other.bounded(COMP_MAX as int),
            other.x != 0,
            other.y != 0,
            other.z != 0,
        ensures
            r.x == fxdiv(self.x as int, other.x as int),
            r.y == fxdiv(self.y as int, other.y as int),
            r.z == fxdiv(self.z as int, other.z as int),
    {
        proof {
            crate::fx::lemma_fxdiv_abs(self.x as int, other.x as int, 0x400_0000_0000_0000);
            crate::fx::lemma_fxdiv_abs(self.y as int, other.y as int, 0x400_0000_0000_0000);
            crate::fx::lemma_fxdiv_abs(self.z as int, other.z as int, 0x400_0000_0000_0000);
        }
        Vec3 {
            x: fx_div(self.x, other.x),
            y: fx_div(self.y, other.y),
            z: fx_div(self.z, other.z),
        }
    }

    /// Dot product with a vector or a unit normal, at fixed-point scale.
    pub fn dot<T: Object3D>(&self, other: &T) -> (r: i64)
        requires
            self.bounded(COMP_MAX as int),
            -COMP_MAX <= other.vx() <= COMP_MAX,
            -COMP_MAX <= other.vy() <= COMP_MAX,
            -COMP_MAX <= other.vz() <= COMP_MAX,
        ensures
            r as int == spec_dot3(
                self.x as int,
                self.y as int,
                self.z as int,
                other.vx(),
                other.vy(),
                other.vz(),
            ),
    {
        dot3(self.x, self.y, self.z, other.x(), other.y(), other.z())
    }

    /// Cross product with a vector or a unit normal.
    pub fn cross<T: Object3D>(&self, other: &T) -> (r: Vec3)
        requires
            self.bounded(COMP_MAX as int),
            -COMP_MAX <= other.vx() <= COMP_MAX,
            -COMP_MAX <= other.vy() <= COMP_MAX,
            -COMP_MAX <= other.vz() <= COMP_MAX,
        ensures
            r == spec_cross3(
                self.x as int,
                self.y as int,
                self.z as int,
                other.vx(),
                other.vy(),
                other.vz(),
            ),
    {
        cross3(self.x, self.y, self.z, other.x(), other.y(), other.z())
    }

    /// Squared length, at fixed-point scale.
    pub fn length_sqr(&self) -> (r: i64)
        requires
            self.bounded(COMP_MAX as int),
        ensures
            r as int == spec_dot3(
                self.x as int,
                self.y as int,
                self.z as int,
                self.x as int,
                self.y as int,
                self.z as int,
            ),
    {
        dot3(self.x, self.y, self.z, self.x, self.y, self.z)
    }

    /// Length, at fixed-point scale: the floor square root of the raw
    /// squared length.
    pub fn length(&self) -> (r: i64)
        requires
            self.bounded(NORM_IN_MAX as int),
        ensures
            r as int == sqrt_floor(spec_lsq_raw(*self)),
    {
        proof {
            lemma_mul_abs(self.x as int, self.x as int, NORM_IN_MAX as int, NORM_IN_MAX as int);
            lemma_mul_abs(self.y as int, self.y as int, NORM_IN_MAX as int, NORM_IN_MAX as int);
            lemma_mul_abs(self.z as int, self.z as int, NORM_IN_MAX as int, NORM_IN_MAX as int);
            assert((self.x as int) * (self.x as int) >= 0) by (nonlinear_arith);
            assert((self.y as int) * (self.y as int) >= 0) by (nonlinear_arith);
            assert((self.z as int) * (self.z as int) >= 0) by (nonlinear_arith);
        }
        let q: i128 = (self.x as i128) * (self.x as i128) + (self.y as i128) * (self.y as i128)
            + (self.z as i128) * (self.z as i128);
        let r: u64 = isqrt(q as u128);
        proof {
            assert(r as int <= 0x1_0000_0000) by (nonlinear_arith)
                requires
                    is_sqrt(spec_lsq_raw(*self), r as int),
                    0 <= spec_lsq_raw(*self) <= 0x3000_0000_0000_0000,
            ;
        }
        r as i64
    }

    /// Normalizes to a unit direction.  Returns nothing when a component is
    /// out of range, when the vector is degenerately short, or when rounding
    /// left the quotient outside the unit tolerance; callers treat any of
    /// those as a geometry failure.
    pub fn normalized(self) -> (r: Option<Norm3>)
        ensures
            r == spec_normalized(self),
            r is Some ==> r.unwrap().wf(),
    {
        if !(-NORM_IN_MAX <= self.x && self.x <= NORM_IN_MAX && -NORM_IN_MAX <= self.y
            && self.y <= NORM_IN_MAX && -NORM_IN_MAX <= self.z && self.z <= NORM_IN_MAX) {
            return None;
        }
        proof {
            lemma_mul_abs(self.x as int, self.x as int, NORM_IN_MAX as int, NORM_IN_MAX as int);
            lemma_mul_abs(self.y as int, self.y as int, NORM_IN_MAX as int, NORM_IN_MAX as int);
            lemma_mul_abs(self.z as int, self.z as int, NORM_IN_MAX as int, NORM_IN_MAX as int);
            assert((self.x as int) * (self.x as int) >= 0) by (nonlinear_arith);
            assert((self.y as int) * (self.y as int) >= 0) by (nonlinear_arith);
            assert((self.z as int) * (self.z as int) >= 0) by (nonlinear_arith);
        }
        let q: i128 = (self.x as i128) * (self.x as i128) + (self.y as i128) * (self.y as i128)
            + (self.z as i128) * (self.z as i128);
        if q < NORM_MIN_SQ as i128 {
            return None;
        }
        let l: u64 = isqrt(q as u128);
        proof {
            assert(4096 <= l as int <= 0x1_0000_0000) by (nonlinear_arith)
                requires
                    is_sqrt(q as int, l as int),
                    16777216 <= q as int <= 0x3000_0000_0000_0000,
            ;
            lemma_div_bounds((self.x as int) * (FX_ONE as int), l as int);
            lemma_div_bounds((self.y as int) * (FX_ONE as int), l as int);
            lemma_div_bounds((self.z as int) * (FX_ONE as int), l as int);
        }
        let nx: i128 = div_floor((self.x as i128) * (FX_ONE as i128), l as i128);
        let ny: i128 = div_floor((self.y as i128) * (FX_ONE as i128), l as i128);
        let nz: i128 = div_floor((self.z as i128) * (FX_ONE as i128), l as i128);
        proof {
            lemma_mul_abs(nx as int, nx as int, 0x4000_0000_0000, 0x4000_0000_0000);
            lemma_mul_abs(ny as int, ny as int, 0x4000_0000_0000, 0x4000_0000_0000);
            lemma_mul_abs(nz as int, nz as int, 0x4000_0000_0000, 0x4000_0000_0000);
        }
        let u: i128 = nx * nx + ny * ny + nz * nz;
        let f2: i128 = (FX_ONE as i128) * (FX_ONE as i128);
        if u < f2 - (UNIT_TOL as i128) || u > f2 + (UNIT_TOL as i128) {
            return None;
        }
        Some(Norm3 { x: nx as i64, y: ny as i64, z: nz as i64 })
    }
}

/// The dot product of bounded triples is itself bounded.
pub proof fn lemma_dot3_abs(
    ax: int,
    ay: int,
    az: int,
    bx: int,
    by: int,
    bz: int,
    aa: int,
    bb: int,
)
    requires
        -aa <= ax <= aa,
        -aa <= ay <= aa,
        -aa <= az <= aa,
        -bb <= bx <= bb,
        -bb <= by <= bb,
        -bb <= bz <= bb,
        0 <= aa,
        0 <= bb,
    ensures
        -((3 * aa * bb) / (FX_ONE as int)) - 1 <= spec_dot3(ax, ay, az, bx, by, bz) <= (3 * aa
            * bb) / (FX_ONE as int),
        -(3 * aa * bb) - (FX_ONE as int) < (FX_ONE as int) * spec_dot3(ax, ay, az, bx, by, bz)
            <= 3 * aa * bb,
{
    lemma_mul_abs(ax, bx, aa, bb);
    lemma_mul_abs(ay, by, aa, bb);
    lemma_mul_abs(az, bz, aa, bb);
    assert(3 * aa * bb == (aa * bb) + (aa * bb) + (aa * bb)) by (nonlinear_arith);
    lemma_div_abs(ax * bx + ay * by + az * bz, 3 * aa * bb, FX_ONE as int);
}

/// Normalization succeeds on every vector of adequate length: the quotient
/// triple lands within the unit tolerance, and it is parallel to the input
/// — their dot product is strictly positive, and every raw component of
/// their cross product stays within two rounding units of the length.
pub proof fn lemma_normalized_unit(v: Vec3)
    requires
        v.bounded(NORM_IN_MAX as int),
        spec_lsq_raw(v) >= NORM_MIN_SQ,
    ensures
        spec_normalized(v) is Some,
        ({
            let n = spec_normalized(v).unwrap();
            let l = sqrt_floor(spec_lsq_raw(v));
            &&& is_unit_triple(n.x as int, n.y as int, n.z as int)
            &&& (v.x as int) * (n.x as int) + (v.y as int) * (n.y as int) + (v.z as int) * (
            n.z as int) > 0
            &&& -(2 * (l + 1)) <= (v.y as int) * (n.z as int) - (v.z as int) * (n.y as int)
                <= 2 * (l + 1)
            &&& -(2 * (l + 1)) <= (v.z as int) * (n.x as int) - (v.x as int) * (n.z as int)
                <= 2 * (l + 1)
            &&& -(2 * (l + 1)) <= (v.x as int) * (n.y as int) - (v.y as int) * (n.x as int)
                <= 2 * (l + 1)
        }),
{
    let f = FX_ONE as int;
    let x = v.x as int;
    let y = v.y as int;
    let z = v.z as int;
    let q = spec_lsq_raw(v);
    lemma_mul_abs(x, x, NORM_IN_MAX as int, NORM_IN_MAX as int);
    lemma_mul_abs(y, y, NORM_IN_MAX as int, NORM_IN_MAX as int);
    lemma_mul_abs(z, z, NORM_IN_MAX as int, NORM_IN_MAX as int);
    assert(x * x >= 0 && y * y >= 0 && z * z >= 0) by (nonlinear_arith);
    lemma_sqrt_floor(q);
    let l = sqrt_floor(q);
    assert(4096 <= l <= 0x1_0000_0000) by (nonlinear_arith)
        requires
            is_sqrt(q, l),
            16777216 <= q <= 0x3000_0000_0000_0000,
    ;
    let nx = (x * f) / l;
    let ny = (y * f) / l;
    let nz = (z * f) / l;
    lemma_fundamental_div_mod(x * f, l);
    lemma_fundamental_div_mod(y * f, l);
    lemma_fundamental_div_mod(z * f, l);
    vstd::arithmetic::div_mod::lemma_mod_bound(x * f, l);
    vstd::arithmetic::div_mod::lemma_mod_bound(y * f, l);
    vstd::arithmetic::div_mod::lemma_mod_bound(z * f, l);
    let dx = (x * f) % l;
    let dy = (y * f) % l;
    let dz = (z * f) % l;
    assert(nx * l == x * f - dx && ny * l == y * f - dy && nz * l == z * f - dz)
        by (nonlinear_arith)
        requires
            x * f == l * nx + dx,
            y * f == l * ny + dy,
            z * f == l * nz + dz,
    ;
    lemma_div_bounds(x * f, l);
    lemma_div_bounds(y * f, l);
    lemma_div_bounds(z * f, l);
    let ax = if x < 0 { -x } else { x };
    let ay = if y < 0 { -y } else { y };
    let az = if z < 0 { -z } else { z };
    assert((ax + ay + az) * (ax + ay + az) <= 3 * q) by (nonlinear_arith)
        requires
            q == x * x + y * y + z * z,
            ax == (if x < 0 { -x } else { x }),
            ay == (if y < 0 { -y } else { y }),
            az == (if z < 0 { -z } else { z }),
    ;
    assert(ax + ay + az <= 2 * (l + 1)) by (nonlinear_arith)
        requires
            (ax + ay + az) * (ax + ay + az) <= 3 * q,
            q < (l + 1) * (l + 1),
            ax + ay + az >= 0,
            l >= 0,
    ;
    assert(-(ax * l) <= x * dx <= ax * l && -(ay * l) <= y * dy <= ay * l && -(az * l) <= z
        * dz <= az * l) by (nonlinear_arith)
        requires
            0 <= dx < l,
            0 <= dy < l,
            0 <= dz < l,
            -ax <= x <= ax,
            -ay <= y <= ay,
            -az <= z <= az,
            0 <= ax,
            0 <= ay,
            0 <= az,
    ;
    let sxd = x * dx + y * dy + z * dz;
    assert((ax + ay + az) * l == ax * l + ay * l + az * l) by (nonlinear_arith);
    assert((ax + ay + az) * l <= 2 * (l + 1) * l) by (nonlinear_arith)
        requires
            ax + ay + az <= 2 * (l + 1),
            l >= 0,
    ;
    let u = nx * nx + ny * ny + nz * nz;
    assert((nx * l) * (nx * l) == (x * f) * (x * f) - 2 * ((x * f) * dx) + dx * dx
        && (ny * l) * (ny * l) == (y * f) * (y * f) - 2 * ((y * f) * dy) + dy * dy
        && (nz * l) * (nz * l) == (z * f) * (z * f) - 2 * ((z * f) * dz) + dz * dz)
        by (nonlinear_arith)
        requires
            nx * l == x * f - dx,
            ny * l == y * f - dy,
            nz * l == z * f - dz,
    ;
    assert((l * l) * u == (nx * l) * (nx * l) + (ny * l) * (ny * l) + (nz * l) * (nz * l))
        by (nonlinear_arith)
        requires
            u == nx * nx + ny * ny + nz * nz,
    ;
    assert((f * f) * q == (x * f) * (x * f) + (y * f) * (y * f) + (z * f) * (z * f))
        by (nonlinear_arith)
        requires
            q == x * x + y * y + z * z,
    ;
    assert((x * f) * dx == f * (x * dx) && (y * f) * dy == f * (y * dy) && (z * f) * dz == f
        * (z * dz)) by (nonlinear_arith);
    assert(dx * dx < l * l && dy * dy < l * l && dz * dz < l * l) by (nonlinear_arith)
        requires
            0 <= dx < l,
            0 <= dy < l,
            0 <= dz < l,
    ;
    assert((l * l) * u == (f * f) * q - 2 * (f * sxd) + (dx * dx + dy * dy + dz * dz));
    assert((f * f) * q <= (f * f) * (l * l) + (f * f) * (2 * l)) by (nonlinear_arith)
        requires
            q < (l + 1) * (l + 1),
    ;
    assert((f * f) * q >= (f * f) * (l * l)) by (nonlinear_arith)
        requires
            q >= l * l,
    ;
    assert((f * f) * (2 * l) <= 2097152 * (l * l)) by (nonlinear_arith)
        requires
            l >= 4096,
            f == 65536,
    ;
    assert(2 * (f * (2 * (l + 1) * l)) <= 524288 * (l * l)) by (nonlinear_arith)
        requires
            l >= 1,
            f == 65536,
    ;
    assert(f * sxd <= f * (2 * (l + 1) * l) && f * sxd >= -(f * (2 * (l + 1) * l)))
        by (nonlinear_arith)
        requires
            -(2 * (l + 1) * l) <= sxd <= 2 * (l + 1) * l,
            f > 0,
    ;
    assert((l * l) * u <= (l * l) * (f * f) + 2621443 * (l * l));
    assert((l * l) * u >= (l * l) * (f * f) - 524288 * (l * l));
    assert(u <= f * f + 2621443 && u >= f * f - 524288) by (nonlinear_arith)
        requires
            (l * l) * u <= (l * l) * (f * f) + 2621443 * (l * l),
            (l * l) * u >= (l * l) * (f * f) - 524288 * (l * l),
            l >= 1,
    ;
    assert(is_unit_triple(nx, ny, nz));
    assert(spec_normalized(v) is Some);
    let sxn = x * nx + y * ny + z * nz;
    assert(x * (nx * l) == f * (x * x) - x * dx) by (nonlinear_arith)
        requires
            nx * l == x * f - dx,
    ;
    assert(y * (ny * l) == f * (y * y) - y * dy) by (nonlinear_arith)
        requires
            ny * l == y * f - dy,
    ;
    assert(z * (nz * l) == f * (z * z) - z * dz) by (nonlinear_arith)
        requires
            nz * l == z * f - dz,
    ;
    vstd::arithmetic::mul::lemma_mul_is_distributive_add_other_way(l, x * nx + y * ny, z * nz);
    vstd::arithmetic::mul::lemma_mul_is_distributive_add_other_way(l, x * nx, y * ny);
    vstd::arithmetic::mul::lemma_mul_is_associative(x, nx, l);
    vstd::arithmetic::mul::lemma_mul_is_associative(y, ny, l);
    vstd::arithmetic::mul::lemma_mul_is_associative(z, nz, l);
    assert(sxn * l == x * (nx * l) + y * (ny * l) + z * (nz * l));
    assert(f * q == f * (x * x) + f * (y * y) + f * (z * z)) by (nonlinear_arith)
        requires
            q == x * x + y * y + z * z,
    ;
    assert(sxn * l == f * q - sxd);
    assert(f * q >= f * (l * l)) by (nonlinear_arith)
        requires
            q >= l * l,
            f > 0,
    ;
    assert(f * (l * l) > 2 * (l + 1) * l) by (nonlinear_arith)
        requires
            l >= 1,
            f == 65536,
    ;
    assert(sxn > 0) by (nonlinear_arith)
        requires
            sxn * l > 0,
            l > 0,
    ;
    let n = spec_normalized(v).unwrap();
    assert(n.x as int == nx && n.y as int == ny && n.z as int == nz);
    // cross components: each reduces to a difference of rounding residues
    assert((y * nz - z * ny) * l == z * dy - y * dz) by (nonlinear_arith)
        requires
            nz * l == z * f - dz,
            ny * l == y * f - dy,
    ;
    assert((z * nx - x * nz) * l == x * dz - z * dx) by (nonlinear_arith)
        requires
            nx * l == x * f - dx,
            nz * l == z * f - dz,
    ;
    assert((x * ny - y * nx) * l == y * dx - x * dy) by (nonlinear_arith)
        requires
            ny * l == y * f - dy,
            nx * l == x * f - dx,
    ;
    assert(-((ay + az) * l) <= z * dy - y * dz <= (ay + az) * l && -((az + ax) * l) <= x * dz
        - z * dx <= (az + ax) * l && -((ax + ay) * l) <= y * dx - x * dy <= (ax + ay) * l)
        by (nonlinear_arith)
        requires
            0 <= dx < l,
            0 <= dy < l,
            0 <= dz < l,
            -ax <= x <= ax,
            -ay <= y <= ay,
            -az <= z <= az,
            0 <= ax,
            0 <= ay,
            0 <= az,
    ;
    assert(-(2 * (l + 1)) <= y * nz - z * ny <= 2 * (l + 1) && -(2 * (l + 1)) <= z * nx - x
        * nz <= 2 * (l + 1) && -(2 * (l + 1)) <= x * ny - y * nx <= 2 * (l + 1))
        by (nonlinear_arith)
        requires
            (y * nz - z * ny) * l == z * dy - y * dz,
            (z * nx - x * nz) * l == x * dz - z * dx,
            (x * ny - y * nx) * l == y * dx - x * dy,
            -((ay + az) * l) <= z * dy - y * dz <= (ay + az) * l,
            -((az + ax) * l) <= x * dz - z * dx <= (az + ax) * l,
            -((ax + ay) * l) <= y * dx - x * dy <= (ax + ay) * l,
            ax + ay + az <= 2 * (l + 1),
            0 <= ax,
            0 <= ay,
            0 <= az,
            l > 0,
    ;
}

impl Object3D for Vec3 {
    open spec fn vx(&self) -> int {
        self.x as int
    }

    open spec fn vy(&self) -> int {
        self.y as int
    }

    open spec fn vz(&self) -> int {
        self.z as int
    }

    fn x(&self) -> (r: i64) {
        self.x
    }

    fn y(&self) -> (r: i64) {
        self.y
    }

    fn z(&self) -> (r: i64) {
        self.z
    }
}

} // verus!
