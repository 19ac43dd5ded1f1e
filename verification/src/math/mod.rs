//! Vector algebra, rays and hit records.
//!
//! `Vec3` is a displacement, an unscaled direction or an RGB color; `Norm3` is
//! a direction whose squared length is within tolerance of one, so any
//! arithmetic that can change a length hands back a `Vec3`.  A `Ray` couples
//! an origin with a unit direction, and a `Hit` records where and how a ray
//! struck a primitive.

use vstd::prelude::*;
use crate::fx::{fxmul, sqrt_floor, is_sqrt, isqrt, div_floor, FX_ONE};
use crate::fx::{lemma_mul_abs, lemma_fxmul_abs, lemma_div_bounds, lemma_sqrt_floor,
    lemma_sqrt_unique};

pub mod vec3;
pub mod norm3;

pub use vec3::Vec3;
pub use norm3::Norm3;

verus! {

/// Anything with three fixed-point components; lets dot and cross products
/// accept a vector or a unit normal on the right-hand side.
pub trait Object3D {
    /// The first component, as a mathematical integer.
    spec fn vx(&self) -> int;

    /// The second component, as a mathematical integer.
    spec fn vy(&self) -> int;

    /// The third component, as a mathematical integer.
    spec fn vz(&self) -> int;

    fn x(&self) -> (r: i64)
        ensures
            r as int == self.vx(),
    ;

    fn y(&self) -> (r: i64)
        ensures
            r as int == self.vy(),
    ;

    fn z(&self) -> (r: i64)
        ensures
            r as int == self.vz(),
    ;
}

/// Largest coordinate a ray origin may carry; bounce origins are checked
/// against it before a secondary ray is traced.
pub const ORIGIN_MAX: i64 = 0x4000_0000;

/// A half-line: origin plus unit direction.
#[derive(Clone, Copy, Debug)]
pub struct Ray {
    pub origin: Vec3,
    pub dir: Norm3,
}

/// What an intersection routine reports: the surface point, the outward
/// surface normal on the side the ray arrived from, the parametric distance
/// along the ray, and whether the ray started inside the primitive.
#[derive(Clone, Copy, Debug)]
pub struct Hit {
    pub hitpoint: Vec3,
    pub normal: Norm3,
    pub point_on_ray: i64,
    pub inside: bool,
}

impl Hit {
    /// The bounds every reported hit obeys: a bounded hit point, a unit
    /// normal, and a nonnegative, bounded parametric distance.
    pub open spec fn wf(self) -> bool {
        &&& self.hitpoint.bounded(0x2_0000_0000_0000)
        &&& self.normal.wf()
        &&& 0 <= self.point_on_ray <= 0x1_0000_0000_0000
    }
}

impl Ray {
    /// A ray the intersection routines accept: bounded origin, unit direction.
    pub open spec fn wf(self) -> bool {
        &&& self.origin.bounded(ORIGIN_MAX as int)
        &&& self.dir.wf()
    }

    /// The point of the walk along this ray to parametric distance `t`.
    pub open spec fn spec_walk(self, t: int) -> Vec3 {
        Vec3 {
            x: (self.origin.x + fxmul(t, self.dir.x as int)) as i64,
            y: (self.origin.y + fxmul(t, self.dir.y as int)) as i64,
            z: (self.origin.z + fxmul(t, self.dir.z as int)) as i64,
        }
    }

    /// `origin + t * dir`: the point at parametric distance `t`.
    pub fn walk(&self, t: i64) -> (r: Vec3)
        requires
            -0x1_0000_0000_0000 <= t <= 0x1_0000_0000_0000,
            self.origin.bounded(0x2000_0000_0000_0000),
            self.dir.wf(),
        ensures
            r == self.spec_walk(t as int),
            r.x == self.origin.x + fxmul(t as int, self.dir.x as int),
            r.y == self.origin.y + fxmul(t as int, self.dir.y as int),
            r.z == self.origin.z + fxmul(t as int, self.dir.z as int),
    {
        proof {
            norm3::lemma_unit_abs(self.dir);
            lemma_fxmul_abs(t as int, self.dir.x as int, 0x1_0000_0000_0000, 65568);
            lemma_fxmul_abs(t as int, self.dir.y as int, 0x1_0000_0000_0000, 65568);
            lemma_fxmul_abs(t as int, self.dir.z as int, 0x1_0000_0000_0000, 65568);
        }
        let sx: i64 = crate::fx::fx_mul(t, self.dir.x);
        let sy: i64 = crate::fx::fx_mul(t, self.dir.y);
        let sz: i64 = crate::fx::fx_mul(t, self.dir.z);
        Vec3 { x: self.origin.x + sx, y: self.origin.y + sy, z: self.origin.z + sz }
    }

    /// The perpendicular distance from `p` to the infinite line this ray lies
    /// on, assuming the direction is unit length: the squared distance from
    /// origin to `p` minus the squared projection onto the direction, rooted.
    pub open spec fn spec_distance_to(self, p: Vec3) -> int {
        let dx = p.x - self.origin.x;
        let dy = p.y - self.origin.y;
        let dz = p.z - self.origin.z;
        let q = dx * dx + dy * dy + dz * dz;
        let a = dx * self.dir.x + dy * self.dir.y + dz * self.dir.z;
        let m = q - (a * a) / ((FX_ONE as int) * (FX_ONE as int));
        sqrt_floor(if m < 0 { 0 } else { m })
    }

    /// Perpendicular distance from a point to this ray's infinite line.
    pub fn distance_to(&self, p: &Vec3) -> (r: i64)
        requires
            self.wf(),
            p.bounded(ORIGIN_MAX as int),
        ensures
            r as int == self.spec_distance_to(*p),
    {
        proof {
            norm3::lemma_unit_abs(self.dir);
        }
        let dx: i128 = (p.x as i128) - (self.origin.x as i128);
        let dy: i128 = (p.y as i128) - (self.origin.y as i128);
        let dz: i128 = (p.z as i128) - (self.origin.z as i128);
        proof {
            lemma_mul_abs(dx as int, dx as int, 0x8000_0000, 0x8000_0000);
            lemma_mul_abs(dy as int, dy as int, 0x8000_0000, 0x8000_0000);
            lemma_mul_abs(dz as int, dz as int, 0x8000_0000, 0x8000_0000);
            lemma_mul_abs(dx as int, self.dir.x as int, 0x8000_0000, 65568);
            lemma_mul_abs(dy as int, self.dir.y as int, 0x8000_0000, 65568);
            lemma_mul_abs(dz as int, self.dir.z as int, 0x8000_0000, 65568);
        }
        let q: i128 = dx * dx + dy * dy + dz * dz;
        let a: i128 = dx * (self.dir.x as i128) + dy * (self.dir.y as i128) + dz * (
        self.dir.z as i128);
        proof {
            lemma_mul_abs(a as int, a as int, 0x40_0000_0000_0000, 0x40_0000_0000_0000);
        }
        let p2: i128 = div_floor(a * a, (FX_ONE as i128) * (FX_ONE as i128));
        proof {
            assert((a as int) * (a as int) >= 0) by (nonlinear_arith);
            assert((dx as int) * (dx as int) >= 0) by (nonlinear_arith);
            assert((dy as int) * (dy as int) >= 0) by (nonlinear_arith);
            assert((dz as int) * (dz as int) >= 0) by (nonlinear_arith);
            lemma_div_bounds((a * a) as int, (FX_ONE as int) * (FX_ONE as int));
        }
        let m: i128 = q - p2;
        let mc: i128 = if m < 0 { 0 } else { m };
        let r: u64 = isqrt(mc as u128);
        proof {
            let mi: int = if ((q - p2) as int) < 0 { 0 } else { (q - p2) as int };
            lemma_sqrt_floor(mi);
            lemma_sqrt_unique(mi, r as int, sqrt_floor(mi));
            assert(r as int <= 0x4_0000_0000) by (nonlinear_arith)
                requires
                    is_sqrt(mi, r as int),
                    0 <= mi <= 0xC000_0000_0000_0001,
            ;
        }
        r as i64
    }
}

} // verus!
