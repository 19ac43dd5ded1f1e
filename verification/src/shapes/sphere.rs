//! Sphere-ray intersection.

use vstd::prelude::*;
use crate::fx::{fxmul, sqrt_floor, is_sqrt, isqrt, fx_mul, FX_ONE};
use crate::fx::lemma_sqrt_floor;
use vstd::arithmetic::div_mod::{lemma_fundamental_div_mod, lemma_div_multiples_vanish};
use crate::fx::{lemma_mul_abs, lemma_fxmul_abs, lemma_div_bounds};
use crate::math::vec3::{Vec3, spec_dot3, dot3, spec_normalized, spec_lsq_raw, lemma_dot3_abs};
use crate::math::norm3::{lemma_unit_abs, is_unit_triple};
use crate::math::{Ray, Hit};
use super::GEO_MAX;

verus! {

/// A sphere: center and radius.
#[derive(Clone, Copy, Debug)]
pub struct Sphere {
    pub pos: Vec3,
    pub radius: i64,
}

/// The hit `Sphere::intersect` reports, step for step.
///
/// With `l` the offset from ray origin to center and `tca` its projection on
/// the ray direction: a center behind the origin (`tca < 0`) is a miss; so is
/// a squared closest-approach distance `d2` beyond the squared radius.
/// Otherwise the two roots `tca -/+ thc` straddle the closest approach; the
/// first nonnegative one is the hit distance, and a ray already past the
/// sphere (both roots negative) misses.  The reported normal points from the
/// center through the hit point, and `inside` is always reported false, even
/// when the nearer root was behind the origin: the one deliberate
/// simplification of this routine, which the renderer compensates for by
/// never shading a hit marked inside.
pub open spec fn spec_sphere_intersect(s: Sphere, ray: Ray) -> Option<Hit> {
    let lx = s.pos.x - ray.origin.x;
    let ly = s.pos.y - ray.origin.y;
    let lz = s.pos.z - ray.origin.z;
    let tca = spec_dot3(lx, ly, lz, ray.dir.x as int, ray.dir.y as int, ray.dir.z as int);
    if tca < 0 {
        None
    } else {
        let ll = spec_dot3(lx, ly, lz, lx, ly, lz);
        let d2 = ll - fxmul(tca, tca);
        let r2 = fxmul(s.radius as int, s.radius as int);
        if d2 > r2 {
            None
        } else {
            let thc = sqrt_floor((r2 - d2) * (FX_ONE as int));
            let t0 = tca - thc;
            let t1 = tca + thc;
            let t = if t0 < 0 { t1 } else { t0 };
            if t < 0 {
                None
            } else {
                let hp = ray.spec_walk(t);
                let nv = Vec3 {
                    x: (hp.x - s.pos.x) as i64,
                    y: (hp.y - s.pos.y) as i64,
                    z: (hp.z - s.pos.z) as i64,
                };
                match spec_normalized(nv) {
                    Some(n) => Some(
                        Hit { hitpoint: hp, normal: n, point_on_ray: t as i64, inside: false },
                    ),
                    None => None,
                }
            }
        }
    }
}

impl Sphere {
    /// The geometry stays within the scene bounds and the radius is positive.
    pub open spec fn wf(self) -> bool {
        &&& self.pos.bounded(GEO_MAX as int)
        &&& 0 < self.radius <= GEO_MAX
    }

    /// Builds the sphere with the given center and radius.
    pub fn new(pos: Vec3, radius: i64) -> (r: Sphere)
        ensures
            r == (Sphere { pos, radius }),
    {
        Sphere { pos, radius }
    }

    /// Intersects a ray with this sphere.
    pub fn intersect(&self, ray: &Ray) -> (r: Option<Hit>)
        requires
            self.wf(),
            ray.wf(),
        ensures
            r == spec_sphere_intersect(*self, *ray),
            r is Some ==> r.unwrap().wf() && !r.unwrap().inside,
    {
        proof {
            lemma_unit_abs(ray.dir);
        }
        let lx: i64 = self.pos.x - ray.origin.x;
        let ly: i64 = self.pos.y - ray.origin.y;
        let lz: i64 = self.pos.z - ray.origin.z;
        proof {
            lemma_dot3_abs(
                lx as int,
                ly as int,
                lz as int,
                ray.dir.x as int,
                ray.dir.y as int,
                ray.dir.z as int,
                0x4400_0000,
                65568,
            );
            lemma_dot3_abs(
                lx as int,
                ly as int,
                lz as int,
                lx as int,
                ly as int,
                lz as int,
                0x4400_0000,
                0x4400_0000,
            );
        }
        let tca: i64 = dot3(lx, ly, lz, ray.dir.x, ray.dir.y, ray.dir.z);
        if tca < 0 {
            return None;
        }
        let ll: i64 = dot3(lx, ly, lz, lx, ly, lz);
        proof {
            lemma_fxmul_abs(tca as int, tca as int, 0x1_0000_0000, 0x1_0000_0000);
            lemma_fxmul_abs(self.radius as int, self.radius as int, GEO_MAX as int,
                GEO_MAX as int);
            assert(fxmul(self.radius as int, self.radius as int) >= 0) by {
                lemma_mul_abs(self.radius as int, self.radius as int, GEO_MAX as int,
                    GEO_MAX as int);
                assert((self.radius as int) * (self.radius as int) >= 0) by (nonlinear_arith);
                lemma_div_bounds((self.radius as int) * (self.radius as int), FX_ONE as int);
            }
        }
        let d2: i64 = ll - fx_mul(tca, tca);
        let r2: i64 = fx_mul(self.radius, self.radius);
        if d2 > r2 {
            return None;
        }
        let m: i128 = ((r2 - d2) as i128) * (FX_ONE as i128);
        let thc64: u64 = isqrt(m as u128);
        proof {
            assert(thc64 as int <= 0x2_0000_0000) by (nonlinear_arith)
                requires
                    is_sqrt(m as int, thc64 as int),
                    0 <= m as int <= 0x4_0000_0000_0000_0000,
            ;
        }
        let thc: i64 = thc64 as i64;
        let t0: i64 = tca - thc;
        let t1: i64 = tca + thc;
        let t: i64 = if t0 < 0 { t1 } else { t0 };
        if t < 0 {
            return None;
        }
        proof {
            lemma_fxmul_abs(t as int, ray.dir.x as int, 0x10_0000_0000, 65568);
            lemma_fxmul_abs(t as int, ray.dir.y as int, 0x10_0000_0000, 65568);
            lemma_fxmul_abs(t as int, ray.dir.z as int, 0x10_0000_0000, 65568);
        }
        let hp: Vec3 = ray.walk(t);
        let nv: Vec3 = hp.sub(&self.pos);
        match nv.normalized() {
            Some(n) => Some(Hit { hitpoint: hp, normal: n, point_on_ray: t, inside: false }),
            None => None,
        }
    }
}

/// Sphere intersection is symmetric under translation: intersecting a
/// sphere at center `c` with a ray is the same as intersecting a sphere at
/// the origin with the ray translated by `-c` — the same hit parameter and
/// the same normal, with the hit point shifted back by `c`.
pub proof fn lemma_sphere_translation(s: Sphere, ray: Ray)
    requires
        s.wf(),
        ray.wf(),
    ensures
        ({
            let shifted = Ray {
                origin: Vec3 {
                    x: (ray.origin.x - s.pos.x) as i64,
                    y: (ray.origin.y - s.pos.y) as i64,
                    z: (ray.origin.z - s.pos.z) as i64,
                },
                dir: ray.dir,
            };
            let at_origin = Sphere { pos: Vec3 { x: 0, y: 0, z: 0 }, radius: s.radius };
            let a = spec_sphere_intersect(s, ray);
            let b = spec_sphere_intersect(at_origin, shifted);
            &&& a is Some <==> b is Some
            &&& a is Some ==> {
                let ha = a.unwrap();
                let hb = b.unwrap();
                &&& ha.point_on_ray == hb.point_on_ray
                &&& ha.normal == hb.normal
                &&& ha.inside == hb.inside
                &&& ha.hitpoint.x == hb.hitpoint.x + s.pos.x
                &&& ha.hitpoint.y == hb.hitpoint.y + s.pos.y
                &&& ha.hitpoint.z == hb.hitpoint.z + s.pos.z
            }
        }),
{
    lemma_unit_abs(ray.dir);
    let lx = s.pos.x - ray.origin.x;
    let ly = s.pos.y - ray.origin.y;
    let lz = s.pos.z - ray.origin.z;
    lemma_dot3_abs(lx, ly, lz, ray.dir.x as int, ray.dir.y as int, ray.dir.z as int,
        0x4400_0000, 65568);
    lemma_dot3_abs(lx, ly, lz, lx, ly, lz, 0x4400_0000, 0x4400_0000);
    let tca = spec_dot3(lx, ly, lz, ray.dir.x as int, ray.dir.y as int, ray.dir.z as int);
    if tca >= 0 {
        let ll = spec_dot3(lx, ly, lz, lx, ly, lz);
        let d2 = ll - fxmul(tca, tca);
        let r2 = fxmul(s.radius as int, s.radius as int);
        lemma_fxmul_abs(tca, tca, 0x1_0000_0000, 0x1_0000_0000);
        lemma_fxmul_abs(s.radius as int, s.radius as int, GEO_MAX as int, GEO_MAX as int);
        if d2 <= r2 {
            let m = (r2 - d2) * (FX_ONE as int);
            lemma_sqrt_floor(m);
            let thc = sqrt_floor(m);
            assert(thc <= 0x2_0000_0000) by (nonlinear_arith)
                requires
                    is_sqrt(m, thc),
                    0 <= m <= 0x4_0000_0000_0000_0000,
            ;
            let t = if tca - thc < 0 { tca + thc } else { tca - thc };
            if t >= 0 {
                lemma_fxmul_abs(t, ray.dir.x as int, 0x10_0000_0000, 65568);
                lemma_fxmul_abs(t, ray.dir.y as int, 0x10_0000_0000, 65568);
                lemma_fxmul_abs(t, ray.dir.z as int, 0x10_0000_0000, 65568);
            }
        }
    }
}

/// A ray aimed directly at a sphere's center from outside hits the sphere
/// at `t = distance_to_center - radius`, with the normal equal to the
/// negated ray direction.
///
/// "Aimed directly" is expressed exactly: the offset to the center is `k`
/// times the direction for some fixed-point distance `k` beyond the
/// radius.  Rounding is excluded by the exactness hypotheses — the
/// direction has squared length exactly one, and the squared radius and
/// the products `radius * dir` land on the fixed-point grid; a direction
/// off the grid shifts the hit by a rounding unit and the law as stated no
/// longer holds.
pub proof fn lemma_sphere_aimed_at_center(s: Sphere, ray: Ray, k: int)
    requires
        s.wf(),
        ray.wf(),
        s.radius >= 4096,
        ((s.radius as int) * (s.radius as int)) % (FX_ONE as int) == 0,
        ((s.radius as int) * (ray.dir.x as int)) % (FX_ONE as int) == 0,
        ((s.radius as int) * (ray.dir.y as int)) % (FX_ONE as int) == 0,
        ((s.radius as int) * (ray.dir.z as int)) % (FX_ONE as int) == 0,
        (ray.dir.x as int) * (ray.dir.x as int) + (ray.dir.y as int) * (ray.dir.y as int) + (
        ray.dir.z as int) * (ray.dir.z as int) == (FX_ONE as int) * (FX_ONE as int),
        (s.pos.x - ray.origin.x) * (FX_ONE as int) == k * (ray.dir.x as int),
        (s.pos.y - ray.origin.y) * (FX_ONE as int) == k * (ray.dir.y as int),
        (s.pos.z - ray.origin.z) * (FX_ONE as int) == k * (ray.dir.z as int),
        s.radius < k <= 0x1_0000_0000_0000,
    ensures
        spec_sphere_intersect(s, ray) is Some,
        ({
            let h = spec_sphere_intersect(s, ray).unwrap();
            &&& h.point_on_ray == k - s.radius
            &&& h.normal.x as int == -(ray.dir.x as int)
            &&& h.normal.y as int == -(ray.dir.y as int)
            &&& h.normal.z as int == -(ray.dir.z as int)
        }),
{
    let f = FX_ONE as int;
    let rr = s.radius as int;
    let dx = ray.dir.x as int;
    let dy = ray.dir.y as int;
    let dz = ray.dir.z as int;
    let lx = s.pos.x - ray.origin.x;
    let ly = s.pos.y - ray.origin.y;
    let lz = s.pos.z - ray.origin.z;
    assert(dx * dx <= f * f && dy * dy <= f * f && dz * dz <= f * f) by (nonlinear_arith)
        requires
            dx * dx + dy * dy + dz * dz == f * f,
            dx * dx >= 0 || true,
    ;
    assert(dx * dx >= 0 && dy * dy >= 0 && dz * dz >= 0) by (nonlinear_arith);
    assert(-f <= dx <= f && -f <= dy <= f && -f <= dz <= f) by (nonlinear_arith)
        requires
            dx * dx <= f * f,
            dy * dy <= f * f,
            dz * dz <= f * f,
            f > 0,
    ;
    // the projection of the center offset onto the direction is exactly k
    assert(f * (lx * dx) == k * (dx * dx)) by (nonlinear_arith)
        requires
            lx * f == k * dx,
    ;
    assert(f * (ly * dy) == k * (dy * dy)) by (nonlinear_arith)
        requires
            ly * f == k * dy,
    ;
    assert(f * (lz * dz) == k * (dz * dz)) by (nonlinear_arith)
        requires
            lz * f == k * dz,
    ;
    assert(f * (lx * dx + ly * dy + lz * dz) == k * (f * f)) by (nonlinear_arith)
        requires
            f * (lx * dx) == k * (dx * dx),
            f * (ly * dy) == k * (dy * dy),
            f * (lz * dz) == k * (dz * dz),
            dx * dx + dy * dy + dz * dz == f * f,
    ;
    assert(lx * dx + ly * dy + lz * dz == k * f) by (nonlinear_arith)
        requires
            f * (lx * dx + ly * dy + lz * dz) == k * (f * f),
            f > 0,
    ;
    lemma_div_multiples_vanish(k, f);
    assert(k * f == f * k) by (nonlinear_arith);
    let tca = spec_dot3(lx, ly, lz, dx, dy, dz);
    assert(tca == k);
    // the squared center offset is exactly k squared
    assert((lx * lx) * (f * f) == (k * k) * (dx * dx)) by (nonlinear_arith)
        requires
            lx * f == k * dx,
    ;
    assert((ly * ly) * (f * f) == (k * k) * (dy * dy)) by (nonlinear_arith)
        requires
            ly * f == k * dy,
    ;
    assert((lz * lz) * (f * f) == (k * k) * (dz * dz)) by (nonlinear_arith)
        requires
            lz * f == k * dz,
    ;
    assert((lx * lx + ly * ly + lz * lz) * (f * f) == (k * k) * (f * f)) by (nonlinear_arith)
        requires
            (lx * lx) * (f * f) == (k * k) * (dx * dx),
            (ly * ly) * (f * f) == (k * k) * (dy * dy),
            (lz * lz) * (f * f) == (k * k) * (dz * dz),
            dx * dx + dy * dy + dz * dz == f * f,
    ;
    assert(lx * lx + ly * ly + lz * lz == k * k) by (nonlinear_arith)
        requires
            (lx * lx + ly * ly + lz * lz) * (f * f) == (k * k) * (f * f),
            f > 0,
    ;
    let ll = spec_dot3(lx, ly, lz, lx, ly, lz);
    let d2 = ll - fxmul(tca, tca);
    assert(d2 == 0);
    // the squared radius divides out exactly
    let r2 = fxmul(rr, rr);
    lemma_fundamental_div_mod(rr * rr, f);
    assert(rr * rr >= 0) by (nonlinear_arith);
    lemma_div_bounds(rr * rr, f);
    assert(r2 >= 0);
    assert((r2 - d2) * f == rr * rr) by (nonlinear_arith)
        requires
            d2 == 0,
            rr * rr == f * r2,
    ;
    lemma_sqrt_floor((r2 - d2) * f);
    assert(is_sqrt(rr * rr, rr)) by (nonlinear_arith)
        requires
            rr >= 0,
    ;
    crate::fx::lemma_sqrt_unique(rr * rr, sqrt_floor(rr * rr), rr);
    let thc = sqrt_floor((r2 - d2) * f);
    assert(thc == rr);
    let t = k - rr;
    assert(t > 0);
    // the walk to the hit point lands exactly radius short of the center
    let bx = (rr * dx) / f;
    let by = (rr * dy) / f;
    let bz = (rr * dz) / f;
    lemma_fundamental_div_mod(rr * dx, f);
    lemma_fundamental_div_mod(rr * dy, f);
    lemma_fundamental_div_mod(rr * dz, f);
    assert(rr * dx == f * bx && rr * dy == f * by && rr * dz == f * bz);
    assert(t * dx == (lx - bx) * f) by (nonlinear_arith)
        requires
            t == k - rr,
            lx * f == k * dx,
            rr * dx == f * bx,
    ;
    assert(t * dy == (ly - by) * f) by (nonlinear_arith)
        requires
            t == k - rr,
            ly * f == k * dy,
            rr * dy == f * by,
    ;
    assert(t * dz == (lz - bz) * f) by (nonlinear_arith)
        requires
            t == k - rr,
            lz * f == k * dz,
            rr * dz == f * bz,
    ;
    lemma_div_multiples_vanish(lx - bx, f);
    lemma_div_multiples_vanish(ly - by, f);
    lemma_div_multiples_vanish(lz - bz, f);
    assert((lx - bx) * f == f * (lx - bx) && (ly - by) * f == f * (ly - by) && (lz - bz) * f
        == f * (lz - bz)) by (nonlinear_arith);
    assert(fxmul(t, dx) == lx - bx && fxmul(t, dy) == ly - by && fxmul(t, dz) == lz - bz);
    // the offset from the center to the hit point is exactly -radius * dir
    assert(f * bx == rr * dx && -(rr * f) <= rr * dx <= rr * f) by (nonlinear_arith)
        requires
            rr * dx == f * bx,
            -f <= dx <= f,
            rr >= 0,
    ;
    assert(f * by == rr * dy && -(rr * f) <= rr * dy <= rr * f) by (nonlinear_arith)
        requires
            rr * dy == f * by,
            -f <= dy <= f,
            rr >= 0,
    ;
    assert(f * bz == rr * dz && -(rr * f) <= rr * dz <= rr * f) by (nonlinear_arith)
        requires
            rr * dz == f * bz,
            -f <= dz <= f,
            rr >= 0,
    ;
    assert(-rr <= bx <= rr && -rr <= by <= rr && -rr <= bz <= rr) by (nonlinear_arith)
        requires
            f * bx == rr * dx,
            f * by == rr * dy,
            f * bz == rr * dz,
            -(rr * f) <= rr * dx <= rr * f,
            -(rr * f) <= rr * dy <= rr * f,
            -(rr * f) <= rr * dz <= rr * f,
            f > 0,
    ;
    let hp = ray.spec_walk(t);
    assert(hp.x == ray.origin.x + (lx - bx) && hp.y == ray.origin.y + (ly - by) && hp.z
        == ray.origin.z + (lz - bz));
    let nv = Vec3 {
        x: (hp.x - s.pos.x) as i64,
        y: (hp.y - s.pos.y) as i64,
        z: (hp.z - s.pos.z) as i64,
    };
    assert(nv.x as int == -bx && nv.y as int == -by && nv.z as int == -bz);
    // the normal divides back to exactly the negated direction
    assert((bx * bx) * (f * f) == (rr * rr) * (dx * dx)) by (nonlinear_arith)
        requires
            f * bx == rr * dx,
    ;
    assert((by * by) * (f * f) == (rr * rr) * (dy * dy)) by (nonlinear_arith)
        requires
            f * by == rr * dy,
    ;
    assert((bz * bz) * (f * f) == (rr * rr) * (dz * dz)) by (nonlinear_arith)
        requires
            f * bz == rr * dz,
    ;
    assert((bx * bx + by * by + bz * bz) * (f * f) == (rr * rr) * (f * f)) by (nonlinear_arith)
        requires
            (bx * bx) * (f * f) == (rr * rr) * (dx * dx),
            (by * by) * (f * f) == (rr * rr) * (dy * dy),
            (bz * bz) * (f * f) == (rr * rr) * (dz * dz),
            dx * dx + dy * dy + dz * dz == f * f,
    ;
    assert((-bx) * (-bx) + (-by) * (-by) + (-bz) * (-bz) == rr * rr) by (nonlinear_arith)
        requires
            (bx * bx + by * by + bz * bz) * (f * f) == (rr * rr) * (f * f),
            f > 0,
    ;
    assert(spec_lsq_raw(nv) == rr * rr);
    assert(rr * rr >= 16777216) by (nonlinear_arith)
        requires
            rr >= 4096,
    ;
    lemma_sqrt_floor(rr * rr);
    crate::fx::lemma_sqrt_unique(rr * rr, sqrt_floor(rr * rr), rr);
    assert((-bx) * f == rr * (-dx) && (-by) * f == rr * (-dy) && (-bz) * f == rr * (-dz))
        by (nonlinear_arith)
        requires
            f * bx == rr * dx,
            f * by == rr * dy,
            f * bz == rr * dz,
    ;
    lemma_div_multiples_vanish(-dx, rr);
    lemma_div_multiples_vanish(-dy, rr);
    lemma_div_multiples_vanish(-dz, rr);
    assert((nv.x * FX_ONE) / (rr as int) == -dx && (nv.y * FX_ONE) / (rr as int) == -dy && (
    nv.z * FX_ONE) / (rr as int) == -dz) by (nonlinear_arith)
        requires
            nv.x as int == -bx,
            nv.y as int == -by,
            nv.z as int == -bz,
            (-bx) * f == rr * (-dx),
            (-by) * f == rr * (-dy),
            (-bz) * f == rr * (-dz),
            (rr * (-dx)) / rr == -dx,
            (rr * (-dy)) / rr == -dy,
            (rr * (-dz)) / rr == -dz,
            f == FX_ONE as int,
    ;
    assert(is_unit_triple(-dx, -dy, -dz)) by (nonlinear_arith)
        requires
            dx * dx + dy * dy + dz * dz == f * f,
            f == FX_ONE as int,
    ;
    assert(spec_normalized(nv) is Some);
    let n = spec_normalized(nv).unwrap();
    assert(n.x as int == -dx && n.y as int == -dy && n.z as int == -dz);
}

/// A ray whose perpendicular miss distance exceeds the radius — in the
/// routine's own terms, whose squared closest-approach distance `d2`
/// exceeds the squared radius — hits nothing.
pub proof fn lemma_sphere_miss(s: Sphere, ray: Ray)
    requires
        ({
            let lx = s.pos.x - ray.origin.x;
            let ly = s.pos.y - ray.origin.y;
            let lz = s.pos.z - ray.origin.z;
            let tca = spec_dot3(lx, ly, lz, ray.dir.x as int, ray.dir.y as int,
                ray.dir.z as int);
            let ll = spec_dot3(lx, ly, lz, lx, ly, lz);
            ll - fxmul(tca, tca) > fxmul(s.radius as int, s.radius as int)
        }),
    ensures
        spec_sphere_intersect(s, ray) is None,
{
}

} // verus!
