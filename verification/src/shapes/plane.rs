//! Plane-ray intersection.

use vstd::prelude::*;
use crate::fx::{fxmul, fxdiv, fx_mul, fx_div, FX_ONE};
use crate::fx::{lemma_fxmul_abs, lemma_fxdiv_abs};
use crate::math::vec3::{Vec3, spec_dot3, dot3, lemma_dot3_abs};
use crate::math::norm3::{Norm3, lemma_unit_abs};
use crate::math::{Ray, Hit};
use super::GEO_MAX;

verus! {

/// Directions whose dot product with the plane normal is at most this
/// magnitude count as parallel to the plane: one ten-thousandth of a unit,
/// at fixed-point scale.
pub const PARALLEL_EPS: i64 = 7;

/// An infinite plane: unit normal plus signed distance to the world origin,
/// so the point `normal * distance_to_origin` lies on the plane.
#[derive(Clone, Copy, Debug)]
pub struct Plane {
    pub normal: Norm3,
    pub distance_to_origin: i64,
}

/// The hit `Plane::intersect` reports, step for step.
///
/// A direction almost perpendicular to the normal (`|denom| < PARALLEL_EPS`)
/// is parallel to the plane and misses regardless of origin.  Otherwise the
/// hit parameter is the projected offset from the origin to the plane's
/// center divided by `denom`, and only a strictly positive parameter (a hit
/// in front of the ray) counts.
pub open spec fn spec_plane_intersect(p: Plane, ray: Ray) -> Option<Hit> {
    let denom = spec_dot3(
        p.normal.x as int,
        p.normal.y as int,
        p.normal.z as int,
        ray.dir.x as int,
        ray.dir.y as int,
        ray.dir.z as int,
    );
    if denom >= PARALLEL_EPS || denom <= -(PARALLEL_EPS as int) {
        let cx = fxmul(p.normal.x as int, p.distance_to_origin as int);
        let cy = fxmul(p.normal.y as int, p.distance_to_origin as int);
        let cz = fxmul(p.normal.z as int, p.distance_to_origin as int);
        let tnum = spec_dot3(
            cx - ray.origin.x,
            cy - ray.origin.y,
            cz - ray.origin.z,
            p.normal.x as int,
            p.normal.y as int,
            p.normal.z as int,
        );
        let t = fxdiv(tnum, denom);
        if t > 0 {
            Some(
                Hit {
                    hitpoint: ray.spec_walk(t),
                    normal: p.normal,
                    point_on_ray: t as i64,
                    inside: false,
                },
            )
        } else {
            None
        }
    } else {
        None
    }
}

impl Plane {
    /// The normal is unit length and the offset stays within scene bounds.
    pub open spec fn wf(self) -> bool {
        &&& self.normal.wf()
        &&& -GEO_MAX <= self.distance_to_origin <= GEO_MAX
    }

    /// Builds the plane with the given unit normal and offset.
    pub fn new(normal: Norm3, distance_to_origin: i64) -> (r: Plane)
        ensures
            r == (Plane { normal, distance_to_origin }),
    {
        Plane { normal, distance_to_origin }
    }

    /// Intersects a ray with this plane.
    pub fn intersect(&self, ray: &Ray) -> (r: Option<Hit>)
        requires
            self.wf(),
            ray.wf(),
        ensures
            r == spec_plane_intersect(*self, *ray),
            r is Some ==> r.unwrap().wf() && !r.unwrap().inside,
    {
        proof {
            lemma_unit_abs(ray.dir);
            lemma_unit_abs(self.normal);
            lemma_dot3_abs(
                self.normal.x as int,
                self.normal.y as int,
                self.normal.z as int,
                ray.dir.x as int,
                ray.dir.y as int,
                ray.dir.z as int,
                65568,
                65568,
            );
        }
        let denom: i64 = dot3(
            self.normal.x,
            self.normal.y,
            self.normal.z,
            ray.dir.x,
            ray.dir.y,
            ray.dir.z,
        );
        if denom >= PARALLEL_EPS || denom <= -PARALLEL_EPS {
            proof {
                lemma_fxmul_abs(self.normal.x as int, self.distance_to_origin as int, 65568,
                    GEO_MAX as int);
                lemma_fxmul_abs(self.normal.y as int, self.distance_to_origin as int, 65568,
                    GEO_MAX as int);
                lemma_fxmul_abs(self.normal.z as int, self.distance_to_origin as int, 65568,
                    GEO_MAX as int);
            }
            let cx: i64 = fx_mul(self.normal.x, self.distance_to_origin);
            let cy: i64 = fx_mul(self.normal.y, self.distance_to_origin);
            let cz: i64 = fx_mul(self.normal.z, self.distance_to_origin);
            proof {
                lemma_dot3_abs(
                    (cx - ray.origin.x) as int,
                    (cy - ray.origin.y) as int,
                    (cz - ray.origin.z) as int,
                    self.normal.x as int,
                    self.normal.y as int,
                    self.normal.z as int,
                    0x4800_0000,
                    65568,
                );
            }
            let tnum: i64 = dot3(
                cx - ray.origin.x,
                cy - ray.origin.y,
                cz - ray.origin.z,
                self.normal.x,
                self.normal.y,
                self.normal.z,
            );
            proof {
                lemma_fxdiv_abs(tnum as int, denom as int, 0x1_0000_0000_0000);
            }
            let t: i64 = fx_div(tnum, denom);
            if t > 0 {
                proof {
                    lemma_fxmul_abs(t as int, ray.dir.x as int, 0x1_0000_0000_0000, 65568);
                    lemma_fxmul_abs(t as int, ray.dir.y as int, 0x1_0000_0000_0000, 65568);
                    lemma_fxmul_abs(t as int, ray.dir.z as int, 0x1_0000_0000_0000, 65568);
                }
                let hp: Vec3 = ray.walk(t);
                return Some(
                    Hit { hitpoint: hp, normal: self.normal, point_on_ray: t, inside: false },
                );
            }
            return None;
        }
        None
    }
}

/// A ray parallel to the plane — one whose direction's dot product with
/// the plane normal stays below the parallel threshold — hits nothing,
/// whatever its origin.
pub proof fn lemma_plane_parallel(p: Plane, dir: Norm3, origin: Vec3)
    requires
        ({
            let denom = spec_dot3(
                p.normal.x as int,
                p.normal.y as int,
                p.normal.z as int,
                dir.x as int,
                dir.y as int,
                dir.z as int,
            );
            -(PARALLEL_EPS as int) < denom < PARALLEL_EPS
        }),
    ensures
        spec_plane_intersect(p, Ray { origin, dir }) is None,
{
}

} // verus!
