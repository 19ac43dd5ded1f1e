//! The pinhole camera: maps a pixel coordinate to a ray through a virtual
//! screen rectangle one unit in front of the camera along `+z`.

use vstd::prelude::*;
use crate::fx::{fxmul, fxdiv, fx_mul, FX_ONE};
use crate::fx::{lemma_fxmul_abs, lemma_fxdiv_unit, lemma_div_bounds};
use crate::math::vec3::{Vec3, spec_normalized};
use crate::math::norm3::Norm3;
use crate::math::Ray;
use crate::shapes::GEO_MAX;

verus! {

/// The screen rectangle a camera derives at construction: the two corners
/// sit half a screen away from the position on each axis, one unit ahead
/// along `+z`.
pub open spec fn spec_camera_screen(pos: Vec3, screen_size: (i64, i64)) -> (Vec3, Vec3) {
    let hw = (screen_size.0 as int) / 2;
    let hh = (screen_size.1 as int) / 2;
    (
        Vec3 { x: (pos.x - hw) as i64, y: (pos.y - hh) as i64, z: (pos.z + FX_ONE) as i64 },
        Vec3 { x: (pos.x + hw) as i64, y: (pos.y + hh) as i64, z: (pos.z + FX_ONE) as i64 },
    )
}

/// A camera: position, pixel resolution, and the derived screen rectangle.
#[derive(Clone, Copy, Debug)]
pub struct Camera {
    pub pos: Vec3,
    pub res: (u32, u32),
    pub screen: (Vec3, Vec3),
}

impl Camera {
    /// A bounded position and screen, and a positive, bounded resolution.
    pub open spec fn wf(self) -> bool {
        &&& self.pos.bounded(GEO_MAX as int)
        &&& self.screen.0.bounded(0x1000_0000)
        &&& self.screen.1.bounded(0x1000_0000)
        &&& 0 < self.res.0 <= 4096
        &&& 0 < self.res.1 <= 4096
    }

    /// Builds a camera at `pos` with the given resolution and screen size.
    pub fn new(pos: Vec3, res: (u32, u32), screen_size: (i64, i64)) -> (r: Camera)
        requires
            pos.bounded(GEO_MAX as int),
            0 < res.0 <= 4096,
            0 < res.1 <= 4096,
            0 <= screen_size.0 <= GEO_MAX,
            0 <= screen_size.1 <= GEO_MAX,
        ensures
            r.pos == pos,
            r.res == res,
            r.screen == spec_camera_screen(pos, screen_size),
            r.wf(),
    {
        proof {
            lemma_div_bounds(screen_size.0 as int, 2);
            lemma_div_bounds(screen_size.1 as int, 2);
        }
        let hw: i64 = crate::fx::div_i64(screen_size.0, 2);
        let hh: i64 = crate::fx::div_i64(screen_size.1, 2);
        Camera {
            pos,
            res,
            screen: (
                Vec3 { x: pos.x - hw, y: pos.y - hh, z: pos.z + FX_ONE },
                Vec3 { x: pos.x + hw, y: pos.y + hh, z: pos.z + FX_ONE },
            ),
        }
    }

    /// What `generate_ray` computes: the pixel coordinate is interpolated
    /// across the screen rectangle, and the ray runs from the camera
    /// position toward that screen point, normalized.  Pixel `(0, 0)` maps
    /// to one corner; there is no half-pixel offset.
    pub open spec fn spec_generate_ray(self, px: int, py: int) -> Option<Ray> {
        let ssx = self.screen.1.x - self.screen.0.x;
        let ssy = self.screen.1.y - self.screen.0.y;
        let ssz = self.screen.1.z - self.screen.0.z;
        let mx = fxdiv(px * (FX_ONE as int), (self.res.0 as int) * (FX_ONE as int));
        let my = fxdiv(py * (FX_ONE as int), (self.res.1 as int) * (FX_ONE as int));
        let mz = fxdiv(FX_ONE as int, FX_ONE as int);
        let dv = Vec3 {
            x: (self.screen.0.x + fxmul(ssx, mx) - self.pos.x) as i64,
            y: (self.screen.0.y + fxmul(ssy, my) - self.pos.y) as i64,
            z: (self.screen.0.z + fxmul(ssz, mz) - self.pos.z) as i64,
        };
        match spec_normalized(dv) {
            None => None,
            Some(d) => Some(Ray { origin: self.pos, dir: d }),
        }
    }

    /// Builds the ray through a pixel of the virtual screen.
    pub fn generate_ray(&self, pix: (u32, u32)) -> (r: Option<Ray>)
        requires
            self.wf(),
            pix.0 < self.res.0,
            pix.1 < self.res.1,
        ensures
            r == self.spec_generate_ray(pix.0 as int, pix.1 as int),
            r is Some ==> r.unwrap().wf() && r.unwrap().origin == self.pos,
    {
        let ss: Vec3 = self.screen.1.sub(&self.screen.0);
        let pv: Vec3 = Vec3 {
            x: (pix.0 as i64) * FX_ONE,
            y: (pix.1 as i64) * FX_ONE,
            z: FX_ONE,
        };
        let rv: Vec3 = Vec3 {
            x: (self.res.0 as i64) * FX_ONE,
            y: (self.res.1 as i64) * FX_ONE,
            z: FX_ONE,
        };
        proof {
            lemma_fxdiv_unit(pv.x as int, rv.x as int);
            lemma_fxdiv_unit(pv.y as int, rv.y as int);
            lemma_fxdiv_unit(pv.z as int, rv.z as int);
        }
        let mult: Vec3 = pv.div(&rv);
        proof {
            lemma_fxmul_abs(ss.x as int, mult.x as int, 0x2000_0000, FX_ONE as int);
            lemma_fxmul_abs(ss.y as int, mult.y as int, 0x2000_0000, FX_ONE as int);
            lemma_fxmul_abs(ss.z as int, mult.z as int, 0x2000_0000, FX_ONE as int);
        }
        let dv: Vec3 = Vec3 {
            x: self.screen.0.x + fx_mul(ss.x, mult.x) - self.pos.x,
            y: self.screen.0.y + fx_mul(ss.y, mult.y) - self.pos.y,
            z: self.screen.0.z + fx_mul(ss.z, mult.z) - self.pos.z,
        };
        let no: Option<Norm3> = dv.normalized();
        match no {
            None => None,
            Some(d) => Some(Ray { origin: self.pos, dir: d }),
        }
    }
}

} // verus!
