//! Directions of known unit length.
//!
//! A `Norm3` is a triple whose squared length stays within `UNIT_TOL` of one
//! (both measured at fixed-point scale).  The only ways to obtain one are the
//! checked constructor `Norm3::new` and `Vec3::normalized`, and every
//! operation that could change the length returns a `Vec3` instead.

use vstd::prelude::*;
use crate::fx::{fxmul, FX_ONE};
use crate::fx::{lemma_fxmul_abs};
use super::vec3::Vec3;
use super::Object3D;

verus! {

/// How far the squared length of a unit normal may stray from one:
/// `0.001` at the squared fixed-point scale.
pub const UNIT_TOL: i64 = 4294967;

/// The triple `(x, y, z)` has squared length within `UNIT_TOL` of one.
pub open spec fn is_unit_triple(x: int, y: int, z: int) -> bool {
    let f2 = (FX_ONE as int) * (FX_ONE as int);
    f2 - UNIT_TOL <= x * x + y * y + z * z <= f2 + UNIT_TOL
}

/// A direction of unit length (within tolerance).
#[derive(Clone, Copy, Debug, PartialEq, Eq, Structural)]
pub struct Norm3 {
    pub x: i64,
    pub y: i64,
    pub z: i64,
}

/// Each component of a unit triple is at most `65568` in magnitude.
pub proof fn lemma_unit_abs(n: Norm3)
    requires
        n.wf(),
    ensures
        -65568 <= n.x <= 65568,
        -65568 <= n.y <= 65568,
        -65568 <= n.z <= 65568,
{
    assert(-65568 <= n.x <= 65568 && -65568 <= n.y <= 65568 && -65568 <= n.z <= 65568)
        by (nonlinear_arith)
        requires
            is_unit_triple(n.x as int, n.y as int, n.z as int),
    ;
}

impl Norm3 {
    /// The stored triple really is unit length, within tolerance.
    pub open spec fn wf(self) -> bool {
        is_unit_triple(self.x as int, self.y as int, self.z as int)
    }

    /// Wraps a triple that is already unit length.  A triple that is not
    /// is a geometry bug upstream, so it is excluded rather than repaired.
    pub fn new(x: i64, y: i64, z: i64) -> (r: Norm3)
        requires
            is_unit_triple(x as int, y as int, z as int),
        ensures
            r == (Norm3 { x, y, z }),
            r.wf(),
    {
        Norm3 { x, y, z }
    }

    /// Dot product with a vector or another normal, at fixed-point scale.
    pub fn dot<T: Object3D>(&self, other: &T) -> (r: i64)
        requires
            -0x40_0000_0000 <= other.vx() <= 0x40_0000_0000,
            -0x40_0000_0000 <= other.vy() <= 0x40_0000_0000,
            -0x40_0000_0000 <= other.vz() <= 0x40_0000_0000,
            self.wf(),
        ensures
            r as int == super::vec3::spec_dot3(
                self.x as int,
                self.y as int,
                self.z as int,
                other.vx(),
                other.vy(),
                other.vz(),
            ),
    {
        proof {
            lemma_unit_abs(*self);
        }
        super::vec3::dot3(self.x, self.y, self.z, other.x(), other.y(), other.z())
    }

    /// Cross product with a vector or another normal; the result is a plain
    /// vector, since a cross product of unit vectors need not be unit.
    pub fn cross<T: Object3D>(&self, other: &T) -> (r: Vec3)
        requires
            -0x40_0000_0000 <= other.vx() <= 0x40_0000_0000,
            -0x40_0000_0000 <= other.vy() <= 0x40_0000_0000,
            -0x40_0000_0000 <= other.vz() <= 0x40_0000_0000,
            self.wf(),
        ensures
            r == super::vec3::spec_cross3(
                self.x as int,
                self.y as int,
                self.z as int,
                other.vx(),
                other.vy(),
                other.vz(),
            ),
    {
        proof {
            lemma_unit_abs(*self);
        }
        super::vec3::cross3(self.x, self.y, self.z, other.x(), other.y(), other.z())
    }

    /// Negation flips every component and keeps the length.
    pub fn neg(&self) -> (r: Norm3)
        requires
            self.wf(),
        ensures
            r.x == -self.x && r.y == -self.y && r.z == -self.z,
            r.wf(),
    {
        proof {
            lemma_unit_abs(*self);
            assert(is_unit_triple(-self.x as int, -self.y as int, -self.z as int))
                by (nonlinear_arith)
                requires
                    is_unit_triple(self.x as int, self.y as int, self.z as int),
            ;
        }
        Norm3 { x: -self.x, y: -self.y, z: -self.z }
    }

    /// Scaling by a scalar changes the length, so it yields a `Vec3`.
    pub fn scale(&self, s: i64) -> (r: Vec3)
        requires
            self.wf(),
            -0x2000_0000_0000 <= s <= 0x2000_0000_0000,
        ensures
            r.x == fxmul(self.x as int, s as int),
            r.y == fxmul(self.y as int, s as int),
            r.z == fxmul(self.z as int, s as int),
    {
        proof {
            lemma_unit_abs(*self);
            lemma_fxmul_abs(self.x as int, s as int, 65568, 0x2000_0000_0000);
            lemma_fxmul_abs(self.y as int, s as int, 65568, 0x2000_0000_0000);
            lemma_fxmul_abs(self.z as int, s as int, 65568, 0x2000_0000_0000);
        }
        Vec3 {
            x: crate::fx::fx_mul(self.x, s),
            y: crate::fx::fx_mul(self.y, s),
            z: crate::fx::fx_mul(self.z, s),
        }
    }

    /// Forgets the unit-length knowledge.
    pub fn to_vec3(&self) -> (r: Vec3)
        ensures
            r.x == self.x && r.y == self.y && r.z == self.z,
    {
        Vec3 { x: self.x, y: self.y, z: self.z }
    }
}

impl Object3D for Norm3 {
    open spec fn vx(&self) -> int {
        self.x as int
    }

    open spec fn vy(&self) -> int {
        self.y as int
    }

    open spec fn vz(&self) -> int {
        self.z as int
    }

    fn x(&self) -> (r: i64) {
        self.x
    }

    fn y(&self) -> (r: i64) {
        self.y
    }

    fn z(&self) -> (r: i64) {
        self.z
    }
}

} // verus!
