//! Ray-intersectable primitives.

pub mod sphere;
pub mod plane;

pub use sphere::Sphere;
pub use plane::Plane;

use vstd::prelude::*;

verus! {

/// Largest coordinate magnitude a primitive's own geometry may carry
/// (sphere centers and radii, plane offsets).
pub const GEO_MAX: i64 = 0x400_0000;

} // verus!
