//! A small offline path tracer, computed entirely in fixed-point arithmetic
//! so that every stage of the pipeline carries a proved, exact contract.
//!
//! Scalars store `value * FX_ONE` as an `i64` (a binary fixed-point encoding
//! with sixteen fractional bits).  The modules build on one another, leaves
//! first: scalar arithmetic, the vector and unit-normal algebra, rays,
//! primitive intersection, the scene, the camera, hemisphere sampling,
//! materials, and finally the integrator and the image renderer.

pub mod fx;
pub mod math;
pub mod shapes;
pub mod scene;
pub mod integrator;
pub mod sampling;
pub mod camera;
pub mod render;
