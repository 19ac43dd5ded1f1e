//! The scene: an ordered, append-only collection of primitives, each paired
//! with a material from the scene's own materials table.
//!
//! Sharing a material across primitives is expressed by index into that
//! table, so material data is stored once however many primitives use it.

use vstd::prelude::*;
use crate::fx::{fxmul, fx_mul, FX_ONE};
use crate::fx::lemma_fxmul_abs;
use crate::math::vec3::Vec3;
use crate::math::{Ray, Hit};
use crate::shapes::{Sphere, Plane};
use crate::shapes::sphere::spec_sphere_intersect;
use crate::shapes::plane::spec_plane_intersect;

verus! {

/// Largest emissiveness factor a light source may carry.
pub const EMISSIVE_MAX: i64 = 0x400_0000;

/// A ray-intersectable shape.
#[derive(Clone, Copy, Debug)]
pub enum Primitive {
    Sphere(Sphere),
    Plane(Plane),
}

/// What a primitive's intersection reports: the sphere or plane routine,
/// depending on the shape.
pub open spec fn spec_primitive_intersect(p: Primitive, ray: Ray) -> Option<Hit> {
    match p {
        Primitive::Sphere(s) => spec_sphere_intersect(s, ray),
        Primitive::Plane(pl) => spec_plane_intersect(pl, ray),
    }
}

impl Primitive {
    /// The underlying shape is well formed.
    pub open spec fn wf(self) -> bool {
        match self {
            Primitive::Sphere(s) => s.wf(),
            Primitive::Plane(p) => p.wf(),
        }
    }

    /// Intersects a ray with this primitive.
    pub fn intersect(&self, ray: &Ray) -> (r: Option<Hit>)
        requires
            self.wf(),
            ray.wf(),
        ensures
            r == spec_primitive_intersect(*self, *ray),
            r is Some ==> r.unwrap().wf() && !r.unwrap().inside,
    {
        match self {
            Primitive::Sphere(s) => s.intersect(ray),
            Primitive::Plane(p) => p.intersect(ray),
        }
    }
}

/// How a surface turns incoming light into an outgoing color: a diffuse
/// surface with a base color, or a pure emitter with a brightness factor.
#[derive(Clone, Copy, Debug)]
pub enum Material {
    Diffuse(Vec3),
    Emissive(i64),
}

impl Material {
    /// Color components lie in the unit interval; emissiveness is a bounded
    /// nonnegative factor.
    pub open spec fn wf(self) -> bool {
        match self {
            Material::Diffuse(c) => 0 <= c.x <= FX_ONE && 0 <= c.y <= FX_ONE && 0 <= c.z
                <= FX_ONE,
            Material::Emissive(e) => 0 <= e <= EMISSIVE_MAX,
        }
    }

    /// What `total_emission` returns: a diffuse surface emits nothing of its
    /// own and passes the sampled color through, while an emitter scales the
    /// color it is handed by its emissiveness.
    pub open spec fn spec_total_emission(self, sampled: Vec3) -> Vec3 {
        match self {
            Material::Diffuse(_) => sampled,
            Material::Emissive(e) => Vec3 {
                x: fxmul(sampled.x as int, e as int) as i64,
                y: fxmul(sampled.y as int, e as int) as i64,
                z: fxmul(sampled.z as int, e as int) as i64,
            },
        }
    }

    /// The emission this material contributes for a sampled color.
    pub fn total_emission(&self, sampled_color: Vec3) -> (r: Vec3)
        requires
            self.wf(),
            sampled_color.bounded(0x1_0000_0000),
        ensures
            r == self.spec_total_emission(sampled_color),
    {
        match self {
            Material::Diffuse(_) => sampled_color,
            Material::Emissive(e) => {
                proof {
                    lemma_fxmul_abs(sampled_color.x as int, *e as int, 0x1_0000_0000,
                        EMISSIVE_MAX as int);
                    lemma_fxmul_abs(sampled_color.y as int, *e as int, 0x1_0000_0000,
                        EMISSIVE_MAX as int);
                    lemma_fxmul_abs(sampled_color.z as int, *e as int, 0x1_0000_0000,
                        EMISSIVE_MAX as int);
                }
                Vec3 {
                    x: fx_mul(sampled_color.x, *e),
                    y: fx_mul(sampled_color.y, *e),
                    z: fx_mul(sampled_color.z, *e),
                }
            },
        }
    }
}

/// A primitive bundled with the index of its material in the scene's table.
#[derive(Clone, Copy, Debug)]
pub struct SceneEntry {
    pub shape: Primitive,
    pub material: usize,
}

/// The scene: a materials table and the primitives that reference it.
#[derive(Debug)]
pub struct Scene {
    pub materials: Vec<Material>,
    pub primitives: Vec<SceneEntry>,
}

impl Scene {
    /// Every material is well formed, and every primitive is well formed
    /// and points into the materials table.
    pub open spec fn wf(self) -> bool {
        &&& forall|i: int|
            0 <= i < self.materials@.len() ==> (#[trigger] self.materials@[i]).wf()
        &&& forall|i: int|
            0 <= i < self.primitives@.len() ==> (#[trigger] self.primitives@[i]).shape.wf()
                && self.primitives@[i].material < self.materials@.len()
    }

    /// The empty scene.
    pub fn new() -> (r: Scene)
        ensures
            r.materials@.len() == 0,
            r.primitives@.len() == 0,
            r.wf(),
    {
        Scene { materials: Vec::new(), primitives: Vec::new() }
    }

    /// Adds a material to the table and returns its index.
    pub fn add_material(&mut self, m: Material) -> (r: usize)
        requires
            m.wf(),
            old(self).wf(),
        ensures
            final(self).wf(),
            final(self).materials@ == old(self).materials@.push(m),
            final(self).primitives@ == old(self).primitives@,
            r as int == old(self).materials@.len(),
    {
        let r = self.materials.len();
        self.materials.push(m);
        r
    }

    /// Appends a primitive; its material index must already be in the table.
    pub fn add_primitive(&mut self, e: SceneEntry)
        requires
            e.shape.wf(),
            e.material < old(self).materials@.len(),
            old(self).wf(),
        ensures
            final(self).wf(),
            final(self).primitives@ == old(self).primitives@.push(e),
            final(self).materials@ == old(self).materials@,
    {
        self.primitives.push(e);
    }

    /// The primitives, in insertion order.
    pub fn iter(&self) -> (r: &Vec<SceneEntry>)
        ensures
            r == &self.primitives,
    {
        &self.primitives
    }

    /// The material at a table index.
    pub fn material(&self, i: usize) -> (r: &Material)
        requires
            i < self.materials@.len(),
        ensures
            *r == self.materials@[i as int],
    {
        &self.materials[i]
    }
}

} // verus!
