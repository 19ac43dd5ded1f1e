//! The integrator: the single entry point through which every ray, primary
//! or bounced, is resolved against the scene.

use vstd::prelude::*;
use vstd::arithmetic::div_mod::{lemma_fundamental_div_mod_converse, lemma_div_multiples_vanish};
use crate::fx::{fxmul, fx_mul, div_i64, FX_ONE};
use crate::fx::{lemma_fxmul_abs, lemma_div_bounds, lemma_div_abs};
use crate::math::vec3::{Vec3, spec_dot3, dot3, spec_normalized, lemma_dot3_abs};
use crate::math::norm3::{Norm3, lemma_unit_abs};
use crate::math::{Ray, Hit, ORIGIN_MAX};
use crate::scene::{Scene, Material, spec_primitive_intersect, EMISSIVE_MAX};
use crate::sampling::{spec_hemisphere_sample, hemisphere_sample};

verus! {

/// How far a bounce ray's origin is pushed out along the surface normal to
/// avoid immediately re-hitting the surface it left: about `0.001`.
pub const SAMPLE_EPS: i64 = 66;

/// The grid is `GRID + 1` samples wide in each direction.
pub const GRID: i64 = 50;

/// Largest value one grid sample can contribute to one color channel.
pub const STEP_MAX: i64 = 0x1000_0000;

/// A hit bundled with the index of the struck primitive's material.
#[derive(Clone, Copy, Debug)]
pub struct IntersectionInfo {
    pub hit: Hit,
    pub material: usize,
}

/// The nearest hit among the first `n` primitives of the scene, scanning in
/// insertion order and replacing a candidate only on a strictly smaller hit
/// distance, so that equally distant hits keep the earliest primitive.
pub open spec fn spec_nearest(scene: Scene, ray: Ray, n: int) -> Option<IntersectionInfo>
    decreases n,
{
    if n <= 0 {
        None
    } else {
        let prev = spec_nearest(scene, ray, n - 1);
        let e = scene.primitives@[n - 1];
        match spec_primitive_intersect(e.shape, ray) {
            None => prev,
            Some(h) => {
                let cur = IntersectionInfo { hit: h, material: e.material };
                match prev {
                    None => Some(cur),
                    Some(p) => if h.point_on_ray < p.hit.point_on_ray {
                        Some(cur)
                    } else {
                        prev
                    },
                }
            },
        }
    }
}

/// The nearest hit across the whole scene.
pub open spec fn spec_send_ray(scene: Scene, ray: Ray) -> Option<IntersectionInfo> {
    spec_nearest(scene, ray, scene.primitives@.len() as int)
}

/// Drives ray-scene queries; material sampling recurses through it so that
/// secondary rays see the same scene.
pub struct Integrator<'a> {
    pub scene: &'a Scene,
}

impl<'a> Integrator<'a> {
    /// An integrator over the given scene.
    pub fn new(scene: &'a Scene) -> (r: Integrator<'a>)
        ensures
            r.scene == scene,
    {
        Integrator { scene }
    }

    /// Scans all primitives and keeps the hit with the smallest parametric
    /// distance; on a tie the primitive inserted first wins.
    pub fn send_ray(&self, ray: &Ray) -> (r: Option<IntersectionInfo>)
        requires
            self.scene.wf(),
            ray.wf(),
        ensures
            r == spec_send_ray(*self.scene, *ray),
            r is Some ==> r.unwrap().hit.wf() && !r.unwrap().hit.inside && (
            r.unwrap().material as int) < self.scene.materials@.len(),
    {
        let n: usize = self.scene.primitives.len();
        let mut best: Option<IntersectionInfo> = None;
        let mut i: usize = 0;
        while i < n
            invariant
                i <= n,
                n == self.scene.primitives@.len(),
                self.scene.wf(),
                ray.wf(),
                best == spec_nearest(*self.scene, *ray, i as int),
                best is Some ==> best.unwrap().hit.wf() && !best.unwrap().hit.inside && (
                best.unwrap().material as int) < self.scene.materials@.len(),
            decreases n - i,
        {
            let e = self.scene.primitives[i];
            assert(e == self.scene.primitives@[i as int]);
            match e.shape.intersect(ray) {
                None => {},
                Some(h) => {
                    let cur = IntersectionInfo { hit: h, material: e.material };
                    match &best {
                        None => {
                            best = Some(cur);
                        },
                        Some(p) => {
                            if h.point_on_ray < p.hit.point_on_ray {
                                best = Some(cur);
                            }
                        },
                    }
                },
            }
            i = i + 1;
        }
        best
    }
}

/// `r` is the hit that primitive `i` of the scene produces for this ray,
/// paired with that primitive's material.
pub open spec fn spec_hit_of(scene: Scene, ray: Ray, i: int, r: IntersectionInfo) -> bool {
    &&& spec_primitive_intersect(scene.primitives@[i].shape, ray) == Some(r.hit)
    &&& r.material == scene.primitives@[i].material
}

/// What the nearest-hit scan guarantees: an empty result means no
/// primitive intersects the ray at all, and a hit comes from some
/// primitive and is at least as near as every other primitive's hit.
pub proof fn lemma_send_ray_nearest(scene: Scene, ray: Ray)
    ensures
        spec_send_ray(scene, ray) is None ==> forall|j: int|
            0 <= j < scene.primitives@.len() ==> (#[trigger] spec_primitive_intersect(
                scene.primitives@[j].shape,
                ray,
            )) is None,
        spec_send_ray(scene, ray) is Some ==> {
            let r = spec_send_ray(scene, ray).unwrap();
            &&& exists|i: int|
                0 <= i < scene.primitives@.len() && #[trigger] spec_hit_of(scene, ray, i, r)
            &&& forall|j: int|
                0 <= j < scene.primitives@.len() && (#[trigger] spec_primitive_intersect(
                    scene.primitives@[j].shape,
                    ray,
                )) is Some ==> r.hit.point_on_ray <= spec_primitive_intersect(
                    scene.primitives@[j].shape,
                    ray,
                ).unwrap().point_on_ray
        },
{
    lemma_nearest_props(scene, ray, scene.primitives@.len() as int);
}

proof fn lemma_nearest_props(scene: Scene, ray: Ray, n: int)
    requires
        0 <= n <= scene.primitives@.len(),
    ensures
        spec_nearest(scene, ray, n) is None ==> forall|j: int|
            0 <= j < n ==> (#[trigger] spec_primitive_intersect(
                scene.primitives@[j].shape,
                ray,
            )) is None,
        spec_nearest(scene, ray, n) is Some ==> {
            let r = spec_nearest(scene, ray, n).unwrap();
            &&& exists|i: int| 0 <= i < n && #[trigger] spec_hit_of(scene, ray, i, r)
            &&& forall|j: int|
                0 <= j < n && (#[trigger] spec_primitive_intersect(
                    scene.primitives@[j].shape,
                    ray,
                )) is Some ==> r.hit.point_on_ray <= spec_primitive_intersect(
                    scene.primitives@[j].shape,
                    ray,
                ).unwrap().point_on_ray
        },
    decreases n,
{
    if n > 0 {
        lemma_nearest_props(scene, ray, n - 1);
        let prev = spec_nearest(scene, ray, n - 1);
        let e = scene.primitives@[n - 1];
        let here = spec_nearest(scene, ray, n);
        match spec_primitive_intersect(e.shape, ray) {
            None => {
                assert(here == prev);
                if here is Some {
                    let r = here.unwrap();
                    let i = choose|i: int| 0 <= i < n - 1 && #[trigger] spec_hit_of(scene,
                        ray, i, r);
                    assert(0 <= i < n && spec_hit_of(scene, ray, i, r));
                }
            },
            Some(h) => {
                let cur = IntersectionInfo { hit: h, material: e.material };
                assert(spec_hit_of(scene, ray, n - 1, cur));
                let r = here.unwrap();
                if r == cur {
                    assert(0 <= n - 1 < n && spec_hit_of(scene, ray, n - 1, r));
                } else {
                    assert(here == prev && prev is Some);
                    let i = choose|i: int| 0 <= i < n - 1 && #[trigger] spec_hit_of(scene,
                        ray, i, r);
                    assert(0 <= i < n && spec_hit_of(scene, ray, i, r));
                }
            },
        }
    }
}

/// The radiance one hemisphere grid sample contributes: trace a bounce ray
/// from `start` in the sampled direction; if it strikes an emitter, weight
/// that light by the base color and by the cosine between the sampled
/// direction and the surface normal (clamped at zero).  A sample whose
/// direction fails to normalize, or that strikes nothing, contributes black.
pub open spec fn spec_sample_step(
    scene: Scene,
    base: Vec3,
    n: Norm3,
    start: Vec3,
    px: int,
    py: int,
) -> Vec3 {
    match spec_hemisphere_sample(n, px, py) {
        None => Vec3 { x: 0, y: 0, z: 0 },
        Some(dv) => match spec_normalized(dv) {
            None => Vec3 { x: 0, y: 0, z: 0 },
            Some(dir) => match spec_send_ray(scene, Ray { origin: start, dir: dir }) {
                None => Vec3 { x: 0, y: 0, z: 0 },
                Some(info) => {
                    let light = scene.materials@[info.material as int].spec_total_emission(
                        Vec3 { x: FX_ONE, y: FX_ONE, z: FX_ONE },
                    );
                    let c = spec_dot3(
                        dir.x as int,
                        dir.y as int,
                        dir.z as int,
                        n.x as int,
                        n.y as int,
                        n.z as int,
                    );
                    let cc = if c < 0 { 0 } else { c };
                    Vec3 {
                        x: fxmul(fxmul(light.x as int, base.x as int), cc) as i64,
                        y: fxmul(fxmul(light.y as int, base.y as int), cc) as i64,
                        z: fxmul(fxmul(light.z as int, base.z as int), cc) as i64,
                    }
                },
            },
        },
    }
}

/// The grid coordinate of row or column `i`, mapped into the unit interval.
pub open spec fn spec_grid_coord(i: int) -> int {
    (i * (FX_ONE as int)) / (GRID as int)
}

/// The sum of the first `k` grid samples, taken row-major over the
/// `51 x 51` grid.
pub open spec fn spec_sample_acc(scene: Scene, base: Vec3, n: Norm3, start: Vec3, k: int) -> Vec3
    decreases k,
{
    if k <= 0 {
        Vec3 { x: 0, y: 0, z: 0 }
    } else {
        let prev = spec_sample_acc(scene, base, n, start, k - 1);
        let s = spec_sample_step(
            scene,
            base,
            n,
            start,
            spec_grid_coord((k - 1) / 51),
            spec_grid_coord((k - 1) % 51),
        );
        Vec3 { x: (prev.x + s.x) as i64, y: (prev.y + s.y) as i64, z: (prev.z + s.z) as i64 }
    }
}

/// What diffuse sampling computes: the grid sum divided by the sample
/// count, traced from the hit point pushed `SAMPLE_EPS` out along the
/// normal.  A hit so far out that the pushed-out point cannot serve as a
/// ray origin contributes black.
pub open spec fn spec_diffuse_sample(scene: Scene, base: Vec3, hit: Hit) -> Vec3 {
    let start = Vec3 {
        x: (hit.hitpoint.x + fxmul(SAMPLE_EPS as int, hit.normal.x as int)) as i64,
        y: (hit.hitpoint.y + fxmul(SAMPLE_EPS as int, hit.normal.y as int)) as i64,
        z: (hit.hitpoint.z + fxmul(SAMPLE_EPS as int, hit.normal.z as int)) as i64,
    };
    if !start.bounded(ORIGIN_MAX as int) {
        Vec3 { x: 0, y: 0, z: 0 }
    } else {
        let acc = spec_sample_acc(scene, base, hit.normal, start, 2601);
        Vec3 { x: (acc.x / 2500) as i64, y: (acc.y / 2500) as i64, z: (acc.z / 2500) as i64 }
    }
}

/// What `Material::sample` returns: an emitter reports plain white (its
/// brightness enters through `total_emission` instead), and a diffuse
/// surface reports the Monte Carlo estimate of the light arriving at the
/// hit point.
pub open spec fn spec_sample(m: Material, scene: Scene, hit: Hit) -> Vec3 {
    match m {
        Material::Diffuse(c) => spec_diffuse_sample(scene, c, hit),
        Material::Emissive(_) => Vec3 { x: FX_ONE, y: FX_ONE, z: FX_ONE },
    }
}

/// Computes one grid sample's contribution.
fn sample_step(integrator: &Integrator, base: Vec3, normal: Norm3, start: Vec3, px: i64, py: i64) -> (r: Vec3)
    requires
        integrator.scene.wf(),
        0 <= base.x <= FX_ONE,
        0 <= base.y <= FX_ONE,
        0 <= base.z <= FX_ONE,
        normal.wf(),
        start.bounded(ORIGIN_MAX as int),
        0 <= px <= FX_ONE,
        0 <= py <= FX_ONE,
    ensures
        r == spec_sample_step(*integrator.scene, base, normal, start, px as int, py as int),
        0 <= r.x <= STEP_MAX,
        0 <= r.y <= STEP_MAX,
        0 <= r.z <= STEP_MAX,
{
    let dvo: Option<Vec3> = hemisphere_sample(&normal, px, py);
    match dvo {
        None => Vec3 { x: 0, y: 0, z: 0 },
        Some(dv) => {
            let diro: Option<Norm3> = dv.normalized();
            match diro {
                None => Vec3 { x: 0, y: 0, z: 0 },
                Some(dir) => {
                    let ray = Ray { origin: start, dir };
                    match integrator.send_ray(&ray) {
                        None => Vec3 { x: 0, y: 0, z: 0 },
                        Some(info) => {
                            proof {
                                lemma_unit_abs(dir);
                                lemma_unit_abs(normal);
                                assert((integrator.scene.materials@[info.material as int]).wf());
                            }
                            let white = Vec3 { x: FX_ONE, y: FX_ONE, z: FX_ONE };
                            let light: Vec3 = integrator.scene.material(info.material)
                                .total_emission(white);
                            proof {
                                match integrator.scene.materials@[info.material as int] {
                                    Material::Diffuse(_) => {},
                                    Material::Emissive(e) => {
                                        lemma_div_multiples_vanish(e as int, FX_ONE as int);
                                    },
                                }
                                assert(0 <= light.x <= EMISSIVE_MAX);
                                assert(0 <= light.y <= EMISSIVE_MAX);
                                assert(0 <= light.z <= EMISSIVE_MAX);
                                lemma_dot3_abs(
                                    dir.x as int,
                                    dir.y as int,
                                    dir.z as int,
                                    normal.x as int,
                                    normal.y as int,
                                    normal.z as int,
                                    65568,
                                    65568,
                                );
                            }
                            let c: i64 = dot3(dir.x, dir.y, dir.z, normal.x, normal.y,
                                normal.z);
                            let cc: i64 = if c < 0 { 0 } else { c };
                            proof {
                                lemma_fxmul_abs(light.x as int, base.x as int,
                                    EMISSIVE_MAX as int, FX_ONE as int);
                                lemma_fxmul_abs(light.y as int, base.y as int,
                                    EMISSIVE_MAX as int, FX_ONE as int);
                                lemma_fxmul_abs(light.z as int, base.z as int,
                                    EMISSIVE_MAX as int, FX_ONE as int);
                                assert((light.x as int) * (base.x as int) >= 0
                                    && (light.y as int) * (base.y as int) >= 0
                                    && (light.z as int) * (base.z as int) >= 0)
                                    by (nonlinear_arith)
                                    requires
                                        light.x >= 0 && light.y >= 0 && light.z >= 0,
                                        base.x >= 0 && base.y >= 0 && base.z >= 0,
                                ;
                                lemma_div_bounds((light.x as int) * (base.x as int),
                                    FX_ONE as int);
                                lemma_div_bounds((light.y as int) * (base.y as int),
                                    FX_ONE as int);
                                lemma_div_bounds((light.z as int) * (base.z as int),
                                    FX_ONE as int);
                            }
                            let lbx: i64 = fx_mul(light.x, base.x);
                            let lby: i64 = fx_mul(light.y, base.y);
                            let lbz: i64 = fx_mul(light.z, base.z);
                            proof {
                                lemma_fxmul_abs(lbx as int, cc as int, EMISSIVE_MAX as int,
                                    196801);
                                lemma_fxmul_abs(lby as int, cc as int, EMISSIVE_MAX as int,
                                    196801);
                                lemma_fxmul_abs(lbz as int, cc as int, EMISSIVE_MAX as int,
                                    196801);
                                assert((lbx as int) * (cc as int) >= 0 && (lby as int) * (
                                cc as int) >= 0 && (lbz as int) * (cc as int) >= 0)
                                    by (nonlinear_arith)
                                    requires
                                        lbx >= 0 && lby >= 0 && lbz >= 0,
                                        cc >= 0,
                                ;
                                lemma_div_bounds((lbx as int) * (cc as int), FX_ONE as int);
                                lemma_div_bounds((lby as int) * (cc as int), FX_ONE as int);
                                lemma_div_bounds((lbz as int) * (cc as int), FX_ONE as int);
                            }
                            Vec3 { x: fx_mul(lbx, cc), y: fx_mul(lby, cc), z: fx_mul(lbz, cc) }
                        },
                    }
                },
            }
        },
    }
}

proof fn lemma_empty_scene_acc(scene: Scene, base: Vec3, n: Norm3, start: Vec3, k: int)
    requires
        scene.primitives@.len() == 0,
        k >= 0,
    ensures
        spec_sample_acc(scene, base, n, start, k) == (Vec3 { x: 0, y: 0, z: 0 }),
    decreases k,
{
    if k > 0 {
        lemma_empty_scene_acc(scene, base, n, start, k - 1);
    }
}

/// In a scene with no primitives, no light reaches any surface: diffuse
/// sampling returns black whatever the hit and base color.
pub proof fn lemma_empty_scene_sample(scene: Scene, base: Vec3, hit: Hit)
    requires
        scene.primitives@.len() == 0,
    ensures
        spec_sample(Material::Diffuse(base), scene, hit) == (Vec3 { x: 0, y: 0, z: 0 }),
{
    let start = Vec3 {
        x: (hit.hitpoint.x + fxmul(SAMPLE_EPS as int, hit.normal.x as int)) as i64,
        y: (hit.hitpoint.y + fxmul(SAMPLE_EPS as int, hit.normal.y as int)) as i64,
        z: (hit.hitpoint.z + fxmul(SAMPLE_EPS as int, hit.normal.z as int)) as i64,
    };
    if start.bounded(ORIGIN_MAX as int) {
        lemma_empty_scene_acc(scene, base, hit.normal, start, 2601);
    }
}

impl Material {
    /// Estimates the radiance leaving the surface at `hit_info` toward the
    /// incoming ray's origin.  A diffuse surface integrates one bounce of
    /// light over a `51 x 51` cosine-weighted hemisphere grid; an emitter
    /// simply reports white.
    pub fn sample(&self, hit_info: &Hit, _incoming: &Ray, integrator: &Integrator) -> (r: Vec3)
        requires
            self.wf(),
            hit_info.wf(),
            integrator.scene.wf(),
        ensures
            r == spec_sample(*self, *integrator.scene, *hit_info),
            0 <= r.x <= 0x2000_0000,
            0 <= r.y <= 0x2000_0000,
            0 <= r.z <= 0x2000_0000,
    {
        match self {
            Material::Emissive(_) => Vec3 { x: FX_ONE, y: FX_ONE, z: FX_ONE },
            Material::Diffuse(base) => {
                proof {
                    lemma_unit_abs(hit_info.normal);
                    lemma_fxmul_abs(SAMPLE_EPS as int, hit_info.normal.x as int,
                        SAMPLE_EPS as int, 65568);
                    lemma_fxmul_abs(SAMPLE_EPS as int, hit_info.normal.y as int,
                        SAMPLE_EPS as int, 65568);
                    lemma_fxmul_abs(SAMPLE_EPS as int, hit_info.normal.z as int,
                        SAMPLE_EPS as int, 65568);
                }
                let start = Vec3 {
                    x: hit_info.hitpoint.x + fx_mul(SAMPLE_EPS, hit_info.normal.x),
                    y: hit_info.hitpoint.y + fx_mul(SAMPLE_EPS, hit_info.normal.y),
                    z: hit_info.hitpoint.z + fx_mul(SAMPLE_EPS, hit_info.normal.z),
                };
                if !(-ORIGIN_MAX <= start.x && start.x <= ORIGIN_MAX && -ORIGIN_MAX <= start.y
                    && start.y <= ORIGIN_MAX && -ORIGIN_MAX <= start.z && start.z
                    <= ORIGIN_MAX) {
                    return Vec3 { x: 0, y: 0, z: 0 };
                }
                let mut acc = Vec3 { x: 0, y: 0, z: 0 };
                let mut x: i64 = 0;
                while x < 51
                    invariant
                        0 <= x <= 51,
                        acc == spec_sample_acc(
                            *integrator.scene,
                            *base,
                            hit_info.normal,
                            start,
                            51 * x,
                        ),
                        0 <= acc.x <= 51 * x * STEP_MAX,
                        0 <= acc.y <= 51 * x * STEP_MAX,
                        0 <= acc.z <= 51 * x * STEP_MAX,
                        integrator.scene.wf(),
                        0 <= base.x <= FX_ONE && 0 <= base.y <= FX_ONE && 0 <= base.z
                            <= FX_ONE,
                        hit_info.normal.wf(),
                        start.bounded(ORIGIN_MAX as int),
                    decreases 51 - x,
                {
                    let mut y: i64 = 0;
                    while y < 51
                        invariant
                            0 <= y <= 51,
                            0 <= x < 51,
                            acc == spec_sample_acc(
                                *integrator.scene,
                                *base,
                                hit_info.normal,
                                start,
                                51 * x + y,
                            ),
                            0 <= acc.x <= (51 * x + y) * STEP_MAX,
                            0 <= acc.y <= (51 * x + y) * STEP_MAX,
                            0 <= acc.z <= (51 * x + y) * STEP_MAX,
                            integrator.scene.wf(),
                            0 <= base.x <= FX_ONE && 0 <= base.y <= FX_ONE && 0 <= base.z
                                <= FX_ONE,
                            hit_info.normal.wf(),
                            start.bounded(ORIGIN_MAX as int),
                        decreases 51 - y,
                    {
                        proof {
                            lemma_div_bounds((x as int) * (FX_ONE as int), GRID as int);
                            lemma_div_bounds((y as int) * (FX_ONE as int), GRID as int);
                            lemma_div_abs((x as int) * (FX_ONE as int), 3276800, GRID as int);
                            lemma_div_abs((y as int) * (FX_ONE as int), 3276800, GRID as int);
                        }
                        let px: i64 = div_i64(x * FX_ONE, GRID);
                        let py: i64 = div_i64(y * FX_ONE, GRID);
                        let s = sample_step(integrator, *base, hit_info.normal, start, px, py);
                        proof {
                            let k: int = 51 * (x as int) + (y as int);
                            lemma_fundamental_div_mod_converse(k, 51, x as int, y as int);
                        }
                        acc = Vec3 { x: acc.x + s.x, y: acc.y + s.y, z: acc.z + s.z };
                        y = y + 1;
                    }
                    x = x + 1;
                }
                proof {
                    lemma_div_bounds(acc.x as int, 2500);
                    lemma_div_bounds(acc.y as int, 2500);
                    lemma_div_bounds(acc.z as int, 2500);
                    lemma_div_abs(acc.x as int, 698200621056, 2500);
                    lemma_div_abs(acc.y as int, 698200621056, 2500);
                    lemma_div_abs(acc.z as int, 698200621056, 2500);
                }
                Vec3 {
                    x: div_i64(acc.x, 2500),
                    y: div_i64(acc.y, 2500),
                    z: div_i64(acc.z, 2500),
                }
            },
        }
    }
}

} // verus!
