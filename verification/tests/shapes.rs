//! Primitive intersection and scene traversal on concrete scenes.

use pathtracer::fx::FX_ONE;
use pathtracer::math::vec3::Vec3;
use pathtracer::math::norm3::Norm3;
use pathtracer::math::Ray;
use pathtracer::shapes::{Sphere, Plane};
use pathtracer::scene::{Scene, SceneEntry, Primitive, Material};
use pathtracer::integrator::Integrator;

const F: i64 = FX_ONE;

fn forward_ray() -> Ray {
    Ray { origin: Vec3::new(0, 0, 0), dir: Norm3::new(0, 0, F) }
}

#[test]
fn sphere_head_on() {
    let s = Sphere::new(Vec3::new(0, 0, 2 * F), F);
    let h = s.intersect(&forward_ray()).unwrap();
    assert_eq!(h.point_on_ray, F);
    assert_eq!((h.hitpoint.x, h.hitpoint.y, h.hitpoint.z), (0, 0, F));
    assert_eq!((h.normal.x, h.normal.y, h.normal.z), (0, 0, -F));
    assert!(!h.inside);
}

#[test]
fn sphere_behind_origin() {
    let s = Sphere::new(Vec3::new(0, 0, -3 * F), F);
    assert!(s.intersect(&forward_ray()).is_none());
}

#[test]
fn sphere_perpendicular_miss() {
    let s = Sphere::new(Vec3::new(0, 3 * F, 5 * F), F);
    assert!(s.intersect(&forward_ray()).is_none());
}

#[test]
fn sphere_from_inside_uses_far_root() {
    let s = Sphere::new(Vec3::new(0, 0, 0), F);
    let h = s.intersect(&forward_ray()).unwrap();
    assert_eq!(h.point_on_ray, F);
    assert_eq!((h.hitpoint.x, h.hitpoint.y, h.hitpoint.z), (0, 0, F));
    assert!(!h.inside);
}

#[test]
fn plane_parallel_ray() {
    let p = Plane::new(Norm3::new(0, F, 0), 0);
    let r = Ray { origin: Vec3::new(5 * F, 3 * F, -2 * F), dir: Norm3::new(F, 0, 0) };
    assert!(p.intersect(&r).is_none());
}

#[test]
fn plane_head_on() {
    let p = Plane::new(Norm3::new(0, 0, F), 4 * F);
    let h = p.intersect(&forward_ray()).unwrap();
    assert_eq!(h.point_on_ray, 4 * F);
    assert_eq!((h.hitpoint.x, h.hitpoint.y, h.hitpoint.z), (0, 0, 4 * F));
    assert_eq!((h.normal.x, h.normal.y, h.normal.z), (0, 0, F));
}

#[test]
fn plane_parallel_threshold() {
    // a direction tilted seven rounding units off the plane counts as a
    // hit; six units counts as parallel
    let p = Plane::new(Norm3::new(0, 0, F), 4 * F);
    let grazing = Ray { origin: Vec3::new(0, 0, 0), dir: Norm3::new(F, 0, 7) };
    assert!(p.intersect(&grazing).is_some());
    let parallel = Ray { origin: Vec3::new(0, 0, 0), dir: Norm3::new(F, 0, 6) };
    assert!(p.intersect(&parallel).is_none());
}

#[test]
fn plane_behind_ray() {
    let p = Plane::new(Norm3::new(0, 0, F), 4 * F);
    let r = Ray { origin: Vec3::new(0, 0, 0), dir: Norm3::new(0, 0, -F) };
    assert!(p.intersect(&r).is_none());
}

fn sphere_entry(scene: &mut Scene, center_z: i64, mat: usize) {
    scene.add_primitive(SceneEntry {
        shape: Primitive::Sphere(Sphere::new(Vec3::new(0, 0, center_z), F)),
        material: mat,
    });
}

#[test]
fn nearest_hit_picks_smallest_distance() {
    let mut scene = Scene::new();
    let m0 = scene.add_material(Material::Diffuse(Vec3::new(F, 0, 0)));
    let m1 = scene.add_material(Material::Diffuse(Vec3::new(0, F, 0)));
    let m2 = scene.add_material(Material::Diffuse(Vec3::new(0, 0, F)));
    sphere_entry(&mut scene, 6 * F, m0);
    sphere_entry(&mut scene, 3 * F, m1);
    sphere_entry(&mut scene, 9 * F, m2);
    let integrator = Integrator::new(&scene);
    let info = integrator.send_ray(&forward_ray()).unwrap();
    assert_eq!(info.hit.point_on_ray, 2 * F);
    assert_eq!(info.material, m1);
}

#[test]
fn nearest_hit_tie_keeps_first() {
    let mut scene = Scene::new();
    let m0 = scene.add_material(Material::Diffuse(Vec3::new(F, 0, 0)));
    let m1 = scene.add_material(Material::Diffuse(Vec3::new(0, F, 0)));
    sphere_entry(&mut scene, 3 * F, m0);
    sphere_entry(&mut scene, 3 * F, m1);
    let integrator = Integrator::new(&scene);
    let info = integrator.send_ray(&forward_ray()).unwrap();
    assert_eq!(info.material, m0);
}

#[test]
fn nearest_hit_empty_scene() {
    let scene = Scene::new();
    let integrator = Integrator::new(&scene);
    assert!(integrator.send_ray(&forward_ray()).is_none());
}

#[test]
fn emissive_total_emission_scales_white() {
    let m = Material::Emissive(100 * F);
    let e = m.total_emission(Vec3::new(F, F, F));
    assert_eq!((e.x, e.y, e.z), (100 * F, 100 * F, 100 * F));
}

#[test]
fn diffuse_total_emission_passes_through() {
    let m = Material::Diffuse(Vec3::new(F, 0, 0));
    let e = m.total_emission(Vec3::new(F / 2, F / 4, 0));
    assert_eq!((e.x, e.y, e.z), (F / 2, F / 4, 0));
}

#[test]
fn zero_emissiveness_is_dark() {
    let m = Material::Emissive(0);
    let e = m.total_emission(Vec3::new(F, F, F));
    assert_eq!((e.x, e.y, e.z), (0, 0, 0));
}

#[test]
fn scene_keeps_insertion_order() {
    let mut scene = Scene::new();
    let m = scene.add_material(Material::Diffuse(Vec3::new(F, 0, 0)));
    sphere_entry(&mut scene, 3 * F, m);
    sphere_entry(&mut scene, 6 * F, m);
    let prims = scene.iter();
    assert_eq!(prims.len(), 2);
    match prims[0].shape {
        Primitive::Sphere(s) => assert_eq!(s.pos.z, 3 * F),
        Primitive::Plane(_) => panic!(),
    }
    match prims[1].shape {
        Primitive::Sphere(s) => assert_eq!(s.pos.z, 6 * F),
        Primitive::Plane(_) => panic!(),
    }
}

#[test]
fn diffuse_sample_empty_scene_is_black() {
    let scene = Scene::new();
    let integrator = Integrator::new(&scene);
    let s = Sphere::new(Vec3::new(0, 0, 2 * F), F);
    let hit = s.intersect(&forward_ray()).unwrap();
    let m = Material::Diffuse(Vec3::new(F, 0, 0));
    let c = m.sample(&hit, &forward_ray(), &integrator);
    assert_eq!((c.x, c.y, c.z), (0, 0, 0));
}

#[test]
fn emissive_sample_is_white() {
    let scene = Scene::new();
    let integrator = Integrator::new(&scene);
    let s = Sphere::new(Vec3::new(0, 0, 2 * F), F);
    let hit = s.intersect(&forward_ray()).unwrap();
    let m = Material::Emissive(100 * F);
    let c = m.sample(&hit, &forward_ray(), &integrator);
    assert_eq!((c.x, c.y, c.z), (F, F, F));
}
