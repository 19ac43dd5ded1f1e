//! Vector and unit-normal algebra on concrete fixed-point values.

use pathtracer::fx::FX_ONE;
use pathtracer::math::vec3::Vec3;
use pathtracer::math::norm3::Norm3;
use pathtracer::math::{Object3D, Ray};

const F: i64 = FX_ONE;

#[test]
fn vec_add_sub_neg() {
    let a = Vec3::new(F, 2 * F, 3 * F);
    let b = Vec3::new(4 * F, -5 * F, 6 * F);
    let s = a.add(&b);
    assert_eq!((s.x, s.y, s.z), (5 * F, -3 * F, 9 * F));
    let d = a.sub(&b);
    assert_eq!((d.x, d.y, d.z), (-3 * F, 7 * F, -3 * F));
    let n = a.neg();
    assert_eq!((n.x, n.y, n.z), (-F, -2 * F, -3 * F));
}

#[test]
fn vec_products() {
    let a = Vec3::new(2 * F, 3 * F, 4 * F);
    let b = Vec3::new(F / 2, 2 * F, -F);
    let m = a.mul(&b);
    assert_eq!((m.x, m.y, m.z), (F, 6 * F, -4 * F));
    let sc = a.scale(F / 2);
    assert_eq!((sc.x, sc.y, sc.z), (F, 3 * F / 2, 2 * F));
    let q = a.div(&Vec3::new(2 * F, 3 * F, 4 * F));
    assert_eq!((q.x, q.y, q.z), (F, F, F));
}

#[test]
fn vec_dot_cross() {
    let a = Vec3::new(F, 2 * F, 3 * F);
    let b = Vec3::new(4 * F, 5 * F, 6 * F);
    assert_eq!(a.dot(&b), 32 * F);
    let c = Vec3::new(F, 0, 0).cross(&Vec3::new(0, F, 0));
    assert_eq!((c.x, c.y, c.z), (0, 0, F));
}

#[test]
fn vec_lengths() {
    let v = Vec3::new(3 * F, 4 * F, 0);
    assert_eq!(v.length_sqr(), 25 * F);
    assert_eq!(v.length(), 5 * F);
}

#[test]
fn normalize_axis() {
    let n = Vec3::new(2 * F, 0, 0).normalized().unwrap();
    assert_eq!((n.x, n.y, n.z), (F, 0, 0));
}

#[test]
fn normalize_three_four() {
    let n = Vec3::new(3 * F, 4 * F, 0).normalized().unwrap();
    assert_eq!((n.x, n.y, n.z), (39321, 52428, 0));
    let lsq = (n.x as i128) * (n.x as i128) + (n.y as i128) * (n.y as i128);
    let one = (F as i128) * (F as i128);
    assert!((lsq - one).abs() <= 4294967);
}

#[test]
fn normalize_degenerate() {
    assert!(Vec3::new(0, 0, 0).normalized().is_none());
    assert!(Vec3::new(3, 1, 2).normalized().is_none());
}

#[test]
fn normalize_points_same_way() {
    let v = Vec3::new(5 * F, 3 * F, F);
    let n = v.normalized().unwrap();
    let d = (v.x as i128) * (n.x as i128) + (v.y as i128) * (n.y as i128)
        + (v.z as i128) * (n.z as i128);
    assert!(d > 0);
}

#[test]
fn norm3_operations() {
    let n = Norm3::new(0, 0, F);
    assert_eq!(n.dot(&Vec3::new(F, 2 * F, 3 * F)), 3 * F);
    let c = n.cross(&Vec3::new(F, 0, 0));
    assert_eq!((c.x, c.y, c.z), (0, F, 0));
    let m = n.neg();
    assert_eq!((m.x, m.y, m.z), (0, 0, -F));
    let s = n.scale(5 * F);
    assert_eq!((s.x, s.y, s.z), (0, 0, 5 * F));
    let v = n.to_vec3();
    assert_eq!((v.x, v.y, v.z), (0, 0, F));
    assert_eq!((n.x(), n.y(), n.z()), (0, 0, F));
}

#[test]
fn ray_walk() {
    let r = Ray { origin: Vec3::new(F, 2 * F, 3 * F), dir: Norm3::new(0, 0, F) };
    let p = r.walk(2 * F);
    assert_eq!((p.x, p.y, p.z), (F, 2 * F, 5 * F));
}

#[test]
fn ray_distance_to() {
    let r = Ray { origin: Vec3::new(0, 0, 0), dir: Norm3::new(F, 0, 0) };
    assert_eq!(r.distance_to(&Vec3::new(3 * F, 4 * F, 0)), 4 * F);
    assert_eq!(r.distance_to(&Vec3::new(7 * F, 0, 0)), 0);
}
