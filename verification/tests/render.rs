//! Camera rays, hemisphere sampling, and the end-to-end renderer.

use pathtracer::fx::FX_ONE;
use pathtracer::math::vec3::Vec3;
use pathtracer::math::norm3::Norm3;
use pathtracer::shapes::Sphere;
use pathtracer::scene::{Scene, SceneEntry, Primitive, Material};
use pathtracer::camera::Camera;
use pathtracer::sampling::{concentric_sample_disc, cosine_sample_hemisphere, hemisphere_sample,
    cos_pi4, sin_pi4};
use pathtracer::render::{render, channel_byte, fill_color};

const F: i64 = FX_ONE;

#[test]
fn trig_at_zero_and_corner() {
    assert_eq!(cos_pi4(0), F);
    assert_eq!(sin_pi4(0), 0);
    // at a full quarter-of-a-half turn both come out near sqrt(1/2)
    let c = cos_pi4(F);
    let s = sin_pi4(F);
    assert!((c - 46341).abs() < 64);
    assert!((s - 46341).abs() < 64);
}

#[test]
fn disc_center_maps_to_origin() {
    assert_eq!(concentric_sample_disc(F / 2, F / 2), (0, 0));
}

#[test]
fn disc_axis_maps_to_rim() {
    assert_eq!(concentric_sample_disc(F, F / 2), (F, 0));
}

#[test]
fn hemisphere_center_is_straight_up() {
    let v = cosine_sample_hemisphere(F / 2, F / 2);
    assert_eq!((v.x, v.y, v.z), (0, 0, F));
}

#[test]
fn hemisphere_sample_around_z() {
    let n = Norm3::new(0, 0, F);
    let v = hemisphere_sample(&n, F / 2, F / 2).unwrap();
    assert_eq!((v.x, v.y, v.z), (0, 0, F));
}

#[test]
fn camera_screen_corners() {
    let cam = Camera::new(Vec3::new(0, 0, -2 * F), (256, 256), (F, F));
    assert_eq!(
        (cam.screen.0.x, cam.screen.0.y, cam.screen.0.z),
        (-F / 2, -F / 2, -F)
    );
    assert_eq!((cam.screen.1.x, cam.screen.1.y, cam.screen.1.z), (F / 2, F / 2, -F));
}

#[test]
fn camera_center_pixel_looks_forward() {
    let cam = Camera::new(Vec3::new(0, 0, -2 * F), (256, 256), (F, F));
    let ray = cam.generate_ray((128, 128)).unwrap();
    assert_eq!((ray.origin.x, ray.origin.y, ray.origin.z), (0, 0, -2 * F));
    assert_eq!((ray.dir.x, ray.dir.y, ray.dir.z), (0, 0, F));
}

#[test]
fn camera_corner_pixel() {
    let cam = Camera::new(Vec3::new(0, 0, -2 * F), (256, 256), (F, F));
    let ray = cam.generate_ray((0, 0)).unwrap();
    assert!(ray.dir.x < 0 && ray.dir.y < 0 && ray.dir.z > 0);
}

#[test]
fn channel_byte_clamps() {
    assert_eq!(channel_byte(0), 0);
    assert_eq!(channel_byte(F), 255);
    assert_eq!(channel_byte(F / 2), 127);
    assert_eq!(channel_byte(-3 * F), 0);
    assert_eq!(channel_byte(100 * F), 255);
}

#[test]
fn fill_color_writes_row_major() {
    let mut image: Vec<u8> = vec![0; 2 * 2 * 3];
    fill_color(&mut image, (1, 0), (2, 2), &Vec3::new(F, F / 2, 0));
    assert_eq!(image, vec![0, 0, 0, 255, 127, 0, 0, 0, 0, 0, 0, 0]);
}

#[test]
fn render_lit_sphere() {
    // a diffuse red sphere ahead of the camera, lit by an emissive sphere
    // above the camera: the center pixel is shaded, the corners stay black
    let mut scene = Scene::new();
    let red = scene.add_material(Material::Diffuse(Vec3::new(F, 0, 0)));
    let light = scene.add_material(Material::Emissive(100 * F));
    scene.add_primitive(SceneEntry {
        shape: Primitive::Sphere(Sphere::new(Vec3::new(0, 0, 2 * F), F)),
        material: red,
    });
    scene.add_primitive(SceneEntry {
        shape: Primitive::Sphere(Sphere::new(Vec3::new(0, 2 * F, 0), F)),
        material: light,
    });
    let cam = Camera::new(Vec3::new(0, 0, -F), (11, 11), (F, F));
    let image = render(&cam, &scene);
    assert_eq!(image.len(), 11 * 11 * 3);
    let px = |x: usize, y: usize| -> (u8, u8, u8) {
        let i = y * 11 * 3 + x * 3;
        (image[i], image[i + 1], image[i + 2])
    };
    let center = px(5, 5);
    assert!(center.0 > 0);
    // the sphere is red, so the lit pixel carries no green or blue
    assert_eq!((center.1, center.2), (0, 0));
    assert_eq!(px(0, 0), (0, 0, 0));
    assert_eq!(px(10, 0), (0, 0, 0));
    assert_eq!(px(0, 10), (0, 0, 0));
    assert_eq!(px(10, 10), (0, 0, 0));
}
