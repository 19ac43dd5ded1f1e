//! The top-level renderer: one ray per pixel into a flat RGB byte buffer.

use vstd::prelude::*;
use vstd::pervasive::VecAdditionalExecFns;
use crate::fx::{div_i64, FX_ONE};
use crate::fx::{lemma_div_bounds, lemma_mul_abs};
use crate::math::vec3::Vec3;
use crate::scene::Scene;
use crate::camera::Camera;
use crate::integrator::{Integrator, spec_send_ray, spec_sample};

verus! {

/// How a color channel becomes a byte: scaled by 255, floored back from
/// fixed point, and clamped to the byte range.
pub open spec fn spec_channel_byte(c: int) -> u8 {
    let v = (c * 255) / (FX_ONE as int);
    if v < 0 {
        0u8
    } else if v > 255 {
        255u8
    } else {
        v as u8
    }
}

/// The color the renderer computes for a pixel, if any: no ray, no hit, or
/// a hit flagged as starting inside a primitive all leave the pixel
/// untouched; otherwise the hit material's radiance estimate.
pub open spec fn spec_pixel_color(cam: Camera, scene: Scene, px: int, py: int) -> Option<Vec3> {
    match cam.spec_generate_ray(px, py) {
        None => None,
        Some(ray) => match spec_send_ray(scene, ray) {
            None => None,
            Some(info) => if info.hit.inside {
                None
            } else {
                Some(spec_sample(scene.materials@[info.material as int], scene, info.hit))
            },
        },
    }
}

/// The three bytes a pixel receives: black where no color was computed.
pub open spec fn spec_render_pixel(cam: Camera, scene: Scene, px: int, py: int) -> (u8, u8, u8) {
    match spec_pixel_color(cam, scene, px, py) {
        None => (0u8, 0u8, 0u8),
        Some(c) => (
            spec_channel_byte(c.x as int),
            spec_channel_byte(c.y as int),
            spec_channel_byte(c.z as int),
        ),
    }
}

/// One channel of `spec_render_pixel`, for stating the image contract.
pub open spec fn spec_pixel_byte(cam: Camera, scene: Scene, px: int, py: int, c: int) -> u8 {
    let t = spec_render_pixel(cam, scene, px, py);
    if c == 0 {
        t.0
    } else if c == 1 {
        t.1
    } else {
        t.2
    }
}

/// The buffer index of channel `c` of pixel `(px, py)`: row-major, three
/// bytes per pixel.
pub open spec fn spec_pixel_index(px: int, py: int, rx: int, c: int) -> int {
    py * rx * 3 + px * 3 + c
}

/// Converts one color channel to its output byte.
pub fn channel_byte(c: i64) -> (r: u8)
    requires
        -0x4000_0000_0000 <= c <= 0x4000_0000_0000,
    ensures
        r == spec_channel_byte(c as int),
{
    proof {
        lemma_div_bounds((c as int) * 255, FX_ONE as int);
    }
    let v: i64 = div_i64(c * 255, FX_ONE);
    if v < 0 {
        0
    } else if v > 255 {
        255
    } else {
        v as u8
    }
}

/// Writes a pixel's color into the image buffer, row-major with pixel
/// `(x, y)` channel `c` at index `y * width * 3 + x * 3 + c`.
pub fn fill_color(image: &mut Vec<u8>, pixel: (u32, u32), res: (u32, u32), color: &Vec3)
    requires
        pixel.0 < res.0,
        pixel.1 < res.1,
        res.0 <= 4096,
        res.1 <= 4096,
        old(image)@.len() == (res.0 as int) * (res.1 as int) * 3,
        color.bounded(0x4000_0000_0000),
    ensures
        final(image)@ == old(image)@.update(
            spec_pixel_index(pixel.0 as int, pixel.1 as int, res.0 as int, 0),
            spec_channel_byte(color.x as int),
        ).update(
            spec_pixel_index(pixel.0 as int, pixel.1 as int, res.0 as int, 1),
            spec_channel_byte(color.y as int),
        ).update(
            spec_pixel_index(pixel.0 as int, pixel.1 as int, res.0 as int, 2),
            spec_channel_byte(color.z as int),
        ),
{
    proof {
        assert((pixel.1 as int) * (res.0 as int) * 3 + (pixel.0 as int) * 3 + 2 < (
        res.0 as int) * (res.1 as int) * 3) by (nonlinear_arith)
            requires
                pixel.0 < res.0,
                pixel.1 < res.1,
        ;
        assert((pixel.1 as int) * (res.0 as int) * 3 >= 0) by (nonlinear_arith)
            requires
                pixel.1 >= 0,
                res.0 >= 0,
        ;
        lemma_mul_abs(pixel.1 as int, res.0 as int, 4096, 4096);
    }
    let base: usize = (pixel.1 as usize) * (res.0 as usize) * 3 + (pixel.0 as usize) * 3;
    image.set(base, channel_byte(color.x));
    image.set(base + 1, channel_byte(color.y));
    image.set(base + 2, channel_byte(color.z));
}

/// Computes the color of one pixel, if the pixel's ray strikes a shadable
/// surface.
pub fn pixel_color(camera: &Camera, integrator: &Integrator, px: u32, py: u32) -> (r: Option<
    Vec3,
>)
    requires
        camera.wf(),
        integrator.scene.wf(),
        px < camera.res.0,
        py < camera.res.1,
    ensures
        r == spec_pixel_color(*camera, *integrator.scene, px as int, py as int),
        r is Some ==> r.unwrap().bounded(0x2000_0000),
{
    match camera.generate_ray((px, py)) {
        None => None,
        Some(ray) => match integrator.send_ray(&ray) {
            None => None,
            Some(info) => {
                if info.hit.inside {
                    return None;
                }
                proof {
                    assert((integrator.scene.materials@[info.material as int]).wf());
                }
                let m = integrator.scene.material(info.material);
                Some(m.sample(&info.hit, &ray, integrator))
            },
        },
    }
}

/// Every in-range pixel channel's index lies inside the buffer.
proof fn lemma_index_in_range(px: int, py: int, c: int, rx: int, ry: int)
    by (nonlinear_arith)
    requires
        0 <= px < rx,
        0 <= py < ry,
        0 <= c < 3,
    ensures
        0 <= spec_pixel_index(px, py, rx, c) < rx * ry * 3,
{
}

/// Distinct channels of in-range pixels sit at distinct buffer indices.
proof fn lemma_index_injective(px1: int, py1: int, c1: int, px2: int, py2: int, c2: int, rx: int)
    by (nonlinear_arith)
    requires
        0 <= px1 < rx,
        0 <= px2 < rx,
        0 <= py1,
        0 <= py2,
        0 <= c1 < 3,
        0 <= c2 < 3,
        (px1, py1, c1) != (px2, py2, c2),
    ensures
        spec_pixel_index(px1, py1, rx, c1) != spec_pixel_index(px2, py2, rx, c2),
{
}

/// Renders the scene into a flat byte buffer of size `width * height * 3`,
/// row-major, 8-bit RGB: every pixel holds exactly the bytes that
/// `spec_render_pixel` assigns to it.
pub fn render(camera: &Camera, scene: &Scene) -> (image: Vec<u8>)
    requires
        camera.wf(),
        scene.wf(),
    ensures
        image@.len() == (camera.res.0 as int) * (camera.res.1 as int) * 3,
        forall|px: int, py: int, c: int|
            0 <= px < camera.res.0 && 0 <= py < camera.res.1 && 0 <= c < 3 ==> image@[
                #[trigger] spec_pixel_index(px, py, camera.res.0 as int, c)
            ] == spec_pixel_byte(*camera, *scene, px, py, c),
{
    let rx: u32 = camera.res.0;
    let ry: u32 = camera.res.1;
    proof {
        lemma_mul_abs(rx as int, ry as int, 4096, 4096);
    }
    let n: usize = (rx as usize) * (ry as usize) * 3;
    let mut image: Vec<u8> = Vec::new();
    let mut i: usize = 0;
    while i < n
        invariant
            i <= n,
            image@.len() == i as int,
            forall|j: int| 0 <= j < i ==> image@[j] == 0u8,
        decreases n - i,
    {
        image.push(0u8);
        i = i + 1;
    }
    proof {
        assert forall|px: int, py: int, c: int|
            0 <= px < rx && 0 <= py < ry && 0 <= c < 3 implies image@[
            #[trigger] spec_pixel_index(px, py, rx as int, c)
        ] == 0u8 by {
            lemma_index_in_range(px, py, c, rx as int, ry as int);
        }
    }
    let integrator = Integrator::new(scene);
    let mut x: u32 = 0;
    while x < rx
        invariant
            x <= rx,
            rx == camera.res.0,
            ry == camera.res.1,
            camera.wf(),
            scene.wf(),
            integrator.scene == scene,
            image@.len() == (rx as int) * (ry as int) * 3,
            forall|px: int, py: int, c: int|
                0 <= px < rx && 0 <= py < ry && 0 <= c < 3 && px < x ==> image@[
                    #[trigger] spec_pixel_index(px, py, rx as int, c)
                ] == spec_pixel_byte(*camera, *scene, px, py, c),
            forall|px: int, py: int, c: int|
                0 <= px < rx && 0 <= py < ry && 0 <= c < 3 && px >= x ==> image@[
                    #[trigger] spec_pixel_index(px, py, rx as int, c)
                ] == 0u8,
        decreases rx - x,
    {
        let mut y: u32 = 0;
        while y < ry
            invariant
                y <= ry,
                x < rx,
                rx == camera.res.0,
                ry == camera.res.1,
                camera.wf(),
                scene.wf(),
                integrator.scene == scene,
                image@.len() == (rx as int) * (ry as int) * 3,
                forall|px: int, py: int, c: int|
                    0 <= px < rx && 0 <= py < ry && 0 <= c < 3 && (px < x || (px == x && py
                        < y)) ==> image@[#[trigger] spec_pixel_index(px, py, rx as int, c)]
                        == spec_pixel_byte(*camera, *scene, px, py, c),
                forall|px: int, py: int, c: int|
                    0 <= px < rx && 0 <= py < ry && 0 <= c < 3 && (px > x || (px == x && py
                        >= y)) ==> image@[#[trigger] spec_pixel_index(px, py, rx as int, c)]
                        == 0u8,
            decreases ry - y,
        {
            let co: Option<Vec3> = pixel_color(camera, &integrator, x, y);
            match co {
                None => {
                    proof {
                        assert(spec_render_pixel(*camera, *scene, x as int, y as int) == (
                        0u8,
                        0u8,
                        0u8,
                        ));
                    }
                },
                Some(color) => {
                    proof {
                        assert forall|px: int, py: int, c: int|
                            0 <= px < rx && 0 <= py < ry && 0 <= c < 3 implies 0
                            <= #[trigger] spec_pixel_index(px, py, rx as int, c) < (rx as int)
                            * (ry as int) * 3 by {
                            lemma_index_in_range(px, py, c, rx as int, ry as int);
                        }
                        assert forall|px: int, py: int, c1: int, c2: int|
                            0 <= px < rx && 0 <= py < ry && 0 <= c1 < 3 && 0 <= c2 < 3 && (px,
                            py) != (x as int, y as int) implies spec_pixel_index(
                            px,
                            py,
                            rx as int,
                            c1,
                        ) != spec_pixel_index(x as int, y as int, rx as int, c2) by {
                            lemma_index_injective(px, py, c1, x as int, y as int, c2,
                                rx as int);
                        }
                    }
                    fill_color(&mut image, (x, y), (rx, ry), &color);
                },
            }
            y = y + 1;
        }
        x = x + 1;
    }
    image
}

} // verus!
