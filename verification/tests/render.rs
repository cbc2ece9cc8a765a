//! Integrator, quantization and end-to-end determinism.

use raytrace::camera::Camera;
use raytrace::fx::SCALE;
use raytrace::hit::HittableList;
use raytrace::material::{Lambertian, Material, Metal};
use raytrace::ray::Ray;
use raytrace::render::{lerp, pixel_colour, ray_colour, render, render_row, trace_pixel};
use raytrace::sphere::Sphere;
use raytrace::vec3::Vec3;

fn fixed(f_num: i64, f_den: i64) -> i64 {
    f_num * SCALE / f_den
}

/// The golden scene: one fuzzless metal ground sphere, so every path is
/// value-deterministic.
fn metal_ground_scene() -> HittableList {
    let albedo = Vec3::new(fixed(4, 5), fixed(4, 5), fixed(4, 5));
    let ground = Sphere::new(
        Vec3::new(0, fixed(-201, 2), -SCALE),
        100 * SCALE,
        Material::Metal(Metal::new(albedo, 0)),
    )
    .unwrap();
    HittableList::with_object(ground)
}

#[test]
fn test_ray_colour_depth_zero_is_black() {
    let world = metal_ground_scene();
    let rays = [
        Ray::new(Vec3::zero(), Vec3::new(0, 0, -SCALE)),
        Ray::new(Vec3::zero(), Vec3::new(0, -SCALE, 0)),
        Ray::new(Vec3::new(SCALE, SCALE, SCALE), Vec3::new(SCALE, SCALE, SCALE)),
    ];
    for ray in rays {
        assert_eq!(ray_colour(ray, &world, 0), Vec3::zero());
    }
    let empty = HittableList::new();
    for ray in rays {
        assert_eq!(ray_colour(ray, &empty, 0), Vec3::zero());
    }
}

#[test]
fn test_ray_colour_one_bounce_budget_is_black() {
    // With one unit of budget a hit spends it: the scattered ray is
    // traced at depth zero, contributes black, and the attenuation of
    // black is black.
    let world = metal_ground_scene();
    let down = Ray::new(Vec3::zero(), Vec3::new(0, -SCALE, 0));
    assert_eq!(ray_colour(down, &world, 1), Vec3::zero());
}

#[test]
fn test_ray_colour_sky_gradient() {
    // A miss evaluates the sky: straight along -z the unit direction
    // has height 0, the interpolant is one half.
    let empty = HittableList::new();
    let ray = Ray::new(Vec3::zero(), Vec3::new(0, 0, -SCALE));
    let c = ray_colour(ray, &empty, 50);
    assert_eq!(c, Vec3::new(12582912, 14260633, 16777216));
}

#[test]
fn test_lerp_endpoints() {
    let a = Vec3::new(SCALE, SCALE, SCALE);
    let b = Vec3::new(SCALE / 2, 11744051, SCALE);
    assert_eq!(lerp(0, a, b), a);
    assert_eq!(lerp(SCALE, a, b), b);
}

#[test]
fn test_to_string_quantization() {
    assert_eq!(Vec3::new(SCALE, SCALE, SCALE).to_string(1), "255 255 255");
    assert_eq!(Vec3::zero().to_string(1), "0 0 0");
    assert_eq!(Vec3::new(-SCALE, 0, SCALE).to_string(1), "0 0 255");
    // 0.25 gamma-corrects to 0.5, which scales to 128.
    assert_eq!(Vec3::new(SCALE / 4, SCALE / 4, SCALE / 4).to_string(1), "128 128 128");
    // Averaging: two accumulated samples of 2.0 mean out to 1.0.
    assert_eq!(Vec3::new(2 * SCALE, 2 * SCALE, 2 * SCALE).to_string(2), "255 255 255");
}

#[test]
fn test_camera_corner_rays() {
    let camera = Camera::new();
    let bottom_left = camera.get_ray(0, 0);
    assert_eq!(bottom_left.origin, Vec3::zero());
    assert_eq!(bottom_left.direction, Vec3::new(-29826161, -16777216, -16777216));
    let top_right = camera.get_ray(SCALE, SCALE);
    assert_eq!(top_right.direction, Vec3::new(29826161, 16777216, -16777216));
}

/// One render of the golden two-by-two image: one sample per pixel, the
/// jitter fixed to zero, rows from the top down.
fn golden_render() -> Vec<String> {
    let world = metal_ground_scene();
    let camera = Camera::new();
    let mut lines = Vec::new();
    for j in [1usize, 0usize] {
        for i in [0usize, 1usize] {
            let c = trace_pixel(&world, &camera, i, j, 2, 2, 0, 0, 50);
            lines.push(c.to_string(1));
        }
    }
    lines
}

#[test]
fn test_golden_two_by_two_fixture() {
    let expected = ["204 226 255", "204 226 255", "183 202 228", "183 202 228"];
    assert_eq!(golden_render(), expected);
}

#[test]
fn test_end_to_end_determinism() {
    // Two renders of the same fixed scene with zero jitter are
    // byte-identical.
    assert_eq!(golden_render(), golden_render());
}

#[test]
fn test_scan_order_independent_of_evaluation_order() {
    // Evaluate the same pixels in reverse, reassemble into scan order:
    // the raster must be identical.
    let world = metal_ground_scene();
    let camera = Camera::new();
    let mut scrambled = vec![String::new(), String::new(), String::new(), String::new()];
    for j in [0usize, 1usize] {
        for i in [1usize, 0usize] {
            let c = trace_pixel(&world, &camera, i, j, 2, 2, 0, 0, 50);
            scrambled[(1 - j) * 2 + i] = c.to_string(1);
        }
    }
    assert_eq!(scrambled, golden_render());
}

#[test]
fn test_render_produces_full_raster() {
    // With a diffuse sphere the values are stochastic, but the raster
    // shape and scan order are fixed: width * height lines.
    let albedo = Vec3::new(fixed(7, 10), fixed(3, 10), fixed(3, 10));
    let sphere = Sphere::new(
        Vec3::new(0, 0, -SCALE),
        SCALE / 2,
        Material::Lambertian(Lambertian::new(albedo)),
    )
    .unwrap();
    let world = HittableList::with_object(sphere);
    let camera = Camera::new();
    let raster = render(&world, &camera, 4, 3, 2, 5);
    assert_eq!(raster.len(), 12);
    let row = render_row(&world, &camera, 0, 4, 3, 2, 5);
    assert_eq!(row.len(), 4);
    let c = pixel_colour(&world, &camera, 0, 0, 4, 3, 2, 5);
    let line = c.to_string(2);
    assert_eq!(line.split(' ').count(), 3);
    for part in line.split(' ') {
        let v: i64 = part.parse().unwrap();
        assert!((0..=255).contains(&v));
    }
}
