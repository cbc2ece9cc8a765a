//! Material scattering behaviour on concrete values.

use raytrace::fx::SCALE;
use raytrace::hit::Hit;
use raytrace::material::{Lambertian, Material, Metal};
use raytrace::ray::Ray;
use raytrace::vec3::Vec3;

fn hit_at_origin(normal: Vec3, material: Material) -> Hit {
    Hit { p: Vec3::zero(), normal, t: SCALE, front_face: true, material }
}

#[test]
fn test_lambertian_scatter_attenuation() {
    // The diffuse material always scatters and its attenuation is the
    // configured albedo, whatever the hit and the incoming ray.
    let albedo = Vec3::new(7 * SCALE / 10, 3 * SCALE / 10, 3 * SCALE / 10);
    let material = Lambertian::new(albedo);
    let rays = [
        Ray::new(Vec3::zero(), Vec3::new(0, 0, -SCALE)),
        Ray::new(Vec3::new(SCALE, SCALE, SCALE), Vec3::new(-SCALE, 0, 0)),
    ];
    let normals = [Vec3::new(0, SCALE, 0), Vec3::new(0, 0, SCALE)];
    for ray in rays {
        for normal in normals {
            for _ in 0..50 {
                let hit = hit_at_origin(normal, Material::Lambertian(material));
                let (attenuation, scattered) =
                    material.scatter(&ray, &hit).expect("diffuse always scatters");
                assert_eq!(attenuation, albedo);
                assert_eq!(scattered.origin, hit.p);
                assert!(!scattered.direction.is_near_zero());
            }
        }
    }
}

#[test]
fn test_metal_new_clamps_fuzz() {
    let albedo = Vec3::new(SCALE / 2, SCALE / 2, SCALE / 2);
    assert_eq!(Metal::new(albedo, -5).fuzz, 0);
    assert_eq!(Metal::new(albedo, 3 * SCALE).fuzz, SCALE);
    assert_eq!(Metal::new(albedo, SCALE / 4).fuzz, SCALE / 4);
}

#[test]
fn test_metal_fuzzless_grazing_exit_is_exact_reflection() {
    // Incoming (1, -1, 0) against normal (0, 1, 0): the reflection
    // (1, 1, 0) leaves the surface, so the scatter is exactly it.
    let albedo = Vec3::new(4 * SCALE / 5, 4 * SCALE / 5, 4 * SCALE / 5);
    let material = Metal::new(albedo, 0);
    let ray = Ray::new(Vec3::new(-SCALE, SCALE, 0), Vec3::new(SCALE, -SCALE, 0));
    let hit = hit_at_origin(Vec3::new(0, SCALE, 0), Material::Metal(material));
    let (attenuation, scattered) = material.scatter(&ray, &hit).expect("graze must scatter");
    assert_eq!(attenuation, albedo);
    assert_eq!(scattered.origin, hit.p);
    assert_eq!(scattered.direction, Vec3::new(SCALE, SCALE, 0));
}

#[test]
fn test_metal_fuzzless_reentrant_reflection_is_absorbed() {
    // Incoming (1, 1, 0) against normal (0, 1, 0): the reflection
    // (1, -1, 0) re-enters the surface, so the ray is absorbed.
    let albedo = Vec3::new(4 * SCALE / 5, 4 * SCALE / 5, 4 * SCALE / 5);
    let material = Metal::new(albedo, 0);
    let ray = Ray::new(Vec3::new(-SCALE, -SCALE, 0), Vec3::new(SCALE, SCALE, 0));
    let hit = hit_at_origin(Vec3::new(0, SCALE, 0), Material::Metal(material));
    assert!(material.scatter(&ray, &hit).is_none());
}

#[test]
fn test_metal_fuzzless_determinism() {
    let albedo = Vec3::new(4 * SCALE / 5, 4 * SCALE / 5, 4 * SCALE / 5);
    let material = Metal::new(albedo, 0);
    let ray = Ray::new(Vec3::new(-SCALE, SCALE, 0), Vec3::new(SCALE, -SCALE, 0));
    let hit = hit_at_origin(Vec3::new(0, SCALE, 0), Material::Metal(material));
    let first = material.scatter(&ray, &hit).expect("graze must scatter");
    for _ in 0..50 {
        let again = material.scatter(&ray, &hit).expect("graze must scatter");
        assert_eq!(again.0, first.0);
        assert_eq!(again.1, first.1);
    }
}

#[test]
fn test_material_dispatch() {
    let albedo = Vec3::new(SCALE / 2, SCALE / 2, SCALE / 2);
    let diffuse = Material::Lambertian(Lambertian::new(albedo));
    let mirror = Material::Metal(Metal::new(albedo, 0));
    let ray = Ray::new(Vec3::zero(), Vec3::new(SCALE, -SCALE, 0));
    let hit_d = hit_at_origin(Vec3::new(0, SCALE, 0), diffuse);
    let hit_m = hit_at_origin(Vec3::new(0, SCALE, 0), mirror);
    assert!(diffuse.scatter(&ray, &hit_d).is_some());
    let (attenuation, scattered) = mirror.scatter(&ray, &hit_m).expect("mirror graze scatters");
    assert_eq!(attenuation, albedo);
    assert_eq!(scattered.direction, Vec3::new(SCALE, SCALE, 0));
}
