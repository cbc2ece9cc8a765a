//! Sphere intersection and scene aggregation on concrete values.

use raytrace::fx::{FX_MAX, SCALE};
use raytrace::hit::{face_normal, Hittable, HittableList};
use raytrace::material::{Lambertian, Material};
use raytrace::ray::Ray;
use raytrace::render::T_MIN;
use raytrace::sphere::Sphere;
use raytrace::vec3::Vec3;

fn grey() -> Material {
    Material::Lambertian(Lambertian::new(Vec3::new(SCALE / 2, SCALE / 2, SCALE / 2)))
}

#[test]
fn test_sphere_new_rejects_nonpositive_radius() {
    assert!(Sphere::new(Vec3::zero(), 0, grey()).is_none());
    assert!(Sphere::new(Vec3::zero(), -SCALE, grey()).is_none());
    assert!(Sphere::new(Vec3::zero(), SCALE, grey()).is_some());
}

#[test]
fn test_sphere_hit_head_on() {
    // Sphere centred at (0, 0, -1) with radius 0.5, ray from the origin
    // straight down the axis: hit at t = 0.5, normal (0, 0, 1), front face.
    let sphere = Sphere::new(Vec3::new(0, 0, -SCALE), SCALE / 2, grey()).unwrap();
    let ray = Ray::new(Vec3::zero(), Vec3::new(0, 0, -SCALE));
    let hit = sphere.hit(&ray, T_MIN, FX_MAX).expect("the ray must hit");
    assert_eq!(hit.t, SCALE / 2);
    assert_eq!(hit.p, Vec3::new(0, 0, -SCALE / 2));
    assert_eq!(hit.normal, Vec3::new(0, 0, SCALE));
    assert!(hit.front_face);
}

#[test]
fn test_sphere_miss_perpendicular() {
    let sphere = Sphere::new(Vec3::new(0, 0, -SCALE), SCALE / 2, grey()).unwrap();
    let ray = Ray::new(Vec3::zero(), Vec3::new(SCALE, 0, 0));
    assert!(sphere.hit(&ray, T_MIN, FX_MAX).is_none());
}

#[test]
fn test_sphere_hit_from_inside_prefers_far_root() {
    // Origin inside the sphere: the nearer root is negative and must be
    // rejected in favour of the farther, forward one.
    let sphere = Sphere::new(Vec3::zero(), SCALE, grey()).unwrap();
    let ray = Ray::new(Vec3::zero(), Vec3::new(0, 0, -SCALE));
    let hit = sphere.hit(&ray, T_MIN, FX_MAX).expect("the ray must hit");
    assert_eq!(hit.t, SCALE);
    // The outward normal points along -z; it is flipped to oppose the ray.
    assert_eq!(hit.normal, Vec3::new(0, 0, SCALE));
    assert!(!hit.front_face);
}

#[test]
fn test_sphere_window_excludes_boundaries() {
    let sphere = Sphere::new(Vec3::new(0, 0, -SCALE), SCALE / 2, grey()).unwrap();
    let ray = Ray::new(Vec3::zero(), Vec3::new(0, 0, -SCALE));
    // The hit parameter is exactly 0.5; an interval with 0.5 as either
    // open endpoint must not report it, but the far root at 1.5 may
    // still be found.
    let near_only = sphere.hit(&ray, T_MIN, SCALE / 2);
    assert!(near_only.is_none());
    let from_half = sphere.hit(&ray, SCALE / 2, FX_MAX).expect("far root expected");
    assert_eq!(from_half.t, 3 * SCALE / 2);
}

#[test]
fn test_face_normal_orientation() {
    let ray = Ray::new(Vec3::zero(), Vec3::new(0, 0, -SCALE));
    let outward = Vec3::new(0, 0, SCALE);
    let (front, normal) = face_normal(&ray, &outward);
    assert!(front);
    assert_eq!(normal, outward);

    let against = Vec3::new(0, 0, -SCALE);
    let (front2, normal2) = face_normal(&ray, &against);
    assert!(!front2);
    assert_eq!(normal2, Vec3::new(0, 0, SCALE));
}

#[test]
fn test_scene_empty_reports_nothing() {
    let world = HittableList::new();
    let ray = Ray::new(Vec3::zero(), Vec3::new(0, 0, -SCALE));
    assert!(world.hit(&ray, T_MIN, FX_MAX).is_none());
}

#[test]
fn test_scene_closest_of_two_order_invariant() {
    // Two overlapping spheres along one ray: centre (0,0,-2) radius 1
    // (near surface at t = 1) and centre (0,0,-3) radius 1.5 (near
    // surface at t = 1.5).  Whichever order they are added in, the
    // aggregator reports the strictly smaller parameter.
    let near = Sphere::new(Vec3::new(0, 0, -2 * SCALE), SCALE, grey()).unwrap();
    let far = Sphere::new(Vec3::new(0, 0, -3 * SCALE), 3 * SCALE / 2, grey()).unwrap();
    let ray = Ray::new(Vec3::zero(), Vec3::new(0, 0, -SCALE));

    let mut world_a = HittableList::new();
    world_a.add(near);
    world_a.add(far);
    let mut world_b = HittableList::new();
    world_b.add(far);
    world_b.add(near);

    let hit_a = world_a.hit(&ray, T_MIN, FX_MAX).expect("hit expected");
    let hit_b = world_b.hit(&ray, T_MIN, FX_MAX).expect("hit expected");
    assert_eq!(hit_a.t, SCALE);
    assert_eq!(hit_b.t, SCALE);
    assert_eq!(hit_a.p, hit_b.p);
    assert_eq!(hit_a.normal, hit_b.normal);
    assert_eq!(hit_a.front_face, hit_b.front_face);
}

#[test]
fn test_scene_list_maintenance() {
    let sphere = Sphere::new(Vec3::new(0, 0, -SCALE), SCALE / 2, grey()).unwrap();
    let ray = Ray::new(Vec3::zero(), Vec3::new(0, 0, -SCALE));

    let world = HittableList::with_object(sphere);
    assert!(world.hit(&ray, T_MIN, FX_MAX).is_some());

    let mut cleared = HittableList::with_object(sphere);
    cleared.clear();
    assert!(cleared.hit(&ray, T_MIN, FX_MAX).is_none());
}
