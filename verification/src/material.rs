//! The material model: how a surface scatters an incoming ray.
//!
//! The set of materials is small and closed, so it is a tagged sum
//! dispatched by pattern match: a diffuse variant and a metallic one.
//! Materials are immutable configuration; primitives and hit records
//! carry them by value.

use crate::hit::Hit;
use crate::ray::Ray;
use crate::vec3::{add_spec, dot_spec, near_zero_spec, reflect_spec, scale_spec, Colour, Vec3};
use crate::fx::SCALE;
use vstd::prelude::*;

verus! {

/// A diffuse surface: scatters about the normal, always, attenuating by
/// its albedo.
#[derive(Clone, Copy, Debug, PartialEq, Eq, Structural)]
pub struct Lambertian {
    pub albedo: Colour,
}

/// A metallic surface: reflects, perturbed by `fuzz`, and absorbs rays
/// that would re-enter the surface.
#[derive(Clone, Copy, Debug, PartialEq, Eq, Structural)]
pub struct Metal {
    pub albedo: Colour,
    pub fuzz: i64,
}

/// A surface material, one of the closed set of variants.
#[derive(Clone, Copy, Debug, PartialEq, Eq, Structural)]
pub enum Material {
    Lambertian(Lambertian),
    Metal(Metal),
}

/// What a fuzzless metal does, exactly: the pure reflection when it
/// leaves the surface, absorption when it does not.
pub open spec fn metal_exact_spec(m: Metal, ray: Ray, hit: Hit) -> Option<(Colour, Ray)> {
    let refl = reflect_spec(ray.direction, hit.normal);
    if dot_spec(refl, hit.normal) > 0 {
        Some((m.albedo, Ray { origin: hit.p, direction: refl }))
    } else {
        None
    }
}

impl Lambertian {
    /// The albedo is a representable colour.
    pub open spec fn wf(self) -> bool {
        self.albedo.wf()
    }

    /// A diffuse material with the given albedo.
    pub fn new(albedo: Colour) -> (r: Lambertian)
        ensures
            r == (Lambertian { albedo }),
    {
        Lambertian { albedo }
    }

    /// Scatter about the hit normal: the outgoing direction is the
    /// normal plus a random unit vector, replaced by the bare normal
    /// when the sum cancels to zero.  A result always comes back and
    /// its attenuation is the configured albedo, unconditionally.
    pub fn scatter(&self, ray: &Ray, hit: &Hit) -> (r: Option<(Colour, Ray)>)
        requires
            self.wf(),
            hit.p.wf(),
            hit.normal.wf(),
        ensures
            r is Some,
            r matches Some(p) ==> p.0 == self.albedo && p.1.origin == hit.p && p.0.wf()
                && p.1.wf() && (p.1.direction == hit.normal || !near_zero_spec(p.1.direction)),
    {
        let _ = ray;
        let scatter_direction = {
            let s = hit.normal.add(Vec3::random_on_unit_sphere());
            if s.is_near_zero() {
                hit.normal
            } else {
                s
            }
        };
        Some((self.albedo, Ray::new(hit.p, scatter_direction)))
    }
}

impl Metal {
    /// The albedo is representable and the fuzz lies in `[0, 1]`.
    pub open spec fn wf(self) -> bool {
        self.albedo.wf() && 0 <= self.fuzz <= SCALE
    }

    /// A metallic material; the fuzz is clamped into `[0, 1]` rather
    /// than rejected.
    pub fn new(albedo: Colour, fuzz: i64) -> (r: Metal)
        ensures
            r.albedo == albedo,
            r.fuzz == (if fuzz < 0 {
                0i64
            } else if fuzz > SCALE {
                SCALE
            } else {
                fuzz
            }),
    {
        let f = if fuzz < 0 {
            0
        } else if fuzz > SCALE {
            SCALE
        } else {
            fuzz
        };
        Metal { albedo, fuzz: f }
    }

    /// Reflect the incoming direction and perturb it by a point of the
    /// fuzz ball.  The ray scatters only when the perturbed direction
    /// leaves the surface (positive dot with the normal); otherwise it
    /// is absorbed.  Every scattered direction is the reflection plus
    /// the fuzz-scaled offset of some point of the unit ball; with
    /// `fuzz == 0` the outcome is exactly `metal_exact_spec`:
    /// deterministic pure reflection.
    pub fn scatter(&self, ray: &Ray, hit: &Hit) -> (r: Option<(Colour, Ray)>)
        requires
            self.wf(),
            ray.wf(),
            hit.p.wf(),
            hit.normal.wf(),
        ensures
            r matches Some(p) ==> p.0 == self.albedo && p.1.origin == hit.p && dot_spec(
                p.1.direction,
                hit.normal,
            ) > 0 && p.0.wf() && p.1.wf(),
            r matches Some(p) ==> exists|b: Vec3|
                b.wf() && dot_spec(b, b) < SCALE && p.1.direction == add_spec(
                    reflect_spec(ray.direction, hit.normal),
                    scale_spec(b, self.fuzz as int),
                ),
            self.fuzz == 0 ==> r == metal_exact_spec(*self, *ray, *hit),
    {
        let reflected = ray.direction.reflect(hit.normal);
        let fuzz_sample = Vec3::random_in_unit_ball();
        let perturbation = fuzz_sample.scale(self.fuzz);
        let fuzzed = reflected.add(perturbation);
        proof {
            if self.fuzz == 0 {
                crate::fx::lemma_spec_mul_zero(fuzz_sample.x as int);
                crate::fx::lemma_spec_mul_zero(fuzz_sample.y as int);
                crate::fx::lemma_spec_mul_zero(fuzz_sample.z as int);
                assert(perturbation == (Vec3 { x: 0i64, y: 0i64, z: 0i64 }));
                assert(fuzzed == reflected);
            }
        }
        proof {
            assert(fuzzed == add_spec(
                reflect_spec(ray.direction, hit.normal),
                scale_spec(fuzz_sample, self.fuzz as int),
            ));
        }
        let scattered = Ray::new(hit.p, fuzzed);
        if scattered.direction.dot(hit.normal) > 0 {
            Some((self.albedo, scattered))
        } else {
            None
        }
    }
}

impl Material {
    /// The carried variant is well formed.
    pub open spec fn wf(self) -> bool {
        match self {
            Material::Lambertian(l) => l.wf(),
            Material::Metal(m) => m.wf(),
        }
    }

    /// Dispatch `scatter` to the carried variant.
    pub fn scatter(&self, ray: &Ray, hit: &Hit) -> (r: Option<(Colour, Ray)>)
        requires
            self.wf(),
            ray.wf(),
            hit.p.wf(),
            hit.normal.wf(),
        ensures
            r matches Some(p) ==> p.0.wf() && p.1.wf(),
            self is Lambertian ==> r is Some,
            self matches Material::Lambertian(l) ==> (r matches Some(p) ==> p.0 == l.albedo
                && p.1.origin == hit.p),
            self matches Material::Metal(m) ==> (r matches Some(p) ==> p.0 == m.albedo
                && p.1.origin == hit.p && dot_spec(p.1.direction, hit.normal) > 0),
            self matches Material::Metal(m) ==> (r matches Some(p) ==> exists|b: Vec3|
                b.wf() && dot_spec(b, b) < SCALE && p.1.direction == add_spec(
                    reflect_spec(ray.direction, hit.normal),
                    scale_spec(b, m.fuzz as int),
                )),
            self matches Material::Metal(m) ==> (m.fuzz == 0 ==> r == metal_exact_spec(
                *m,
                *ray,
                *hit,
            )),
    {
        match self {
            Material::Lambertian(l) => l.scatter(ray, hit),
            Material::Metal(m) => m.scatter(ray, hit),
        }
    }
}

} // verus!
