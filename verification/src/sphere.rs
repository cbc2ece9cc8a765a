//! The sphere primitive and its closed-form ray intersection.

use crate::fx::{
    lemma_sqrt_floor_bounds, lemma_tdiv_mono, spec_add, spec_div, spec_mul, spec_neg, spec_sqrt,
    spec_sub, fx_add, fx_div, fx_mul, fx_neg, fx_sqrt, fx_sub, FX_MAX, SCALE,
};
use crate::hit::{face_normal, Hit, Hittable};
use crate::material::Material;
use crate::ray::{at_spec, Ray};
use crate::vec3::{
    div_spec, dot_spec, lemma_dot_self_nonneg, neg_spec, sub_spec, Point3, Vec3,
};
use vstd::prelude::*;

verus! {

/// A sphere: a centre, a strictly positive radius, and the material of
/// its surface.
#[derive(Clone, Copy, Debug, PartialEq, Eq, Structural)]
pub struct Sphere {
    pub centre: Point3,
    pub radius: i64,
    pub material: Material,
}

impl Sphere {
    /// The centre is representable, the radius positive and representable,
    /// and the material well formed.
    pub open spec fn wf(self) -> bool {
        self.centre.wf() && 0 < self.radius <= FX_MAX && self.material.wf()
    }

    /// Build a sphere; a non-positive radius is rejected.
    pub fn new(centre: Point3, radius: i64, material: Material) -> (r: Option<Sphere>)
        requires
            centre.wf(),
            radius <= FX_MAX,
            material.wf(),
        ensures
            radius > 0 ==> r == Some(Sphere { centre, radius, material }),
            radius <= 0 ==> r is None,
            r matches Some(s) ==> s.wf(),
    {
        if radius > 0 {
            Some(Sphere { centre, radius, material })
        } else {
            None
        }
    }
}

/// The ray origin relative to the sphere centre.
pub open spec fn sphere_oc(s: Sphere, ray: Ray) -> Vec3 {
    sub_spec(ray.origin, s.centre)
}

/// The quadratic's leading coefficient: the squared length of the ray
/// direction (not assumed unit, on purpose).
pub open spec fn sphere_qa(s: Sphere, ray: Ray) -> int {
    dot_spec(ray.direction, ray.direction)
}

/// Half the quadratic's linear coefficient.
pub open spec fn sphere_half_b(s: Sphere, ray: Ray) -> int {
    dot_spec(ray.direction, sphere_oc(s, ray))
}

/// The quadratic's constant coefficient.
pub open spec fn sphere_qc(s: Sphere, ray: Ray) -> int {
    spec_sub(dot_spec(sphere_oc(s, ray), sphere_oc(s, ray)), spec_mul(s.radius as int, s.radius as int))
}

/// The discriminant `half_b^2 - a*c`; the ray misses when it is negative.
pub open spec fn sphere_disc(s: Sphere, ray: Ray) -> int {
    spec_sub(
        spec_mul(sphere_half_b(s, ray), sphere_half_b(s, ray)),
        spec_mul(sphere_qa(s, ray), sphere_qc(s, ray)),
    )
}

/// The nearer root of the quadratic.
pub open spec fn sphere_t1(s: Sphere, ray: Ray) -> int {
    spec_div(
        spec_sub(spec_neg(sphere_half_b(s, ray)), spec_sqrt(sphere_disc(s, ray))),
        sphere_qa(s, ray),
    )
}

/// The farther root of the quadratic.
pub open spec fn sphere_t2(s: Sphere, ray: Ray) -> int {
    spec_div(
        spec_add(spec_neg(sphere_half_b(s, ray)), spec_sqrt(sphere_disc(s, ray))),
        sphere_qa(s, ray),
    )
}

/// Strict containment in the open parameter interval.
pub open spec fn in_window(t: int, t_min: int, t_max: int) -> bool {
    t_min < t && t < t_max
}

/// The hit record the sphere reports at parameter `t`: the point, the
/// unit outward normal re-oriented against the ray, and the material.
pub open spec fn sphere_record(s: Sphere, ray: Ray, t: int) -> Hit {
    let p = at_spec(ray, t);
    let outward = div_spec(sub_spec(p, s.centre), s.radius as int);
    let front = dot_spec(ray.direction, outward) < 0;
    Hit {
        p,
        normal: if front {
            outward
        } else {
            neg_spec(outward)
        },
        t: t as i64,
        front_face: front,
        material: s.material,
    }
}

/// The sphere's answer to `hit`: no hit when the discriminant is
/// negative; otherwise the nearer root is tried first and the farther
/// one only if the nearer misses the window.  That order prefers the
/// nearer visible surface, also when the ray starts inside the sphere.
pub open spec fn sphere_hit_spec(s: Sphere, ray: Ray, t_min: int, t_max: int) -> Option<Hit> {
    if sphere_disc(s, ray) < 0 {
        None
    } else if in_window(sphere_t1(s, ray), t_min, t_max) {
        Some(sphere_record(s, ray, sphere_t1(s, ray)))
    } else if in_window(sphere_t2(s, ray), t_min, t_max) {
        Some(sphere_record(s, ray, sphere_t2(s, ray)))
    } else {
        None
    }
}

/// Dividing a smaller numerator by the same non-negative scalar gives a
/// smaller quotient.
proof fn lemma_spec_div_mono_num(a1: int, a2: int, b: int)
    requires
        a1 <= a2,
        b >= 0,
    ensures
        spec_div(a1, b) <= spec_div(a2, b),
{
    if b == 0 {
    } else {
        assert(a1 * SCALE <= a2 * SCALE) by (nonlinear_arith)
            requires
                a1 <= a2,
                SCALE as int > 0,
        ;
        lemma_tdiv_mono(a1 * SCALE, a2 * SCALE, b as int);
    }
}

/// The nearer root never exceeds the farther one.
pub proof fn lemma_sphere_t_order(s: Sphere, ray: Ray)
    ensures
        sphere_t1(s, ray) <= sphere_t2(s, ray),
{
    let disc = sphere_disc(s, ray);
    let root = spec_sqrt(disc);
    if disc >= 0 {
        lemma_sqrt_floor_bounds(disc * SCALE);
        assert(disc * SCALE >= 0) by (nonlinear_arith)
            requires
                disc >= 0,
                SCALE as int > 0,
        ;
    }
    assert(root >= 0);
    lemma_dot_self_nonneg(ray.direction);
    lemma_spec_div_mono_num(
        spec_sub(spec_neg(sphere_half_b(s, ray)), root),
        spec_add(spec_neg(sphere_half_b(s, ray)), root),
        sphere_qa(s, ray),
    );
}

/// A reported hit's parameter is the accepted root, inside the window.
pub proof fn lemma_sphere_hit_in_window(s: Sphere, ray: Ray, t_min: int, t_max: int)
    ensures
        sphere_hit_spec(s, ray, t_min, t_max) matches Some(h) ==> t_min < h.t < t_max,
{
}

/// A well-formed sphere reports well-formed hit records.
pub proof fn lemma_sphere_hit_wf(s: Sphere, ray: Ray, t_min: int, t_max: int)
    requires
        s.wf(),
    ensures
        sphere_hit_spec(s, ray, t_min, t_max) matches Some(h) ==> h.wf(),
{
}

/// How the sphere's answer changes when the window top shrinks from
/// `t_max` to `cur`: an answer in the small window is the answer in the
/// large one; an answer only in the large window lies beyond `cur`; and
/// a large-window answer below `cur` is also the small window's answer.
pub proof fn lemma_sphere_hit_window(s: Sphere, ray: Ray, t_min: int, t_max: int, cur: int)
    requires
        cur <= t_max,
    ensures
        sphere_hit_spec(s, ray, t_min, cur) matches Some(h) ==> sphere_hit_spec(
            s,
            ray,
            t_min,
            t_max,
        ) == Some(h),
        sphere_hit_spec(s, ray, t_min, cur) is None ==> (sphere_hit_spec(
            s,
            ray,
            t_min,
            t_max,
        ) matches Some(h) ==> h.t >= cur),
        sphere_hit_spec(s, ray, t_min, t_max) matches Some(h) ==> (h.t < cur
            ==> sphere_hit_spec(s, ray, t_min, cur) == Some(h)),
{
    lemma_sphere_t_order(s, ray);
}

impl Hittable for Sphere {
    open spec fn hit_model(&self, ray: Ray, t_min: i64, t_max: i64) -> Option<Hit> {
        sphere_hit_spec(*self, ray, t_min as int, t_max as int)
    }

    open spec fn well_formed(&self) -> bool {
        self.wf()
    }

    fn hit(&self, ray: &Ray, t_min: i64, t_max: i64) -> (r: Option<Hit>) {
        let oc = ray.origin.sub(self.centre);
        let qa = ray.direction.length_squared();
        let half_b = ray.direction.dot(oc);
        let qc = fx_sub(oc.length_squared(), fx_mul(self.radius, self.radius));
        let disc = fx_sub(fx_mul(half_b, half_b), fx_mul(qa, qc));

        if disc >= 0 {
            let root = fx_sqrt(disc);
            let neg_half_b = fx_neg(half_b);

            let t_near = fx_div(fx_sub(neg_half_b, root), qa);
            if t_min < t_near && t_near < t_max {
                return Some(self.record(ray, t_near));
            }

            let t_far = fx_div(fx_add(neg_half_b, root), qa);
            if t_min < t_far && t_far < t_max {
                return Some(self.record(ray, t_far));
            }
        }
        None
    }
}

impl Sphere {
    /// Assemble the hit record at parameter `t`.
    fn record(&self, ray: &Ray, t: i64) -> (h: Hit)
        requires
            self.wf(),
            ray.wf(),
        ensures
            h == sphere_record(*self, *ray, t as int),
            h.p.wf(),
            h.normal.wf(),
            h.material == self.material,
    {
        let p = ray.at(t);
        let outward_normal = p.sub(self.centre).div(self.radius);
        let (front_face, normal) = face_normal(ray, &outward_normal);
        Hit { p, normal, t, front_face, material: self.material }
    }
}

} // verus!
