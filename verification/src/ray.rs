//! Rays: an origin with a direction.
//!
//! The direction is not normalized by construction; the intersection
//! formula uses its squared length directly, which is intentional.

use crate::vec3::{add_spec, scale_spec, Point3, Vec3};
use vstd::prelude::*;

verus! {

/// A half-line, queried by `at(t) = origin + t * direction`.
#[derive(Clone, Copy, Debug, PartialEq, Eq, Structural)]
pub struct Ray {
    pub origin: Point3,
    pub direction: Vec3,
}

/// The point the ray reaches at parameter `t`.
pub open spec fn at_spec(r: Ray, t: int) -> Point3 {
    add_spec(r.origin, scale_spec(r.direction, t))
}

impl Ray {
    /// Both endpoints lie in the representable range.
    pub open spec fn wf(self) -> bool {
        self.origin.wf() && self.direction.wf()
    }

    /// Pack an origin and a direction into a ray.
    pub fn new(origin: Point3, direction: Vec3) -> (r: Ray)
        ensures
            r == (Ray { origin, direction }),
    {
        Ray { origin, direction }
    }

    /// The ray's origin.
    pub fn origin(&self) -> (r: Point3)
        ensures
            r == self.origin,
    {
        self.origin
    }

    /// The ray's direction.
    pub fn direction(&self) -> (r: Vec3)
        ensures
            r == self.direction,
    {
        self.direction
    }

    /// The point at parameter `t`.
    pub fn at(&self, t: i64) -> (r: Point3)
        ensures
            r == at_spec(*self, t as int),
            r.wf(),
    {
        self.origin.add(self.direction.scale(t))
    }
}

} // verus!
