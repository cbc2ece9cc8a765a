//! The fixed pinhole camera.
//!
//! Viewport height 2 world units, width `ASPECT_RATIO` times that, focal
//! length 1, origin at world zero.  `get_ray(u, v)` maps normalized
//! image-plane coordinates (`v` increasing upward) to a primary ray.

use crate::fx::{fx_mul, spec_mul, FX_MAX, SCALE};
use crate::ray::Ray;
use crate::vec3::{add_spec, div_spec, scale_spec, sub_spec, Point3, Vec3};
use vstd::prelude::*;

verus! {

/// Width over height of the image, as a scalar: 16/9, rounded down to
/// the fixed-point step (`floor(16 * SCALE / 9)`).
pub const ASPECT_RATIO: i64 = 29826161;

/// The pinhole camera's frame: its origin and the span of its viewport.
#[derive(Clone, Copy, Debug, PartialEq, Eq, Structural)]
pub struct Camera {
    pub origin: Point3,
    pub lower_left_corner: Point3,
    pub horizontal: Vec3,
    pub vertical: Vec3,
}

/// The one camera this renderer uses, field by field.
pub open spec fn camera_spec() -> Camera {
    let viewport_height = 2 * SCALE as int;
    let viewport_width = spec_mul(ASPECT_RATIO as int, viewport_height);
    let origin = Vec3 { x: 0i64, y: 0i64, z: 0i64 };
    let horizontal = Vec3 { x: viewport_width as i64, y: 0i64, z: 0i64 };
    let vertical = Vec3 { x: 0i64, y: viewport_height as i64, z: 0i64 };
    let lower_left_corner = sub_spec(
        sub_spec(
            sub_spec(origin, Vec3 { x: 0i64, y: 0i64, z: SCALE }),
            div_spec(horizontal, 2 * SCALE as int),
        ),
        div_spec(vertical, 2 * SCALE as int),
    );
    Camera { origin, lower_left_corner, horizontal, vertical }
}

/// The primary ray through image-plane point `(u, v)`.
pub open spec fn get_ray_spec(c: Camera, u: int, v: int) -> Ray {
    Ray {
        origin: c.origin,
        direction: sub_spec(
            add_spec(
                add_spec(c.lower_left_corner, scale_spec(c.horizontal, u)),
                scale_spec(c.vertical, v),
            ),
            c.origin,
        ),
    }
}

impl Camera {
    /// Every field is representable.
    pub open spec fn wf(self) -> bool {
        self.origin.wf() && self.lower_left_corner.wf() && self.horizontal.wf()
            && self.vertical.wf()
    }

    /// Build the fixed camera.
    pub fn new() -> (r: Camera)
        ensures
            r == camera_spec(),
            r.wf(),
    {
        let viewport_height: i64 = 2 * SCALE;
        let viewport_width: i64 = fx_mul(ASPECT_RATIO, viewport_height);
        let focal_length: i64 = SCALE;

        let origin = Vec3::zero();
        let horizontal = Vec3::new(viewport_width, 0, 0);
        let vertical = Vec3::new(0, viewport_height, 0);
        let lower_left_corner = origin.sub(Vec3::new(0, 0, focal_length)).sub(
            horizontal.div(2 * SCALE),
        ).sub(vertical.div(2 * SCALE));

        Camera { origin, lower_left_corner, horizontal, vertical }
    }

    /// The ray from the camera origin through `(u, v)`; `u` and `v` are
    /// scalars normally in `[0, 1]`.
    pub fn get_ray(&self, u: i64, v: i64) -> (r: Ray)
        requires
            self.wf(),
        ensures
            r == get_ray_spec(*self, u as int, v as int),
            r.wf(),
    {
        Ray::new(
            self.origin,
            self.lower_left_corner.add(self.horizontal.scale(u)).add(self.vertical.scale(v)).sub(
                self.origin,
            ),
        )
    }
}

} // verus!
