//! A small stochastic path tracer over fixed-point scalar arithmetic.
//!
//! Every scalar is an `i64` counting steps of `1/fx::SCALE`; all vector,
//! geometry, material and integrator code is written against exact integer
//! contracts over that representation.

pub mod camera;
pub mod colour;
pub mod fx;
pub mod hit;
pub mod material;
pub mod ray;
pub mod render;
pub mod rng;
pub mod sphere;
pub mod vec3;
