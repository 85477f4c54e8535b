//! A small path tracer over fixed-point arithmetic.
//!
//! Scenes of spheres with diffuse, metallic and dielectric materials are
//! rendered by a recursive Monte Carlo estimator.  All scalar quantities are
//! fixed-point numbers: an `i64` raw value standing for `raw / SCALE`.

pub mod camera;
pub mod fixed;
pub mod hittable;
pub mod material;
pub mod ray;
pub mod render;
pub mod sampler;
pub mod scene;
pub mod sphere;
pub mod vec3;
