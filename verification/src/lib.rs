//! The verified core of an offline path tracer: the discrete decisions of the
//! renderer, each with its contract.
//!
//! Numbers are carried as [`scalar::Scalar`] codes, which order and negate
//! exactly; arithmetic that rounds is supplied by the caller, as closures or
//! as already computed values.

pub mod aabb;
pub mod aarect;
pub mod boxx;
pub mod bvh;
pub mod canvas;
pub mod closest;
pub mod config;
pub mod constant_medium;
pub mod colors;
pub mod hittable;
pub mod hittable_list;
pub mod material;
pub mod perlin;
pub mod progress;
pub mod ray;
pub mod scalar;
pub mod sphere;
pub mod texture;
pub mod utils;
pub mod vec3;
