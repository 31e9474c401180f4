//! A small ray-tracing library whose rendering core runs on saturating
//! fixed-point arithmetic, so that every numeric step has an exact
//! integer-level contract.
//!
//! The scalar type is [`fixed::Fx`]: an `i64` count of 1/65536 units.
//! Vector math, ray/primitive intersection, material scattering and the
//! camera's render loop are built on it and verified against integer
//! specifications. Randomness comes from `rand` through thin trusted
//! wrappers that return plain integers in stated ranges.

pub mod camera;
pub mod color;
pub mod fixed;
pub mod hittable;
pub mod interval;
pub mod material;
pub mod ray;
pub mod rng;
pub mod text;
pub mod vec3;
