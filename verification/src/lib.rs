//! A spectral path-tracing core, verified with Verus.
//!
//! All geometry and radiometry is carried out in signed fixed-point
//! arithmetic (16 fractional bits), so that every algorithm in this crate
//! carries a machine-checked contract. The surrounding binary converts
//! between floating point and this representation at the edges.

pub mod fixed;
pub mod vec3;
pub mod ray;
pub mod aabb;
pub mod color;
pub mod random;
pub mod hitable;
pub mod texture;
pub mod material;
pub mod sphere;
pub mod triangle;
pub mod primitive;
pub mod hitable_list;
pub mod bvh;
pub mod camera;
pub mod integrator;
pub mod scheduler;
pub mod mesh;

pub use fixed::SCALE;
