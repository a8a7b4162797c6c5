//! The decision core of a Monte Carlo ray tracer.
//!
//! Every number the renderer works with is an IEEE-754 double. This crate
//! holds such a number by its bit pattern and proves everything the renderer
//! decides by comparing numbers: which hit is nearest, which root of a
//! sphere's quadratic counts, which way a surface faces, how a bounding
//! volume hierarchy is split and walked, when a path ends. Arithmetic on the
//! numbers is left to the caller.
pub mod scalar;
pub mod random;
pub mod vec3;
pub mod ray;
pub mod aabb;
pub mod texture;
pub mod material;
pub mod hittable;
pub mod primitives;
pub mod bvh;
pub mod bvh_laws;
pub mod perlin;
pub mod image;
pub mod integrator;
