//! A Monte Carlo path tracer whose geometry kernel is verified.
//!
//! Geometry lives on a fixed-point integer lattice: one world unit is
//! `fx::FX_ONE` raw units, and every coordinate, color channel and texture
//! parameter is such a raw value.  Ray parameters are exact rationals, so
//! closest-hit selection, bounding-box unions and the box slab test are
//! proved exact rather than approximate.

pub mod aabb;
pub mod bvh;
pub mod camera;
pub mod color;
pub mod fx;
pub mod hit_record;
pub mod hittable;
pub mod image;
pub mod laws;
pub mod material;
pub mod perlin;
pub mod quaternion;
pub mod ray;
pub mod render;
pub mod rng;
pub mod shapes;
pub mod shared;
pub mod skybox;
pub mod texture;
pub mod tparam;
pub mod transform;
pub mod utility;
pub mod vec3;
