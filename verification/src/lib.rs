//! A stochastic recursive ray tracer over fixed-point arithmetic.
//!
//! Scene geometry (spheres, axis-aligned rectangles, cuboids, translated and
//! rotated shapes), materials (diffuse, specular, refractive, emissive), an
//! axis-aligned-bounding-box pruning structure, a depth-bounded light
//! transport integrator and the sampling pipeline that turns a scene into a
//! plain-text raster image.  All scalars are fixed-point integers; every
//! executable function is verified against an exact integer-level contract.

pub mod aabb;
pub mod bhv;
pub mod camera;
pub mod color;
pub mod config;
pub mod fx;
pub mod material;
pub mod parameters;
pub mod primitives;
pub mod ray;
pub mod render;
pub mod rng;
pub mod vec3;
