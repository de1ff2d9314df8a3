//! Geometric-intersection and material-shading core of a minimal path
//! tracer, in fixed-point arithmetic.
//!
//! Every scalar is an `i64` holding `value * SCALE` (see [`fixed`]), so all
//! vector algebra, the ray-sphere intersection and the three scattering
//! models are exact integer computations with proved contracts.

pub mod fixed;
pub mod hit;
pub mod material;
pub mod ray;
pub mod render;
pub mod rng;
pub mod sphere;
pub mod vec3;
