//! A Monte Carlo path tracer over a fixed-point scalar algebra.
//!
//! Every scalar is an `i64` holding a real number scaled by 2^16; the
//! algebra (`fx`) saturates at a symmetric bound instead of overflowing,
//! and every geometric and radiometric computation above it is specified
//! exactly in terms of that algebra.

pub mod fx;
pub mod vec3;
pub mod ray;
pub mod material;
pub mod sphere;
pub mod hit;
pub mod rng;
pub mod camera;
pub mod render;
pub mod ppm;
