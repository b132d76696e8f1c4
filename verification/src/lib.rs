//! A recursive Monte-Carlo path tracer over analytic spheres with Lambertian,
//! metal and dielectric surfaces.
//!
//! All geometry and shading is computed in fixed-point arithmetic (see
//! [`fixed`]): every quantity is an `i64` count of 1/65536 units, so every
//! operation has an exact integer specification and the whole light-transport
//! core is verified against it.  A thin unverified driver turns the colors
//! produced here into a PPM image.

pub mod fixed;
pub mod vec3;
pub mod ray;
pub mod camera;
pub mod material;
pub mod parse;
pub mod rng;
pub mod hit;
pub mod sphere;
pub mod tracer;
