//! A Monte Carlo path tracer over exact fixed-point arithmetic.
//!
//! The engine renders a scene of analytic spheres with Lambertian, metal and
//! dielectric materials.  Every quantity is carried as a fixed-point number
//! (an integer count of `1 / FX_SCALE` steps), so every operation of the
//! kernel has an exact integer specification and the whole rendering core is
//! verified: vector algebra, ray/sphere intersection, the nearest-hit scene
//! aggregate, the three scattering models, camera ray generation and the
//! recursive radiance estimator.
//!
//! Randomness is drawn from an explicitly seeded generator passed by the
//! caller, which makes a render a pure function of scene, camera and seed.

pub mod camera;
pub mod fixed;
pub mod hittable;
pub mod hittable_list;
pub mod material;
pub mod ray;
pub mod rng;
pub mod sphere;
pub mod tracer;
pub mod utils;
pub mod vec;
