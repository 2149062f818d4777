//! Core of an offline path tracer: ray/primitive intersection, an
//! axis-aligned-bounding-box hierarchy (BVH) for accelerated closest-hit
//! queries, material scattering, and the recursive radiance integrator.
//!
//! All geometry is carried in a fixed-point scalar format (`FX_ONE` raw units
//! per world unit) so that every computation has an exact arithmetic
//! definition; the contracts below state those definitions precisely.

pub mod fx;
pub mod vec3;
pub mod ray;
pub mod aabb;
pub mod texture;
pub mod material;
pub mod hit_record;
pub mod sphere;
pub mod rect;
pub mod rng;
pub mod hittable;
pub mod bvh;
pub mod renderer;
