//! A small path-tracing library over exact fixed-point arithmetic.
//!
//! Every real quantity is a [`fixed::Fx`]: a signed 64-bit integer holding the
//! value scaled by one million.  All geometry, shading and encoding logic is
//! written over that representation, so each step of the renderer has an exact
//! integer meaning that the contracts state and the verifier checks.
//!
//! The pipeline: a [`camera::Camera`] derives its viewport, casts jittered
//! rays through a [`hittable_list::HittableList`] of [`sphere::Sphere`]s,
//! lets each hit's [`material::Material`] decide how light bounces, and
//! encodes the averaged colors as a plain-text image.

pub mod camera;
pub mod color;
pub mod fixed;
pub mod hittable;
pub mod hittable_list;
pub mod interval;
pub mod material;
pub mod ray;
pub mod sphere;
pub mod util;
pub mod vec3;
