//! A small ray-tracing and volume-rendering core.
//!
//! All geometry and radiometry is carried out in fixed-point arithmetic:
//! a scalar is an `i64` holding the real value scaled by `fx::ONE` (2^16).
//! Every operation has an exact contract over mathematical integers, so
//! the whole pipeline — intervals, bounding boxes, primitives, the
//! bounding-volume hierarchy, the volumetric field and the sample
//! accumulation loop — is deterministic and verified.

pub mod fx;
pub mod interval;
pub mod util;
pub mod ray;
pub mod hittable;
pub mod grid;
pub mod scene;
pub mod camera;
pub mod render;
pub mod volume_grid;
pub mod aabb;
pub mod vec3;

use vstd::prelude::*;

verus! {

} // verus!
