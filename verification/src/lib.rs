//! A small ray tracer over fixed-point arithmetic, verified with Verus.
//!
//! The scene is a pair of reflective spheres over an infinite checkered
//! ground plane under a gradient sky.  Rendering walks every pixel of the
//! target image, casts a camera ray, follows it through a bounded number of
//! reflective bounces, and accumulates the colour weighted by the energy the
//! ray has left.  The finished buffer is encoded as a PNG image and wrapped
//! in a base64 data URI.
//!
//! All geometry uses `i64` fixed-point scalars (see [`fixed`]); every
//! arithmetic step has an exact integer contract, so the final pixel bytes
//! are pinned down completely by the specification functions.

pub mod encode;
pub mod fixed;
pub mod render;
pub mod shade;
pub mod sphere;
pub mod vec3;

use vstd::prelude::*;

verus! {

/// The stateless rendering entry point.
#[derive(Default, Clone, Copy)]
pub struct Raytracing {}

} // verus!
