//! Background shading: the gradient sky and the checkered ground plane.

use vstd::prelude::*;
use crate::fixed::{
    fp_mul, fp_mul_spec, fp_div, fp_div_spec, same_parity, same_parity_spec, SCALE,
};
use crate::vec3::{
    Vec3, V3, v3_zero, bounded, lemma_mul_abs_bound, lemma_fp_mul_range, COORD_MAX, DIR_MAX,
};
use crate::sphere::ORIGIN_MAX;

verus! {

/// Largest channel magnitude a background colour can reach: a bounded sky
/// base colour scaled by the squared gradient factor.
pub const CHANNEL_MAX: i64 = 450359962737049600;

/// The colour of the sky seen along `d`: the base colour scaled by the
/// square of one minus the vertical component, brightest at the horizon.
pub open spec fn sky_spec(d: V3, c: V3) -> V3 {
    let g = fp_mul_spec((SCALE as int) - d.y, (SCALE as int) - d.y);
    V3 { x: fp_mul_spec(c.x, g), y: fp_mul_spec(c.y, g), z: fp_mul_spec(c.z, g) }
}

/// The pure white used for half the checkerboard cells.
pub open spec fn v3_white() -> V3 {
    V3 { x: SCALE as int, y: SCALE as int, z: SCALE as int }
}

/// The colour of the ground under the ray `(o, d)` (for `d.y < 0`): the ray
/// is carried to the plane at height zero and the cell parities of the two
/// horizontal coordinates pick black or white.
pub open spec fn ground_spec(o: V3, d: V3) -> V3 {
    let dist = fp_div_spec(-o.y, d.y);
    let gx = o.x + fp_mul_spec(d.x, dist);
    let gz = o.z + fp_mul_spec(d.z, dist);
    if same_parity_spec(gx, gz) {
        v3_zero()
    } else {
        v3_white()
    }
}

/// Computes the sky gradient colour for a ray direction, given the sky base
/// colour.
pub fn calculate_sky_color(ray_dir: &Vec3, color: &Vec3) -> (r: Vec3)
    requires
        bounded(ray_dir@, DIR_MAX as int),
        bounded(color@, (COORD_MAX as int) * (SCALE as int)),
    ensures
        r@ == sky_spec(ray_dir@, color@),
        bounded(r@, CHANNEL_MAX as int),
{
    proof {
        lemma_mul_abs_bound((SCALE as int) - ray_dir@.y, (SCALE as int) - ray_dir@.y, 327680,
            327680);
        lemma_fp_mul_range((SCALE as int) - ray_dir@.y, (SCALE as int) - ray_dir@.y, 327680,
            327680);
    }
    let g: i64 = fp_mul(SCALE - ray_dir.y, SCALE - ray_dir.y);
    proof {
        lemma_mul_abs_bound(color@.x, g as int, (COORD_MAX as int) * (SCALE as int), 1638400);
        lemma_mul_abs_bound(color@.y, g as int, (COORD_MAX as int) * (SCALE as int), 1638400);
        lemma_mul_abs_bound(color@.z, g as int, (COORD_MAX as int) * (SCALE as int), 1638400);
        lemma_fp_mul_range(color@.x, g as int, (COORD_MAX as int) * (SCALE as int), 1638400);
        lemma_fp_mul_range(color@.y, g as int, (COORD_MAX as int) * (SCALE as int), 1638400);
        lemma_fp_mul_range(color@.z, g as int, (COORD_MAX as int) * (SCALE as int), 1638400);
    }
    Vec3::new(fp_mul(color.x, g), fp_mul(color.y, g), fp_mul(color.z, g))
}

/// Computes the checkerboard colour where the ray meets the ground plane.
/// The result is always either pure black or pure white.
pub fn calculate_ground_color(ray_origin: &Vec3, ray_dir: &Vec3) -> (r: Vec3)
    requires
        bounded(ray_origin@, ORIGIN_MAX as int),
        bounded(ray_dir@, DIR_MAX as int),
        ray_dir.y < 0,
    ensures
        r@ == ground_spec(ray_origin@, ray_dir@),
        r@ == v3_zero() || r@ == v3_white(),
{
    let dist: i64 = fp_div(-ray_origin.y, ray_dir.y);
    proof {
        lemma_mul_abs_bound(ray_dir@.x, dist as int, DIR_MAX as int,
            (ORIGIN_MAX as int) * (SCALE as int));
        lemma_mul_abs_bound(ray_dir@.z, dist as int, DIR_MAX as int,
            (ORIGIN_MAX as int) * (SCALE as int));
        lemma_fp_mul_range(ray_dir@.x, dist as int, DIR_MAX as int,
            (ORIGIN_MAX as int) * (SCALE as int));
        lemma_fp_mul_range(ray_dir@.z, dist as int, DIR_MAX as int,
            (ORIGIN_MAX as int) * (SCALE as int));
    }
    let gx: i64 = ray_origin.x + fp_mul(ray_dir.x, dist);
    let gz: i64 = ray_origin.z + fp_mul(ray_dir.z, dist);
    if same_parity(gx, gz) {
        Vec3::zero()
    } else {
        Vec3::new(SCALE, SCALE, SCALE)
    }
}

} // verus!
