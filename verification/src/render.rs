//! The camera, the bounce loop and the per-pixel renderer.
//!
//! For every pixel a primary ray leaves the camera; each bounce finds the
//! nearest sphere hit (or falls back to the ground or sky), adds the surface
//! colour weighted by the energy the surface does not reflect, and follows
//! the mirrored ray with the remaining energy.  The loop stops when the
//! energy is exhausted, the ray leaves the supported coordinate range, or
//! the fixed bounce cap is reached.

use vstd::prelude::*;
use vstd::arithmetic::div_mod::lemma_fundamental_div_mod_converse;
use crate::fixed::{
    fp_mul, fp_mul_spec, SCALE, lemma_energy_step, lemma_tdiv_abs_mul, lemma_isqrt_props,
};
use crate::vec3::{
    Vec3, V3, v3_zero, v_add, v_scale, v_dot, v_normalize, length_spec, bounded,
    lemma_mul_abs_bound, lemma_square_nonneg, lemma_dot_self_nonneg, COORD_MAX, DIR_MAX, MIN_LEN,
};
use crate::sphere::{Sphere, Hit, HitS, hit_spec, sphere_wf, opt_hit_view, ORIGIN_MAX};
use crate::shade::{
    calculate_sky_color, calculate_ground_color, sky_spec, ground_spec, CHANNEL_MAX,
};

verus! {

/// The fixed cap on reflective bounces per pixel.
pub const MAX_BOUNCES: u32 = 100;

/// Largest image dimension accepted by the renderer.  It keeps every pixel
/// offset within the camera's supported half-range (offsets reach half the
/// dimension, and the camera accepts up to 32768) and the byte buffer, of
/// length `(DIM_MAX + 1)^2 * 4` at most, within a 32-bit machine word.
pub const DIM_MAX: i32 = 32766;

/// Origins a hit can produce stay inside this bound even when they leave
/// the range at which tracing continues.
pub const ORIGIN_OUT_MAX: i64 = 154618822656;

/// The camera: three scaled basis vectors (right, up, forward) and the
/// per-pixel scratch ray.  The forward axis is the unit `z` direction and
/// the right/up axes have no depth component.
#[derive(Clone, Copy, PartialEq, Eq, Structural, Debug)]
pub struct Camera {
    pub x: Vec3,
    pub y: Vec3,
    pub z: Vec3,
    pub ray_dir: Vec3,
    pub ray_origin: Vec3,
}

/// A well-formed camera.
pub open spec fn camera_wf(c: Camera) -> bool {
    &&& bounded(c.x@, SCALE as int)
    &&& bounded(c.y@, SCALE as int)
    &&& c.x.z == 0
    &&& c.y.z == 0
    &&& c.z@ == (V3 { x: 0, y: 0, z: SCALE as int })
    &&& bounded(c.ray_origin@, ORIGIN_MAX as int)
}

/// Every sphere of the scene is well formed.
pub open spec fn scene_wf(scene: Seq<Sphere>) -> bool {
    forall|i: int| 0 <= i < scene.len() ==> sphere_wf(#[trigger] scene[i])
}

/// The primary ray direction for the pixel offset `(px, py)` measured from
/// the image centre.
pub open spec fn camera_ray_spec(c: Camera, px: int, py: int) -> V3 {
    let fx = px * (SCALE as int) - 32768;
    let fy = py * (SCALE as int) - 32768;
    let raw = v_add(v_add(v_scale(c.x@, fx), v_scale(c.y@, fy)), c.z@);
    v_normalize(raw)
}

/// Computes the primary ray direction for a pixel offset.
pub fn camera_ray(c: &Camera, px: i64, py: i64) -> (r: Vec3)
    requires
        camera_wf(*c),
        -32768 <= px <= 32768,
        -32768 <= py <= 32768,
    ensures
        r@ == camera_ray_spec(*c, px as int, py as int),
        bounded(r@, DIR_MAX as int),
{
    let fx: i64 = px * SCALE - 32768;
    let fy: i64 = py * SCALE - 32768;
    proof {
        lemma_mul_abs_bound(c.x@.x, fx as int, SCALE as int, 2147516416);
        lemma_mul_abs_bound(c.x@.y, fx as int, SCALE as int, 2147516416);
        lemma_mul_abs_bound(c.x@.z, fx as int, SCALE as int, 2147516416);
        lemma_mul_abs_bound(c.y@.x, fy as int, SCALE as int, 2147516416);
        lemma_mul_abs_bound(c.y@.y, fy as int, SCALE as int, 2147516416);
        lemma_mul_abs_bound(c.y@.z, fy as int, SCALE as int, 2147516416);
        crate::vec3::lemma_fp_mul_range(c.x@.x, fx as int, SCALE as int, 2147516416);
        crate::vec3::lemma_fp_mul_range(c.x@.y, fx as int, SCALE as int, 2147516416);
        crate::vec3::lemma_fp_mul_range(c.x@.z, fx as int, SCALE as int, 2147516416);
        crate::vec3::lemma_fp_mul_range(c.y@.x, fy as int, SCALE as int, 2147516416);
        crate::vec3::lemma_fp_mul_range(c.y@.y, fy as int, SCALE as int, 2147516416);
        crate::vec3::lemma_fp_mul_range(c.y@.z, fy as int, SCALE as int, 2147516416);
    }
    let sx: Vec3 = c.x.scale(fx);
    let sy: Vec3 = c.y.scale(fy);
    let raw: Vec3 = sx.add(&sy).add(&c.z);
    proof {
        lemma_raw_ray_length(raw@);
    }
    raw.normalize()
}

/// A vector whose depth component is exactly the scale has length at least
/// the scale, so normalizing it is safe and well bounded.
proof fn lemma_raw_ray_length(a: V3)
    requires
        a.z == SCALE as int,
    ensures
        length_spec(a) >= MIN_LEN,
        length_spec(a) >= 1,
{
    let sum = a.x * a.x + a.y * a.y + a.z * a.z;
    lemma_square_nonneg(a.x);
    lemma_square_nonneg(a.y);
    lemma_dot_self_nonneg(a);
    assert(a.z * a.z == 4294967296);
    assert(sum >= 4294967296);
    vstd::arithmetic::div_mod::lemma_div_is_ordered(4294967296, sum, SCALE as int);
    assert((4294967296int) / (SCALE as int) == SCALE as int);
    let d = v_dot(a, a);
    assert(d >= SCALE as int);
    lemma_isqrt_props((d * (SCALE as int)) as nat);
    let l = length_spec(a);
    assert((l + 1) * (l + 1) > d * (SCALE as int));
    assert(d * (SCALE as int) >= 4294967296) by (nonlinear_arith)
        requires
            d >= 65536,
    ;
    assert(l >= 65535) by (nonlinear_arith)
        requires
            (l + 1) * (l + 1) > 4294967296,
            l >= 0,
    ;
}

/// The nearest hit among the spheres of the scene, scanning in order and
/// keeping the earliest of equally distant hits.
pub open spec fn nearest_hit_spec(o: V3, d: V3, scene: Seq<Sphere>) -> Option<HitS>
    decreases scene.len(),
{
    if scene.len() == 0 {
        None::<HitS>
    } else {
        let prev = nearest_hit_spec(o, d, scene.drop_last());
        match hit_spec(scene.last(), o, d) {
            None => prev,
            Some(h) => match prev {
                None => Some(h),
                Some(q) => if h.distance < q.distance {
                    Some(h)
                } else {
                    Some(q)
                },
            },
        }
    }
}

/// What one bounce finds: a surface colour and reflectivity, and the ray the
/// next bounce follows.
pub ghost struct StepS {
    pub color: V3,
    pub reflectivity: int,
    pub next_origin: V3,
    pub next_direction: V3,
}

/// One bounce: the nearest sphere hit if any, otherwise the ground (for a
/// descending ray) or the sky.  Background hits reflect nothing.
pub open spec fn step_spec(o: V3, d: V3, sky_base: V3, scene: Seq<Sphere>) -> StepS {
    match nearest_hit_spec(o, d, scene) {
        Some(h) => StepS {
            color: h.color,
            reflectivity: h.reflectivity,
            next_origin: h.origin,
            next_direction: h.direction,
        },
        None => if d.y < 0 {
            StepS { color: ground_spec(o, d), reflectivity: 0, next_origin: o, next_direction: d }
        } else {
            StepS { color: sky_spec(d, sky_base), reflectivity: 0, next_origin: o, next_direction: d }
        },
    }
}

/// The colour accumulated by tracing a ray for at most `fuel` bounces with
/// the given remaining energy.  Tracing stops on exhausted fuel, exhausted
/// energy, or an origin outside the supported coordinate range.
pub open spec fn trace_spec(o: V3, d: V3, energy: int, sky_base: V3, scene: Seq<Sphere>, fuel: nat) -> V3
    decreases fuel,
{
    if fuel == 0 || energy <= 0 || !bounded(o, ORIGIN_MAX as int) {
        v3_zero()
    } else {
        let st = step_spec(o, d, sky_base, scene);
        let e2 = fp_mul_spec(energy, st.reflectivity);
        let w = energy - e2;
        let share = v_scale(st.color, w);
        v_add(share, trace_spec(st.next_origin, st.next_direction, e2, sky_base, scene, (fuel - 1) as nat))
    }
}

/// The energy left when tracing stops.
pub open spec fn residual_spec(o: V3, d: V3, energy: int, sky_base: V3, scene: Seq<Sphere>, fuel: nat) -> int
    decreases fuel,
{
    if fuel == 0 || energy <= 0 || !bounded(o, ORIGIN_MAX as int) {
        energy
    } else {
        let st = step_spec(o, d, sky_base, scene);
        let e2 = fp_mul_spec(energy, st.reflectivity);
        residual_spec(st.next_origin, st.next_direction, e2, sky_base, scene, (fuel - 1) as nat)
    }
}

/// The total colour weight handed out across all bounces.
pub open spec fn weight_sum_spec(o: V3, d: V3, energy: int, sky_base: V3, scene: Seq<Sphere>, fuel: nat) -> int
    decreases fuel,
{
    if fuel == 0 || energy <= 0 || !bounded(o, ORIGIN_MAX as int) {
        0
    } else {
        let st = step_spec(o, d, sky_base, scene);
        let e2 = fp_mul_spec(energy, st.reflectivity);
        (energy - e2) + weight_sum_spec(st.next_origin, st.next_direction, e2, sky_base, scene, (
        fuel - 1) as nat)
    }
}

/// Energy conservation: the weights the bounces hand out plus the energy
/// left at the end add up exactly to the energy the trace started with.
pub proof fn lemma_energy_conserved(o: V3, d: V3, energy: int, sky_base: V3, scene: Seq<Sphere>, fuel: nat)
    ensures
        weight_sum_spec(o, d, energy, sky_base, scene, fuel) + residual_spec(o, d, energy, sky_base,
            scene, fuel) == energy,
    decreases fuel,
{
    if fuel == 0 || energy <= 0 || !bounded(o, ORIGIN_MAX as int) {
    } else {
        let st = step_spec(o, d, sky_base, scene);
        let e2 = fp_mul_spec(energy, st.reflectivity);
        lemma_energy_conserved(st.next_origin, st.next_direction, e2, sky_base, scene, (fuel
            - 1) as nat);
    }
}

/// One ledger step for a colour channel: adding a bounded channel scaled by
/// the spent weight keeps the accumulator inside the conservation bound.
proof fn lemma_ledger_step(acc: int, c: int, e: int, e2: int)
    requires
        vstd::math::abs(acc) * (SCALE as int) <= (CHANNEL_MAX as int) * ((SCALE as int) - e),
        -(CHANNEL_MAX as int) <= c <= CHANNEL_MAX as int,
        0 <= e2 <= e <= SCALE,
    ensures
        vstd::math::abs(acc + fp_mul_spec(c, e - e2)) * (SCALE as int) <= (CHANNEL_MAX as int) * (
        (SCALE as int) - e2),
        -(CHANNEL_MAX as int) <= acc + fp_mul_spec(c, e - e2) <= CHANNEL_MAX as int,
        -(CHANNEL_MAX as int) <= acc <= CHANNEL_MAX as int,
        -(CHANNEL_MAX as int) <= fp_mul_spec(c, e - e2) <= CHANNEL_MAX as int,
{
    let w = e - e2;
    let share = fp_mul_spec(c, w);
    lemma_tdiv_abs_mul(c * w);
    assert(vstd::math::abs(c * w) <= (CHANNEL_MAX as int) * w) by (nonlinear_arith)
        requires
            -(CHANNEL_MAX as int) <= c <= CHANNEL_MAX as int,
            0 <= w,
    ;
    assert(vstd::math::abs(share) * (SCALE as int) <= (CHANNEL_MAX as int) * w);
    assert(vstd::math::abs(acc + share) <= vstd::math::abs(acc) + vstd::math::abs(share));
    assert((vstd::math::abs(acc) + vstd::math::abs(share)) * (SCALE as int) == vstd::math::abs(
        acc) * (SCALE as int) + vstd::math::abs(share) * (SCALE as int)) by (nonlinear_arith);
    assert(vstd::math::abs(acc + share) * (SCALE as int) <= (vstd::math::abs(acc)
        + vstd::math::abs(share)) * (SCALE as int)) by (nonlinear_arith)
        requires
            vstd::math::abs(acc + share) <= vstd::math::abs(acc) + vstd::math::abs(share),
    ;
    assert((CHANNEL_MAX as int) * ((SCALE as int) - e) + (CHANNEL_MAX as int) * w == (
    CHANNEL_MAX as int) * ((SCALE as int) - e2)) by (nonlinear_arith)
        requires
            w == e - e2,
    ;
    assert(vstd::math::abs(acc + share) * (SCALE as int) <= (CHANNEL_MAX as int) * ((
    SCALE as int) - e2));
    lemma_channel_within(acc + share, e2);
    lemma_channel_within(acc, e);
    assert(vstd::math::abs(share) * (SCALE as int) <= (CHANNEL_MAX as int) * (SCALE as int))
        by (nonlinear_arith)
        requires
            vstd::math::abs(share) * (SCALE as int) <= (CHANNEL_MAX as int) * w,
            w <= SCALE as int,
            0 <= CHANNEL_MAX as int,
    ;
    assert(-(CHANNEL_MAX as int) <= share <= CHANNEL_MAX as int);
}

/// A channel whose ledger bound holds for some residual energy is itself
/// bounded by the channel maximum.
proof fn lemma_channel_within(acc: int, e: int)
    requires
        vstd::math::abs(acc) * (SCALE as int) <= (CHANNEL_MAX as int) * ((SCALE as int) - e),
        0 <= e,
    ensures
        -(CHANNEL_MAX as int) <= acc <= CHANNEL_MAX as int,
{
    assert(vstd::math::abs(acc) <= CHANNEL_MAX as int) by (nonlinear_arith)
        requires
            vstd::math::abs(acc) * (SCALE as int) <= (CHANNEL_MAX as int) * ((SCALE as int) - e),
            0 <= e,
    ;
}

/// Decides whether a point is inside the coordinate range at which tracing
/// continues.
fn vec_in_range(v: &Vec3) -> (r: bool)
    ensures
        r == bounded(v@, ORIGIN_MAX as int),
{
    v.x >= -ORIGIN_MAX && v.x <= ORIGIN_MAX && v.y >= -ORIGIN_MAX && v.y <= ORIGIN_MAX && v.z
        >= -ORIGIN_MAX && v.z <= ORIGIN_MAX
}

/// Traces one primary ray through the scene and returns the accumulated
/// colour together with the number of bounces taken, which never exceeds
/// the fixed cap.
pub fn trace_pixel(origin: &Vec3, direction: &Vec3, sky_base: &Vec3, scene: &Vec<Sphere>) -> (res: (
    Vec3, u32))
    requires
        scene_wf(scene@),
        bounded(origin@, ORIGIN_MAX as int),
        bounded(direction@, DIR_MAX as int),
        bounded(sky_base@, (COORD_MAX as int) * (SCALE as int)),
    ensures
        res.0@ == trace_spec(origin@, direction@, SCALE as int, sky_base@, scene@, MAX_BOUNCES as nat),
        res.1 <= MAX_BOUNCES,
{
    let mut o: Vec3 = *origin;
    let mut d: Vec3 = *direction;
    let mut energy: i64 = SCALE;
    let mut acc: Vec3 = Vec3::zero();
    let mut bounce: u32 = 0;
    let mut alive: bool = vec_in_range(&o);
    while bounce < MAX_BOUNCES && energy > 0 && alive
        invariant
            scene_wf(scene@),
            bounded(sky_base@, (COORD_MAX as int) * (SCALE as int)),
            bounce <= MAX_BOUNCES,
            0 <= energy <= SCALE,
            alive == bounded(o@, ORIGIN_MAX as int),
            bounded(o@, ORIGIN_OUT_MAX as int),
            bounded(d@, DIR_MAX as int),
            vstd::math::abs(acc@.x) * (SCALE as int) <= (CHANNEL_MAX as int) * ((SCALE as int)
                - energy),
            vstd::math::abs(acc@.y) * (SCALE as int) <= (CHANNEL_MAX as int) * ((SCALE as int)
                - energy),
            vstd::math::abs(acc@.z) * (SCALE as int) <= (CHANNEL_MAX as int) * ((SCALE as int)
                - energy),
            trace_spec(origin@, direction@, SCALE as int, sky_base@, scene@, MAX_BOUNCES as nat)
                == v_add(acc@, trace_spec(o@, d@, energy as int, sky_base@, scene@, (MAX_BOUNCES
                - bounce) as nat)),
        decreases MAX_BOUNCES - bounce,
    {
        let mut best: Option<Hit> = None;
        let mut i: usize = 0;
        while i < scene.len()
            invariant
                scene_wf(scene@),
                i <= scene.len(),
                bounded(o@, ORIGIN_MAX as int),
                bounded(d@, DIR_MAX as int),
                opt_hit_view(best) == nearest_hit_spec(o@, d@, scene@.take(i as int)),
                best matches Some(hb) ==> {
                    &&& bounded(hb.origin@, ORIGIN_OUT_MAX as int)
                    &&& bounded(hb.direction@, DIR_MAX as int)
                    &&& bounded(hb.color@, SCALE as int)
                    &&& 0 <= hb.reflectivity <= SCALE
                },
            decreases scene.len() - i,
        {
            let cand: Option<Hit> = scene[i].is_hit_by_ray(&o, &d);
            if let Some(h) = cand {
                let take_it: bool = match &best {
                    Some(b) => h.distance < b.distance,
                    None => true,
                };
                if take_it {
                    best = Some(h);
                }
            }
            proof {
                let s = scene@;
                assert(s.take(i + 1 as int).drop_last() =~= s.take(i as int));
                assert(s.take(i + 1 as int).last() == s[i as int]);
            }
            i = i + 1;
        }
        proof {
            assert(scene@.take(scene@.len() as int) =~= scene@);
        }
        let step_color: Vec3;
        let step_refl: i64;
        let next_o: Vec3;
        let next_d: Vec3;
        match best {
            Some(h) => {
                step_color = h.color;
                step_refl = h.reflectivity;
                next_o = h.origin;
                next_d = h.direction;
            },
            None => {
                if d.y < 0 {
                    step_color = calculate_ground_color(&o, &d);
                } else {
                    step_color = calculate_sky_color(&d, sky_base);
                }
                step_refl = 0;
                next_o = o;
                next_d = d;
            },
        }
        proof {
            let st = step_spec(o@, d@, sky_base@, scene@);
            assert(st.color == step_color@);
            assert(st.reflectivity == step_refl as int);
            assert(st.next_origin == next_o@);
            assert(st.next_direction == next_d@);
            lemma_energy_step(energy as int, step_refl as int);
        }
        let e2: i64 = fp_mul(energy, step_refl);
        let w: i64 = energy - e2;
        proof {
            lemma_mul_abs_bound(step_color@.x, w as int, CHANNEL_MAX as int, SCALE as int);
            lemma_mul_abs_bound(step_color@.y, w as int, CHANNEL_MAX as int, SCALE as int);
            lemma_mul_abs_bound(step_color@.z, w as int, CHANNEL_MAX as int, SCALE as int);
            lemma_ledger_step(acc@.x, step_color@.x, energy as int, e2 as int);
            lemma_ledger_step(acc@.y, step_color@.y, energy as int, e2 as int);
            lemma_ledger_step(acc@.z, step_color@.z, energy as int, e2 as int);
        }
        let share: Vec3 = step_color.scale(w);
        acc = acc.add(&share);
        energy = e2;
        o = next_o;
        d = next_d;
        alive = vec_in_range(&o);
        bounce = bounce + 1;
    }
    proof {
        assert(trace_spec(o@, d@, energy as int, sky_base@, scene@, (MAX_BOUNCES - bounce) as nat)
            == v3_zero());
    }
    (acc, bounce)
}

/// Background law: a ray that no sphere intersects contributes exactly one
/// background sample.  At or above the horizon that is the sky gradient
/// colour; below the horizon it is the checkerboard ground colour, which is
/// always pure black or pure white.
pub proof fn lemma_background_pixel(o: V3, d: V3, sky_base: V3, scene: Seq<Sphere>)
    requires
        nearest_hit_spec(o, d, scene) is None,
        bounded(o, ORIGIN_MAX as int),
    ensures
        d.y >= 0 ==> trace_spec(o, d, SCALE as int, sky_base, scene, MAX_BOUNCES as nat) == sky_spec(
            d, sky_base),
        d.y < 0 ==> trace_spec(o, d, SCALE as int, sky_base, scene, MAX_BOUNCES as nat)
            == ground_spec(o, d),
{
    let st = step_spec(o, d, sky_base, scene);
    assert(st.reflectivity == 0);
    let e2 = fp_mul_spec(SCALE as int, 0);
    assert((SCALE as int) * 0 == 0);
    assert(e2 == 0);
    crate::fixed::lemma_fp_mul_one(st.color.x);
    crate::fixed::lemma_fp_mul_one(st.color.y);
    crate::fixed::lemma_fp_mul_one(st.color.z);
    assert(v_scale(st.color, (SCALE as int) - e2) == st.color);
    assert(trace_spec(st.next_origin, st.next_direction, 0, sky_base, scene, (MAX_BOUNCES
        - 1) as nat) == v3_zero());
    assert(trace_spec(o, d, SCALE as int, sky_base, scene, MAX_BOUNCES as nat) == v_add(st.color,
        v3_zero()));
    assert(v_add(st.color, v3_zero()) == st.color);
}

/// Single-bounce split law: when the primary ray hits a sphere whose
/// reflected ray then reaches the background, the traced colour is exactly
/// the surface colour weighted by the share of the energy the surface keeps
/// plus the background colour weighted by the share it reflects.
pub proof fn lemma_single_bounce_split(o: V3, d: V3, sky_base: V3, scene: Seq<Sphere>, h: HitS)
    requires
        bounded(o, ORIGIN_MAX as int),
        bounded(h.origin, ORIGIN_MAX as int),
        nearest_hit_spec(o, d, scene) == Some(h),
        nearest_hit_spec(h.origin, h.direction, scene) is None,
        0 <= h.reflectivity <= SCALE as int,
    ensures
        ({
            let e2 = fp_mul_spec(SCALE as int, h.reflectivity);
            let bg = if h.direction.y < 0 {
                ground_spec(h.origin, h.direction)
            } else {
                sky_spec(h.direction, sky_base)
            };
            trace_spec(o, d, SCALE as int, sky_base, scene, MAX_BOUNCES as nat) == v_add(
                v_scale(h.color, (SCALE as int) - e2), v_scale(bg, e2))
        }),
{
    let s = SCALE as int;
    let st = step_spec(o, d, sky_base, scene);
    assert(st.color == h.color);
    assert(st.reflectivity == h.reflectivity);
    assert(st.next_origin == h.origin);
    assert(st.next_direction == h.direction);
    let e2 = fp_mul_spec(s, h.reflectivity);
    lemma_energy_step(s, h.reflectivity);
    let bg = if h.direction.y < 0 {
        ground_spec(h.origin, h.direction)
    } else {
        sky_spec(h.direction, sky_base)
    };
    assert(trace_spec(o, d, s, sky_base, scene, MAX_BOUNCES as nat) == v_add(
        v_scale(h.color, s - e2), trace_spec(h.origin, h.direction, e2, sky_base, scene, (
    MAX_BOUNCES - 1) as nat)));
    if e2 <= 0 {
        assert(trace_spec(h.origin, h.direction, e2, sky_base, scene, (MAX_BOUNCES - 1) as nat)
            == v3_zero());
        assert(e2 == 0);
        assert(bg.x * 0 == 0) by (nonlinear_arith);
        assert(bg.y * 0 == 0) by (nonlinear_arith);
        assert(bg.z * 0 == 0) by (nonlinear_arith);
        assert(v_scale(bg, 0) == v3_zero());
    } else {
        let st2 = step_spec(h.origin, h.direction, sky_base, scene);
        assert(st2.reflectivity == 0);
        assert(st2.color == bg);
        let e3 = fp_mul_spec(e2, 0);
        assert(e2 * 0 == 0) by (nonlinear_arith);
        assert(e3 == 0);
        assert(trace_spec(h.origin, h.direction, e2, sky_base, scene, (MAX_BOUNCES - 1) as nat)
            == v_add(v_scale(bg, e2 - e3), trace_spec(st2.next_origin, st2.next_direction, e3,
            sky_base, scene, (MAX_BOUNCES - 2) as nat)));
        assert(trace_spec(st2.next_origin, st2.next_direction, 0, sky_base, scene, (MAX_BOUNCES
            - 2) as nat) == v3_zero());
        assert(v_add(v_scale(bg, e2), v3_zero()) == v_scale(bg, e2));
    }
}

/// An accumulated channel brought to an eight-bit value: scaled by 255,
/// floored, and clamped into the displayable range.
pub open spec fn channel_spec(c: int) -> u8 {
    if c <= 0 {
        0u8
    } else {
        let t = (c * 255) / (SCALE as int);
        if t >= 255 {
            255u8
        } else {
            t as u8
        }
    }
}

/// Converts an accumulated colour channel to its eight-bit pixel value.
pub fn channel(c: i64) -> (r: u8)
    ensures
        r == channel_spec(c as int),
{
    if c <= 0 {
        0
    } else {
        let t: u128 = ((c as u128) * 255) / 65536;
        if t >= 255 {
            255
        } else {
            t as u8
        }
    }
}

/// The colour of the pixel written at `(wx, wy)`: the trace of the primary
/// ray for the mirrored offsets measured from the image centre.  The sky
/// base colour enters the trace exactly as handed to the renderer.
pub open spec fn pixel_color_spec(w: int, h: int, sky: V3, scene: Seq<Sphere>, cam: Camera, wx: int, wy: int) -> V3 {
    let px = w / 2 - wx;
    let py = h / 2 - wy;
    trace_spec(cam.ray_origin@, camera_ray_spec(cam, px, py), SCALE as int, sky, scene,
        MAX_BOUNCES as nat)
}

/// Byte `i` of the rendered image: four bytes per pixel in row-major order,
/// red, green and blue from the traced colour, and a fully opaque alpha.
pub open spec fn render_byte(w: int, h: int, sky: V3, scene: Seq<Sphere>, cam: Camera, i: int) -> u8 {
    let pi = i / 4;
    let j = i % 4;
    let wy = pi / (w + 1);
    let wx = pi % (w + 1);
    if j == 3 {
        255u8
    } else {
        let c = pixel_color_spec(w, h, sky, scene, cam, wx, wy);
        if j == 0 {
            channel_spec(c.x)
        } else if j == 1 {
            channel_spec(c.y)
        } else {
            channel_spec(c.z)
        }
    }
}

/// The whole rendered image: `(w + 1) * (h + 1)` pixels of four bytes each.
pub open spec fn render_spec(w: int, h: int, sky: V3, scene: Seq<Sphere>, cam: Camera) -> Seq<u8> {
    Seq::new((((w + 1) * (h + 1) * 4)) as nat, |i: int| render_byte(w, h, sky, scene, cam, i))
}

/// How a flat byte index splits into a pixel position and a byte offset.
proof fn lemma_pixel_index(w1: int, wy: int, wx: int, j: int)
    requires
        0 <= j < 4,
        0 <= wx < w1,
        0 <= wy,
    ensures
        ((wy * w1 + wx) * 4 + j) / 4 == wy * w1 + wx,
        ((wy * w1 + wx) * 4 + j) % 4 == j,
        (wy * w1 + wx) / w1 == wy,
        (wy * w1 + wx) % w1 == wx,
{
    let pi = wy * w1 + wx;
    assert(pi >= 0) by (nonlinear_arith)
        requires
            wy >= 0,
            wx >= 0,
            w1 > 0,
            pi == wy * w1 + wx,
    ;
    lemma_fundamental_div_mod_converse(pi * 4 + j, 4, pi, j);
    lemma_fundamental_div_mod_converse(pi, w1, wy, wx);
}

/// Renders the scene into a raw RGBA byte buffer of
/// `(width + 1) * (height + 1)` pixels, row-major, alpha fully opaque.
/// Iteration covers the symmetric pixel range around the image centre, and
/// the write coordinates mirror the offsets on both axes.
pub fn render(width: i32, height: i32, sky_color: Vec3, scene: &Vec<Sphere>, camera: &Camera) -> (r:
    Vec<u8>)
    requires
        0 < width <= DIM_MAX,
        0 < height <= DIM_MAX,
        scene_wf(scene@),
        camera_wf(*camera),
        bounded(sky_color@, COORD_MAX as int),
    ensures
        r@ == render_spec(width as int, height as int, sky_color@, scene@, *camera),
        r@.len() == (width + 1) * (height + 1) * 4,
        forall|k: int| 0 <= k < r@.len() && k % 4 == 3 ==> r@[k] == 255,
{
    let w1: usize = (width as usize) + 1;
    let h1: usize = (height as usize) + 1;
    let hw: i64 = ((width as u64) / 2) as i64;
    let hh: i64 = ((height as u64) / 2) as i64;
    let ghost total: int = (width as int + 1) * (height as int + 1) * 4;
    proof {
        assert(total == (w1 as int) * (h1 as int) * 4) by (nonlinear_arith)
            requires
                w1 == width as int + 1,
                h1 == height as int + 1,
                total == (width as int + 1) * (height as int + 1) * 4,
        ;
    }
    let mut buf: Vec<u8> = Vec::new();
    let mut wy: usize = 0;
    while wy < h1
        invariant
            0 < width <= DIM_MAX,
            0 < height <= DIM_MAX,
            w1 == width as int + 1,
            h1 == height as int + 1,
            hw == (width as int) / 2,
            hh == (height as int) / 2,
            scene_wf(scene@),
            camera_wf(*camera),
            bounded(sky_color@, COORD_MAX as int),
            wy <= h1,
            buf@.len() == (wy as int) * (w1 as int) * 4,
            forall|i: int|
                0 <= i < buf@.len() ==> buf@[i] == render_byte(width as int, height as int,
                    sky_color@, scene@, *camera, i),
        decreases h1 - wy,
    {
        let mut wx: usize = 0;
        proof {
            assert((wy as int) * (w1 as int) * 4 == ((wy as int) * (w1 as int) + 0) * 4)
                by (nonlinear_arith);
        }
        while wx < w1
            invariant
                0 < width <= DIM_MAX,
                0 < height <= DIM_MAX,
                w1 == width as int + 1,
                h1 == height as int + 1,
                hw == (width as int) / 2,
                hh == (height as int) / 2,
                scene_wf(scene@),
                camera_wf(*camera),
                bounded(sky_color@, COORD_MAX as int),
                wy < h1,
                wx <= w1,
                buf@.len() == ((wy as int) * (w1 as int) + (wx as int)) * 4,
                forall|i: int|
                    0 <= i < buf@.len() ==> buf@[i] == render_byte(width as int, height as int,
                        sky_color@, scene@, *camera, i),
            decreases w1 - wx,
        {
            proof {
                assert(((wy as int) * (w1 as int) + (wx as int)) * 4 + 4 <= (h1 as int) * (
                w1 as int) * 4) by (nonlinear_arith)
                    requires
                        0 <= wy < h1 as int,
                        0 <= wx < w1 as int,
                ;
            }
            let px: i64 = hw - (wx as i64);
            let py: i64 = hh - (wy as i64);
            let dir: Vec3 = camera_ray(camera, px, py);
            let (c, _bounces): (Vec3, u32) = trace_pixel(&camera.ray_origin, &dir, &sky_color, scene);
            let ghost base: int = buf@.len() as int;
            buf.push(channel(c.x));
            buf.push(channel(c.y));
            buf.push(channel(c.z));
            buf.push(255);
            proof {
                lemma_pixel_index(w1 as int, wy as int, wx as int, 0);
                lemma_pixel_index(w1 as int, wy as int, wx as int, 1);
                lemma_pixel_index(w1 as int, wy as int, wx as int, 2);
                lemma_pixel_index(w1 as int, wy as int, wx as int, 3);
                assert(c@ == pixel_color_spec(width as int, height as int, sky_color@, scene@,
                    *camera, wx as int, wy as int));
                assert(buf@.len() == ((wy as int) * (w1 as int) + (wx as int + 1)) * 4)
                    by (nonlinear_arith)
                    requires
                        buf@.len() == base + 4,
                        base == ((wy as int) * (w1 as int) + (wx as int)) * 4,
                ;
            }
            wx = wx + 1;
        }
        proof {
            assert(((wy as int) * (w1 as int) + (w1 as int)) * 4 == ((wy as int + 1) * (
            w1 as int)) * 4) by (nonlinear_arith);
        }
        wy = wy + 1;
    }
    proof {
        assert((h1 as int) * (w1 as int) * 4 == total) by (nonlinear_arith)
            requires
                total == (w1 as int) * (h1 as int) * 4,
        ;
        assert(buf@ =~= render_spec(width as int, height as int, sky_color@, scene@, *camera));
    }
    buf
}

/// The fixed two-sphere scene: a slightly reflective orange sphere on the
/// left and a perfect mirror on the right, both of radius one half, resting
/// at unit height.
pub open spec fn scene_spec() -> Seq<Sphere> {
    seq![sphere_left_spec(), sphere_right_spec()]
}

/// The left sphere: mostly matte orange.
pub open spec fn sphere_left_spec() -> Sphere {
    Sphere {
        color: Vec3 { x: 65536, y: 42465, z: 0 },
        position: Vec3 { x: -32768i64, y: 65536, z: 0 },
        reflectivity: 3277,
        radius: 32768,
    }
}

/// The right sphere: a perfect mirror.
pub open spec fn sphere_right_spec() -> Sphere {
    Sphere {
        color: Vec3 { x: 65536, y: 42465, z: 0 },
        position: Vec3 { x: 32768, y: 65536, z: 0 },
        reflectivity: 65536,
        radius: 32768,
    }
}

/// Builds the fixed two-sphere scene.
pub fn scene_spheres() -> (r: Vec<Sphere>)
    ensures
        r@ == scene_spec(),
        scene_wf(r@),
{
    let mut v: Vec<Sphere> = Vec::new();
    v.push(
        Sphere {
            color: Vec3 { x: 65536, y: 42465, z: 0 },
            position: Vec3 { x: -32768i64, y: 65536, z: 0 },
            reflectivity: 3277,
            radius: 32768,
        },
    );
    v.push(
        Sphere {
            color: Vec3 { x: 65536, y: 42465, z: 0 },
            position: Vec3 { x: 32768, y: 65536, z: 0 },
            reflectivity: 65536,
            radius: 32768,
        },
    );
    proof {
        assert(v@ =~= scene_spec());
        assert(sphere_wf(scene_spec()[0]));
        assert(sphere_wf(scene_spec()[1]));
    }
    v
}

/// The fixed camera: a narrow right/up basis, unit forward axis, placed at
/// unit height and four units back from the scene.
pub open spec fn camera_spec() -> Camera {
    Camera {
        x: Vec3 { x: 131, y: 0, z: 0 },
        y: Vec3 { x: 0, y: 131, z: 0 },
        z: Vec3 { x: 0, y: 0, z: 65536 },
        ray_dir: Vec3 { x: 0, y: 0, z: 0 },
        ray_origin: Vec3 { x: 0, y: 65536, z: -262144i64 },
    }
}

/// Builds the fixed camera.
pub fn default_camera() -> (r: Camera)
    ensures
        r == camera_spec(),
        camera_wf(r),
{
    Camera {
        x: Vec3 { x: 131, y: 0, z: 0 },
        y: Vec3 { x: 0, y: 131, z: 0 },
        z: Vec3 { x: 0, y: 0, z: 65536 },
        ray_dir: Vec3 { x: 0, y: 0, z: 0 },
        ray_origin: Vec3 { x: 0, y: 65536, z: -262144i64 },
    }
}

} // verus!
