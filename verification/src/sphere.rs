//! The sphere primitive and the ray/sphere intersection test.
//!
//! A hit reports the reflected ray (new origin on the surface and mirrored
//! direction), the distance along the incoming ray, and the surface colour
//! and reflectivity.  Geometry that the fixed-point arithmetic cannot settle
//! soundly (an origin inside the sphere, a degenerate normal, a hit beyond
//! the supported coordinate range) is reported as a miss, matching the
//! best-effort posture of a renderer that never fails hard.

use vstd::prelude::*;
use crate::fixed::{
    fp_mul, fp_mul_spec, fp_sqrt, fp_sqrt_spec, tdiv, is_isqrt, SCALE, lemma_tdiv_range,
    lemma_sqrt_le,
};
use crate::vec3::{
    Vec3, V3, v_add, v_sub, v_neg, v_scale, v_dot, v_normalize, length_spec, bounded,
    lemma_mul_abs_bound, lemma_square_nonneg, lemma_dot_self_nonneg, lemma_dot_range,
    lemma_fp_mul_range, lemma_normalize_unit_length, COORD_MAX, DIR_MAX, MIN_LEN, NORM_MIN_LEN,
};

verus! {

/// Largest coordinate magnitude at which a ray may start and a sphere may
/// sit.
pub const ORIGIN_MAX: i64 = 17179869184;

/// Largest hit distance the tracer follows; a farther hit is treated as a
/// miss.
pub const HD_MAX: i64 = 34359738368;

/// Hits closer than this (about a thousandth of one) are rejected to avoid
/// a reflected ray immediately intersecting the surface it started on.
pub const EPS_HIT: i64 = 66;

/// A sphere: surface colour, centre position, reflectivity in `[0, SCALE]`
/// and radius.
#[derive(Clone, Copy, PartialEq, Eq, Structural, Debug)]
pub struct Sphere {
    pub color: Vec3,
    pub position: Vec3,
    pub reflectivity: i64,
    pub radius: i64,
}

/// A well-formed sphere: bounded centre, positive bounded radius,
/// reflectivity and colour channels between zero and one.
pub open spec fn sphere_wf(s: Sphere) -> bool {
    &&& bounded(s.position@, ORIGIN_MAX as int)
    &&& 0 < s.radius <= ORIGIN_MAX
    &&& 0 <= s.reflectivity <= SCALE
    &&& 0 <= s.color.x <= SCALE
    &&& 0 <= s.color.y <= SCALE
    &&& 0 <= s.color.z <= SCALE
}

/// The result of a successful ray/sphere intersection.
#[derive(Clone, Copy, PartialEq, Eq, Structural, Debug)]
pub struct Hit {
    pub origin: Vec3,
    pub direction: Vec3,
    pub distance: i64,
    pub color: Vec3,
    pub reflectivity: i64,
}

/// The mathematical counterpart of `Hit`.
pub ghost struct HitS {
    pub origin: V3,
    pub direction: V3,
    pub distance: int,
    pub color: V3,
    pub reflectivity: int,
}

impl View for Hit {
    type V = HitS;

    open spec fn view(&self) -> HitS {
        HitS {
            origin: self.origin@,
            direction: self.direction@,
            distance: self.distance as int,
            color: self.color@,
            reflectivity: self.reflectivity as int,
        }
    }
}

/// The view of an optional hit.
pub open spec fn opt_hit_view(r: Option<Hit>) -> Option<HitS> {
    match r {
        None => None,
        Some(h) => Some(h@),
    }
}

/// What the intersection test returns: the geometric sphere test, carried
/// out in fixed point exactly as the executable code does.
///
/// The criterion is the geometric one — a hit exactly when the projection
/// `b` of the centre offset onto the ray exceeds the tangent threshold and
/// the hit distance is at least `EPS_HIT` — together with four guards the
/// fixed-point arithmetic needs, each of which reports a miss:
/// - `pp < rr`: the ray origin lies inside the sphere, where the tangent
///   threshold would be the root of a negative number (in floating point
///   that root is not a number and every comparison with it fails, which is
///   also a miss);
/// - `pp < bb` or `rr < ss`: truncation pushed a difference that is
///   non-negative over the reals slightly below zero;
/// - `hd > HD_MAX`: the hit lies beyond the supported travel range; the cap
///   keeps the displacement `d * hd` and the surface normal within the
///   component budget of the dot product (`|d| <= DIR_MAX` and
///   `hd <= HD_MAX` give components at most `2^37`);
/// - a degenerate normal (shorter than `MIN_LEN`) or reflected direction
///   (shorter than `NORM_MIN_LEN`), where normalization would divide by
///   nearly nothing.
pub open spec fn hit_spec(s: Sphere, o: V3, d: V3) -> Option<HitS> {
    let p = v_sub(s.position@, o);
    let pp = v_dot(p, p);
    let rr = fp_mul_spec(s.radius as int, s.radius as int);
    if pp < rr {
        None
    } else {
        let threshold = fp_sqrt_spec(pp - rr);
        let b = v_dot(p, d);
        if b > threshold {
            let bb = fp_mul_spec(b, b);
            if pp < bb {
                None
            } else {
                let s2 = fp_sqrt_spec(pp - bb);
                let ss = fp_mul_spec(s2, s2);
                if rr < ss {
                    None
                } else {
                    let t = fp_sqrt_spec(rr - ss);
                    let hd = b - t;
                    if hd < EPS_HIT || hd > HD_MAX {
                        None
                    } else {
                        let dt = v_scale(d, hd);
                        let new_o = v_add(o, dt);
                        let n_raw = v_add(v_neg(p), dt);
                        if length_spec(n_raw) < MIN_LEN {
                            None
                        } else {
                            let n = v_normalize(n_raw);
                            let k = 2 * v_dot(n, v_neg(d));
                            let r_raw = v_add(d, v_scale(n, k));
                            if length_spec(r_raw) < NORM_MIN_LEN {
                                None
                            } else {
                                Some(
                                    HitS {
                                        origin: new_o,
                                        direction: v_normalize(r_raw),
                                        distance: hd,
                                        color: s.color@,
                                        reflectivity: s.reflectivity as int,
                                    },
                                )
                            }
                        }
                    }
                }
            }
        } else {
            None
        }
    }
}

/// Reflection law, at an exactly representable head-on geometry: a ray sent
/// from the origin straight at the centre of a sphere two units away comes
/// back exactly along the negated incoming direction.  (Away from exactly
/// representable configurations the fixed-point square roots round, so the
/// law holds only up to that rounding; this pins down the exact case.)
pub proof fn lemma_head_on_reflection()
    ensures
        ({
            let s = Sphere {
                color: Vec3 { x: 65536, y: 42465, z: 0 },
                position: Vec3 { x: 0, y: 0, z: 131072 },
                reflectivity: 3277,
                radius: 32768,
            };
            let o = V3 { x: 0, y: 0, z: 0 };
            let d = V3 { x: 0, y: 0, z: 65536 };
            hit_spec(s, o, d) matches Some(h) && h.direction == v_neg(d)
        }),
{
    let s = Sphere {
        color: Vec3 { x: 65536, y: 42465, z: 0 },
        position: Vec3 { x: 0, y: 0, z: 131072 },
        reflectivity: 3277,
        radius: 32768,
    };
    let o = V3 { x: 0, y: 0, z: 0 };
    let d = V3 { x: 0, y: 0, z: 65536 };
    assert(131072 * 131072 == 262144 * 65536) by (nonlinear_arith);
    assert(32768 * 32768 == 16384 * 65536) by (nonlinear_arith);
    assert(245760 * 65536 == 16106127360) by (nonlinear_arith);
    assert(126909 * 126909 == 16105894281) by (nonlinear_arith);
    assert(126910 * 126910 == 16106148100) by (nonlinear_arith);
    assert(16384 * 65536 == 1073741824) by (nonlinear_arith);
    assert(32768 * 32768 == 1073741824) by (nonlinear_arith);
    assert(32769 * 32769 == 1073807361) by (nonlinear_arith);
    assert(65536 * 98304 == 98304 * 65536) by (nonlinear_arith);
    assert(32768 * 65536 == 65536 * 32768) by (nonlinear_arith);
    assert(65536 * 65536 == 4294967296) by (nonlinear_arith);
    assert(65537 * 65537 == 4295098369) by (nonlinear_arith);
    assert((-65536) * (-65536) == 65536 * 65536) by (nonlinear_arith);
    assert((-65536) * 131072 == -(131072 * 65536)) by (nonlinear_arith);
    crate::fixed::lemma_exact_div(262144, 65536);
    crate::fixed::lemma_exact_div(16384, 65536);
    crate::fixed::lemma_exact_div(131072, 65536);
    crate::fixed::lemma_exact_div(0, 65536);
    crate::fixed::lemma_exact_div(98304, 65536);
    crate::fixed::lemma_exact_div(65536, 32768);
    crate::fixed::lemma_exact_div(0, 32768);
    crate::fixed::lemma_exact_div(65536, 65536);
    assert(is_isqrt(126909, 16106127360));
    crate::fixed::lemma_isqrt_value(16106127360, 126909);
    assert(0 * 0 == 0) by (nonlinear_arith);
    assert((0int + 1) * (0int + 1) == 1) by (nonlinear_arith);
    assert((-32768) * (-32768) == 32768 * 32768) by (nonlinear_arith);
    assert(is_isqrt(0, 0));
    crate::fixed::lemma_isqrt_value(0, 0);
    assert(is_isqrt(32768, 1073741824));
    crate::fixed::lemma_isqrt_value(1073741824, 32768);
    assert(is_isqrt(65536, 4294967296));
    crate::fixed::lemma_isqrt_value(4294967296, 65536);
    let p = v_sub(s.position@, o);
    assert(p == (V3 { x: 0, y: 0, z: 131072 }));
    assert(v_dot(p, p) == tdiv(131072int * 131072int, 65536int));
    assert(v_dot(p, p) == 262144);
    assert(fp_mul_spec(s.radius as int, s.radius as int) == 16384);
    assert(fp_sqrt_spec(262144 - 16384) == 126909);
    assert(v_dot(p, d) == 131072);
    assert(fp_mul_spec(131072, 131072) == 262144);
    assert(fp_sqrt_spec(0) == 0);
    assert(fp_mul_spec(0, 0) == 0);
    assert(fp_sqrt_spec(16384) == 32768);
    let hd = 131072 - 32768;
    let dt = v_scale(d, hd);
    assert(dt == (V3 { x: 0, y: 0, z: 98304 }));
    let n_raw = v_add(v_neg(p), dt);
    assert(n_raw == (V3 { x: 0, y: 0, z: -32768 }));
    assert(v_dot(n_raw, n_raw) == 16384);
    assert(length_spec(n_raw) == 32768);
    let n = v_normalize(n_raw);
    assert(n == (V3 { x: 0, y: 0, z: -65536 }));
    let k = 2 * v_dot(n, v_neg(d));
    assert(v_dot(n, v_neg(d)) == 65536);
    let nk = v_scale(n, k);
    assert(nk == (V3 { x: 0, y: 0, z: -131072 }));
    let r_raw = v_add(d, nk);
    assert(r_raw == (V3 { x: 0, y: 0, z: -65536 }));
    assert(v_dot(r_raw, r_raw) == 65536);
    assert(length_spec(r_raw) == 65536);
    assert(v_normalize(r_raw) == (V3 { x: 0, y: 0, z: -65536 }));
    assert(v_neg(d) == (V3 { x: 0, y: 0, z: -65536 }));
}

impl Sphere {
    /// Tests whether the incoming ray hits this sphere; on a hit, reports
    /// the reflected outgoing ray, the hit distance, and the surface colour
    /// and reflectivity.  See `hit_spec` for the exact criterion, including
    /// the fixed-point guards.  The outgoing direction is normalized: its
    /// length lands within 64 rounding units of one.
    pub fn is_hit_by_ray(&self, incoming_ray_origin: &Vec3, incoming_ray_direction: &Vec3) -> (r:
        Option<Hit>)
        requires
            sphere_wf(*self),
            bounded(incoming_ray_origin@, ORIGIN_MAX as int),
            bounded(incoming_ray_direction@, DIR_MAX as int),
        ensures
            opt_hit_view(r) == hit_spec(*self, incoming_ray_origin@, incoming_ray_direction@),
            r matches Some(h) ==> {
                &&& bounded(h.origin@, 154618822656)
                &&& bounded(h.direction@, DIR_MAX as int)
                &&& (SCALE as int) - 64 <= length_spec(h.direction@) <= (SCALE as int) + 64
                &&& EPS_HIT <= h.distance <= HD_MAX
                &&& h.color == self.color
                &&& h.reflectivity == self.reflectivity
            },
    {
        let o = *incoming_ray_origin;
        let d = *incoming_ray_direction;
        let p: Vec3 = self.position.sub(&o);
        proof {
            assert(bounded(p@, 34359738368));
            lemma_dot_range(p@, p@, 34359738368, 34359738368);
            lemma_dot_self_nonneg(p@);
            lemma_mul_abs_bound(self.radius as int, self.radius as int, ORIGIN_MAX as int,
                ORIGIN_MAX as int);
            lemma_square_nonneg(self.radius as int);
            lemma_tdiv_range((self.radius as int) * (self.radius as int),
                (ORIGIN_MAX as int) * (ORIGIN_MAX as int));
            vstd::arithmetic::div_mod::lemma_div_pos_is_pos(
                (self.radius as int) * (self.radius as int), SCALE as int);
        }
        let pp: i64 = p.dot_product(&p);
        let rr: i64 = fp_mul(self.radius, self.radius);
        if pp < rr {
            return None;
        }
        let threshold: i64 = fp_sqrt(pp - rr);
        proof {
            lemma_dot_range(p@, d@, 34359738368, DIR_MAX as int);
            lemma_sqrt_le(threshold as int, (pp - rr) * (SCALE as int), 68719476735);
        }
        let b: i64 = p.dot_product(&d);
        if b > threshold {
            proof {
                lemma_mul_abs_bound(b as int, b as int, 412316860416, 412316860416);
                lemma_fp_mul_range(b as int, b as int, 412316860416, 412316860416);
                lemma_square_nonneg(b as int);
                vstd::arithmetic::div_mod::lemma_div_pos_is_pos((b as int) * (b as int),
                    SCALE as int);
            }
            let bb: i64 = fp_mul(b, b);
            if pp < bb {
                return None;
            }
            let s2: i64 = fp_sqrt(pp - bb);
            proof {
                lemma_sqrt_le(s2 as int, (pp - bb) * (SCALE as int), 68719476735);
                lemma_mul_abs_bound(s2 as int, s2 as int, 68719476735, 68719476735);
                lemma_fp_mul_range(s2 as int, s2 as int, 68719476735, 68719476735);
                lemma_square_nonneg(s2 as int);
                vstd::arithmetic::div_mod::lemma_div_pos_is_pos((s2 as int) * (s2 as int),
                    SCALE as int);
            }
            let ss: i64 = fp_mul(s2, s2);
            if rr < ss {
                return None;
            }
            let t: i64 = fp_sqrt(rr - ss);
            proof {
                lemma_sqrt_le(t as int, (rr - ss) * (SCALE as int), ORIGIN_MAX as int);
            }
            let hd: i64 = b - t;
            if hd < EPS_HIT || hd > HD_MAX {
                return None;
            }
            proof {
                lemma_mul_abs_bound(d@.x, hd as int, DIR_MAX as int, HD_MAX as int);
                lemma_mul_abs_bound(d@.y, hd as int, DIR_MAX as int, HD_MAX as int);
                lemma_mul_abs_bound(d@.z, hd as int, DIR_MAX as int, HD_MAX as int);
                lemma_fp_mul_range(d@.x, hd as int, DIR_MAX as int, HD_MAX as int);
                lemma_fp_mul_range(d@.y, hd as int, DIR_MAX as int, HD_MAX as int);
                lemma_fp_mul_range(d@.z, hd as int, DIR_MAX as int, HD_MAX as int);
            }
            let dt: Vec3 = d.scale(hd);
            let new_o: Vec3 = o.add(&dt);
            let n_raw: Vec3 = p.neg().add(&dt);
            let nlen: i64 = n_raw.length();
            if nlen < MIN_LEN {
                return None;
            }
            let n: Vec3 = n_raw.normalize();
            let neg_d: Vec3 = d.neg();
            proof {
                lemma_dot_range(n@, neg_d@, DIR_MAX as int, DIR_MAX as int);
            }
            let k: i64 = 2 * n.dot_product(&neg_d);
            proof {
                lemma_mul_abs_bound(n@.x, k as int, DIR_MAX as int, 6291456);
                lemma_mul_abs_bound(n@.y, k as int, DIR_MAX as int, 6291456);
                lemma_mul_abs_bound(n@.z, k as int, DIR_MAX as int, 6291456);
                lemma_fp_mul_range(n@.x, k as int, DIR_MAX as int, 6291456);
                lemma_fp_mul_range(n@.y, k as int, DIR_MAX as int, 6291456);
                lemma_fp_mul_range(n@.z, k as int, DIR_MAX as int, 6291456);
            }
            let nk: Vec3 = n.scale(k);
            let r_raw: Vec3 = d.add(&nk);
            let rlen: i64 = r_raw.length();
            if rlen < NORM_MIN_LEN {
                return None;
            }
            proof {
                lemma_normalize_unit_length(r_raw@);
            }
            let r_dir: Vec3 = r_raw.normalize();
            Some(
                Hit {
                    origin: new_o,
                    direction: r_dir,
                    distance: hd,
                    color: self.color,
                    reflectivity: self.reflectivity,
                },
            )
        } else {
            None
        }
    }
}

} // verus!
