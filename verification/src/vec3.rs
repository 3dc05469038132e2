//! Three-component vectors over fixed-point scalars.
//!
//! `Vec3` is the executable type; its view is the ghost vector `V3` whose
//! components are unbounded integers, so every contract can state exact
//! component values without worrying about machine width.

use vstd::prelude::*;
use crate::fixed::{
    fp_mul, fp_mul_spec, fp_div, fp_div_spec, fp_sqrt, fp_sqrt_spec, tdiv, SCALE,
    lemma_isqrt_props,
};
use vstd::arithmetic::div_mod::{
    lemma_div_is_ordered, lemma_div_multiples_vanish, lemma_fundamental_div_mod,
    lemma_div_pos_is_pos,
};

verus! {

/// Largest component magnitude the dot product accepts: keeps every
/// intermediate product inside an `i128`.
pub const COORD_MAX: i64 = 274877906944;

/// Bound on the components of a normalized vector of length at least
/// `MIN_LEN`: four times the fixed-point one.
pub const DIR_MAX: i64 = 262144;

/// Smallest length at which normalization is guaranteed to produce a vector
/// with components bounded by `DIR_MAX`.
pub const MIN_LEN: i64 = 256;

/// A quarter of the fixed-point one: the smallest length at which
/// normalization is guaranteed to land within 64 rounding units of unit
/// length (see `lemma_normalize_unit_length`).
pub const NORM_MIN_LEN: i64 = 16384;

/// A vector of three fixed-point scalars.
#[derive(Clone, Copy, PartialEq, Eq, Structural, Debug)]
pub struct Vec3 {
    pub x: i64,
    pub y: i64,
    pub z: i64,
}

/// The mathematical counterpart of `Vec3`: unbounded integer components.
pub ghost struct V3 {
    pub x: int,
    pub y: int,
    pub z: int,
}

impl View for Vec3 {
    type V = V3;

    open spec fn view(&self) -> V3 {
        V3 { x: self.x as int, y: self.y as int, z: self.z as int }
    }
}

/// The zero vector.
pub open spec fn v3_zero() -> V3 {
    V3 { x: 0, y: 0, z: 0 }
}

/// Componentwise sum.
pub open spec fn v_add(a: V3, b: V3) -> V3 {
    V3 { x: a.x + b.x, y: a.y + b.y, z: a.z + b.z }
}

/// Componentwise difference.
pub open spec fn v_sub(a: V3, b: V3) -> V3 {
    V3 { x: a.x - b.x, y: a.y - b.y, z: a.z - b.z }
}

/// Componentwise negation.
pub open spec fn v_neg(a: V3) -> V3 {
    V3 { x: -a.x, y: -a.y, z: -a.z }
}

/// Scaling by a fixed-point scalar.
pub open spec fn v_scale(a: V3, s: int) -> V3 {
    V3 { x: fp_mul_spec(a.x, s), y: fp_mul_spec(a.y, s), z: fp_mul_spec(a.z, s) }
}

/// Fixed-point dot product.
pub open spec fn v_dot(a: V3, b: V3) -> int {
    tdiv(a.x * b.x + a.y * b.y + a.z * b.z, SCALE as int)
}

/// Fixed-point length: the square root of the dot product of a vector with
/// itself.
pub open spec fn length_spec(a: V3) -> int {
    fp_sqrt_spec(v_dot(a, a))
}

/// The vector scaled to length one (undefined direction for the zero
/// vector, which callers must exclude).
pub open spec fn v_normalize(a: V3) -> V3 {
    let l = length_spec(a);
    V3 { x: fp_div_spec(a.x, l), y: fp_div_spec(a.y, l), z: fp_div_spec(a.z, l) }
}

/// All components within `m` in magnitude.
pub open spec fn bounded(a: V3, m: int) -> bool {
    -m <= a.x <= m && -m <= a.y <= m && -m <= a.z <= m
}

/// The product of two bounded factors is bounded by the product of the
/// bounds.
pub proof fn lemma_mul_abs_bound(a: int, b: int, am: int, bm: int)
    requires
        -am <= a <= am,
        -bm <= b <= bm,
    ensures
        -(am * bm) <= a * b <= am * bm,
{
    assert(-(am * bm) <= a * b <= am * bm) by (nonlinear_arith)
        requires
            -am <= a <= am,
            -bm <= b <= bm,
    ;
}

/// A square is never negative.
pub proof fn lemma_square_nonneg(a: int)
    ensures
        a * a >= 0,
{
    assert(a * a >= 0) by (nonlinear_arith);
}

/// The dot product of a vector with itself is never negative.
pub proof fn lemma_dot_self_nonneg(a: V3)
    ensures
        v_dot(a, a) >= 0,
{
    lemma_square_nonneg(a.x);
    lemma_square_nonneg(a.y);
    lemma_square_nonneg(a.z);
    lemma_div_pos_is_pos(a.x * a.x + a.y * a.y + a.z * a.z, SCALE as int);
}

impl Vec3 {
    /// Builds a vector from its three fixed-point components.
    pub fn new(x: i64, y: i64, z: i64) -> (r: Vec3)
        ensures
            r@ == (V3 { x: x as int, y: y as int, z: z as int }),
    {
        Vec3 { x, y, z }
    }

    /// The zero vector.
    pub fn zero() -> (r: Vec3)
        ensures
            r@ == v3_zero(),
    {
        Vec3 { x: 0, y: 0, z: 0 }
    }

    /// Componentwise sum.
    pub fn add(&self, other: &Vec3) -> (r: Vec3)
        requires
            i64::MIN <= self.x + other.x <= i64::MAX,
            i64::MIN <= self.y + other.y <= i64::MAX,
            i64::MIN <= self.z + other.z <= i64::MAX,
        ensures
            r@ == v_add(self@, other@),
    {
        Vec3 { x: self.x + other.x, y: self.y + other.y, z: self.z + other.z }
    }

    /// Componentwise difference.
    pub fn sub(&self, other: &Vec3) -> (r: Vec3)
        requires
            i64::MIN <= self.x - other.x <= i64::MAX,
            i64::MIN <= self.y - other.y <= i64::MAX,
            i64::MIN <= self.z - other.z <= i64::MAX,
        ensures
            r@ == v_sub(self@, other@),
    {
        Vec3 { x: self.x - other.x, y: self.y - other.y, z: self.z - other.z }
    }

    /// Componentwise negation.
    pub fn neg(&self) -> (r: Vec3)
        requires
            self.x != i64::MIN,
            self.y != i64::MIN,
            self.z != i64::MIN,
        ensures
            r@ == v_neg(self@),
    {
        Vec3 { x: -self.x, y: -self.y, z: -self.z }
    }

    /// Scales every component by the fixed-point scalar `s`.
    pub fn scale(&self, s: i64) -> (r: Vec3)
        requires
            -(i64::MAX as int) * (SCALE as int) <= self.x * s <= (i64::MAX as int) * (
            SCALE as int),
            -(i64::MAX as int) * (SCALE as int) <= self.y * s <= (i64::MAX as int) * (
            SCALE as int),
            -(i64::MAX as int) * (SCALE as int) <= self.z * s <= (i64::MAX as int) * (
            SCALE as int),
        ensures
            r@ == v_scale(self@, s as int),
    {
        Vec3 { x: fp_mul(self.x, s), y: fp_mul(self.y, s), z: fp_mul(self.z, s) }
    }

    /// Fixed-point dot product.
    pub fn dot_product(&self, v: &Vec3) -> (r: i64)
        requires
            bounded(self@, COORD_MAX as int),
            bounded(v@, COORD_MAX as int),
        ensures
            r == v_dot(self@, v@),
    {
        proof {
            lemma_mul_abs_bound(self.x as int, v.x as int, COORD_MAX as int, COORD_MAX as int);
            lemma_mul_abs_bound(self.y as int, v.y as int, COORD_MAX as int, COORD_MAX as int);
            lemma_mul_abs_bound(self.z as int, v.z as int, COORD_MAX as int, COORD_MAX as int);
        }
        let px: i128 = (self.x as i128) * (v.x as i128);
        let py: i128 = (self.y as i128) * (v.y as i128);
        let pz: i128 = (self.z as i128) * (v.z as i128);
        let sum: i128 = px + py + pz;
        crate::fixed::div_scale_i128(sum)
    }

    /// Fixed-point length.
    pub fn length(&self) -> (r: i64)
        requires
            bounded(self@, COORD_MAX as int),
        ensures
            r == length_spec(self@),
            r >= 0,
    {
        let d: i64 = self.dot_product(self);
        proof {
            lemma_dot_self_nonneg(self@);
        }
        fp_sqrt(d)
    }

    /// Scales the vector to length one.  The zero vector is excluded by the
    /// precondition; a result component never exceeds the matching input
    /// component magnitude times the scale, and once the length reaches
    /// `MIN_LEN` the result is bounded by `DIR_MAX`.
    pub fn normalize(&self) -> (r: Vec3)
        requires
            bounded(self@, COORD_MAX as int),
            length_spec(self@) >= 1,
        ensures
            r@ == v_normalize(self@),
            bounded(r@, (COORD_MAX as int) * (SCALE as int)),
            length_spec(self@) >= MIN_LEN ==> bounded(r@, DIR_MAX as int),
    {
        let l: i64 = self.length();
        proof {
            if length_spec(self@) >= MIN_LEN {
                lemma_normalized_component_bound(self@);
            }
        }
        Vec3 { x: fp_div(self.x, l), y: fp_div(self.y, l), z: fp_div(self.z, l) }
    }
}

/// When the length is at least `MIN_LEN`, each normalized component is
/// bounded by `DIR_MAX`.
proof fn lemma_normalized_component_bound(a: V3)
    requires
        bounded(a, COORD_MAX as int),
        length_spec(a) >= MIN_LEN,
    ensures
        bounded(v_normalize(a), DIR_MAX as int),
{
    let l = length_spec(a);
    let sum = a.x * a.x + a.y * a.y + a.z * a.z;
    let d = v_dot(a, a);
    lemma_dot_self_nonneg(a);
    lemma_fundamental_div_mod(sum, SCALE as int);
    lemma_square_nonneg(a.x);
    lemma_square_nonneg(a.y);
    lemma_square_nonneg(a.z);
    assert(d * (SCALE as int) > sum - (SCALE as int));
    lemma_isqrt_props((d * (SCALE as int)) as nat);
    assert((l + 1) * (l + 1) > d * (SCALE as int));
    lemma_component_le_three_lengths(a.x, l, sum - a.x * a.x);
    lemma_component_le_three_lengths(a.y, l, sum - a.y * a.y);
    lemma_component_le_three_lengths(a.z, l, sum - a.z * a.z);
    lemma_div_quarter_bound(a.x, l);
    lemma_div_quarter_bound(a.y, l);
    lemma_div_quarter_bound(a.z, l);
}

/// If `(l + 1)^2 + SCALE` exceeds `c^2` and `l` is at least `MIN_LEN`, the
/// component `c` is at most `3 l` in magnitude.
proof fn lemma_component_le_three_lengths(c: int, l: int, rest: int)
    requires
        l >= MIN_LEN,
        rest >= 0,
        (l + 1) * (l + 1) > c * c + rest - (SCALE as int),
    ensures
        -3 * l <= c <= 3 * l,
{
    assert(-3 * l <= c <= 3 * l) by (nonlinear_arith)
        requires
            l >= 256,
            rest >= 0,
            (l + 1) * (l + 1) > c * c + rest - 65536,
    ;
}

/// Dividing a component of magnitude at most `3 l` by the length `l` leaves
/// at most four times the scale.
proof fn lemma_div_quarter_bound(c: int, l: int)
    requires
        l >= MIN_LEN,
        -3 * l <= c <= 3 * l,
    ensures
        -(DIR_MAX as int) <= fp_div_spec(c, l) <= DIR_MAX as int,
{
    let m = vstd::math::abs(c) * (SCALE as int);
    assert(vstd::math::abs(c) <= 3 * l);
    assert(m <= 3 * l * (SCALE as int)) by (nonlinear_arith)
        requires
            vstd::math::abs(c) <= 3 * l,
            m == vstd::math::abs(c) * (SCALE as int),
    ;
    lemma_div_is_ordered(m, 3 * l * (SCALE as int), l);
    lemma_div_multiples_vanish(3 * (SCALE as int), l);
    assert(3 * l * (SCALE as int) == (3 * (SCALE as int)) * l) by (nonlinear_arith);
    assert(m / l <= 3 * (SCALE as int));
    lemma_div_pos_is_pos(m, l);
}

/// The dot product of two bounded vectors stays within three times the
/// product of the bounds, brought down by the scale.
pub proof fn lemma_dot_range(a: V3, b: V3, am: int, bm: int)
    requires
        bounded(a, am),
        bounded(b, bm),
        0 <= am,
        0 <= bm,
    ensures
        -((3 * am * bm) / (SCALE as int)) <= v_dot(a, b) <= (3 * am * bm) / (SCALE as int),
{
    lemma_mul_abs_bound(a.x, b.x, am, bm);
    lemma_mul_abs_bound(a.y, b.y, am, bm);
    lemma_mul_abs_bound(a.z, b.z, am, bm);
    assert(3 * am * bm == am * bm + am * bm + am * bm) by (nonlinear_arith);
    assert(am * bm >= 0) by (nonlinear_arith)
        requires
            0 <= am,
            0 <= bm,
    ;
    crate::fixed::lemma_tdiv_range(a.x * b.x + a.y * b.y + a.z * b.z, 3 * am * bm);
}

/// A fixed-point product of bounded factors is bounded by the product of the
/// bounds, brought down by the scale.
pub proof fn lemma_fp_mul_range(a: int, b: int, am: int, bm: int)
    requires
        -am <= a <= am,
        -bm <= b <= bm,
        0 <= am,
        0 <= bm,
    ensures
        -((am * bm) / (SCALE as int)) <= fp_mul_spec(a, b) <= (am * bm) / (SCALE as int),
{
    lemma_mul_abs_bound(a, b, am, bm);
    crate::fixed::lemma_tdiv_range(a * b, am * bm);
}

/// One normalized component, measured through its non-negative quotient
/// `mq = |x| * SCALE / l`: the squares of the component before and after
/// scaling pin each other down up to one rounding unit of the division.
proof fn lemma_norm_comp(x: int, l: int)
    requires
        l >= NORM_MIN_LEN as int,
        x * x < (l + 3) * (l + 3),
    ensures
        ({
            let q = fp_div_spec(x, l);
            let mq = (vstd::math::abs(x) * (SCALE as int)) / l;
            &&& q * q == mq * mq
            &&& 0 <= mq <= (SCALE as int) + 8
            &&& mq * mq * (l * l) <= (x * x) * ((SCALE as int) * (SCALE as int))
            &&& (x * x) * ((SCALE as int) * (SCALE as int)) < (mq + 1) * (mq + 1) * (l * l)
        }),
{
    let s = SCALE as int;
    let m = vstd::math::abs(x);
    let mq = (m * s) / l;
    assert(m * m == x * x) by (nonlinear_arith)
        requires
            m == vstd::math::abs(x),
    ;
    assert(m <= l + 2) by (nonlinear_arith)
        requires
            m * m < (l + 3) * (l + 3),
            m >= 0,
            l >= 0,
            m * m == x * x,
    ;
    lemma_fundamental_div_mod(m * s, l);
    lemma_div_pos_is_pos(m * s, l);
    assert(mq * l <= m * s < (mq + 1) * l) by (nonlinear_arith)
        requires
            m * s == l * mq + (m * s) % l,
            0 <= (m * s) % l < l,
    ;
    assert(mq <= s + 8) by (nonlinear_arith)
        requires
            mq * l <= m * s,
            m <= l + 2,
            l >= 16384,
            s == 65536,
            mq >= 0,
    ;
    assert(mq * mq * (l * l) <= (m * m) * (s * s)) by (nonlinear_arith)
        requires
            0 <= mq,
            0 <= m,
            0 < l,
            0 < s,
            mq * l <= m * s,
    ;
    assert((m * m) * (s * s) < (mq + 1) * (mq + 1) * (l * l)) by (nonlinear_arith)
        requires
            0 <= m,
            0 < l,
            0 < s,
            m * s < (mq + 1) * l,
    ;
    let q = fp_div_spec(x, l);
    assert(q == mq || q == -mq);
    assert(q * q == mq * mq) by (nonlinear_arith)
        requires
            q == mq || q == -mq,
    ;
}

/// Normalization law: a vector of length at least a quarter comes out of
/// `normalize` with a length within 64 rounding units of the fixed-point
/// one (one part in a thousand).  Shorter vectors lose too much of their
/// dot product to the fixed-point truncation for any such bound to hold.
pub proof fn lemma_normalize_unit_length(a: V3)
    requires
        length_spec(a) >= NORM_MIN_LEN as int,
    ensures
        (SCALE as int) - 64 <= length_spec(v_normalize(a)) <= (SCALE as int) + 64,
{
    let s = SCALE as int;
    let sum = a.x * a.x + a.y * a.y + a.z * a.z;
    let d = v_dot(a, a);
    let l = length_spec(a);
    lemma_square_nonneg(a.x);
    lemma_square_nonneg(a.y);
    lemma_square_nonneg(a.z);
    lemma_dot_self_nonneg(a);
    lemma_fundamental_div_mod(sum, s);
    assert(d * s <= sum < d * s + s);
    lemma_isqrt_props((d * s) as nat);
    assert(l * l <= d * s < (l + 1) * (l + 1));
    assert(l * l <= sum);
    assert(sum < (l + 1) * (l + 1) + s);
    assert(a.x * a.x < (l + 3) * (l + 3) && a.y * a.y < (l + 3) * (l + 3) && a.z * a.z < (l + 3) * (
    l + 3)) by (nonlinear_arith)
        requires
            a.x * a.x + a.y * a.y + a.z * a.z < (l + 1) * (l + 1) + s,
            a.x * a.x >= 0,
            a.y * a.y >= 0,
            a.z * a.z >= 0,
            l >= 16384,
            s == 65536,
    ;
    lemma_norm_comp(a.x, l);
    lemma_norm_comp(a.y, l);
    lemma_norm_comp(a.z, l);
    let n = v_normalize(a);
    let qx = fp_div_spec(a.x, l);
    let qy = fp_div_spec(a.y, l);
    let qz = fp_div_spec(a.z, l);
    let mx = (vstd::math::abs(a.x) * s) / l;
    let my = (vstd::math::abs(a.y) * s) / l;
    let mz = (vstd::math::abs(a.z) * s) / l;
    let sum2 = qx * qx + qy * qy + qz * qz;
    assert(sum2 == mx * mx + my * my + mz * mz);
    assert(sum2 * (l * l) <= sum * (s * s)) by (nonlinear_arith)
        requires
            sum2 == mx * mx + my * my + mz * mz,
            mx * mx * (l * l) <= (a.x * a.x) * (s * s),
            my * my * (l * l) <= (a.y * a.y) * (s * s),
            mz * mz * (l * l) <= (a.z * a.z) * (s * s),
            sum == a.x * a.x + a.y * a.y + a.z * a.z,
    ;
    assert((a.x * a.x) * (s * s) + (a.y * a.y) * (s * s) + (a.z * a.z) * (s * s) == sum * (s * s))
        by (nonlinear_arith)
        requires
            sum == a.x * a.x + a.y * a.y + a.z * a.z,
    ;
    assert((mx + 1) * (mx + 1) * (l * l) + (my + 1) * (my + 1) * (l * l) + (mz + 1) * (mz + 1) * (
    l * l) == ((mx + 1) * (mx + 1) + (my + 1) * (my + 1) + (mz + 1) * (mz + 1)) * (l * l))
        by (nonlinear_arith);
    assert((mx + 1) * (mx + 1) + (my + 1) * (my + 1) + (mz + 1) * (mz + 1) <= sum2 + 6 * s + 51)
        by (nonlinear_arith)
        requires
            sum2 == mx * mx + my * my + mz * mz,
            0 <= mx <= s + 8,
            0 <= my <= s + 8,
            0 <= mz <= s + 8,
    ;
    assert(l * l >= 0) by (nonlinear_arith);
    assert(((mx + 1) * (mx + 1) + (my + 1) * (my + 1) + (mz + 1) * (mz + 1)) * (l * l) <= (sum2 + 6
        * s + 51) * (l * l)) by (nonlinear_arith)
        requires
            (mx + 1) * (mx + 1) + (my + 1) * (my + 1) + (mz + 1) * (mz + 1) <= sum2 + 6 * s + 51,
            l * l >= 0,
    ;
    assert(sum * (s * s) < (sum2 + 6 * s + 51) * (l * l));
    assert(sum2 <= s * s + 64 * s) by (nonlinear_arith)
        requires
            sum2 * (l * l) <= sum * (s * s),
            sum < (l + 1) * (l + 1) + s,
            l >= 16384,
            s == 65536,
    ;
    assert(sum2 > s * s - 6 * s - 51) by (nonlinear_arith)
        requires
            sum * (s * s) < (sum2 + 6 * s + 51) * (l * l),
            l * l <= sum,
            l >= 16384,
            s == 65536,
    ;
    let d2 = v_dot(n, n);
    assert(d2 == tdiv(sum2, s));
    lemma_square_nonneg(qx);
    lemma_square_nonneg(qy);
    lemma_square_nonneg(qz);
    lemma_fundamental_div_mod(sum2, s);
    assert(d2 * s <= sum2 < d2 * s + s);
    lemma_dot_self_nonneg(n);
    lemma_isqrt_props((d2 * s) as nat);
    let l2 = length_spec(n);
    assert(l2 * l2 <= d2 * s < (l2 + 1) * (l2 + 1));
    assert(d2 * s <= s * s + 64 * s);
    assert(d2 * s > s * s - 7 * s - 51);
    crate::fixed::lemma_sqrt_le(l2, s * s + 64 * s, s + 32);
    assert((l2 + 1) * (l2 + 1) > s * s - 7 * s - 51);
    assert(l2 >= s - 64) by (nonlinear_arith)
        requires
            (l2 + 1) * (l2 + 1) > s * s - 7 * s - 51,
            l2 >= 0,
            s == 65536,
    ;
}

/// Vector addition commutes.
pub proof fn lemma_add_commutes(a: V3, b: V3)
    ensures
        v_add(a, b) == v_add(b, a),
{
}

/// A vector plus its negation is the zero vector.
pub proof fn lemma_add_neg_is_zero(a: V3)
    ensures
        v_add(a, v_neg(a)) == v3_zero(),
{
}

/// The squared length and the dot product of a vector with itself agree at
/// the fixed-point scale, up to one rounding unit of the square root.
pub proof fn lemma_dot_is_squared_length(a: V3)
    ensures
        length_spec(a) * length_spec(a) <= v_dot(a, a) * (SCALE as int),
        v_dot(a, a) * (SCALE as int) < (length_spec(a) + 1) * (length_spec(a) + 1),
{
    lemma_dot_self_nonneg(a);
    lemma_isqrt_props((v_dot(a, a) * (SCALE as int)) as nat);
}

} // verus!
