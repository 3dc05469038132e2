//! Fixed-point scalar arithmetic.
//!
//! A scalar is an `i64` holding a value in units of `1 / SCALE`, so the
//! integer `SCALE` stands for the real number one.  Every operation here has
//! an exact integer contract: multiplication and division truncate toward
//! zero (as hardware signed division does), and the square root is the
//! integer square root of the scaled operand.

use vstd::prelude::*;
use vstd::arithmetic::div_mod::{
    lemma_div_is_ordered, lemma_div_multiples_vanish, lemma_fundamental_div_mod,
};

verus! {

/// The fixed-point scale: this integer represents the real number one.
pub const SCALE: i64 = 65536;

/// Truncating division by a positive divisor: rounds toward zero, as the
/// hardware division instruction does (spec `/` alone is Euclidean).
pub open spec fn tdiv(a: int, b: int) -> int {
    if a >= 0 {
        a / b
    } else {
        -((-a) / b)
    }
}

/// The product of two fixed-point scalars.
pub open spec fn fp_mul_spec(a: int, b: int) -> int {
    tdiv(a * b, SCALE as int)
}

/// The quotient of two fixed-point scalars (truncated toward zero).
pub open spec fn fp_div_spec(a: int, b: int) -> int {
    let q = (vstd::math::abs(a) * (SCALE as int)) / vstd::math::abs(b) as int;
    if (a >= 0) == (b >= 0) {
        q
    } else {
        -q
    }
}

/// Divides an extended intermediate product by the scale, truncating toward
/// zero.  Shared by the multiplication routines.
pub(crate) fn div_scale_i128(p: i128) -> (r: i64)
    requires
        -(i64::MAX as int) * (SCALE as int) <= p <= (i64::MAX as int) * (SCALE as int),
    ensures
        r == tdiv(p as int, SCALE as int),
{
    let neg: bool = p < 0;
    let m: u128 = if neg {
        (-p) as u128
    } else {
        p as u128
    };
    let q: u128 = m / 65536;
    proof {
        assert(m == vstd::math::abs(p as int));
        lemma_div_is_ordered(m as int, (i64::MAX as int) * (SCALE as int), SCALE as int);
        lemma_div_multiples_vanish(i64::MAX as int, SCALE as int);
        assert(q <= i64::MAX);
    }
    let qi: i64 = q as i64;
    if neg {
        -qi
    } else {
        qi
    }
}

/// Fixed-point multiplication: `a * b / SCALE`, truncated toward zero.
pub fn fp_mul(a: i64, b: i64) -> (r: i64)
    requires
        -(i64::MAX as int) * (SCALE as int) <= a * b <= (i64::MAX as int) * (SCALE as int),
    ensures
        r == fp_mul_spec(a as int, b as int),
{
    let p: i128 = (a as i128) * (b as i128);
    div_scale_i128(p)
}

/// Fixed-point division: `a * SCALE / b`, truncated toward zero.
pub fn fp_div(a: i64, b: i64) -> (r: i64)
    requires
        b != 0,
        -0x7fff_ffff_ffff <= a <= 0x7fff_ffff_ffff,
    ensures
        r == fp_div_spec(a as int, b as int),
        -(vstd::math::abs(a as int) * (SCALE as int)) <= r
            <= vstd::math::abs(a as int) * (SCALE as int),
{
    let na: u128 = if a < 0 {
        (-(a as i128)) as u128
    } else {
        a as u128
    };
    let nb: u128 = if b < 0 {
        (-(b as i128)) as u128
    } else {
        b as u128
    };
    let m: u128 = (na * 65536) / nb;
    proof {
        assert(na == vstd::math::abs(a as int));
        assert(nb == vstd::math::abs(b as int));
        assert(nb >= 1);
        vstd::arithmetic::div_mod::lemma_div_nonincreasing(na as int * (SCALE as int), nb as int);
        assert(m <= na * (SCALE as int));
        assert(m <= i64::MAX);
    }
    let mi: i64 = m as i64;
    if (a < 0) != (b < 0) {
        -mi
    } else {
        mi
    }
}

/// Whether `r` is the integer square root of `n`.
pub open spec fn is_isqrt(r: nat, n: nat) -> bool {
    r * r <= n < (r + 1) * (r + 1)
}

/// There is an integer square root below every natural number.
proof fn lemma_isqrt_exists(n: nat)
    ensures
        exists|r: nat| is_isqrt(r, n),
    decreases n,
{
    if n == 0 {
        assert(0nat * 0nat <= n < (0nat + 1) * (0nat + 1)) by (nonlinear_arith)
            requires
                n == 0,
        ;
        assert(is_isqrt(0, n));
    } else {
        lemma_isqrt_exists((n - 1) as nat);
        let p = choose|r: nat| #[trigger] is_isqrt(r, (n - 1) as nat);
        if (p + 1) * (p + 1) <= n {
            assert((p + 1) * (p + 1) <= n < (p + 2) * (p + 2)) by (nonlinear_arith)
                requires
                    p * p <= n - 1 < (p + 1) * (p + 1),
                    (p + 1) * (p + 1) <= n,
            ;
            assert(is_isqrt(p + 1, n));
        } else {
            assert(is_isqrt(p, n));
        }
    }
}

/// The integer square root is unique.
proof fn lemma_isqrt_unique(n: nat, a: nat, b: nat)
    requires
        a * a <= n < (a + 1) * (a + 1),
        b * b <= n < (b + 1) * (b + 1),
    ensures
        a == b,
{
    assert(a == b) by (nonlinear_arith)
        requires
            a * a <= n < (a + 1) * (a + 1),
            b * b <= n < (b + 1) * (b + 1),
    ;
}

/// The integer square root: the greatest `r` with `r * r <= n`.
pub open spec fn isqrt_spec(n: nat) -> nat {
    choose|r: nat| is_isqrt(r, n)
}

/// Pins the integer square root down on a concrete value.
pub proof fn lemma_isqrt_value(n: nat, k: nat)
    requires
        is_isqrt(k, n),
    ensures
        isqrt_spec(n) == k,
{
    lemma_isqrt_exists(n);
    let w = choose|r: nat| is_isqrt(r, n);
    lemma_isqrt_unique(n, w, k);
}

/// An exact multiple divides back to its factor, under both division
/// conventions.
pub proof fn lemma_exact_div(q: int, b: int)
    requires
        b > 0,
        0 <= q,
    ensures
        (q * b) / b == q,
        tdiv(q * b, b) == q,
        tdiv(-(q * b), b) == -q,
{
    lemma_div_multiples_vanish(q, b);
    assert(q * b == b * q) by (nonlinear_arith);
    assert(q * b >= 0) by (nonlinear_arith)
        requires
            q >= 0,
            b > 0,
    ;
}

/// Multiplying by the fixed-point one is the identity.
pub proof fn lemma_fp_mul_one(c: int)
    ensures
        fp_mul_spec(c, SCALE as int) == c,
{
    if c >= 0 {
        lemma_div_multiples_vanish(c, SCALE as int);
        assert(c * (SCALE as int) == (SCALE as int) * c);
    } else {
        lemma_div_multiples_vanish(-c, SCALE as int);
        assert((-c) * (SCALE as int) == (SCALE as int) * (-c)) by (nonlinear_arith);
        assert(-(c * (SCALE as int)) == (-c) * (SCALE as int)) by (nonlinear_arith);
    }
}

/// The defining property of `isqrt_spec`.
pub proof fn lemma_isqrt_props(n: nat)
    ensures
        isqrt_spec(n) * isqrt_spec(n) <= n,
        n < (isqrt_spec(n) + 1) * (isqrt_spec(n) + 1),
{
    lemma_isqrt_exists(n);
}

/// Computes the integer square root by binary search.
pub fn isqrt(n: u128) -> (r: u64)
    requires
        n < 0x4000_0000_0000_0000_0000_0000_0000_0000,
    ensures
        r == isqrt_spec(n as nat),
        (r as int) * (r as int) <= n,
        n < ((r as int) + 1) * ((r as int) + 1),
{
    let mut lo: u64 = 0;
    let mut hi: u64 = 0x7fff_ffff_ffff_ffff;
    proof {
        assert((hi as int + 1) * (hi as int + 1) == 0x4000_0000_0000_0000_0000_0000_0000_0000);
    }
    while lo < hi
        invariant
            lo <= hi,
            hi <= 0x7fff_ffff_ffff_ffff,
            (lo as int) * (lo as int) <= n,
            (n as int) < ((hi as int) + 1) * ((hi as int) + 1),
        decreases hi - lo,
    {
        let mid: u64 = lo + (hi - lo + 1) / 2;
        proof {
            assert((mid as int) * (mid as int) < 0x4000_0000_0000_0000_0000_0000_0000_0000)
                by (nonlinear_arith)
                requires
                    mid <= 0x7fff_ffff_ffff_ffff,
            ;
        }
        let sq: u128 = (mid as u128) * (mid as u128);
        if sq <= n {
            lo = mid;
        } else {
            hi = mid - 1;
        }
    }
    proof {
        lemma_isqrt_exists(n as nat);
        let w = choose|r: nat| is_isqrt(r, n as nat);
        lemma_isqrt_unique(n as nat, lo as nat, w);
        assert(is_isqrt(lo as nat, n as nat));
    }
    lo
}

/// The fixed-point square root of a non-negative scalar: the integer square
/// root of the operand brought up to the square of the scale.
pub open spec fn fp_sqrt_spec(a: int) -> int {
    if a < 0 {
        0
    } else {
        isqrt_spec((a * (SCALE as int)) as nat) as int
    }
}

/// Fixed-point square root.
pub fn fp_sqrt(a: i64) -> (r: i64)
    requires
        0 <= a,
    ensures
        r == fp_sqrt_spec(a as int),
        0 <= r,
        (r as int) * (r as int) <= a * (SCALE as int),
        a * (SCALE as int) < ((r as int) + 1) * ((r as int) + 1),
{
    let n: u128 = (a as u128) * 65536;
    let r: u64 = isqrt(n);
    proof {
        assert((r as int) * (r as int) <= n < 0x8000_0000_0000_0000 * 0x8000_0000_0000_0000);
        assert(r < 0x8000_0000_0000_0000) by (nonlinear_arith)
            requires
                (r as int) * (r as int) < 0x8000_0000_0000_0000 * 0x8000_0000_0000_0000,
        ;
    }
    r as i64
}

/// Truncating division by the scale keeps the magnitude below the divided
/// bound.
pub proof fn lemma_tdiv_range(x: int, m: int)
    requires
        -m <= x <= m,
        0 <= m,
    ensures
        -(m / (SCALE as int)) <= tdiv(x, SCALE as int) <= m / (SCALE as int),
{
    if x >= 0 {
        lemma_div_is_ordered(x, m, SCALE as int);
        vstd::arithmetic::div_mod::lemma_div_pos_is_pos(x, SCALE as int);
    } else {
        lemma_div_is_ordered(-x, m, SCALE as int);
        vstd::arithmetic::div_mod::lemma_div_pos_is_pos(-x, SCALE as int);
    }
}

/// Scaling the truncated quotient back up never exceeds the dividend in
/// magnitude.
pub proof fn lemma_tdiv_abs_mul(x: int)
    ensures
        vstd::math::abs(tdiv(x, SCALE as int)) * (SCALE as int) <= vstd::math::abs(x),
{
    if x >= 0 {
        lemma_fundamental_div_mod(x, SCALE as int);
        vstd::arithmetic::div_mod::lemma_div_pos_is_pos(x, SCALE as int);
    } else {
        lemma_fundamental_div_mod(-x, SCALE as int);
        vstd::arithmetic::div_mod::lemma_div_pos_is_pos(-x, SCALE as int);
    }
}

/// One attenuation step: multiplying an energy in `[0, SCALE]` by a
/// reflectivity in `[0, SCALE]` cannot grow it or make it negative.
pub proof fn lemma_energy_step(e: int, r: int)
    requires
        0 <= e <= SCALE,
        0 <= r <= SCALE,
    ensures
        0 <= fp_mul_spec(e, r) <= e,
{
    assert(0 <= e * r <= e * (SCALE as int)) by (nonlinear_arith)
        requires
            0 <= e,
            0 <= r <= SCALE,
    ;
    vstd::arithmetic::div_mod::lemma_div_pos_is_pos(e * r, SCALE as int);
    lemma_div_is_ordered(e * r, e * (SCALE as int), SCALE as int);
    lemma_div_multiples_vanish(e, SCALE as int);
    assert(e * (SCALE as int) == (SCALE as int) * e);
}

/// A non-negative number whose square stays under `(k + 1)^2` is at most `k`.
pub proof fn lemma_sqrt_le(r: int, m: int, k: int)
    requires
        0 <= r,
        r * r <= m,
        0 <= k,
        m < (k + 1) * (k + 1),
    ensures
        r <= k,
{
    assert(r <= k) by (nonlinear_arith)
        requires
            0 <= r,
            r * r <= m,
            0 <= k,
            m < (k + 1) * (k + 1),
    ;
}

/// Floor of a fixed-point scalar as a plain integer (rounds toward negative
/// infinity, as the real floor does).
pub open spec fn fp_floor_spec(a: int) -> int {
    a / (SCALE as int)
}

/// Floor of a fixed-point scalar.
pub fn fp_floor(a: i64) -> (r: i64)
    ensures
        r == fp_floor_spec(a as int),
{
    if a >= 0 {
        let q: u64 = (a as u64) / 65536;
        q as i64
    } else {
        let m: u128 = (-(a as i128)) as u128;
        let q: u128 = m / 65536;
        let rem: u128 = m % 65536;
        proof {
            assert(m == -(a as int));
            vstd::arithmetic::div_mod::lemma_fundamental_div_mod(m as int, SCALE as int);
            vstd::arithmetic::div_mod::lemma_fundamental_div_mod_converse(
                a as int,
                SCALE as int,
                if rem == 0 {
                    -(q as int)
                } else {
                    -(q as int) - 1
                },
                if rem == 0 {
                    0
                } else {
                    (SCALE as int) - rem
                },
            );
        }
        if rem == 0 {
            -(q as i64)
        } else {
            -(q as i64) - 1
        }
    }
}

/// Whether the floors of two fixed-point scalars have equal parity of their
/// absolute values (the checkerboard predicate).
pub open spec fn same_parity_spec(a: int, b: int) -> bool {
    vstd::math::abs(fp_floor_spec(a)) % 2 == vstd::math::abs(fp_floor_spec(b)) % 2
}

/// Decides the checkerboard parity predicate for two fixed-point scalars.
pub fn same_parity(a: i64, b: i64) -> (r: bool)
    requires
        -0x7fff_ffff_ffff_ffff <= a,
        -0x7fff_ffff_ffff_ffff <= b,
    ensures
        r == same_parity_spec(a as int, b as int),
{
    let fa: i64 = fp_floor(a);
    let fb: i64 = fp_floor(b);
    proof {
        lemma_div_is_ordered(-0x7fff_ffff_ffff_ffff, a as int, SCALE as int);
        lemma_div_is_ordered(-0x7fff_ffff_ffff_ffff, b as int, SCALE as int);
        lemma_div_is_ordered(a as int, 0x7fff_ffff_ffff_ffff, SCALE as int);
        lemma_div_is_ordered(b as int, 0x7fff_ffff_ffff_ffff, SCALE as int);
    }
    let ma: u64 = if fa < 0 {
        (-fa) as u64
    } else {
        fa as u64
    };
    let mb: u64 = if fb < 0 {
        (-fb) as u64
    } else {
        fb as u64
    };
    ma % 2 == mb % 2
}

} // verus!
