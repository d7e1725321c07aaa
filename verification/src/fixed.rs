//! Q47.16 fixed-point scalars: every quantity of the renderer is an
//! `i64` holding `65536` times its real value.  The spec functions here
//! give each operation its exact integer meaning, and the executable
//! functions are proved to match them.

use vstd::prelude::*;
use vstd::arithmetic::div_mod::{
    lemma_div_is_ordered, lemma_div_nonincreasing, lemma_div_pos_is_pos,
    lemma_fundamental_div_mod_converse,
};

verus! {

/// One whole unit: the fixed-point representation of 1.0.
pub const SCALE: i64 = 65536;

/// The representation of 0.5, used to round to the nearest value.
pub const HALF_SCALE: i64 = 32768;

/// Every point and direction the renderer works with keeps each
/// component within this bound (1024 whole units either way); staying
/// inside it is what makes the intersection arithmetic overflow-free.
pub const WORLD_BOUND: i64 = 67108864;

/// Truncating division for a positive divisor: the quotient of the
/// exact division rounded toward zero.
pub open spec fn tdiv(n: int, d: int) -> int
    recommends
        d > 0,
{
    if n >= 0 {
        n / d
    } else {
        -((-n) / d)
    }
}

/// Truncating division for any nonzero divisor.
pub open spec fn tdiv_any(n: int, d: int) -> int
    recommends
        d != 0,
{
    if d > 0 {
        tdiv(n, d)
    } else {
        tdiv(-n, -d)
    }
}

/// The fixed-point product: the exact product scaled back down,
/// rounded toward zero.
pub open spec fn fx_mul_s(a: int, b: int) -> int {
    tdiv(a * b, SCALE as int)
}

/// The fixed-point quotient: the dividend scaled up, then divided,
/// rounded toward zero.
pub open spec fn fx_div_s(a: int, b: int) -> int {
    tdiv_any(a * (SCALE as int), b)
}

/// Clamping into a symmetric interval.
pub open spec fn clamp_s(v: int, bound: int) -> int {
    if v < -bound {
        -bound
    } else if v > bound {
        bound
    } else {
        v
    }
}

/// `r` is the integer square root of `n`, rounded down.
pub open spec fn is_sqrt_floor(n: int, r: int) -> bool {
    0 <= r && r * r <= n < (r + 1) * (r + 1)
}

/// The integer square root of `n`, rounded down (meaningful for
/// `n >= 0`; see `lemma_sqrt_floor_exists`).
pub open spec fn sqrt_floor(n: int) -> int {
    choose|r: int| is_sqrt_floor(n, r)
}

/// The square root of a fixed-point number: `sqrt(a / S) == sqrt(a * S) / S`,
/// so the result is the integer square root of `a * SCALE`.
pub open spec fn fx_sqrt_s(a: int) -> int {
    sqrt_floor(a * (SCALE as int))
}

/// A bound on both factors bounds their product.
pub proof fn lemma_mul_bounds(a: int, b: int, m1: int, m2: int)
    requires
        0 <= m1,
        0 <= m2,
        -m1 <= a <= m1,
        -m2 <= b <= m2,
    ensures
        -(m1 * m2) <= a * b <= m1 * m2,
{
    assert(-(m1 * m2) <= a * b <= m1 * m2) by (nonlinear_arith)
        requires
            0 <= m1,
            0 <= m2,
            -m1 <= a <= m1,
            -m2 <= b <= m2,
    ;
}

/// A bound on the dividend bounds the truncated quotient.
pub proof fn lemma_tdiv_bound(n: int, d: int, m: int)
    requires
        d > 0,
        0 <= m,
        -m <= n <= m,
    ensures
        -(m / d) <= tdiv(n, d) <= m / d,
        0 <= m / d,
{
    lemma_div_pos_is_pos(m, d);
    if n >= 0 {
        lemma_div_is_ordered(n, m, d);
        lemma_div_pos_is_pos(n, d);
    } else {
        lemma_div_is_ordered(-n, m, d);
        lemma_div_pos_is_pos(-n, d);
    }
}

/// Bounds on the factors bound the fixed-point product.
pub proof fn lemma_fx_mul_bound(a: int, b: int, m1: int, m2: int)
    requires
        0 <= m1,
        0 <= m2,
        -m1 <= a <= m1,
        -m2 <= b <= m2,
    ensures
        -((m1 * m2) / (SCALE as int)) <= fx_mul_s(a, b) <= (m1 * m2) / (SCALE as int),
        0 <= (m1 * m2) / (SCALE as int),
{
    lemma_mul_bounds(a, b, m1, m2);
    lemma_tdiv_bound(a * b, SCALE as int, m1 * m2);
}

/// A bound on the dividend bounds the fixed-point quotient, whatever
/// the (nonzero) divisor.
pub proof fn lemma_fx_div_bound(a: int, b: int, m: int)
    requires
        b != 0,
        0 <= m,
        -m <= a <= m,
    ensures
        -(m * (SCALE as int)) <= fx_div_s(a, b) <= m * (SCALE as int),
{
    let s = SCALE as int;
    lemma_mul_bounds(a, s, m, s);
    if b > 0 {
        lemma_tdiv_bound(a * s, b, m * s);
        lemma_div_nonincreasing(m * s, b);
    } else {
        lemma_tdiv_bound(-(a * s), -b, m * s);
        lemma_div_nonincreasing(m * s, -b);
    }
}

/// Pins a truncating division from a witness decomposition of the
/// dividend's magnitude.
pub proof fn lemma_tdiv_exact(n: int, d: int, q: int, r: int)
    requires
        d > 0,
        0 <= r < d,
        0 <= q,
        if n >= 0 {
            n == q * d + r
        } else {
            -n == q * d + r
        },
    ensures
        tdiv(n, d) == if n >= 0 {
            q
        } else {
            -q
        },
{
    if n >= 0 {
        lemma_fundamental_div_mod_converse(n, d, q, r);
    } else {
        lemma_fundamental_div_mod_converse(-n, d, q, r);
    }
}

/// A fixed-point square is never negative.
pub proof fn lemma_fx_square_nonneg(a: int)
    ensures
        0 <= fx_mul_s(a, a),
{
    assert(0 <= a * a) by (nonlinear_arith);
    lemma_div_pos_is_pos(a * a, SCALE as int);
}

/// Truncating division of an `i128` by a positive divisor.
pub(crate) fn tdiv128(n: i128, d: i128) -> (r: i128)
    requires
        d > 0,
    ensures
        r as int == tdiv(n as int, d as int),
{
    let q: Option<i128> = n.checked_div(d);
    proof {
        if n == 0 {
            assert(tdiv(0int, d as int) == 0int / (d as int));
            assert(0int / (d as int) == 0) by (nonlinear_arith)
                requires
                    d > 0,
            ;
        }
        if n < 0 {
            assert((n as int) * -1 == -(n as int));
        }
        lemma_tdiv_bound(n as int, d as int, if n >= 0 { n as int } else { -(n as int) });
        lemma_div_nonincreasing(if n >= 0 { n as int } else { -(n as int) }, d as int);
    }
    q.unwrap()
}

/// The fixed-point product of `a` and `b`; the caller guarantees the
/// result fits.
pub fn fx_mul(a: i64, b: i64) -> (r: i64)
    requires
        i64::MIN <= fx_mul_s(a as int, b as int) <= i64::MAX,
    ensures
        r as int == fx_mul_s(a as int, b as int),
{
    proof {
        lemma_mul_bounds(a as int, b as int, 0x8000_0000_0000_0000, 0x8000_0000_0000_0000);
    }
    let p: i128 = (a as i128) * (b as i128);
    let q: i128 = tdiv128(p, SCALE as i128);
    q as i64
}

/// The fixed-point quotient of `a` by `b`; the caller guarantees `b`
/// is nonzero and the result fits.
pub fn fx_div(a: i64, b: i64) -> (r: i64)
    requires
        b != 0,
        i64::MIN <= fx_div_s(a as int, b as int) <= i64::MAX,
    ensures
        r as int == fx_div_s(a as int, b as int),
{
    proof {
        lemma_mul_bounds(a as int, SCALE as int, 0x8000_0000_0000_0000, SCALE as int);
    }
    let n: i128 = (a as i128) * (SCALE as i128);
    let q: i128 = if b > 0 {
        tdiv128(n, b as i128)
    } else {
        tdiv128(-n, -(b as i128))
    };
    q as i64
}

/// Truncating division of a fixed-point number by a small positive
/// integer (an exact divisor, not a fixed-point one).
pub fn fx_divi(a: i64, d: i64) -> (r: i64)
    requires
        d > 0,
    ensures
        r as int == tdiv(a as int, d as int),
{
    proof {
        lemma_tdiv_bound(a as int, d as int, if a >= 0 { a as int } else { -(a as int) });
        lemma_div_nonincreasing(if a >= 0 { a as int } else { -(a as int) }, d as int);
    }
    let q: i128 = tdiv128(a as i128, d as i128);
    q as i64
}

/// Clamps `v` into `[-bound, bound]`.
pub fn clamp_fx(v: i64, bound: i64) -> (r: i64)
    requires
        0 <= bound,
    ensures
        r as int == clamp_s(v as int, bound as int),
        -bound <= r <= bound,
{
    if v < -bound {
        -bound
    } else if v > bound {
        bound
    } else {
        v
    }
}

/// Square roots rounded down are unique.
pub proof fn lemma_sqrt_floor_unique(n: int, r1: int, r2: int)
    requires
        is_sqrt_floor(n, r1),
        is_sqrt_floor(n, r2),
    ensures
        r1 == r2,
{
    assert(r1 == r2) by (nonlinear_arith)
        requires
            0 <= r1 && r1 * r1 <= n < (r1 + 1) * (r1 + 1),
            0 <= r2 && r2 * r2 <= n < (r2 + 1) * (r2 + 1),
    ;
}

/// Every nonnegative integer has a square root rounded down, and
/// `sqrt_floor` denotes it.
pub proof fn lemma_sqrt_floor_exists(n: int)
    requires
        0 <= n,
    ensures
        is_sqrt_floor(n, sqrt_floor(n)),
    decreases n,
{
    if n == 0 {
        assert(is_sqrt_floor(0, 0)) by (nonlinear_arith);
    } else {
        lemma_sqrt_floor_exists(n - 1);
        let r = sqrt_floor(n - 1);
        if n < (r + 1) * (r + 1) {
            assert(is_sqrt_floor(n, r));
        } else {
            assert(is_sqrt_floor(n, r + 1)) by (nonlinear_arith)
                requires
                    0 <= r && r * r <= n - 1 < (r + 1) * (r + 1),
                    n >= (r + 1) * (r + 1),
            ;
        }
    }
}

/// The integer square root of `a * SCALE`, rounding down: the
/// fixed-point square root of `a`.
pub fn fx_sqrt(a: i64) -> (r: i64)
    requires
        0 <= a,
    ensures
        r as int == fx_sqrt_s(a as int),
        0 <= r,
        is_sqrt_floor(a as int * SCALE as int, r as int),
{
    proof {
        lemma_mul_bounds(a as int, SCALE as int, 0x7fff_ffff_ffff_ffff, SCALE as int);
    }
    let n: u128 = (a as u128) * (SCALE as u128);
    let mut lo: u128 = 0;
    let mut hi: u128 = 18446744073709551616;
    proof {
        assert((n as int) < (hi as int) * (hi as int)) by (nonlinear_arith)
            requires
                n as int <= 0x7fff_ffff_ffff_ffffi64 as int * (SCALE as int),
                hi == 18446744073709551616u128,
        ;
    }
    while hi - lo > 1
        invariant
            lo < hi,
            hi <= 18446744073709551616,
            (lo as int) * (lo as int) <= n as int,
            (n as int) < (hi as int) * (hi as int),
        decreases hi - lo,
    {
        let mid: u128 = lo + (hi - lo) / 2;
        proof {
            assert((mid as int) * (mid as int) < 0x1_0000_0000_0000_0000_0000_0000_0000_0000)
                by (nonlinear_arith)
                requires
                    mid as int <= 18446744073709551615int,
            ;
        }
        if mid * mid <= n {
            lo = mid;
        } else {
            hi = mid;
        }
    }
    proof {
        assert(is_sqrt_floor(n as int, lo as int));
        lemma_sqrt_floor_exists(n as int);
        lemma_sqrt_floor_unique(n as int, lo as int, sqrt_floor(n as int));
        assert((lo as int) < 1099511627776int) by (nonlinear_arith)
            requires
                0 <= lo as int,
                (lo as int) * (lo as int) <= n as int,
                n as int <= 0x7fff_ffff_ffff_ffffi64 as int * (SCALE as int),
        ;
    }
    lo as i64
}

/// Rounds a linear color component in `[0, 1]` (fixed point) to an
/// 8-bit channel: the nearest of 0..=255, clamped.
pub open spec fn byte_of_s(c: int) -> int {
    if c <= 0 {
        0
    } else if (c * 255 + HALF_SCALE as int) / (SCALE as int) >= 255 {
        255
    } else {
        (c * 255 + HALF_SCALE as int) / (SCALE as int)
    }
}

/// Converts a fixed-point color component to a byte, rounding to
/// nearest and clamping into `[0, 255]`.
pub fn color_byte(c: i64) -> (r: u8)
    ensures
        r as int == byte_of_s(c as int),
{
    if c <= 0 {
        0
    } else {
        let n: u128 = (c as u128) * 255 + (HALF_SCALE as u128);
        let q: u128 = n / (SCALE as u128);
        proof {
            lemma_div_pos_is_pos(n as int, SCALE as int);
        }
        if q >= 255 {
            255
        } else {
            q as u8
        }
    }
}

} // verus!
