//! Fixed-point scalar arithmetic.
//!
//! The simulation carries lengths, positions, velocities and radii as
//! `i64` counts of milli-units: 1000 fixed-point steps make one world
//! unit. Squared lengths therefore come out in micro-units (the product
//! of two milli values), and `MILLI` converts between the two scales.

use vstd::prelude::*;
use vstd::arithmetic::div_mod::{
    lemma_fundamental_div_mod, lemma_fundamental_div_mod_converse, lemma_div_nonincreasing,
    lemma_div_pos_is_pos, lemma_div_is_ordered,
};

verus! {

/// Fixed-point steps per world unit.
pub const MILLI: i64 = 1000;

/// The larger of two mathematical integers.
pub open spec fn imax(a: int, b: int) -> int {
    if a >= b {
        a
    } else {
        b
    }
}

/// Magnitude of a mathematical integer.
pub open spec fn iabs(a: int) -> int {
    if a >= 0 {
        a
    } else {
        -a
    }
}

/// Truncating division (toward zero), the rounding that the executable
/// scaling helpers below produce. In spec land `/` is Euclidean, so the
/// negative case is written out explicitly.
pub open spec fn div_trunc(a: int, b: int) -> int {
    if a >= 0 {
        a / b
    } else {
        -((-a) / b)
    }
}

/// Flooring division (toward negative infinity) for a positive divisor,
/// which is exactly Euclidean division.
pub open spec fn div_floor(a: int, b: int) -> int {
    a / b
}

/// `r` is the rounded-down square root of `n`.
pub open spec fn is_sqrt_floor(n: int, r: int) -> bool {
    0 <= r && r * r <= n < (r + 1) * (r + 1)
}

/// The rounded-down square root of `n`.
pub open spec fn sqrt_floor(n: int) -> int {
    choose|r: int| is_sqrt_floor(n, r)
}

/// A witness for the rounded-down square root is the only one, so it is
/// the value of `sqrt_floor`.
pub proof fn lemma_sqrt_floor_is(n: int, r: int)
    requires
        is_sqrt_floor(n, r),
    ensures
        sqrt_floor(n) == r,
{
    assert(exists|x: int| is_sqrt_floor(n, x));
    let r2 = sqrt_floor(n);
    assert(is_sqrt_floor(n, r2));
    assert(r == r2) by (nonlinear_arith)
        requires
            is_sqrt_floor(n, r),
            is_sqrt_floor(n, r2),
    ;
}

/// Integer square root: the largest `r` with `r * r <= n`.
pub fn isqrt64(n: u64) -> (r: u64)
    ensures
        r * r <= n,
        n < (r + 1) * (r + 1),
        r <= 0xFFFF_FFFF,
        r == sqrt_floor(n as int),
{
    let mut lo: u64 = 0;
    let mut hi: u64 = 0xFFFF_FFFF;
    while lo < hi
        invariant
            lo <= hi <= 0xFFFF_FFFF,
            lo * lo <= n,
            n < (hi + 1) * (hi + 1),
        decreases hi - lo,
    {
        let mid: u64 = lo + (hi - lo + 1) / 2;
        proof {
            assert(mid * mid <= 0xFFFF_FFFFu64 * 0xFFFF_FFFFu64) by (nonlinear_arith)
                requires
                    mid <= 0xFFFF_FFFFu64,
            ;
        }
        let sq: u64 = mid * mid;
        if sq <= n {
            lo = mid;
        } else {
            hi = mid - 1;
        }
    }
    proof {
        lemma_sqrt_floor_is(n as int, lo as int);
    }
    lo
}

/// Truncating division of `a` by a positive `b`, as the hardware performs it.
pub fn div_trunc_i64(a: i64, b: i64) -> (r: i64)
    requires
        b > 0,
    ensures
        r == div_trunc(a as int, b as int),
{
    proof {
        if a > 0 {
            lemma_div_pos_is_pos(a as int, b as int);
            lemma_div_nonincreasing(a as int, b as int);
        } else if a < 0 {
            lemma_div_pos_is_pos(-(a as int), b as int);
            lemma_div_nonincreasing(-(a as int), b as int);
        }
    }
    let q = a.checked_div(b);
    match q {
        Some(v) => v,
        None => {
            proof {
                assert(false);
            }
            0
        },
    }
}

/// Flooring division of `a` by a positive `b` (rounding toward negative
/// infinity), the rounding the fragment rule calls for.
pub fn div_floor_i64(a: i64, b: i64) -> (r: i64)
    requires
        b > 0,
        a > i64::MIN,
    ensures
        r == div_floor(a as int, b as int),
{
    let q = div_trunc_i64(a, b);
    proof {
        lemma_fundamental_div_mod(iabs(a as int), b as int);
        if a < 0 {
            let m = -(a as int);
            let d = b as int;
            vstd::arithmetic::div_mod::lemma_mod_pos_bound(m, d);
            assert(m == d * (m / d) + m % d);
            assert((-(m / d)) * d == -(d * (m / d))) by (nonlinear_arith);
            assert((-(m / d) - 1) * d == -(d * (m / d)) - d) by (nonlinear_arith);
            if m % d == 0 {
                lemma_fundamental_div_mod_converse(a as int, d, -(m / d), 0);
            } else {
                lemma_fundamental_div_mod_converse(a as int, d, -(m / d) - 1, d - m % d);
            }
        }
        assert(q * b == (q as int) * (b as int));
        assert(iabs((q as int) * (b as int)) <= iabs(a as int)) by (nonlinear_arith)
            requires
                b > 0,
                q == div_trunc(a as int, b as int),
                iabs(a as int) % (b as int) + (b as int) * (iabs(a as int) / (b as int)) == iabs(
                    a as int,
                ),
                0 <= iabs(a as int) % (b as int) < b,
        ;
    }
    let prod: i64 = q * b;
    let rem: i64 = a - prod;
    if rem != 0 && a < 0 {
        q - 1
    } else {
        q
    }
}

/// `div_trunc(a * b, d)` for a positive `d`, with the product taken exactly.
pub fn mul_div_trunc(a: i64, b: i64, d: i64) -> (r: i64)
    requires
        d > 0,
        iabs(a as int) <= 3_000_000_000,
        iabs(b as int) <= 3_000_000_000,
    ensures
        r == div_trunc(a as int * b as int, d as int),
        iabs(r as int) <= iabs(a as int * b as int),
{
    proof {
        assert(-9_000_000_000_000_000_000 <= a as int * b as int <= 9_000_000_000_000_000_000)
            by (nonlinear_arith)
            requires
                iabs(a as int) <= 3_000_000_000,
                iabs(b as int) <= 3_000_000_000,
        ;
    }
    let p: i64 = a * b;
    let r = div_trunc_i64(p, d);
    proof {
        if p >= 0 {
            lemma_div_nonincreasing(p as int, d as int);
            lemma_div_pos_is_pos(p as int, d as int);
        } else {
            lemma_div_nonincreasing(-(p as int), d as int);
            lemma_div_pos_is_pos(-(p as int), d as int);
        }
    }
    r
}

} // verus!
