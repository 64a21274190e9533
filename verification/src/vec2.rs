//! Fixed-point 2D vectors.
//!
//! Components are `i64` milli-units (see `fixed`). Squared norms are
//! exact; direction vectors are scaled so that a unit vector has norm
//! close to `MILLI`, with truncating division stated exactly in the
//! specs.

use vstd::prelude::*;
use crate::fixed::{
    div_trunc, iabs, is_sqrt_floor, isqrt64, lemma_sqrt_floor_is, mul_div_trunc, sqrt_floor, MILLI,
};
use vstd::arithmetic::div_mod::{
    lemma_div_is_ordered, lemma_div_multiples_vanish, lemma_div_pos_is_pos,
};

verus! {

/// Largest magnitude a component may have when a squared norm is taken:
/// two such squares still fit in a `u64`.
pub const COORD_LIMIT: i64 = 2_200_000_000;

#[derive(Clone, Copy, PartialEq, Eq, Structural, Debug)]
pub struct Vec2i {
    pub x: i64,
    pub y: i64,
}

/// Squared norm, exact.
pub open spec fn norm_sq_of(v: Vec2i) -> int {
    v.x * v.x + v.y * v.y
}

/// The rounded-up square root: exact on a perfect square. Scaling a
/// vector down by it never lets the result overshoot, so a fixed-point
/// unit vector keeps its norm within `MILLI` exactly.
pub open spec fn sqrt_ceil(n: int) -> int {
    let r = sqrt_floor(n);
    if r * r == n {
        r
    } else {
        r + 1
    }
}

/// Direction of `v`, scaled by `MILLI`, or zero for the zero vector:
/// the fixed-point unit vector. Its norm never exceeds `MILLI`.
#[verifier::opaque]
pub open spec fn unit_of(v: Vec2i) -> Vec2i {
    if norm_sq_of(v) == 0 {
        Vec2i { x: 0, y: 0 }
    } else {
        let n = sqrt_ceil(norm_sq_of(v));
        Vec2i {
            x: div_trunc(v.x * MILLI, n) as i64,
            y: div_trunc(v.y * MILLI, n) as i64,
        }
    }
}

/// `v` unchanged while its norm is within `max`, otherwise `v` rescaled
/// onto (just inside) the disc of radius `max`.
#[verifier::opaque]
pub open spec fn clamp_len_of(v: Vec2i, max: int) -> Vec2i {
    if norm_sq_of(v) <= max * max {
        v
    } else {
        let n = sqrt_ceil(norm_sq_of(v));
        Vec2i {
            x: div_trunc(v.x * max, n) as i64,
            y: div_trunc(v.y * max, n) as i64,
        }
    }
}

/// Truncating division shrinks a product back under its bound: if
/// `|p| <= n * c` then `|p / n| <= c`.
pub proof fn lemma_div_trunc_bound(p: int, n: int, c: int)
    requires
        n > 0,
        c >= 0,
        iabs(p) <= n * c,
    ensures
        iabs(div_trunc(p, n)) <= c,
{
    lemma_div_multiples_vanish(c, n);
    if p >= 0 {
        lemma_div_is_ordered(p, n * c, n);
        lemma_div_pos_is_pos(p, n);
    } else {
        lemma_div_is_ordered(-p, n * c, n);
        lemma_div_pos_is_pos(-p, n);
    }
}

/// No component of a vector exceeds the rounded-up norm.
pub proof fn lemma_comp_le_sqrt(v: Vec2i, n: int)
    requires
        is_sqrt_floor(norm_sq_of(v), n),
    ensures
        iabs(v.x as int) <= n,
        iabs(v.y as int) <= n,
        norm_sq_of(v) <= sqrt_ceil(norm_sq_of(v)) * sqrt_ceil(norm_sq_of(v)),
        n <= sqrt_ceil(norm_sq_of(v)) <= n + 1,
{
    lemma_sqrt_floor_is(norm_sq_of(v), n);
    assert(iabs(v.x as int) <= n && iabs(v.y as int) <= n) by (nonlinear_arith)
        requires
            is_sqrt_floor(norm_sq_of(v), n),
            norm_sq_of(v) == v.x * v.x + v.y * v.y,
    ;
}

/// Exact squared norm.
pub fn norm_sq(v: Vec2i) -> (r: u64)
    requires
        iabs(v.x as int) <= COORD_LIMIT,
        iabs(v.y as int) <= COORD_LIMIT,
    ensures
        r == norm_sq_of(v),
{
    proof {
        assert(0 <= v.x * v.x <= 4_840_000_000_000_000_000 && 0 <= v.y * v.y
            <= 4_840_000_000_000_000_000) by (nonlinear_arith)
            requires
                iabs(v.x as int) <= COORD_LIMIT,
                iabs(v.y as int) <= COORD_LIMIT,
                COORD_LIMIT == 2_200_000_000,
        ;
    }
    let xx: i64 = v.x * v.x;
    let yy: i64 = v.y * v.y;
    (xx as u64) + (yy as u64)
}

/// The fixed-point unit vector in the direction of `v`, or zero when
/// `v` is zero.
pub fn unit_dir(v: Vec2i) -> (r: Vec2i)
    requires
        iabs(v.x as int) <= COORD_LIMIT,
        iabs(v.y as int) <= COORD_LIMIT,
    ensures
        r == unit_of(v),
        iabs(r.x as int) <= MILLI,
        iabs(r.y as int) <= MILLI,
{
    proof {
        reveal(unit_of);
    }
    let n2 = norm_sq(v);
    if n2 == 0 {
        Vec2i { x: 0, y: 0 }
    } else {
        let nf = isqrt64(n2);
        let nc: u64 = if nf * nf == n2 {
            nf
        } else {
            nf + 1
        };
        let ni: i64 = nc as i64;
        proof {
            lemma_comp_le_sqrt(v, nf as int);
            assert(ni == sqrt_ceil(norm_sq_of(v)));
            assert(iabs(v.x * MILLI) <= ni * MILLI && iabs(v.y * MILLI) <= ni * MILLI)
                by (nonlinear_arith)
                requires
                    iabs(v.x as int) <= ni as int,
                    iabs(v.y as int) <= ni as int,
                    ni > 0,
                    MILLI == 1000,
            ;
            lemma_div_trunc_bound(v.x * MILLI, ni as int, MILLI as int);
            lemma_div_trunc_bound(v.y * MILLI, ni as int, MILLI as int);
        }
        Vec2i { x: mul_div_trunc(v.x, MILLI, ni), y: mul_div_trunc(v.y, MILLI, ni) }
    }
}

/// `v` clamped to norm at most `max`, exactly as `clamp_len_of` states.
pub fn clamp_len(v: Vec2i, max: i64) -> (r: Vec2i)
    requires
        iabs(v.x as int) <= COORD_LIMIT,
        iabs(v.y as int) <= COORD_LIMIT,
        0 <= max <= 100_000_000,
    ensures
        r == clamp_len_of(v, max as int),
        iabs(r.x as int) <= max,
        iabs(r.y as int) <= max,
{
    proof {
        reveal(clamp_len_of);
    }
    let n2 = norm_sq(v);
    proof {
        assert((max as u64) * (max as u64) == max * max && max * max
            <= 10_000_000_000_000_000) by (nonlinear_arith)
            requires
                0 <= max <= 100_000_000,
        ;
    }
    let m2: u64 = (max as u64) * (max as u64);
    if n2 <= m2 {
        proof {
            assert(iabs(v.x as int) <= max && iabs(v.y as int) <= max) by (nonlinear_arith)
                requires
                    v.x * v.x + v.y * v.y <= max * max,
                    max >= 0,
            ;
        }
        v
    } else {
        let nf = isqrt64(n2);
        let nc: u64 = if nf * nf == n2 {
            nf
        } else {
            nf + 1
        };
        let ni: i64 = nc as i64;
        proof {
            lemma_comp_le_sqrt(v, nf as int);
            assert(ni == sqrt_ceil(norm_sq_of(v)));
            assert(iabs(v.x * max) <= ni * max && iabs(v.y * max) <= ni * max)
                by (nonlinear_arith)
                requires
                    iabs(v.x as int) <= ni as int,
                    iabs(v.y as int) <= ni as int,
                    ni >= 0,
                    max >= 0,
            ;
            lemma_div_trunc_bound(v.x * max, ni as int, max as int);
            lemma_div_trunc_bound(v.y * max, ni as int, max as int);
        }
        Vec2i { x: mul_div_trunc(v.x, max, ni), y: mul_div_trunc(v.y, max, ni) }
    }
}

/// Componentwise sum, exact.
pub fn vadd(a: Vec2i, b: Vec2i) -> (r: Vec2i)
    requires
        i64::MIN <= a.x + b.x <= i64::MAX,
        i64::MIN <= a.y + b.y <= i64::MAX,
    ensures
        r.x == a.x + b.x,
        r.y == a.y + b.y,
{
    Vec2i { x: a.x + b.x, y: a.y + b.y }
}

/// Componentwise difference, exact.
pub fn vsub(a: Vec2i, b: Vec2i) -> (r: Vec2i)
    requires
        i64::MIN <= a.x - b.x <= i64::MAX,
        i64::MIN <= a.y - b.y <= i64::MAX,
    ensures
        r.x == a.x - b.x,
        r.y == a.y - b.y,
{
    Vec2i { x: a.x - b.x, y: a.y - b.y }
}

} // verus!
