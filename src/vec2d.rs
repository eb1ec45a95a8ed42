//! Two-dimensional vectors in fixed-point units.
use rand::rngs::StdRng;
use vstd::prelude::*;

use crate::rng::draw_in;
use crate::fixed::{
    abs, div_toward_zero, div_trunc, isqrt, is_sqrt_floor, lemma_div_trunc_bound,
    lemma_sqrt_floor_ge, lemma_sqrt_floor_le, sqrt_floor, SCALE,
};

verus! {

/// Bound on each coordinate of a position: about sixteen million pixels.
pub const POSITION_LIMIT: i64 = 1_099_511_627_776;

/// A vector whose coordinates count `1 / SCALE` of a pixel.
#[derive(Clone, Copy, Debug, PartialEq, Eq, Structural)]
pub struct Vec2d {
    pub x: i64,
    pub y: i64,
}

/// Euclidean length, rounded down.
pub open spec fn norm(v: Vec2d) -> int {
    sqrt_floor(v.x * v.x + v.y * v.y)
}

/// Both coordinates lie in `[-limit, limit]`.
pub open spec fn within(v: Vec2d, limit: int) -> bool {
    -limit <= v.x <= limit && -limit <= v.y <= limit
}

/// `b - a`, coordinate by coordinate.
pub open spec fn delta(a: Vec2d, b: Vec2d) -> Vec2d {
    Vec2d { x: (b.x - a.x) as i64, y: (b.y - a.y) as i64 }
}

/// The direction of `v` scaled to length `SCALE`, rounded toward zero; the
/// zero vector has no direction and gives the zero vector.
pub open spec fn unit_of(v: Vec2d) -> Vec2d {
    let len = norm(v);
    if len == 0 {
        Vec2d { x: 0, y: 0 }
    } else {
        Vec2d {
            x: div_trunc(v.x * SCALE, len) as i64,
            y: div_trunc(v.y * SCALE, len) as i64,
        }
    }
}

/// The point of the upper unit half-circle (scaled by `SCALE`) whose first
/// coordinate is `x`.
pub open spec fn half_circle_point(x: int) -> Vec2d {
    Vec2d { x: x as i64, y: sqrt_floor(SCALE * SCALE - x * x) as i64 }
}

/// Each coordinate is no larger than the length.
pub proof fn lemma_coords_le_norm(v: Vec2d)
    ensures
        abs(v.x as int) <= norm(v),
        abs(v.y as int) <= norm(v),
        is_sqrt_floor(v.x * v.x + v.y * v.y, norm(v)),
{
    let n = v.x * v.x + v.y * v.y;
    assert(abs(v.x as int) * abs(v.x as int) <= n) by (nonlinear_arith)
        requires
            n == v.x * v.x + v.y * v.y,
    ;
    assert(abs(v.y as int) * abs(v.y as int) <= n) by (nonlinear_arith)
        requires
            n == v.x * v.x + v.y * v.y,
    ;
    lemma_sqrt_floor_ge(n, abs(v.x as int));
    lemma_sqrt_floor_ge(n, abs(v.y as int));
}

/// A unit direction has coordinates no larger than `SCALE`.
pub proof fn lemma_unit_bound(v: Vec2d)
    ensures
        -SCALE <= unit_of(v).x <= SCALE,
        -SCALE <= unit_of(v).y <= SCALE,
{
    lemma_coords_le_norm(v);
    let len = norm(v);
    if len != 0 {
        lemma_scaled_quotient(v.x as int, len);
        lemma_scaled_quotient(v.y as int, len);
    }
}

proof fn lemma_scaled_quotient(a: int, len: int)
    requires
        len > 0,
        abs(a) <= len,
    ensures
        -SCALE <= div_trunc(a * SCALE, len) <= SCALE,
{
    lemma_div_trunc_bound(a * SCALE, len);
    assert(abs(a * SCALE) == abs(a) * SCALE);
    assert(abs(a) * SCALE <= len * SCALE) by (nonlinear_arith)
        requires
            abs(a) <= len,
    ;
    assert((abs(a) * SCALE) / len <= SCALE) by (nonlinear_arith)
        requires
            abs(a) * SCALE <= len * SCALE,
            len > 0,
    ;
}

impl Vec2d {
    pub fn new(x: i64, y: i64) -> (r: Vec2d)
        ensures
            r == (Vec2d { x, y }),
    {
        Vec2d { x, y }
    }

    /// Euclidean length, rounded down to a whole unit.
    pub fn length(self) -> (r: u64)
        ensures
            r == norm(self),
    {
        let x = self.x as i128;
        let y = self.y as i128;
        assert(x * x <= 0x4000_0000_0000_0000_0000_0000_0000_0000) by (nonlinear_arith)
            requires
                -0x8000_0000_0000_0000int <= x <= 0x8000_0000_0000_0000int,
        ;
        assert(y * y <= 0x4000_0000_0000_0000_0000_0000_0000_0000) by (nonlinear_arith)
            requires
                -0x8000_0000_0000_0000int <= y <= 0x8000_0000_0000_0000int,
        ;
        assert(x * x >= 0 && y * y >= 0) by (nonlinear_arith);
        let n = (x * x) as u128 + (y * y) as u128;
        isqrt(n)
    }

    /// `other - self`, for vectors inside the position bound.
    pub fn minus(self, other: Vec2d) -> (r: Vec2d)
        requires
            within(self, POSITION_LIMIT as int),
            within(other, POSITION_LIMIT as int),
        ensures
            r == delta(self, other),
            within(r, 2 * POSITION_LIMIT),
    {
        Vec2d { x: other.x - self.x, y: other.y - self.y }
    }

    /// Distance between two points inside the position bound, rounded down.
    pub fn distance(self, other: Vec2d) -> (r: u64)
        requires
            within(self, POSITION_LIMIT as int),
            within(other, POSITION_LIMIT as int),
        ensures
            r == norm(delta(self, other)),
            r <= 4 * POSITION_LIMIT,
    {
        let d = self.minus(other);
        let r = d.length();
        proof {
            let n = d.x * d.x + d.y * d.y;
            let m = 4 * POSITION_LIMIT;
            assert(0 <= n <= m * m) by (nonlinear_arith)
                requires
                    n == d.x * d.x + d.y * d.y,
                    -2 * POSITION_LIMIT <= d.x <= 2 * POSITION_LIMIT,
                    -2 * POSITION_LIMIT <= d.y <= 2 * POSITION_LIMIT,
                    m == 4 * POSITION_LIMIT,
            ;
            lemma_sqrt_floor_le(n, m);
        }
        r
    }

    /// The direction of this vector, scaled to length `SCALE`; the zero
    /// vector gives the zero vector.
    pub fn as_unit(self) -> (r: Vec2d)
        ensures
            r == unit_of(self),
            -SCALE <= r.x <= SCALE,
            -SCALE <= r.y <= SCALE,
    {
        let len = self.length();
        proof {
            lemma_unit_bound(self);
        }
        if len == 0 {
            Vec2d { x: 0, y: 0 }
        } else {
            proof {
                lemma_coords_le_norm(self);
            }
            let x = div_toward_zero(self.x as i128 * SCALE as i128, len as i128);
            let y = div_toward_zero(self.y as i128 * SCALE as i128, len as i128);
            Vec2d { x: x as i64, y: y as i64 }
        }
    }

    /// The point of the upper unit half-circle, scaled by `SCALE`, whose first
    /// coordinate is `x`.
    pub fn on_half_circle(x: i64) -> (r: Vec2d)
        requires
            -SCALE <= x < SCALE,
        ensures
            r == half_circle_point(x as int),
            0 <= r.y <= SCALE,
    {
        let xx = x as i128;
        assert(0 <= xx * xx <= SCALE * SCALE) by (nonlinear_arith)
            requires
                -SCALE <= xx <= SCALE,
        ;
        let sq = (SCALE as i128) * (SCALE as i128) - xx * xx;
        assert(0 <= sq <= SCALE * SCALE) by (nonlinear_arith)
            requires
                -SCALE <= x < SCALE,
                sq == SCALE * SCALE - x * x,
        ;
        let y = isqrt(sq as u128);
        proof {
            lemma_sqrt_floor_le(sq as int, SCALE as int);
        }
        Vec2d { x, y: y as i64 }
    }
}

impl Vec2d {
    /// A random point of the upper unit half-circle, scaled by `SCALE`: the
    /// first coordinate is drawn uniformly from `[-SCALE, SCALE)`.
    pub fn random_unit(rng: &mut StdRng) -> (r: Vec2d)
        ensures
            exists|x: int| -SCALE <= x < SCALE && r == half_circle_point(x),
            within(r, SCALE as int),
    {
        let x = draw_in(rng, -SCALE, SCALE);
        Vec2d::on_half_circle(x)
    }
}

} // verus!
