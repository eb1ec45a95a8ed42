//! Fixed-point helpers: positions and lengths are integers counting
//! `1 / SCALE` of a pixel.
use vstd::prelude::*;

verus! {

/// Number of fixed-point units in one pixel.
pub const SCALE: i64 = 65536;

/// Whether `r` is the integer square root of `n`, rounded down.
pub open spec fn is_sqrt_floor(n: int, r: int) -> bool {
    0 <= r && r * r <= n && n < (r + 1) * (r + 1)
}

/// The integer square root of a non-negative `n`, rounded down.
pub open spec fn sqrt_floor(n: int) -> int
    recommends
        n >= 0,
{
    choose|r: int| is_sqrt_floor(n, r)
}

/// Division that rounds toward zero, as Rust's `/` does on signed integers.
pub open spec fn div_trunc(a: int, b: int) -> int
    recommends
        b > 0,
{
    if a >= 0 {
        a / b
    } else {
        -((-a) / b)
    }
}

/// `v` limited to the range `[-limit, limit]`.
pub open spec fn clamp(v: int, limit: int) -> int {
    if v > limit {
        limit
    } else if v < -limit {
        -limit
    } else {
        v
    }
}

pub open spec fn abs(v: int) -> int {
    if v < 0 {
        -v
    } else {
        v
    }
}

proof fn lemma_sqrt_unique(n: int, r1: int, r2: int)
    requires
        is_sqrt_floor(n, r1),
        is_sqrt_floor(n, r2),
    ensures
        r1 == r2,
{
    if r1 < r2 {
        assert((r1 + 1) * (r1 + 1) <= r2 * r2) by (nonlinear_arith)
            requires
                0 <= r1 + 1 <= r2,
        ;
    } else if r2 < r1 {
        assert((r2 + 1) * (r2 + 1) <= r1 * r1) by (nonlinear_arith)
            requires
                0 <= r2 + 1 <= r1,
        ;
    }
}

/// A witness of the square root is the value that `sqrt_floor` names.
pub proof fn lemma_sqrt_floor_is(n: int, r: int)
    requires
        is_sqrt_floor(n, r),
    ensures
        sqrt_floor(n) == r,
{
    let s = sqrt_floor(n);
    assert(is_sqrt_floor(n, s));
    lemma_sqrt_unique(n, r, s);
}

/// A square root never exceeds a value whose square is at least `n`.
pub proof fn lemma_sqrt_floor_le(n: int, m: int)
    requires
        n >= 0,
        m >= 0,
        n <= m * m,
    ensures
        0 <= sqrt_floor(n) <= m,
        is_sqrt_floor(n, sqrt_floor(n)),
{
    let s = isqrt_witness(n);
    lemma_sqrt_floor_is(n, s);
    if s > m {
        assert((m + 1) * (m + 1) <= s * s) by (nonlinear_arith)
            requires
                0 <= m + 1 <= s,
        ;
        assert(m * m < (m + 1) * (m + 1)) by (nonlinear_arith)
            requires
                m >= 0,
        ;
    }
}

/// A square root is at least every non-negative value whose square is at most `n`.
pub proof fn lemma_sqrt_floor_ge(n: int, m: int)
    requires
        m >= 0,
        m * m <= n,
    ensures
        m <= sqrt_floor(n),
        is_sqrt_floor(n, sqrt_floor(n)),
{
    let s = isqrt_witness(n);
    lemma_sqrt_floor_is(n, s);
    if s < m {
        assert((s + 1) * (s + 1) <= m * m) by (nonlinear_arith)
            requires
                0 <= s + 1 <= m,
        ;
    }
}

/// Every non-negative integer has an integer square root.
proof fn isqrt_witness(n: int) -> (r: int)
    requires
        n >= 0,
    ensures
        is_sqrt_floor(n, r),
    decreases n,
{
    if n == 0 {
        0
    } else {
        let p = isqrt_witness(n - 1);
        if (p + 1) * (p + 1) <= n {
            let q = p + 1;
            assert(n < (q + 1) * (q + 1)) by (nonlinear_arith)
                requires
                    n - 1 < q * q,
                    q >= 1,
            ;
            assert(is_sqrt_floor(n, q));
            q
        } else {
            p
        }
    }
}

/// Integer square root, rounded down.
pub fn isqrt(n: u128) -> (r: u64)
    ensures
        r == sqrt_floor(n as int),
{
    let mut lo: u128 = 0;
    let mut hi: u128 = 0x1_0000_0000_0000_0000;
    assert(n < hi * hi) by (nonlinear_arith)
        requires
            n < 0x1_0000_0000_0000_0000_0000_0000_0000_0000int,
            hi == 0x1_0000_0000_0000_0000int,
    ;
    while lo + 1 < hi
        invariant
            lo < hi <= 0x1_0000_0000_0000_0000,
            lo * lo <= n,
            n < hi * hi,
        decreases hi - lo,
    {
        let mid = lo + (hi - lo) / 2;
        assert(mid * mid < 0x1_0000_0000_0000_0000_0000_0000_0000_0000) by (nonlinear_arith)
            requires
                0 <= mid < 0x1_0000_0000_0000_0000int,
        ;
        if mid * mid <= n {
            lo = mid;
        } else {
            hi = mid;
        }
    }
    proof {
        assert(hi == lo + 1);
        lemma_sqrt_floor_is(n as int, lo as int);
    }
    lo as u64
}

/// Signed division rounding toward zero.
pub fn div_toward_zero(a: i128, b: i128) -> (r: i128)
    requires
        b > 0,
        a > i128::MIN,
    ensures
        r == div_trunc(a as int, b as int),
{
    if a >= 0 {
        a / b
    } else {
        -((-a) / b)
    }
}

/// A quotient rounded toward zero is no larger in magnitude than the dividend
/// divided by the divisor.
pub proof fn lemma_div_trunc_bound(a: int, b: int)
    requires
        b > 0,
    ensures
        abs(div_trunc(a, b)) <= abs(a) / b,
        abs(div_trunc(a, b)) <= abs(a),
        a >= 0 ==> div_trunc(a, b) >= 0,
        a <= 0 ==> div_trunc(a, b) <= 0,
{
    let q = abs(a) / b;
    assert(q <= abs(a)) by (nonlinear_arith)
        requires
            b > 0,
            abs(a) >= 0,
            q == abs(a) / b,
    ;
}

/// Limits a value to `[-limit, limit]`.
pub fn clamp_to(v: i128, limit: i64) -> (r: i64)
    requires
        limit >= 0,
    ensures
        r == clamp(v as int, limit as int),
{
    if v > limit as i128 {
        limit
    } else if v < -(limit as i128) {
        -limit
    } else {
        v as i64
    }
}

} // verus!
