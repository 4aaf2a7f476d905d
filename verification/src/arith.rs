//! Integer arithmetic of the simulation: the fixed-point unit, saturation,
//! division that rounds toward or away from zero, and integer square roots.

use vstd::prelude::*;

verus! {

/// The fixed-point unit: a quantity `q` of the model is stored as `q * ONE`.
pub const ONE: i64 = 1_000_000;

/// The largest magnitude that a stored coordinate can have.
pub const LIMIT: i64 = 1_099_511_627_776;

/// `v` brought into `[-lim, lim]`.
pub open spec fn clamp(v: int, lim: int) -> int {
    if v < -lim {
        -lim
    } else if v > lim {
        lim
    } else {
        v
    }
}

/// The quotient of `a` by `b`, rounded toward zero.
pub open spec fn trunc_div(a: int, b: int) -> int
    recommends
        b > 0,
{
    if a >= 0 {
        a / b
    } else {
        -((-a) / b)
    }
}

/// The quotient of `a` by `b`, rounded away from zero.
pub open spec fn away_div(a: int, b: int) -> int
    recommends
        b > 0,
{
    if a >= 0 {
        (a + b - 1) / b
    } else {
        -((-a + b - 1) / b)
    }
}

/// The largest `r >= 0` with `r * r <= n`; 0 where `n` is negative.
pub open spec fn floor_sqrt(n: int) -> int
    decreases n,
{
    if n <= 0 {
        0
    } else {
        let r = floor_sqrt(n - 1);
        if (r + 1) * (r + 1) <= n {
            r + 1
        } else {
            r
        }
    }
}

/// The smallest `r >= 0` with `n <= r * r`.
pub open spec fn ceil_sqrt(n: int) -> int {
    let r = floor_sqrt(n);
    if r * r >= n {
        r
    } else {
        r + 1
    }
}

/// `floor_sqrt(n)` is the one number whose square is at most `n` while the
/// square of its successor is above `n`.
pub proof fn lemma_floor_sqrt(n: int)
    requires
        n >= 0,
    ensures
        floor_sqrt(n) >= 0,
        floor_sqrt(n) * floor_sqrt(n) <= n < (floor_sqrt(n) + 1) * (floor_sqrt(n) + 1),
    decreases n,
{
    if n > 0 {
        lemma_floor_sqrt(n - 1);
        let r = floor_sqrt(n - 1);
        let f = floor_sqrt(n);
        if (r + 1) * (r + 1) <= n {
            assert((r + 1) * (r + 1) < (f + 1) * (f + 1)) by (nonlinear_arith)
                requires
                    f == r + 1,
                    r >= 0,
            ;
        }
    }
}

/// A number that brackets `n` between its square and its successor's square
/// is `floor_sqrt(n)`.
pub proof fn lemma_floor_sqrt_unique(n: int, r: int)
    requires
        r >= 0,
        r * r <= n < (r + 1) * (r + 1),
    ensures
        r == floor_sqrt(n),
{
    assert(n >= 0) by (nonlinear_arith)
        requires
            r * r <= n,
    ;
    lemma_floor_sqrt(n);
    let f = floor_sqrt(n);
    if r < f {
        assert((r + 1) * (r + 1) <= f * f) by (nonlinear_arith)
            requires
                0 <= r + 1 <= f,
        ;
    } else if f < r {
        assert((f + 1) * (f + 1) <= r * r) by (nonlinear_arith)
            requires
                0 <= f + 1 <= r,
        ;
    }
}

/// `ceil_sqrt(n)` is the one number whose square is at least `n` while the
/// square of its predecessor is below `n`.
pub proof fn lemma_ceil_sqrt(n: int)
    requires
        n > 0,
    ensures
        ceil_sqrt(n) > 0,
        (ceil_sqrt(n) - 1) * (ceil_sqrt(n) - 1) < n <= ceil_sqrt(n) * ceil_sqrt(n),
{
    lemma_floor_sqrt(n);
    let f = floor_sqrt(n);
    let c = ceil_sqrt(n);
    if f * f >= n {
        assert((f - 1) * (f - 1) < f * f) by (nonlinear_arith)
            requires
                f >= 1,
        ;
    } else {
        assert((c - 1) * (c - 1) == f * f) by (nonlinear_arith)
            requires
                c == f + 1,
        ;
        assert(c * c == (f + 1) * (f + 1)) by (nonlinear_arith)
            requires
                c == f + 1,
        ;
    }
}

/// `v` saturated to `[-lim, lim]`.
pub fn saturate(v: i128, lim: i64) -> (r: i64)
    requires
        lim >= 0,
    ensures
        r == clamp(v as int, lim as int),
{
    if v < -(lim as i128) {
        -lim
    } else if v > lim as i128 {
        lim
    } else {
        v as i64
    }
}

/// Division that rounds toward zero.
pub fn div_trunc(a: i128, b: i128) -> (r: i128)
    requires
        b > 0,
        a > i128::MIN,
    ensures
        r == trunc_div(a as int, b as int),
{
    if a >= 0 {
        let ua: u128 = a as u128;
        let ub: u128 = b as u128;
        let q: u128 = ua / ub;
        q as i128
    } else {
        let ua: u128 = (-a) as u128;
        let ub: u128 = b as u128;
        let q: u128 = ua / ub;
        -(q as i128)
    }
}

/// Rounding the quotient of a non-negative `a` up adds one to the rounded-down
/// quotient exactly where the division leaves a remainder.
pub proof fn lemma_round_up(a: int, b: int)
    requires
        a >= 0,
        b > 0,
    ensures
        (a + b - 1) / b == a / b + if a % b > 0 {
            1int
        } else {
            0int
        },
{
    let q = a / b;
    let r = a % b;
    vstd::arithmetic::div_mod::lemma_fundamental_div_mod(a, b);
    assert(a == b * q + r);
    assert(0 <= r < b);
    if r > 0 {
        assert(a + b - 1 == (q + 1) * b + (r - 1)) by (nonlinear_arith)
            requires
                a == b * q + r,
        ;
        vstd::arithmetic::div_mod::lemma_fundamental_div_mod_converse(a + b - 1, b, q + 1, r - 1);
    } else {
        assert(a + b - 1 == q * b + (b - 1)) by (nonlinear_arith)
            requires
                a == b * q + r,
                r == 0,
        ;
        vstd::arithmetic::div_mod::lemma_fundamental_div_mod_converse(a + b - 1, b, q, b - 1);
    }
}

/// Division that rounds away from zero.
pub fn div_away(a: i128, b: i128) -> (r: i128)
    requires
        b > 0,
        a > i128::MIN,
    ensures
        r == away_div(a as int, b as int),
{
    let neg: bool = a < 0;
    let ua: u128 = if neg {
        (-a) as u128
    } else {
        a as u128
    };
    let ub: u128 = b as u128;
    let q: u128 = ua / ub;
    let rem: u128 = ua % ub;
    proof {
        lemma_round_up(ua as int, ub as int);
        vstd::arithmetic::div_mod::lemma_fundamental_div_mod(ua as int, ub as int);
        assert(ua == ub * q + rem);
        assert(q <= ua) by (nonlinear_arith)
            requires
                ua == ub * q + rem,
                rem >= 0,
                ub >= 1,
                q >= 0,
        ;
        if rem > 0 {
            assert(q < ua) by (nonlinear_arith)
                requires
                    ua == ub * q + rem,
                    rem > 0,
                    ub >= 1,
                    q >= 0,
            {
            }
        }
    }
    let up: u128 = if rem > 0 {
        q + 1
    } else {
        q
    };
    if neg {
        -(up as i128)
    } else {
        up as i128
    }
}

/// The integer square root, rounded down.
pub fn isqrt(n: u128) -> (r: u128)
    ensures
        r == floor_sqrt(n as int),
        r < 0x1_0000_0000_0000_0000,
{
    let mut lo: u128 = 0;
    let mut hi: u128 = 0x1_0000_0000_0000_0000;
    assert(hi * hi > n) by (nonlinear_arith)
        requires
            hi == 0x1_0000_0000_0000_0000,
            n <= u128::MAX,
    ;
    while hi - lo > 1
        invariant
            lo < hi <= 0x1_0000_0000_0000_0000,
            lo * lo <= n < hi * hi,
        decreases hi - lo,
    {
        let mid: u128 = lo + (hi - lo) / 2;
        assert(mid * mid <= u128::MAX) by (nonlinear_arith)
            requires
                0 <= mid < 0x1_0000_0000_0000_0000,
        ;
        if mid * mid <= n {
            lo = mid;
        } else {
            hi = mid;
        }
    }
    proof {
        lemma_floor_sqrt_unique(n as int, lo as int);
    }
    lo
}

/// The integer square root, rounded up.
pub fn isqrt_up(n: u128) -> (r: u128)
    ensures
        r == ceil_sqrt(n as int),
        r <= 0x1_0000_0000_0000_0000,
{
    let f: u128 = isqrt(n);
    proof {
        lemma_floor_sqrt(n as int);
        assert(f * f <= u128::MAX) by (nonlinear_arith)
            requires
                0 <= f < 0x1_0000_0000_0000_0000,
        ;
    }
    if f * f >= n {
        f
    } else {
        f + 1
    }
}

} // verus!
