//! The speed limiter: a heading that is too fast or too slow is rescaled to
//! the nearest allowed speed, as exactly as integer coordinates permit.

use crate::arith::{
    away_div, ceil_sqrt, div_away, div_trunc, floor_sqrt, isqrt, isqrt_up, lemma_ceil_sqrt,
    lemma_floor_sqrt, trunc_div,
};
use crate::config::Config;
use crate::vector::{SpecVector, Vector};
use vstd::prelude::*;

verus! {

/// The magnitude of `v`.
pub open spec fn magnitude(v: int) -> int {
    if v >= 0 {
        v
    } else {
        -v
    }
}

/// Rounding a quotient toward zero rounds its magnitude down.
pub proof fn lemma_trunc_magnitude(v: int, m: int)
    requires
        m > 0,
    ensures
        magnitude(trunc_div(v, m)) == magnitude(v) / m,
        magnitude(trunc_div(v, m)) * m <= magnitude(v) < (magnitude(trunc_div(v, m)) + 1) * m,
{
    let a = magnitude(v);
    let q = a / m;
    vstd::arithmetic::div_mod::lemma_fundamental_div_mod(a, m);
    vstd::arithmetic::div_mod::lemma_div_pos_is_pos(a, m);
    assert(q * m <= a < (q + 1) * m) by (nonlinear_arith)
        requires
            a == m * q + a % m,
            0 <= a % m < m,
    ;
}

/// Rounding a quotient away from zero rounds its magnitude up.
pub proof fn lemma_away_magnitude(v: int, m: int)
    requires
        m > 0,
    ensures
        magnitude(away_div(v, m)) == (magnitude(v) + m - 1) / m,
        magnitude(v) <= magnitude(away_div(v, m)) * m <= magnitude(v) + m - 1,
{
    let a = magnitude(v);
    let q = (a + m - 1) / m;
    vstd::arithmetic::div_mod::lemma_fundamental_div_mod(a + m - 1, m);
    vstd::arithmetic::div_mod::lemma_div_pos_is_pos(a + m - 1, m);
    assert(a <= q * m <= a + m - 1) by (nonlinear_arith)
        requires
            a + m - 1 == m * q + (a + m - 1) % m,
            0 <= (a + m - 1) % m < m,
    ;
}

/// Of two non-negative numbers the smaller has the smaller square.
pub proof fn lemma_square_le(a: int, b: int)
    requires
        0 <= a <= b,
    ensures
        a * a <= b * b,
{
    assert(a * a <= b * b) by (nonlinear_arith)
        requires
            0 <= a <= b,
    ;
}

/// Of two non-negative numbers the one with the smaller square is smaller.
pub proof fn lemma_square_lt_rev(a: int, b: int)
    requires
        0 <= a,
        0 <= b,
        a * a < b * b,
    ensures
        a < b,
{
    if a >= b {
        lemma_square_le(b, a);
    }
}

/// The square of a sum of three numbers is at most three times the sum of
/// their squares.
pub proof fn lemma_sum_square(a: int, b: int, c: int)
    ensures
        (a + b + c) * (a + b + c) <= 3 * (a * a + b * b + c * c),
{
    assert((a - b) * (a - b) >= 0) by (nonlinear_arith);
    assert((b - c) * (b - c) >= 0) by (nonlinear_arith);
    assert((a - c) * (a - c) >= 0) by (nonlinear_arith);
    assert((a + b + c) * (a + b + c) <= 3 * (a * a + b * b + c * c)) by (nonlinear_arith)
        requires
            (a - b) * (a - b) >= 0,
            (b - c) * (b - c) >= 0,
            (a - c) * (a - c) >= 0,
    ;
}

/// A common positive factor can be struck from both sides of an inequality.
pub proof fn lemma_cancel_le(x: int, y: int, k: int)
    requires
        k > 0,
        x * k <= y * k,
    ensures
        x <= y,
{
    assert(x <= y) by (nonlinear_arith)
        requires
            k > 0,
            x * k <= y * k,
    ;
}

/// The sum of the squares of three numbers, each multiplied by `k`, is the
/// sum of their squares times the square of `k`.
pub proof fn lemma_scaled_squares(a1: int, a2: int, a3: int, k: int)
    ensures
        (a1 * k) * (a1 * k) + (a2 * k) * (a2 * k) + (a3 * k) * (a3 * k) == (a1 * a1 + a2 * a2 + a3
            * a3) * (k * k),
        (a1 * k) * (a1 * k) + (a2 * k) * (a2 * k) + (a3 * k) * (a3 * k) == ((a1 * a1 + a2 * a2
            + a3 * a3) * k) * k,
{
    let kk = k * k;
    assert((a1 * k) * (a1 * k) == (a1 * a1) * kk) by (nonlinear_arith)
        requires
            kk == k * k,
    ;
    assert((a2 * k) * (a2 * k) == (a2 * a2) * kk) by (nonlinear_arith)
        requires
            kk == k * k,
    ;
    assert((a3 * k) * (a3 * k) == (a3 * a3) * kk) by (nonlinear_arith)
        requires
            kk == k * k,
    ;
    let s1 = a1 * a1;
    let s2 = a2 * a2;
    let s3 = a3 * a3;
    assert((s1 + s2 + s3) * kk == s1 * kk + s2 * kk + s3 * kk) by (nonlinear_arith);
    assert(((s1 + s2 + s3) * k) * k == (s1 + s2 + s3) * kk) by (nonlinear_arith)
        requires
            kk == k * k,
    ;
}

/// Where each of three magnitudes `o` is at most `a * t / m`, and the `a`
/// have a length of at most `m`, the `o` have a length of at most `t`.
pub proof fn lemma_shrunk_at_most(a1: int, a2: int, a3: int, o1: int, o2: int, o3: int, t: int, m: int)
    requires
        0 <= a1 && 0 <= a2 && 0 <= a3,
        0 <= o1 && 0 <= o2 && 0 <= o3,
        0 <= t,
        0 < m,
        o1 * m <= a1 * t,
        o2 * m <= a2 * t,
        o3 * m <= a3 * t,
        a1 * a1 + a2 * a2 + a3 * a3 <= m * m,
    ensures
        o1 * o1 + o2 * o2 + o3 * o3 <= t * t,
{
    let big_o = o1 * o1 + o2 * o2 + o3 * o3;
    let big_s = a1 * a1 + a2 * a2 + a3 * a3;
    let mm = m * m;
    let tt = t * t;
    assert(0 <= o1 * m && 0 <= o2 * m && 0 <= o3 * m) by (nonlinear_arith)
        requires
            0 <= o1 && 0 <= o2 && 0 <= o3 && 0 < m,
    ;
    lemma_square_le(o1 * m, a1 * t);
    lemma_square_le(o2 * m, a2 * t);
    lemma_square_le(o3 * m, a3 * t);
    lemma_scaled_squares(o1, o2, o3, m);
    lemma_scaled_squares(a1, a2, a3, t);
    assert(big_s * tt <= mm * tt) by (nonlinear_arith)
        requires
            big_s <= mm,
            tt == t * t,
    ;
    assert(mm > 0) by (nonlinear_arith)
        requires
            mm == m * m,
            m > 0,
    ;
    assert(mm * tt == tt * mm) by (nonlinear_arith);
    lemma_cancel_le(big_o, tt, mm);
}

/// Where each of three magnitudes `o` is at least `a * p / m`, and the `a`
/// have a length of at least `m / n` with `p == n * n`, the `o` have a length
/// of at least `n`.
pub proof fn lemma_grown_at_least(a1: int, a2: int, a3: int, o1: int, o2: int, o3: int, n: int, p: int, m: int)
    requires
        0 <= a1 && 0 <= a2 && 0 <= a3,
        0 <= o1 && 0 <= o2 && 0 <= o3,
        1 <= n,
        p == n * n,
        0 < m,
        o1 * m >= a1 * p,
        o2 * m >= a2 * p,
        o3 * m >= a3 * p,
        m * m <= (a1 * a1 + a2 * a2 + a3 * a3) * p,
    ensures
        o1 * o1 + o2 * o2 + o3 * o3 >= p,
{
    let big_o = o1 * o1 + o2 * o2 + o3 * o3;
    let big_s = a1 * a1 + a2 * a2 + a3 * a3;
    let mm = m * m;
    assert(p >= 1) by (nonlinear_arith)
        requires
            p == n * n,
            n >= 1,
    ;
    assert(0 <= a1 * p && 0 <= a2 * p && 0 <= a3 * p) by (nonlinear_arith)
        requires
            0 <= a1 && 0 <= a2 && 0 <= a3 && 0 < p,
    ;
    lemma_square_le(a1 * p, o1 * m);
    lemma_square_le(a2 * p, o2 * m);
    lemma_square_le(a3 * p, o3 * m);
    lemma_scaled_squares(o1, o2, o3, m);
    lemma_scaled_squares(a1, a2, a3, p);
    assert(mm * p <= (big_s * p) * p) by (nonlinear_arith)
        requires
            mm <= big_s * p,
            p > 0,
    ;
    assert(mm > 0) by (nonlinear_arith)
        requires
            mm == m * m,
            m > 0,
    ;
    assert(p * mm == mm * p) by (nonlinear_arith);
    lemma_cancel_le(p, big_o, mm);
}

/// Of two non-negative numbers the one whose square is not larger is not
/// larger.
pub proof fn lemma_square_le_rev(a: int, b: int)
    requires
        0 <= a,
        0 <= b,
        a * a <= b * b,
    ensures
        a <= b,
{
    if a > b {
        assert(b * b < a * a) by (nonlinear_arith)
            requires
                0 <= b < a,
        ;
    }
}

/// Of two non-negative numbers the larger has the larger square.
pub proof fn lemma_square_lt(a: int, b: int)
    requires
        0 <= a < b,
    ensures
        a * a < b * b,
{
    assert(a * a < b * b) by (nonlinear_arith)
        requires
            0 <= a < b,
    ;
}

/// Where each of three magnitudes `o` is `a * t / m` rounded down, and the
/// `a` have a length above `m - 1`, with `m` above `t`, the `o` have a length
/// of at least `t - 3`.
pub proof fn lemma_shrunk_at_least(a1: int, a2: int, a3: int, o1: int, o2: int, o3: int, t: int, m: int)
    requires
        0 <= a1 && 0 <= a2 && 0 <= a3,
        0 <= o1 && 0 <= o2 && 0 <= o3,
        3 <= t < m,
        (o1 + 1) * m > a1 * t,
        (o2 + 1) * m > a2 * t,
        (o3 + 1) * m > a3 * t,
        a1 * a1 + a2 * a2 + a3 * a3 > (m - 1) * (m - 1),
    ensures
        o1 * o1 + o2 * o2 + o3 * o3 >= (t - 3) * (t - 3),
{
    let big_o = o1 * o1 + o2 * o2 + o3 * o3;
    let big_s = a1 * a1 + a2 * a2 + a3 * a3;
    let d = t - 3;
    let dd = d * d;
    let mm = m * m;
    let tt = t * t;
    assert(0 <= o1 * o1 && 0 <= o2 * o2 && 0 <= o3 * o3) by (nonlinear_arith);
    if big_o < dd {
        let sum = o1 + o2 + o3;
        lemma_sum_square(o1, o2, o3);
        assert(sum * sum < (2 * d) * (2 * d)) by (nonlinear_arith)
            requires
                sum * sum <= 3 * big_o,
                0 <= big_o < dd,
                dd == d * d,
        ;
        assert(d > 0) by (nonlinear_arith)
            requires
                0 < dd,
                dd == d * d,
                d >= 0,
        ;
        lemma_square_lt_rev(sum, 2 * d);
        let big_u = (o1 + 1) * (o1 + 1) + (o2 + 1) * (o2 + 1) + (o3 + 1) * (o3 + 1);
        assert(big_u == big_o + 2 * sum + 3) by (nonlinear_arith)
            requires
                big_u == (o1 + 1) * (o1 + 1) + (o2 + 1) * (o2 + 1) + (o3 + 1) * (o3 + 1),
                big_o == o1 * o1 + o2 * o2 + o3 * o3,
                sum == o1 + o2 + o3,
        ;
        assert(dd + 4 * d == tt - 2 * t - 3) by (nonlinear_arith)
            requires
                d == t - 3,
                dd == d * d,
                tt == t * t,
        ;
        assert(big_u <= tt - 2 * t - 3);
        // the enlarged magnitudes, times m, exceed the scaled inputs
        assert(0 <= a1 * t && 0 <= a2 * t && 0 <= a3 * t) by (nonlinear_arith)
            requires
                0 <= a1 && 0 <= a2 && 0 <= a3 && 0 <= t,
        ;
        lemma_square_lt(a1 * t, (o1 + 1) * m);
        lemma_square_lt(a2 * t, (o2 + 1) * m);
        lemma_square_lt(a3 * t, (o3 + 1) * m);
        lemma_scaled_squares(o1 + 1, o2 + 1, o3 + 1, m);
        lemma_scaled_squares(a1, a2, a3, t);
        assert(big_u * mm > big_s * tt);
        let low = (m - 1) * (m - 1);
        assert(big_s * tt >= low * tt) by (nonlinear_arith)
            requires
                big_s > low,
                tt == t * t,
        ;
        assert(big_u * mm <= (tt - 2 * t - 3) * mm) by (nonlinear_arith)
            requires
                big_u <= tt - 2 * t - 3,
                mm == m * m,
        ;
        assert(low == mm - 2 * m + 1) by (nonlinear_arith)
            requires
                low == (m - 1) * (m - 1),
                mm == m * m,
        ;
        assert(low * tt == mm * tt - 2 * m * tt + tt) by (nonlinear_arith)
            requires
                low == mm - 2 * m + 1,
        ;
        assert((tt - 2 * t - 3) * mm == tt * mm - 2 * t * mm - 3 * mm) by (nonlinear_arith);
        assert(t * mm >= m * tt) by (nonlinear_arith)
            requires
                0 < t < m,
                mm == m * m,
                tt == t * t,
        ;
        assert(mm >= 0 && tt >= 0) by (nonlinear_arith)
            requires
                mm == m * m,
                tt == t * t,
        ;
        assert(mm * tt == tt * mm) by (nonlinear_arith);
        assert(2 * m * tt == 2 * (m * tt)) by (nonlinear_arith);
        assert(2 * t * mm == 2 * (t * mm)) by (nonlinear_arith);
        assert(false);
    }
}

/// Where each of three magnitudes `o` is `a * p / m` rounded up, with
/// `p == n * n`, and the `a` have a length below `(m + 1) / n`, with `m` at
/// least `n`, the `o` have a length below `n + 3`.
pub proof fn lemma_grown_at_most(a1: int, a2: int, a3: int, o1: int, o2: int, o3: int, n: int, p: int, m: int)
    requires
        0 <= a1 && 0 <= a2 && 0 <= a3,
        0 <= o1 && 0 <= o2 && 0 <= o3,
        1 <= n <= m,
        p == n * n,
        o1 * m <= a1 * p + m,
        o2 * m <= a2 * p + m,
        o3 * m <= a3 * p + m,
        (a1 * a1 + a2 * a2 + a3 * a3) * p <= (m + 1) * (m + 1),
    ensures
        o1 * o1 + o2 * o2 + o3 * o3 < (n + 3) * (n + 3),
{
    let big_o = o1 * o1 + o2 * o2 + o3 * o3;
    let big_s = a1 * a1 + a2 * a2 + a3 * a3;
    let mm = m * m;
    let q = big_s * p;
    let w = (m + 1) * (m + 1);
    let b1 = a1 * p;
    let b2 = a2 * p;
    let b3 = a3 * p;
    let bsum = b1 + b2 + b3;
    let asum = a1 + a2 + a3;
    let g = n * (m + 1);
    let e = m * (n + 1);
    assert(p >= 1) by (nonlinear_arith)
        requires
            p == n * n,
            n >= 1,
    ;
    assert(0 <= b1 && 0 <= b2 && 0 <= b3) by (nonlinear_arith)
        requires
            0 <= a1 && 0 <= a2 && 0 <= a3 && 0 < p,
            b1 == a1 * p,
            b2 == a2 * p,
            b3 == a3 * p,
    ;
    assert(0 <= o1 * m && 0 <= o2 * m && 0 <= o3 * m) by (nonlinear_arith)
        requires
            0 <= o1 && 0 <= o2 && 0 <= o3 && 0 < m,
    ;
    lemma_square_le(o1 * m, b1 + m);
    lemma_square_le(o2 * m, b2 + m);
    lemma_square_le(o3 * m, b3 + m);
    assert((b1 + m) * (b1 + m) == b1 * b1 + 2 * (m * b1) + mm) by (nonlinear_arith)
        requires
            mm == m * m,
    ;
    assert((b2 + m) * (b2 + m) == b2 * b2 + 2 * (m * b2) + mm) by (nonlinear_arith)
        requires
            mm == m * m,
    ;
    assert((b3 + m) * (b3 + m) == b3 * b3 + 2 * (m * b3) + mm) by (nonlinear_arith)
        requires
            mm == m * m,
    ;
    assert(m * b1 + m * b2 + m * b3 == m * bsum) by (nonlinear_arith)
        requires
            bsum == b1 + b2 + b3,
    ;
    lemma_scaled_squares(o1, o2, o3, m);
    lemma_scaled_squares(a1, a2, a3, p);
    assert(b1 * b1 + b2 * b2 + b3 * b3 == q * p);
    assert(big_o * mm <= q * p + 2 * (m * bsum) + 3 * mm);
    // the sum of the scaled inputs
    lemma_sum_square(a1, a2, a3);
    assert(bsum == asum * p) by (nonlinear_arith)
        requires
            bsum == a1 * p + a2 * p + a3 * p,
            asum == a1 + a2 + a3,
    ;
    let aa = asum * asum;
    assert(bsum * bsum == aa * (p * p)) by (nonlinear_arith)
        requires
            bsum == asum * p,
            aa == asum * asum,
    ;
    assert(aa * (p * p) <= (3 * big_s) * (p * p)) by (nonlinear_arith)
        requires
            aa <= 3 * big_s,
            p >= 1,
    ;
    assert((3 * big_s) * (p * p) == 3 * (q * p)) by (nonlinear_arith)
        requires
            q == big_s * p,
    ;
    assert(q * p <= w * p) by (nonlinear_arith)
        requires
            q <= w,
            p >= 1,
    ;
    assert(w * p == g * g) by (nonlinear_arith)
        requires
            w == (m + 1) * (m + 1),
            p == n * n,
            g == n * (m + 1),
    ;
    assert(g >= 0) by (nonlinear_arith)
        requires
            g == n * (m + 1),
            n >= 1,
            m >= 1,
    ;
    assert(bsum * bsum <= (2 * g) * (2 * g)) by (nonlinear_arith)
        requires
            bsum * bsum <= 3 * (g * g),
            g >= 0,
    ;
    lemma_square_le_rev(bsum, 2 * g);
    // from g to e
    assert(g <= e) by (nonlinear_arith)
        requires
            g == n * (m + 1),
            e == m * (n + 1),
            n <= m,
    ;
    lemma_square_le(g, e);
    assert(m * bsum <= m * (2 * e)) by (nonlinear_arith)
        requires
            bsum <= 2 * g,
            g <= e,
            m >= 1,
    ;
    let k = (n + 3) * (n + 3) - 1;
    assert(e * e + 2 * (m * (2 * e)) + 3 * mm == mm * k) by (nonlinear_arith)
        requires
            e == m * (n + 1),
            mm == m * m,
            k == (n + 3) * (n + 3) - 1,
    ;
    assert(big_o * mm <= k * mm) by (nonlinear_arith)
        requires
            big_o * mm <= q * p + 2 * (m * bsum) + 3 * mm,
            q * p <= g * g,
            g * g <= e * e,
            m * bsum <= m * (2 * e),
            e * e + 2 * (m * (2 * e)) + 3 * mm == mm * k,
    ;
    assert(mm > 0) by (nonlinear_arith)
        requires
            mm == m * m,
            m >= 1,
    ;
    lemma_cancel_le(big_o, k, mm);
}

/// The heading `h` with its speed brought into `[min, max]`.
///
/// A heading faster than `max` is scaled by `max` over its length rounded up,
/// each coordinate rounded toward zero, so that it is no faster than `max`. A
/// heading slower than `min` is scaled by `min` over its length, the length
/// taken as the root of `min * min` times its square, rounded down, over
/// `min`, and each coordinate rounded away from zero, so that it is no slower
/// than `min`. The zero heading, which has no direction, becomes the heading
/// of speed `min` along the first axis.
pub open spec fn limited(h: SpecVector, min: int, max: int) -> SpecVector {
    let s = h.norm_sq();
    if s > max * max {
        let m = ceil_sqrt(s);
        SpecVector {
            x: trunc_div(h.x * max, m),
            y: trunc_div(h.y * max, m),
            z: trunc_div(h.z * max, m),
        }
    } else if s < min * min {
        if s == 0 {
            SpecVector { x: min, y: 0, z: 0 }
        } else {
            let p = min * min;
            let m = floor_sqrt(s * p);
            SpecVector {
                x: away_div(h.x * p, m),
                y: away_div(h.y * p, m),
                z: away_div(h.z * p, m),
            }
        }
    } else {
        h
    }
}

/// A number and its magnitude have the same square, and the magnitude of a
/// product with a non-negative factor is the magnitude times the factor.
pub proof fn lemma_magnitude(v: int, k: int)
    requires
        k >= 0,
    ensures
        magnitude(v) >= 0,
        magnitude(v) * magnitude(v) == v * v,
        magnitude(v * k) == magnitude(v) * k,
{
    assert(magnitude(v) * magnitude(v) == v * v) by (nonlinear_arith)
        requires
            magnitude(v) == v || magnitude(v) == -v,
    ;
    if v >= 0 {
        assert(v * k >= 0) by (nonlinear_arith)
            requires
                v >= 0,
                k >= 0,
        ;
    } else {
        assert(v * k <= 0 && -(v * k) == (-v) * k) by (nonlinear_arith)
            requires
                v < 0,
                k >= 0,
        ;
    }
}

/// The speed bound: whatever the heading, the limited heading is no slower
/// than `min` and no faster than `max`.
pub proof fn lemma_speed_bound(h: SpecVector, min: int, max: int)
    requires
        0 <= min,
        min + 3 <= max,
    ensures
        min * min <= limited(h, min, max).norm_sq() <= max * max,
{
    let s = h.norm_sq();
    let r = limited(h, min, max);
    let a1 = magnitude(h.x);
    let a2 = magnitude(h.y);
    let a3 = magnitude(h.z);
    let o1 = magnitude(r.x);
    let o2 = magnitude(r.y);
    let o3 = magnitude(r.z);
    lemma_magnitude(r.x, 0);
    lemma_magnitude(r.y, 0);
    lemma_magnitude(r.z, 0);
    lemma_square_le(min, max);
    assert(s >= 0) by (nonlinear_arith)
        requires
            s == h.x * h.x + h.y * h.y + h.z * h.z,
    ;
    if s > max * max {
        let m = ceil_sqrt(s);
        lemma_ceil_sqrt(s);
        assert(max < m) by {
            if m <= max {
                lemma_square_le(m, max);
            }
        }
        lemma_magnitude(h.x, max);
        lemma_magnitude(h.y, max);
        lemma_magnitude(h.z, max);
        lemma_trunc_magnitude(h.x * max, m);
        lemma_trunc_magnitude(h.y * max, m);
        lemma_trunc_magnitude(h.z * max, m);
        lemma_shrunk_at_most(a1, a2, a3, o1, o2, o3, max, m);
        lemma_shrunk_at_least(a1, a2, a3, o1, o2, o3, max, m);
        lemma_square_le(min, max - 3);
    } else if s < min * min {
        if s == 0 {
            assert(r.norm_sq() == min * min);
        } else {
            let p = min * min;
            let m = floor_sqrt(s * p);
            assert(min >= 1) by (nonlinear_arith)
                requires
                    0 <= min,
                    0 < min * min,
            ;
            assert(s * p >= p) by (nonlinear_arith)
                requires
                    s >= 1,
                    p >= 0,
            ;
            lemma_floor_sqrt(s * p);
            assert(min <= m) by {
                if m < min {
                    lemma_square_le(m + 1, min);
                }
            }
            lemma_magnitude(h.x, p);
            lemma_magnitude(h.y, p);
            lemma_magnitude(h.z, p);
            lemma_away_magnitude(h.x * p, m);
            lemma_away_magnitude(h.y * p, m);
            lemma_away_magnitude(h.z * p, m);
            lemma_grown_at_least(a1, a2, a3, o1, o2, o3, min, p, m);
            lemma_grown_at_most(a1, a2, a3, o1, o2, o3, min, p, m);
            lemma_square_le(min + 3, max);
        }
    }
}

/// A vector whose length is at most `b` has no coordinate above `b` in
/// magnitude.
pub proof fn lemma_coordinates_within(v: SpecVector, b: int)
    requires
        0 <= b,
        v.norm_sq() <= b * b,
    ensures
        v.within(b),
{
    lemma_magnitude(v.x, 0);
    lemma_magnitude(v.y, 0);
    lemma_magnitude(v.z, 0);
    lemma_square_le_rev(magnitude(v.x), b);
    lemma_square_le_rev(magnitude(v.y), b);
    lemma_square_le_rev(magnitude(v.z), b);
}

/// Brings the speed of the heading `h` into `[min_speed, max_speed]`.
pub fn limit_speed(h: Vector, config: &Config) -> (r: Vector)
    requires
        config.wf(),
    ensures
        r@ == limited(h@, config.min_speed as int, config.max_speed as int),
        config.min_speed * config.min_speed <= r@.norm_sq() <= config.max_speed * config.max_speed,
        r.wf(),
{
    let max: i128 = config.max_speed as i128;
    let min: i128 = config.min_speed as i128;
    proof {
        lemma_speed_bound(h@, min as int, max as int);
        lemma_coordinates_within(limited(h@, min as int, max as int), max as int);
        lemma_square_le(min as int, 0x8000_0000);
        lemma_square_le(max as int, 0x8000_0000);
    }
    let s: u128 = h.norm_sq();
    let max_sq: u128 = (max * max) as u128;
    let min_sq: u128 = (min * min) as u128;
    if s > max_sq {
        let m: i128 = isqrt_up(s) as i128;
        proof {
            lemma_ceil_sqrt(s as int);
            lemma_product_bound(h.x as int, max as int, 0x8000_0000_0000_0000, 0x8000_0000);
            lemma_product_bound(h.y as int, max as int, 0x8000_0000_0000_0000, 0x8000_0000);
            lemma_product_bound(h.z as int, max as int, 0x8000_0000_0000_0000, 0x8000_0000);
        }
        let x: i128 = div_trunc(h.x as i128 * max, m);
        let y: i128 = div_trunc(h.y as i128 * max, m);
        let z: i128 = div_trunc(h.z as i128 * max, m);
        Vector { x: x as i64, y: y as i64, z: z as i64 }
    } else if s < min_sq {
        if s == 0 {
            Vector { x: config.min_speed, y: 0, z: 0 }
        } else {
            proof {
                assert(s * min_sq <= 0x4000_0000_0000_0000 * 0x4000_0000_0000_0000)
                    by (nonlinear_arith)
                    requires
                        0 <= s < min_sq,
                        min_sq <= 0x4000_0000_0000_0000,
                ;
                lemma_floor_sqrt(s as int * min_sq as int);
                lemma_coordinates_within(h@, min as int);
                lemma_product_bound(h.x as int, min_sq as int, 0x8000_0000, 0x4000_0000_0000_0000);
                lemma_product_bound(h.y as int, min_sq as int, 0x8000_0000, 0x4000_0000_0000_0000);
                lemma_product_bound(h.z as int, min_sq as int, 0x8000_0000, 0x4000_0000_0000_0000);
            }
            let m: i128 = isqrt(s * min_sq) as i128;
            proof {
                assert(m > 0) by (nonlinear_arith)
                    requires
                        (m + 1) * (m + 1) > s * min_sq,
                        s >= 1,
                        min_sq >= 1,
                        m >= 0,
                ;
            }
            let p: i128 = min_sq as i128;
            let x: i128 = div_away(h.x as i128 * p, m);
            let y: i128 = div_away(h.y as i128 * p, m);
            let z: i128 = div_away(h.z as i128 * p, m);
            Vector { x: x as i64, y: y as i64, z: z as i64 }
        }
    } else {
        h
    }
}

/// A product of two bounded numbers is bounded by the product of the bounds.
pub proof fn lemma_product_bound(v: int, k: int, bv: int, bk: int)
    requires
        -bv <= v <= bv,
        0 <= k <= bk,
    ensures
        -(bv * bk) <= v * k <= bv * bk,
{
    assert(-(bv * bk) <= v * k <= bv * bk) by (nonlinear_arith)
        requires
            -bv <= v <= bv,
            0 <= k <= bk,
    ;
}

} // verus!
