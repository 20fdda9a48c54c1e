//! Shared fixed-point arithmetic: clamping, rounded division, and an
//! integer square root, together with the range lemmas the parameter
//! mappings rely on.

use vstd::arithmetic::div_mod::lemma_basic_div;
use vstd::arithmetic::div_mod::lemma_fundamental_div_mod;
use vstd::arithmetic::div_mod::lemma_fundamental_div_mod_converse;
use vstd::arithmetic::div_mod::lemma_mod_division_less_than_divisor;
use vstd::arithmetic::div_mod::lemma_div_is_ordered;
use vstd::arithmetic::div_mod::lemma_div_multiples_vanish;
use vstd::arithmetic::div_mod::lemma_div_pos_is_pos;
use vstd::arithmetic::div_mod::lemma_hoist_over_denominator;
use vstd::arithmetic::mul::lemma_mul_inequality;
use vstd::prelude::*;

verus! {

/// Clamps `x` into `[lo, hi]`.
pub open spec fn clamp(x: int, lo: int, hi: int) -> int {
    if x <= lo {
        lo
    } else if x >= hi {
        hi
    } else {
        x
    }
}

/// Division rounded to the nearest integer, halves rounded up.
/// Meaningful for `num >= 0` and `den > 0`.
pub open spec fn round_div(num: int, den: int) -> int {
    (2 * num + den) / (2 * den)
}

/// A quotient of a bounded non-negative numerator stays in `[0, hi]`.
pub proof fn lemma_div_in_range(num: int, den: int, hi: int)
    requires
        den > 0,
        0 <= num,
        num <= den * hi,
    ensures
        0 <= num / den <= hi,
{
    lemma_div_pos_is_pos(num, den);
    lemma_div_is_ordered(num, den * hi, den);
    lemma_div_multiples_vanish(hi, den);
}

/// Rounded division of a bounded non-negative numerator stays in `[0, hi]`.
pub proof fn lemma_round_div_in_range(num: int, den: int, hi: int)
    requires
        den > 0,
        0 <= num,
        num <= den * hi,
    ensures
        0 <= round_div(num, den) <= hi,
{
    lemma_div_pos_is_pos(2 * num + den, 2 * den);
    assert(2 * num + den <= den + hi * (2 * den)) by (nonlinear_arith)
        requires
            num <= den * hi,
    ;
    lemma_div_is_ordered(2 * num + den, den + hi * (2 * den), 2 * den);
    lemma_hoist_over_denominator(den, hi, (2 * den) as nat);
    lemma_basic_div(den, 2 * den);
}

/// Exact multiples divide back to the multiplier.
pub proof fn lemma_mul_div_exact(a: int, d: int)
    requires
        d > 0,
    ensures
        (a * d) / d == a,
{
    lemma_div_multiples_vanish(a, d);
    assert(a * d == d * a) by (nonlinear_arith);
}

/// Negating a numerator costs at most one in the quotient:
/// `(-x) / d >= -(x / d) - 1`.
pub proof fn lemma_neg_div_lower(x: int, d: int)
    requires
        d > 0,
        x >= 0,
    ensures
        (-x) / d >= -(x / d) - 1,
{
    lemma_fundamental_div_mod(x, d);
    lemma_mod_division_less_than_divisor(x, d);
    let q = x / d;
    let r = x % d;
    if r == 0 {
        assert(-x == (-q) * d + 0) by (nonlinear_arith)
            requires
                x == d * q + r && r == 0,
        ;
        lemma_fundamental_div_mod_converse(-x, d, -q, 0);
    } else {
        assert(-x == (-q - 1) * d + (d - r)) by (nonlinear_arith)
            requires
                x == d * q + r,
        ;
        lemma_fundamental_div_mod_converse(-x, d, -q - 1, d - r);
    }
}

/// Summing before dividing never loses against dividing first:
/// `(a + b) / d >= a / d + b / d`.
pub proof fn lemma_div_superadd(a: int, b: int, d: int)
    requires
        d > 0,
    ensures
        (a + b) / d >= a / d + b / d,
{
    lemma_fundamental_div_mod(a, d);
    lemma_mod_division_less_than_divisor(a, d);
    lemma_fundamental_div_mod(b, d);
    lemma_mod_division_less_than_divisor(b, d);
    let qa = a / d;
    let ra = a % d;
    let qb = b / d;
    let rb = b % d;
    if ra + rb < d {
        assert(a + b == (qa + qb) * d + (ra + rb)) by (nonlinear_arith)
            requires
                a == d * qa + ra && b == d * qb + rb,
        ;
        lemma_fundamental_div_mod_converse(a + b, d, qa + qb, ra + rb);
    } else {
        assert(a + b == (qa + qb + 1) * d + (ra + rb - d)) by (nonlinear_arith)
            requires
                a == d * qa + ra && b == d * qb + rb,
        ;
        lemma_fundamental_div_mod_converse(a + b, d, qa + qb + 1, ra + rb - d);
    }
}

/// Dividing a difference loses at most one against subtracting the
/// quotients: `(x - y) / d >= x / d - y / d - 1`.
pub proof fn lemma_div_sub_lower(x: int, y: int, d: int)
    requires
        d > 0,
    ensures
        (x - y) / d >= x / d - y / d - 1,
{
    lemma_fundamental_div_mod(x, d);
    lemma_mod_division_less_than_divisor(x, d);
    lemma_fundamental_div_mod(y, d);
    lemma_mod_division_less_than_divisor(y, d);
    let qx = x / d;
    let rx = x % d;
    let qy = y / d;
    let ry = y % d;
    if rx - ry >= 0 {
        assert(x - y == (qx - qy) * d + (rx - ry)) by (nonlinear_arith)
            requires
                x == d * qx + rx && y == d * qy + ry,
        ;
        lemma_fundamental_div_mod_converse(x - y, d, qx - qy, rx - ry);
    } else {
        assert(x - y == (qx - qy - 1) * d + (rx - ry + d)) by (nonlinear_arith)
            requires
                x == d * qx + rx && y == d * qy + ry,
        ;
        lemma_fundamental_div_mod_converse(x - y, d, qx - qy - 1, rx - ry + d);
    }
}

/// A common factor in the numerator and a squared denominator cancel:
/// `(a * b) / (b * b) == a / b`.
pub proof fn lemma_div_mul_cancel(a: int, b: int)
    requires
        b > 0,
    ensures
        (a * b) / (b * b) == a / b,
{
    lemma_fundamental_div_mod(a, b);
    lemma_mod_division_less_than_divisor(a, b);
    let q = a / b;
    let r = a % b;
    assert(a * b == q * (b * b) + r * b) by (nonlinear_arith)
        requires
            a == b * q + r,
    ;
    assert(0 <= r * b < b * b) by (nonlinear_arith)
        requires
            0 <= r < b && b > 0,
    ;
    lemma_fundamental_div_mod_converse(a * b, b * b, q, r * b);
}

/// Scaling a fraction of `d` up to the scale `u` and back loses at most
/// one step of `d` per step of `u`, and never gains:
/// `a - (d / u + 1) <= ((a * u / d) * d) / u <= a`.
pub proof fn lemma_rescale_round_trip(a: int, d: int, u: int)
    requires
        0 <= a <= d,
        0 < d,
        0 < u,
    ensures
        a - (d / u + 1) <= (a * u / d) * d / u <= a,
{
    lemma_fundamental_div_mod(a * u, d);
    lemma_mod_division_less_than_divisor(a * u, d);
    let n = (a * u) / d;
    let r1 = (a * u) % d;
    assert(n * d == a * u - r1) by (nonlinear_arith)
        requires
            a * u == d * n + r1,
    ;
    let q = (n * d) / u;
    lemma_div_is_ordered(n * d, a * u, u);
    lemma_mul_div_exact(a, u);
    lemma_div_is_ordered(a * u - d, n * d, u);
    lemma_hoist_over_denominator(-d, a, u as nat);
    assert((-d) + a * u == a * u - d);
    lemma_neg_div_lower(d, u);
}

/// Division truncated toward zero, total: a zero divisor yields zero.
/// This is the rounding a drag delta uses, so a tiny motion in either
/// direction is a zero step, never a whole one.
pub open spec fn div_trunc(num: int, den: int) -> int {
    if den == 0 {
        0
    } else if num >= 0 && den > 0 {
        num / den
    } else if num < 0 && den > 0 {
        -((-num) / den)
    } else if num >= 0 {
        -(num / (-den))
    } else {
        (-num) / (-den)
    }
}

/// Addition saturated to the machine range of `i64`.
pub open spec fn sat_add_i64(a: int, b: int) -> int {
    clamp(a + b, i64::MIN as int, i64::MAX as int)
}

/// Truncating division, as executable code.
pub(crate) fn exec_div_trunc(num: i128, den: i128) -> (r: i128)
    requires
        num != i128::MIN,
        den != i128::MIN,
    ensures
        r == div_trunc(num as int, den as int),
{
    if den == 0 {
        0
    } else {
        let nm: u128 = if num < 0 {
            (-num) as u128
        } else {
            num as u128
        };
        let dm: u128 = if den < 0 {
            (-den) as u128
        } else {
            den as u128
        };
        let q: u128 = nm / dm;
        proof {
            lemma_div_is_ordered(q as int, nm as int, 1);
            vstd::arithmetic::div_mod::lemma_div_nonincreasing(nm as int, dm as int);
            lemma_div_pos_is_pos(nm as int, dm as int);
        }
        if (num < 0) != (den < 0) {
            -(q as i128)
        } else {
            q as i128
        }
    }
}

/// Saturating addition, as executable code.
pub(crate) fn exec_sat_add_i64(a: i64, b: i128) -> (r: i64)
    requires
        -0x4000_0000_0000_0000_0000_0000_0000_0000 < b
            < 0x4000_0000_0000_0000_0000_0000_0000_0000,
    ensures
        r == sat_add_i64(a as int, b as int),
{
    let s: i128 = (a as i128) + b;
    if s <= i64::MIN as i128 {
        i64::MIN
    } else if s >= i64::MAX as i128 {
        i64::MAX
    } else {
        s as i64
    }
}

/// What it means for `r` to be the floor square root of `n`.
pub open spec fn is_sqrt_floor(n: int, r: int) -> bool {
    &&& 0 <= r
    &&& r * r <= n
    &&& n < (r + 1) * (r + 1)
}

/// The floor square root of a non-negative integer.
pub open spec fn sqrt_floor(n: int) -> int {
    choose|r: int| is_sqrt_floor(n, r)
}

/// Every non-negative integer has a floor square root.
pub proof fn lemma_sqrt_floor_exists(n: int)
    requires
        n >= 0,
    ensures
        is_sqrt_floor(n, sqrt_floor(n)),
    decreases n,
{
    if n == 0 {
        assert(is_sqrt_floor(0, 0));
    } else {
        lemma_sqrt_floor_exists(n - 1);
        let r = sqrt_floor(n - 1);
        if (r + 1) * (r + 1) <= n {
            assert(is_sqrt_floor(n, r + 1)) by (nonlinear_arith)
                requires
                    0 <= r && (r + 1) * (r + 1) <= n && n - 1 < (r + 1) * (r + 1),
            ;
        } else {
            assert(is_sqrt_floor(n, r));
        }
    }
}

/// The floor square root is unique.
pub proof fn lemma_sqrt_floor_unique(n: int, r: int)
    requires
        is_sqrt_floor(n, r),
    ensures
        sqrt_floor(n) == r,
{
    lemma_sqrt_floor_exists(n);
    let r2 = sqrt_floor(n);
    assert(r == r2) by (nonlinear_arith)
        requires
            0 <= r && r * r <= n < (r + 1) * (r + 1) && 0 <= r2 && r2 * r2 <= n < (r2 + 1) * (r2
                + 1),
    ;
}

/// A floor square root stays below any bound whose square exceeds `n`.
pub proof fn lemma_sqrt_floor_le(n: int, b: int)
    requires
        0 <= n,
        0 <= b,
        n <= b * b,
    ensures
        sqrt_floor(n) <= b,
{
    lemma_sqrt_floor_exists(n);
    assert(sqrt_floor(n) <= b) by (nonlinear_arith)
        requires
            is_sqrt_floor(n, sqrt_floor(n)) && 0 <= b && n <= b * b,
    ;
}

/// Integer square root: the floor square root, as executable code.
pub fn isqrt(n: u128) -> (r: u128)
    ensures
        r * r <= n,
        n < (r + 1) * (r + 1),
        r == sqrt_floor(n as int),
{
    let mut lo: u128 = 0;
    let mut hi: u128 = 0x1_0000_0000_0000_0000;
    proof {
        assert(hi * hi > n) by (nonlinear_arith)
            requires
                hi == 0x1_0000_0000_0000_0000u128 && n <= u128::MAX,
        ;
    }
    while lo + 1 < hi
        invariant
            0 <= lo < hi <= 0x1_0000_0000_0000_0000,
            lo * lo <= n,
            hi * hi > n,
        decreases hi - lo,
    {
        let mid: u128 = lo + (hi - lo) / 2;
        proof {
            assert(lo < mid < hi);
            assert(mid * mid <= 0xFFFF_FFFF_FFFF_FFFFu128 * 0xFFFF_FFFF_FFFF_FFFFu128)
                by (nonlinear_arith)
                requires
                    0 <= mid <= 0xFFFF_FFFF_FFFF_FFFFu128,
            ;
        }
        if mid * mid <= n {
            lo = mid;
        } else {
            hi = mid;
        }
    }
    proof {
        lemma_sqrt_floor_unique(n as int, lo as int);
    }
    lo
}

} // verus!
