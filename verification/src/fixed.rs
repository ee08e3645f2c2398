//! Fixed-point arithmetic.
//!
//! Lengths, coordinates and angles are signed integers that count 1/65536ths
//! of a unit (sixteen fractional bits). Every quotient is rounded down.

use vstd::prelude::*;

verus! {

/// The number one.
pub const ONE: i64 = 65536;

/// One half.
pub const HALF: i64 = 32768;

/// Half a turn, in radians.
pub const PI: i64 = 205887;

/// A full turn, in radians: exactly twice `PI`.
pub const TAU: i64 = 411774;

/// The largest magnitude of a coordinate that counts as finite.
pub const COORD_MAX: i64 = 0x3fff_ffff_ffff_ffff;

/// Whether `x` is a coordinate of finite magnitude.
pub open spec fn finite(x: int) -> bool {
    -COORD_MAX <= x <= COORD_MAX
}

/// Whether `c` is a sine or cosine: a fixed-point number between -1 and 1.
pub open spec fn unit_range(c: int) -> bool {
    -ONE <= c <= ONE
}

/// The magnitude of `x`.
pub open spec fn magnitude(x: int) -> int {
    if x < 0 {
        -x
    } else {
        x
    }
}

/// The whole part of a fixed-point number, rounded toward zero.
pub open spec fn trunc(x: int) -> int {
    if x >= 0 {
        x / (ONE as int)
    } else {
        -((-x) / (ONE as int))
    }
}

/// `a / b` rounded down, for a positive `b`.
pub fn div_floor(a: i128, b: i128) -> (q: i128)
    requires
        b > 0,
    ensures
        q == a as int / b as int,
{
    if a >= 0 {
        a / b
    } else {
        // -a would overflow for the least value, so divide a + 1 instead
        let m: i128 = -(a + 1);
        let t: i128 = m / b;
        proof {
            lemma_div_negative(a as int, b as int);
        }
        -t - 1
    }
}

/// For negative `a` and positive `b`, the floor of `a / b` is `-((-a - 1) / b) - 1`.
pub proof fn lemma_div_negative(a: int, b: int)
    requires
        a < 0,
        b > 0,
    ensures
        a / b == -((-(a + 1)) / b) - 1,
{
    let m = -(a + 1);
    let t = m / b;
    let r = m % b;
    vstd::arithmetic::div_mod::lemma_fundamental_div_mod(m, b);
    vstd::arithmetic::div_mod::lemma_mod_bound(m, b);
    // m == b * t + r, so a == -m - 1 == b * (-t - 1) + (b - 1 - r)
    assert(b * (-t - 1) == -(b * t) - b) by (nonlinear_arith);
    assert(a == b * (-t - 1) + (b - 1 - r));
    vstd::arithmetic::div_mod::lemma_fundamental_div_mod_converse(a, b, -t - 1, b - 1 - r);
}

/// A quotient by a positive number is no larger in magnitude than the dividend, and has its
/// sign.
pub proof fn lemma_quotient_bound(n: int, b: int)
    requires
        b >= 1,
    ensures
        n >= 0 ==> 0 <= n / b <= n,
        n < 0 ==> n <= n / b < 0,
{
    let q = n / b;
    let r = n % b;
    vstd::arithmetic::div_mod::lemma_fundamental_div_mod(n, b);
    vstd::arithmetic::div_mod::lemma_mod_bound(n, b);
    if n >= 0 {
        assert(0 <= q <= n) by (nonlinear_arith)
            requires
                n == b * q + r,
                0 <= r < b,
                b >= 1,
                n >= 0,
        ;
    } else {
        assert(n <= q < 0) by (nonlinear_arith)
            requires
                n == b * q + r,
                0 <= r < b,
                b >= 1,
                n < 0,
        ;
    }
}

/// A quotient of a multiple: `(a * k) / d` from the quotient and remainder of `a / d`.
pub proof fn lemma_scaled_quotient(a: int, k: int, d: int)
    requires
        a >= 0,
        k >= 0,
        d > 0,
    ensures
        (a * k) / d == (a / d) * k + ((a % d) * k) / d,
{
    let q = a / d;
    let r = a % d;
    vstd::arithmetic::div_mod::lemma_fundamental_div_mod(a, d);
    let t = (r * k) / d;
    let s = (r * k) % d;
    vstd::arithmetic::div_mod::lemma_fundamental_div_mod(r * k, d);
    vstd::arithmetic::div_mod::lemma_mod_bound(r * k, d);
    assert(a * k == d * (q * k + t) + s) by (nonlinear_arith)
        requires
            a == d * q + r,
            r * k == d * t + s,
    ;
    vstd::arithmetic::div_mod::lemma_fundamental_div_mod_converse(a * k, d, q * k + t, s);
}

/// Whether `r` is the integer square root of `n`: the largest number whose square does not
/// exceed `n`.
pub open spec fn is_sqrt(r: int, n: int) -> bool {
    r >= 0 && r * r <= n < (r + 1) * (r + 1)
}

/// The integer square root of `n`.
pub open spec fn sqrt_floor(n: int) -> int {
    choose|r: int| is_sqrt(r, n)
}

/// A number has at most one integer square root.
pub proof fn lemma_sqrt_unique(r: int, s: int, n: int)
    by (nonlinear_arith)
    requires
        is_sqrt(r, n),
        is_sqrt(s, n),
    ensures
        r == s,
{
    if r < s {
        assert((r + 1) * (r + 1) <= s * s);
    } else if s < r {
        assert((s + 1) * (s + 1) <= r * r);
    }
}

/// Every number that is not negative has an integer square root.
pub proof fn lemma_sqrt_exists(n: int)
    requires
        n >= 0,
    ensures
        is_sqrt(sqrt_floor(n), n),
    decreases n,
{
    if n == 0 {
        assert(is_sqrt(0, 0));
    } else {
        lemma_sqrt_exists(n - 1);
        let r = sqrt_floor(n - 1);
        if (r + 1) * (r + 1) <= n {
            assert(is_sqrt(r + 1, n)) by (nonlinear_arith)
                requires
                    r >= 0,
                    n - 1 < (r + 1) * (r + 1),
                    (r + 1) * (r + 1) <= n,
            ;
        } else {
            assert(is_sqrt(r, n));
        }
    }
}

/// The integer square root of `n` is at least every number whose square does not exceed `n`.
pub proof fn lemma_sqrt_at_least(a: int, n: int)
    requires
        a >= 0,
        a * a <= n,
    ensures
        sqrt_floor(n) >= a,
{
    assert(a * a >= 0) by (nonlinear_arith);
    lemma_sqrt_exists(n);
    let r = sqrt_floor(n);
    if r < a {
        assert((r + 1) * (r + 1) <= a * a) by (nonlinear_arith)
            requires
                0 <= r,
                r + 1 <= a,
        ;
    }
}

/// The integer square root: the largest `r` whose square does not exceed `n`.
pub fn isqrt(n: u128) -> (r: u64)
    ensures
        is_sqrt(r as int, n as int),
        r == sqrt_floor(n as int),
{
    let mut lo: u128 = 0;
    let mut hi: u128 = 0x1_0000_0000_0000_0000;
    while hi - lo > 1
        invariant
            lo < hi <= 0x1_0000_0000_0000_0000,
            lo * lo <= n,
            n < hi * hi,
        decreases hi - lo,
    {
        let mid: u128 = lo + (hi - lo) / 2;
        assert(mid * mid <= u128::MAX) by (nonlinear_arith)
            requires
                mid <= 0xffff_ffff_ffff_ffff,
        ;
        if mid * mid <= n {
            lo = mid;
        } else {
            hi = mid;
        }
    }
    proof {
        assert(is_sqrt(lo as int, n as int));
        lemma_sqrt_unique(lo as int, sqrt_floor(n as int), n as int);
    }
    lo as u64
}

/// The angle between -PI (exclusive) and PI (inclusive) that differs from `a`
/// by a whole number of turns.
pub open spec fn normalized(a: int) -> int {
    PI - ((PI - a) % (TAU as int))
}

/// A normalized angle lies in the half-open range from -PI to PI and differs from the angle
/// it was made of by whole turns.
pub proof fn lemma_normalized(a: int)
    ensures
        -PI < normalized(a) <= PI,
        (a - normalized(a)) % (TAU as int) == 0,
{
    let d = PI - a;
    vstd::arithmetic::div_mod::lemma_fundamental_div_mod(d, TAU as int);
    vstd::arithmetic::div_mod::lemma_mod_bound(d, TAU as int);
    let q = d / (TAU as int);
    assert(a - normalized(a) == TAU * (-q)) by (nonlinear_arith)
        requires
            d == TAU * q + d % (TAU as int),
            normalized(a) == PI - d % (TAU as int),
            d == PI - a,
    ;
    vstd::arithmetic::div_mod::lemma_mod_multiples_basic(-q, TAU as int);
    assert(TAU * (-q) == (-q) * TAU) by (nonlinear_arith);
}

/// The angle from the heading `heading` to the bearing `bearing`, brought into the half-open
/// range from -PI to PI.
pub fn relative_angle(bearing: i64, heading: i64) -> (r: i64)
    ensures
        r == normalized(bearing - heading),
        -PI < r <= PI,
{
    let d: i128 = PI as i128 - (bearing as i128 - heading as i128);
    let q: i128 = div_floor(d, TAU as i128);
    let m: i128 = d - q * (TAU as i128);
    proof {
        vstd::arithmetic::div_mod::lemma_fundamental_div_mod(d as int, TAU as int);
        vstd::arithmetic::div_mod::lemma_mod_bound(d as int, TAU as int);
        lemma_normalized(bearing - heading);
    }
    (PI as i128 - m) as i64
}

} // verus!
