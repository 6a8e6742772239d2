//! Fixed-point arithmetic helpers for the simulation core.
//!
//! World coordinates, velocities and angles are carried as signed 64-bit
//! integers scaled by 1000 (milliunits, milliunits per second and
//! milliradians), which keeps every update rule in exactly verifiable
//! integer arithmetic.

use vstd::prelude::*;

verus! {

use vstd::arithmetic::div_mod::lemma_div_is_ordered;

/// One world unit expressed in fixed-point steps.
pub const FP: i64 = 1000;

/// pi in milliradians (rounded down).
pub const PI_MILLI: i64 = 3141;

/// 2*pi in milliradians (rounded down).
pub const TAU_MILLI: i64 = 6283;

/// Truncating (round-toward-zero) division, the rounding that machine
/// division performs; the divisor is expected to be positive.
pub open spec fn div_trunc(a: int, b: int) -> int {
    if a >= 0 {
        a / b
    } else {
        -((-a) / b)
    }
}

/// Truncating division on machine integers; the divisor must be positive.
pub fn div_trunc_i64(a: i64, b: i64) -> (r: i64)
    requires
        b > 0,
        a > i64::MIN,
    ensures
        r == div_trunc(a as int, b as int),
{
    if a >= 0 {
        let q: u64 = (a as u64) / (b as u64);
        q as i64
    } else {
        let q: u64 = ((-a) as u64) / (b as u64);
        -(q as i64)
    }
}

/// Truncating division never grows a value's magnitude beyond `m / b`
/// and keeps its sign.
pub proof fn lemma_div_trunc_bounds(a: int, b: int, m: int)
    requires
        b > 0,
        -m <= a <= m,
        0 <= m,
    ensures
        -(m / b) <= div_trunc(a, b) <= m / b,
        a >= 0 ==> div_trunc(a, b) >= 0,
        a <= 0 ==> div_trunc(a, b) <= 0,
{
    if a >= 0 {
        lemma_div_is_ordered(a, m, b);
        vstd::arithmetic::div_mod::lemma_div_pos_is_pos(a, b);
    } else {
        lemma_div_is_ordered(-a, m, b);
        vstd::arithmetic::div_mod::lemma_div_pos_is_pos(-a, b);
    }
}

/// A dividend bounded by `k` times the divisor divides to at most `k` in
/// magnitude.
pub proof fn lemma_div_trunc_scaled(a: int, b: int, k: int)
    requires
        b > 0,
        k >= 0,
        -(k * b) <= a <= k * b,
    ensures
        -k <= div_trunc(a, b) <= k,
        a >= 0 ==> div_trunc(a, b) >= 0,
        a <= 0 ==> div_trunc(a, b) <= 0,
{
    lemma_div_trunc_bounds(a, b, k * b);
    assert((k * b) / b == k) by {
        vstd::arithmetic::div_mod::lemma_div_multiples_vanish(k, b);
        assert(k * b == b * k) by (nonlinear_arith);
    }
}

/// Scaling a truncated quotient back up never exceeds the dividend.
pub proof fn lemma_div_trunc_recover(a: int, b: int)
    requires
        b > 0,
    ensures
        b * iabs(div_trunc(a, b)) <= iabs(a),
{
    if a >= 0 {
        vstd::arithmetic::div_mod::lemma_fundamental_div_mod(a, b);
        vstd::arithmetic::div_mod::lemma_mod_division_less_than_divisor(a, b);
        vstd::arithmetic::div_mod::lemma_div_pos_is_pos(a, b);
    } else {
        vstd::arithmetic::div_mod::lemma_fundamental_div_mod(-a, b);
        vstd::arithmetic::div_mod::lemma_mod_division_less_than_divisor(-a, b);
        vstd::arithmetic::div_mod::lemma_div_pos_is_pos(-a, b);
    }
}

/// The magnitude of an integer.
pub open spec fn iabs(a: int) -> int {
    if a >= 0 {
        a
    } else {
        -a
    }
}

/// The smaller of two integers.
pub open spec fn imin(a: int, b: int) -> int {
    if a <= b {
        a
    } else {
        b
    }
}

/// The larger of two integers.
pub open spec fn imax(a: int, b: int) -> int {
    if a <= b {
        b
    } else {
        a
    }
}

pub fn min_i64(a: i64, b: i64) -> (r: i64)
    ensures
        r == imin(a as int, b as int),
{
    if a <= b {
        a
    } else {
        b
    }
}

pub fn max_i64(a: i64, b: i64) -> (r: i64)
    ensures
        r == imax(a as int, b as int),
{
    if a <= b {
        b
    } else {
        a
    }
}

/// Integer square root, rounded down.
pub open spec fn sqrt_floor(n: nat) -> nat
    decreases n,
{
    if n == 0 {
        0
    } else {
        let r = sqrt_floor((n - 1) as nat);
        if (r + 1) * (r + 1) <= n {
            r + 1
        } else {
            r
        }
    }
}

pub proof fn lemma_sqrt_floor_bounds(n: nat)
    ensures
        sqrt_floor(n) * sqrt_floor(n) <= n,
        n < (sqrt_floor(n) + 1) * (sqrt_floor(n) + 1),
    decreases n,
{
    if n > 0 {
        lemma_sqrt_floor_bounds((n - 1) as nat);
        let r = sqrt_floor((n - 1) as nat);
        assert(r * r <= n - 1);
        assert(n - 1 < (r + 1) * (r + 1));
        if (r + 1) * (r + 1) <= n {
            assert(sqrt_floor(n) == r + 1);
            assert(n <= (r + 1) * (r + 1));
            assert((r + 1) * (r + 1) < (r + 2) * (r + 2)) by (nonlinear_arith)
                requires r >= 0;
            assert(n < (r + 2) * (r + 2));
            assert(n < (sqrt_floor(n) + 1) * (sqrt_floor(n) + 1));
        } else {
            assert(sqrt_floor(n) == r);
            assert(n < (sqrt_floor(n) + 1) * (sqrt_floor(n) + 1));
        }
    } else {
        assert(sqrt_floor(n) == 0);
        assert(n < (sqrt_floor(n) + 1) * (sqrt_floor(n) + 1)) by (nonlinear_arith)
            requires n == 0, sqrt_floor(n) == 0;
    }
}

pub proof fn lemma_sqrt_floor_unique(n: nat, r: nat)
    requires
        r * r <= n,
        n < (r + 1) * (r + 1),
    ensures
        r == sqrt_floor(n),
{
    lemma_sqrt_floor_bounds(n);
    let s = sqrt_floor(n);
    if r < s {
        assert((r + 1) * (r + 1) <= s * s) by (nonlinear_arith)
            requires r + 1 <= s;
    }
    if s < r {
        assert((s + 1) * (s + 1) <= r * r) by (nonlinear_arith)
            requires s + 1 <= r;
    }
}

/// The square root never decreases.
pub proof fn lemma_sqrt_floor_mono(a: nat, b: nat)
    requires
        a <= b,
    ensures
        sqrt_floor(a) <= sqrt_floor(b),
    decreases b,
{
    if a < b {
        lemma_sqrt_floor_mono(a, (b - 1) as nat);
    }
}

/// The square root of a perfect square is exact.
pub proof fn lemma_sqrt_floor_square(k: nat)
    ensures
        sqrt_floor(k * k) == k,
{
    assert(k * k < (k + 1) * (k + 1)) by (nonlinear_arith)
        requires k >= 0;
    lemma_sqrt_floor_unique(k * k, k);
}

/// Integer square root by bisection.
pub fn isqrt_u64(n: u64) -> (r: u64)
    ensures
        r == sqrt_floor(n as nat),
        r * r <= n,
        n < (r + 1) * (r + 1),
{
    let mut lo: u64 = 0;
    let mut hi: u64 = 4294967295;
    proof {
        assert(n < (4294967295u64 + 1) * (4294967295u64 + 1)) by (nonlinear_arith)
            requires n <= 0xffff_ffff_ffff_ffffu64;
    }
    while lo < hi
        invariant
            lo <= hi,
            hi <= 4294967295,
            lo * lo <= n,
            n < (hi + 1) * (hi + 1),
        decreases hi - lo,
    {
        let mid: u64 = lo + (hi - lo + 1) / 2;
        proof {
            assert(mid * mid <= 4294967295u64 * 4294967295u64) by (nonlinear_arith)
                requires 0 <= mid <= 4294967295u64;
        }
        if mid * mid <= n {
            lo = mid;
        } else {
            hi = mid - 1;
        }
    }
    proof {
        lemma_sqrt_floor_unique(n as nat, lo as nat);
    }
    lo
}

/// Rational approximation of the sine on `[0, PI_MILLI]` milliradians,
/// scaled by 1000; always lands in `[0, 1000]`.
pub open spec fn sin_half_spec(x: int) -> int {
    let u = x * (3141 - x);
    (16000 * u) / (49331205 - 4 * u)
}

/// Sine of a phase given in milliradians, scaled by 1000.
pub open spec fn sin_milli_spec(phase: int) -> int
    recommends
        phase >= 0,
{
    let x = phase % 6283;
    if x <= 3141 {
        sin_half_spec(x)
    } else {
        -sin_half_spec(x - 3142)
    }
}

/// Cosine as the quarter-period phase shift of the sine.
pub open spec fn cos_milli_spec(phase: int) -> int
    recommends
        phase >= 0,
{
    sin_milli_spec(phase + 1570)
}

proof fn lemma_sin_half_bounds(x: int)
    requires
        0 <= x <= 3141,
    ensures
        0 <= sin_half_spec(x) <= 1000,
{
    assert(0 <= x * (3141 - x) && 4 * (x * (3141 - x)) <= 3141 * 3141) by (nonlinear_arith)
        requires 0 <= x <= 3141;
    let u = x * (3141 - x);
    let den = 49331205 - 4 * u;
    assert(den >= 39465324);
    assert(16000 * u <= 1000 * den) by (nonlinear_arith)
        requires 20 * u <= 49331205, den == 49331205 - 4 * u;
    lemma_div_is_ordered(16000 * u, 1000 * den, den);
    assert((1000 * den) / den == 1000) by {
        vstd::arithmetic::div_mod::lemma_div_multiples_vanish(1000, den);
    }
    vstd::arithmetic::div_mod::lemma_div_pos_is_pos(16000 * u, den);
}

/// The sine approximation stays within one unit of amplitude.
pub proof fn lemma_sin_milli_bounds(phase: int)
    requires
        phase >= 0,
    ensures
        -1000 <= sin_milli_spec(phase) <= 1000,
{
    let x = phase % 6283;
    vstd::arithmetic::div_mod::lemma_mod_division_less_than_divisor(phase, 6283);
    if x <= 3141 {
        lemma_sin_half_bounds(x);
    } else {
        lemma_sin_half_bounds(x - 3142);
    }
}

pub fn sin_milli(phase: u64) -> (r: i64)
    ensures
        r == sin_milli_spec(phase as int),
        -1000 <= r <= 1000,
{
    let x: u64 = phase % 6283;
    proof {
        lemma_sin_milli_bounds(phase as int);
    }
    if x <= 3141 {
        sin_half(x)
    } else {
        -sin_half(x - 3142)
    }
}

pub fn cos_milli(phase: u64) -> (r: i64)
    requires
        phase + 1570 <= u64::MAX,
    ensures
        r == cos_milli_spec(phase as int),
        -1000 <= r <= 1000,
{
    sin_milli(phase + 1570)
}

fn sin_half(x: u64) -> (r: i64)
    requires
        x <= 3141,
    ensures
        r == sin_half_spec(x as int),
        0 <= r <= 1000,
{
    proof {
        lemma_sin_half_bounds(x as int);
        assert(0 <= x * (3141 - x) && 4 * (x * (3141 - x)) <= 3141 * 3141) by (nonlinear_arith)
            requires 0 <= x <= 3141;
    }
    let u: u64 = x * (3141 - x);
    let den: u64 = 49331205 - 4 * u;
    let num: u64 = 16000 * u;
    let q: u64 = num / den;
    q as i64
}

} // verus!
