//! Exact integer helpers for the fixed-point filter arithmetic: widening
//! multiplication, floor and round-to-nearest division, and a polynomial
//! evaluation of `sin(pi * x)` in binary fixed point.

use vstd::arithmetic::div_mod::{
    lemma_div_is_ordered, lemma_fundamental_div_mod, lemma_fundamental_div_mod_converse,
};
use vstd::arithmetic::mul::lemma_mul_inequality;
use vstd::prelude::*;

verus! {

/// One unit in the Q30 format (values scaled by 2^30).
pub const Q30: i64 = 0x4000_0000;

/// One unit in the Q32 format (values scaled by 2^32).
pub const Q32: i64 = 0x1_0000_0000;

/// One unit in the Q60 format (values scaled by 2^60).
pub const Q60: u64 = 0x1000_0000_0000_0000;

/// The widening product of two unsigned words.
pub fn mul_u64(a: u64, b: u64) -> (r: u128)
    ensures
        r == a * b,
{
    assert((a as u128) * (b as u128) < 0x1_0000_0000_0000_0000_0000_0000_0000_0000)
        by (nonlinear_arith)
        requires
            a <= u64::MAX,
            b <= u64::MAX,
    ;
    (a as u128) * (b as u128)
}

/// The widening product of two signed words.
pub fn mul_i64(a: i64, b: i64) -> (r: i128)
    ensures
        r == a * b,
{
    assert(-0x4000_0000_0000_0000_0000_0000_0000_0000 <= (a as i128) * (b as i128)
        <= 0x4000_0000_0000_0000_0000_0000_0000_0000) by (nonlinear_arith)
        requires
            i64::MIN <= a <= i64::MAX,
            i64::MIN <= b <= i64::MAX,
    ;
    (a as i128) * (b as i128)
}

proof fn lemma_neg_div(m: int, d: int)
    requires
        m >= 0,
        d > 0,
    ensures
        (-m) / d == -((m + d - 1) / d),
{
    lemma_fundamental_div_mod(m, d);
    let q = m / d;
    let r = m % d;
    assert(q * d == d * q && (-q) * d == -(d * q) && (-q - 1) * d == -(d * q) - d && (q + 1) * d
        == d * q + d) by (nonlinear_arith);
    if r == 0 {
        lemma_fundamental_div_mod_converse(-m, d, -q, 0);
        lemma_fundamental_div_mod_converse(m + d - 1, d, q, d - 1);
    } else {
        lemma_fundamental_div_mod_converse(-m, d, -q - 1, d - r);
        lemma_fundamental_div_mod_converse(m + d - 1, d, q + 1, r - 1);
    }
}

/// `n / d` rounded toward negative infinity.
pub fn floor_div_i128(n: i128, d: i128) -> (r: i128)
    requires
        0 < d < 0x1000_0000_0000_0000_0000_0000_0000_0000,
        -0x1000_0000_0000_0000_0000_0000_0000_0000 < n
            < 0x1000_0000_0000_0000_0000_0000_0000_0000,
    ensures
        r == n as int / d as int,
        d * r <= n,
{
    let r: i128 = if n >= 0 {
        n / d
    } else {
        let m = -n;
        let q = (m + d - 1) / d;
        proof {
            lemma_neg_div(m as int, d as int);
        }
        -q
    };
    proof {
        lemma_fundamental_div_mod(n as int, d as int);
    }
    r
}

/// Floor division by a positive divisor shrinks magnitudes.
pub proof fn lemma_div_abs_le(n: int, d: int)
    requires
        d >= 1,
    ensures
        n >= 0 ==> 0 <= n / d <= n,
        n < 0 ==> n <= n / d <= 0,
{
    lemma_fundamental_div_mod(n, d);
    let q = n / d;
    let r = n % d;
    assert((n >= 0 ==> 0 <= q <= n) && (n < 0 ==> n <= q <= 0)) by (nonlinear_arith)
        requires
            n == d * q + r,
            0 <= r < d,
            d >= 1,
    ;
}

/// `n / d` rounded to the nearest integer, halves toward positive infinity.
pub fn round_div_i128(n: i128, d: i128) -> (r: i128)
    requires
        0 < d < 0x200_0000_0000_0000_0000_0000_0000_0000,
        -0x200_0000_0000_0000_0000_0000_0000_0000 < n < 0x200_0000_0000_0000_0000_0000_0000_0000,
    ensures
        r == (2 * n + d) as int / (2 * d) as int,
{
    floor_div_i128(2 * n + d, 2 * d)
}

/// Clamps `x` into `[lo, hi]`.
pub fn clamp_i128(x: i128, lo: i128, hi: i128) -> (r: i128)
    requires
        lo <= hi,
    ensures
        r == crate::coefficients::spec_clamp(x as int, lo as int, hi as int),
        lo <= r <= hi,
{
    if x < lo {
        lo
    } else if x > hi {
        hi
    } else {
        x
    }
}

/// Polynomial coefficients for `sin(z) = z * P(z * z)`, in Q60: the
/// reciprocals of the odd factorials.
pub const SIN_C0: u64 = 1152921504606846976;

pub const SIN_C1: u64 = 192153584101141162;

pub const SIN_C2: u64 = 9607679205057058;

pub const SIN_C3: u64 = 228754266787072;

pub const SIN_C4: u64 = 3177142594264;

pub const SIN_C5: u64 = 28883114493;

pub const SIN_C6: u64 = 185148169;

/// `pi` in Q28.
pub const PI_Q28: u64 = 843314857;

/// `pi` in Q30.
pub const PI_Q30: u64 = 3373259426;

/// One Horner step of the sine polynomial: `c - acc * w / 2^60`, with the
/// subtrahend clamped so the step is total. The clamp never binds for the
/// arguments the sine evaluation produces.
pub open spec fn spec_sin_step(c: u64, acc: u64, w: u64) -> u64 {
    let t = (acc * w) as int / Q60 as int;
    if t > c {
        0u64
    } else {
        (c - t) as u64
    }
}

fn sin_step(c: u64, acc: u64, w: u64) -> (r: u64)
    ensures
        r == spec_sin_step(c, acc, w),
        r <= c,
{
    let prod = mul_u64(acc, w);
    let t = prod / (Q60 as u128);
    if t > c as u128 {
        0
    } else {
        c - (t as u64)
    }
}

/// `sin(pi * u / 2^32) * 2^60`, by quadrant reduction and an odd
/// polynomial; the argument is a nonnegative Q32 position.
pub open spec fn spec_sin_pi_q60(u: int) -> int {
    let a0 = u % (2 * Q32 as int);
    let neg = a0 >= Q32;
    let a1 = if neg {
        a0 - Q32
    } else {
        a0
    };
    let a = if a1 > Q32 as int / 2 {
        Q32 - a1
    } else {
        a1
    };
    let z = PI_Q28 * a;
    let w = (z * z) / Q60 as int;
    let acc5 = spec_sin_step(SIN_C5, SIN_C6, w as u64);
    let acc4 = spec_sin_step(SIN_C4, acc5, w as u64);
    let acc3 = spec_sin_step(SIN_C3, acc4, w as u64);
    let acc2 = spec_sin_step(SIN_C2, acc3, w as u64);
    let acc1 = spec_sin_step(SIN_C1, acc2, w as u64);
    let acc0 = spec_sin_step(SIN_C0, acc1, w as u64);
    let s = (z * acc0) / Q60 as int;
    if neg {
        -s
    } else {
        s
    }
}

/// Evaluates `sin(pi * u / 2^32)` in Q60.
pub fn sin_pi_q60(u: u64) -> (r: i64)
    requires
        u <= 0x10_0000_0000,
    ensures
        r == spec_sin_pi_q60(u as int),
        -0x2000_0000_0000_0000 <= r <= 0x2000_0000_0000_0000,
{
    let a0 = u % (2 * Q32 as u64);
    let neg = a0 >= Q32 as u64;
    let a1 = if neg {
        a0 - Q32 as u64
    } else {
        a0
    };
    let a = if a1 > (Q32 as u64) / 2 {
        Q32 as u64 - a1
    } else {
        a1
    };
    assert(PI_Q28 * a <= PI_Q28 * 0x8000_0000) by (nonlinear_arith)
        requires
            a <= 0x8000_0000,
    ;
    let z = PI_Q28 * a;
    let zz = mul_u64(z, z);
    let w128 = zz / (Q60 as u128);
    proof {
        lemma_mul_inequality(z as int, 1811004865522958336, z as int);
        lemma_mul_inequality(1811004865522958336, 1811004865522958336, z as int);
        lemma_div_is_ordered(
            (z * z) as int,
            1811004865522958336int * 1811004865522958336int,
            Q60 as int,
        );
    }
    let w = w128 as u64;
    let acc5 = sin_step(SIN_C5, SIN_C6, w);
    let acc4 = sin_step(SIN_C4, acc5, w);
    let acc3 = sin_step(SIN_C3, acc4, w);
    let acc2 = sin_step(SIN_C2, acc3, w);
    let acc1 = sin_step(SIN_C1, acc2, w);
    let acc0 = sin_step(SIN_C0, acc1, w);
    let prod = mul_u64(z, acc0);
    proof {
        lemma_mul_inequality(acc0 as int, Q60 as int, z as int);
        lemma_div_is_ordered((z * acc0) as int, (z * Q60) as int, Q60 as int);
        vstd::arithmetic::div_mod::lemma_div_multiples_vanish(z as int, Q60 as int);
        assert(z * acc0 == acc0 * z) by (nonlinear_arith);
        assert(z * Q60 == Q60 * z) by (nonlinear_arith);
    }
    let s = (prod / (Q60 as u128)) as u64;
    if neg {
        -(s as i64)
    } else {
        s as i64
    }
}

} // verus!
