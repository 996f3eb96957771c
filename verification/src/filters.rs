//! The six reconstruction filters as fixed-point kernels.
//!
//! Each filter is an even real function `k(x)`, zero outside its support
//! radius. Positions are Q32 fixed point and kernel values Q30; the
//! transcendental kernels (Hamming, Lanczos3) are evaluated through the
//! sine polynomial of [`crate::fixed`].

use crate::fixed::{
    floor_div_i128, mul_i64, mul_u64, round_div_i128, sin_pi_q60, spec_sin_pi_q60, PI_Q30, Q30,
    Q32,
};
use vstd::prelude::*;

verus! {

/// A reconstruction filter for convolution resizing.
#[derive(Clone, Copy, Debug, PartialEq, Eq, Structural)]
pub enum FilterType {
    /// `k(x) = 1` on `|x| < 1/2`; support radius 1/2.
    Box,
    /// The triangle kernel `k(x) = max(0, 1 - |x|)`; support radius 1.
    Bilinear,
    /// `sinc(x)` under the Hamming window; support radius 1.
    Hamming,
    /// The Mitchell-Netravali cubic with `B = C = 1/3`; support radius 2.
    Mitchell,
    /// The Catmull-Rom cubic; support radius 2.
    CatmullRom,
    /// `sinc(x) * sinc(x / 3)`; support radius 3.
    Lanczos3,
}

impl FilterType {
    /// The numerator of the support radius.
    pub fn radius_num(self) -> (r: u32)
        ensures
            r == spec_radius_num(self),
    {
        match self {
            FilterType::Box => 1,
            FilterType::Bilinear => 1,
            FilterType::Hamming => 1,
            FilterType::Mitchell => 2,
            FilterType::CatmullRom => 2,
            FilterType::Lanczos3 => 3,
        }
    }

    /// The denominator of the support radius.
    pub fn radius_den(self) -> (r: u32)
        ensures
            r == spec_radius_den(self),
    {
        match self {
            FilterType::Box => 2,
            FilterType::Bilinear => 1,
            FilterType::Hamming => 1,
            FilterType::Mitchell => 1,
            FilterType::CatmullRom => 1,
            FilterType::Lanczos3 => 1,
        }
    }
}

/// The numerator of the filter's support radius.
pub open spec fn spec_radius_num(f: FilterType) -> int {
    match f {
        FilterType::Box => 1,
        FilterType::Bilinear => 1,
        FilterType::Hamming => 1,
        FilterType::Mitchell => 2,
        FilterType::CatmullRom => 2,
        FilterType::Lanczos3 => 3,
    }
}

/// The denominator of the filter's support radius.
pub open spec fn spec_radius_den(f: FilterType) -> int {
    match f {
        FilterType::Box => 2,
        _ => 1,
    }
}

/// `sinc(u / 2^32)` in Q30 for a nonnegative Q32 position: the quotient
/// of the fixed-point sine by `pi * u`, clamped into `[-1, 1]`, with the
/// value 1 below a small threshold where the quotient would degenerate.
pub open spec fn spec_sinc_q30(u: int) -> int {
    if u < 65536 {
        Q30 as int
    } else {
        let s = spec_sin_pi_q60(u);
        let px = (PI_Q30 * u) / Q32 as int;
        let r = (2 * s + px) / (2 * px);
        if r > Q30 {
            Q30 as int
        } else if r < -Q30 {
            -Q30 as int
        } else {
            r
        }
    }
}

fn sinc_q30(u: u64) -> (r: i64)
    requires
        u <= 0x4_0000_0000,
    ensures
        r == spec_sinc_q30(u as int),
        -Q30 <= r <= Q30,
{
    if u < 65536 {
        return Q30;
    }
    let s = sin_pi_q60(u);
    let px128 = mul_u64(PI_Q30, u) / (Q32 as u128);
    assert(PI_Q30 * u >= PI_Q30 * 65536) by (nonlinear_arith)
        requires
            u >= 65536,
    ;
    proof {
        assert(PI_Q30 * u <= PI_Q30 * 0x4_0000_0000) by (nonlinear_arith)
            requires
                u <= 0x4_0000_0000,
        ;
        vstd::arithmetic::div_mod::lemma_div_is_ordered(
            (PI_Q30 * 65536) as int,
            (PI_Q30 * u) as int,
            Q32 as int,
        );
        vstd::arithmetic::div_mod::lemma_div_is_ordered(
            (PI_Q30 * u) as int,
            (PI_Q30 * 0x4_0000_0000) as int,
            Q32 as int,
        );
    }
    let px = px128 as i128;
    let r = round_div_i128(s as i128, px);
    if r > Q30 as i128 {
        Q30
    } else if r < -Q30 as i128 {
        -Q30
    } else {
        r as i64
    }
}

/// The Hamming kernel in Q30 on `0 <= u < 1`: `sinc(u)` times
/// `0.54 + 0.46 * cos(pi * u)`.
pub open spec fn spec_hamming_q30(u: int) -> int {
    let s = spec_sinc_q30(u);
    let c = spec_sin_pi_q60(u + Q32 as int / 2);
    let cq30 = c / 0x4000_0000;
    let w = 579820585 + (493921239 * cq30) / Q30 as int;
    (s * w) / Q30 as int
}

fn hamming_q30(u: u64) -> (r: i64)
    requires
        u < Q32 as u64,
    ensures
        r == spec_hamming_q30(u as int),
        -0x1_0000_0000 <= r <= 0x1_0000_0000,
{
    let s = sinc_q30(u);
    let c = sin_pi_q60(u + (Q32 as u64) / 2);
    let cq = floor_div_i128(c as i128, 0x4000_0000);
    proof {
        vstd::arithmetic::div_mod::lemma_div_is_ordered(
            c as int,
            0x2000_0000_0000_0000,
            0x4000_0000,
        );
        vstd::arithmetic::div_mod::lemma_div_is_ordered(
            -0x2000_0000_0000_0000,
            c as int,
            0x4000_0000,
        );
    }
    let cq30 = cq as i64;
    let wd = floor_div_i128(493921239 * (cq30 as i128), Q30 as i128);
    proof {
        vstd::arithmetic::div_mod::lemma_div_is_ordered(
            493921239 * (cq30 as int),
            493921239 * 0x8000_0000int,
            Q30 as int,
        );
        vstd::arithmetic::div_mod::lemma_div_is_ordered(
            493921239 * (-0x8000_0000int),
            493921239 * (cq30 as int),
            Q30 as int,
        );
    }
    let w = (579820585 + wd) as i64;
    let sw = mul_i64(s, w);
    assert(-0x4000_0000_0000_0000 <= sw <= 0x4000_0000_0000_0000)
        by (nonlinear_arith)
        requires
            sw == s * w,
            -Q30 <= s <= Q30,
            -0x1_0000_0000 <= w <= 0x1_0000_0000,
    ;
    let r128 = floor_div_i128(sw, Q30 as i128);
    proof {
        vstd::arithmetic::div_mod::lemma_div_is_ordered(
            sw as int,
            0x4000_0000_0000_0000,
            Q30 as int,
        );
        vstd::arithmetic::div_mod::lemma_div_is_ordered(
            -0x4000_0000_0000_0000,
            sw as int,
            Q30 as int,
        );
    }
    r128 as i64
}

/// The Mitchell-Netravali cubic (`B = C = 1/3`) in Q30 on `0 <= u < 2`.
pub open spec fn spec_mitchell_q30(u: int) -> int {
    let u2 = (u * u) / Q32 as int;
    let u3 = (u2 * u) / Q32 as int;
    let t = if u < Q32 as int {
        16 * Q32 as int + 21 * u3 - 36 * u2
    } else {
        36 * u2 + 32 * Q32 as int - 7 * u3 - 60 * u
    };
    (2 * t + 72) / 144
}

/// The Catmull-Rom cubic in Q30 on `0 <= u < 2`.
pub open spec fn spec_catmull_rom_q30(u: int) -> int {
    let u2 = (u * u) / Q32 as int;
    let u3 = (u2 * u) / Q32 as int;
    let t = if u < Q32 as int {
        3 * u3 + 2 * Q32 as int - 5 * u2
    } else {
        5 * u2 + 4 * Q32 as int - u3 - 8 * u
    };
    (2 * t + 8) / 16
}

fn cubic_powers(u: u64) -> (r: (u64, u64))
    requires
        u < 2 * Q32 as u64,
    ensures
        r.0 == (u * u) as int / Q32 as int,
        r.1 == (r.0 * u) as int / Q32 as int,
        r.0 <= 4 * Q32 as u64,
        r.1 <= 8 * Q32 as u64,
{
    let u2w = mul_u64(u, u) / (Q32 as u128);
    proof {
        assert(u * u <= 0x4_0000_0000_0000_0000) by (nonlinear_arith)
            requires
                u < 2 * Q32 as u64,
        ;
        vstd::arithmetic::div_mod::lemma_div_is_ordered(
            (u * u) as int,
            0x4_0000_0000_0000_0000,
            Q32 as int,
        );
    }
    let u2 = u2w as u64;
    let u3w = mul_u64(u2, u) / (Q32 as u128);
    proof {
        assert(u2 * u <= 0x8_0000_0000_0000_0000) by (nonlinear_arith)
            requires
                u2 <= 4 * Q32 as u64,
                u < 2 * Q32 as u64,
        ;
        vstd::arithmetic::div_mod::lemma_div_is_ordered(
            (u2 * u) as int,
            0x8_0000_0000_0000_0000,
            Q32 as int,
        );
    }
    (u2, u3w as u64)
}

fn mitchell_q30(u: u64) -> (r: i64)
    requires
        u < 2 * Q32 as u64,
    ensures
        r == spec_mitchell_q30(u as int),
        -0x8_0000_0000 <= r <= 0x8_0000_0000,
{
    let (u2, u3) = cubic_powers(u);
    let t: i128 = if u < Q32 as u64 {
        16 * (Q32 as i128) + 21 * (u3 as i128) - 36 * (u2 as i128)
    } else {
        36 * (u2 as i128) + 32 * (Q32 as i128) - 7 * (u3 as i128) - 60 * (u as i128)
    };
    let r = round_div_i128(t, 72);
    proof {
        vstd::arithmetic::div_mod::lemma_div_is_ordered(
            (2 * t + 72) as int,
            2 * 0x200_0000_0000int + 72,
            144,
        );
        vstd::arithmetic::div_mod::lemma_div_is_ordered(
            -(2 * 0x200_0000_0000int) + 72 - 144,
            (2 * t + 72) as int,
            144,
        );
    }
    r as i64
}

fn catmull_rom_q30(u: u64) -> (r: i64)
    requires
        u < 2 * Q32 as u64,
    ensures
        r == spec_catmull_rom_q30(u as int),
        -0x8_0000_0000 <= r <= 0x8_0000_0000,
{
    let (u2, u3) = cubic_powers(u);
    let t: i128 = if u < Q32 as u64 {
        3 * (u3 as i128) + 2 * (Q32 as i128) - 5 * (u2 as i128)
    } else {
        5 * (u2 as i128) + 4 * (Q32 as i128) - (u3 as i128) - 8 * (u as i128)
    };
    let r = round_div_i128(t, 8);
    proof {
        vstd::arithmetic::div_mod::lemma_div_is_ordered(
            (2 * t + 8) as int,
            2 * 0x20_0000_0000int + 8,
            16,
        );
        vstd::arithmetic::div_mod::lemma_div_is_ordered(
            -(2 * 0x20_0000_0000int) + 8 - 16,
            (2 * t + 8) as int,
            16,
        );
    }
    r as i64
}

/// The Lanczos kernel with three lobes in Q30 on `0 <= u < 3`.
pub open spec fn spec_lanczos3_q30(u: int) -> int {
    let s1 = spec_sinc_q30(u);
    let s2 = spec_sinc_q30(u / 3);
    (2 * (s1 * s2) + Q30 as int) / (2 * Q30 as int)
}

fn lanczos3_q30(u: u64) -> (r: i64)
    requires
        u < 3 * Q32 as u64,
    ensures
        r == spec_lanczos3_q30(u as int),
        -0x8000_0000 <= r <= 0x8000_0000,
{
    let s1 = sinc_q30(u);
    let s2 = sinc_q30(u / 3);
    let p = mul_i64(s1, s2);
    assert(-0x1000_0000_0000_0000 <= p <= 0x1000_0000_0000_0000) by (nonlinear_arith)
        requires
            p == s1 * s2,
            -Q30 <= s1 <= Q30,
            -Q30 <= s2 <= Q30,
    ;
    let r = round_div_i128(p, Q30 as i128);
    proof {
        vstd::arithmetic::div_mod::lemma_div_is_ordered(
            (2 * p + Q30) as int,
            2 * 0x1000_0000_0000_0000int + Q30 as int,
            2 * Q30 as int,
        );
        vstd::arithmetic::div_mod::lemma_div_is_ordered(
            -(2 * 0x1000_0000_0000_0000int) + Q30 as int - 2 * Q30 as int,
            (2 * p + Q30) as int,
            2 * Q30 as int,
        );
    }
    r as i64
}

/// The kernel value `k(x / 2^32)` of the filter in Q30, zero outside the
/// support radius.
pub open spec fn spec_filter_eval(f: FilterType, x: int) -> int {
    let u = if x >= 0 {
        x
    } else {
        -x
    };
    match f {
        FilterType::Box => if u < Q32 as int / 2 {
            Q30 as int
        } else {
            0
        },
        FilterType::Bilinear => if u >= Q32 as int {
            0
        } else {
            (Q32 as int - u) / 4
        },
        FilterType::Hamming => if u >= Q32 as int {
            0
        } else {
            spec_hamming_q30(u)
        },
        FilterType::Mitchell => if u >= 2 * Q32 as int {
            0
        } else {
            spec_mitchell_q30(u)
        },
        FilterType::CatmullRom => if u >= 2 * Q32 as int {
            0
        } else {
            spec_catmull_rom_q30(u)
        },
        FilterType::Lanczos3 => if u >= 3 * Q32 as int {
            0
        } else {
            spec_lanczos3_q30(u)
        },
    }
}

/// Evaluates the filter kernel at the signed Q32 position `x`.
pub fn filter_eval(f: FilterType, x: i64) -> (r: i64)
    requires
        -0x4_0000_0000 <= x <= 0x4_0000_0000,
    ensures
        r == spec_filter_eval(f, x as int),
        -0x8_0000_0000 <= r <= 0x8_0000_0000,
{
    let u: u64 = if x >= 0 {
        x as u64
    } else {
        (-x) as u64
    };
    match f {
        FilterType::Box => if u < (Q32 as u64) / 2 {
            Q30
        } else {
            0
        },
        FilterType::Bilinear => if u >= Q32 as u64 {
            0
        } else {
            ((Q32 as u64 - u) / 4) as i64
        },
        FilterType::Hamming => if u >= Q32 as u64 {
            0
        } else {
            hamming_q30(u)
        },
        FilterType::Mitchell => if u >= 2 * Q32 as u64 {
            0
        } else {
            mitchell_q30(u)
        },
        FilterType::CatmullRom => if u >= 2 * Q32 as u64 {
            0
        } else {
            catmull_rom_q30(u)
        },
        FilterType::Lanczos3 => if u >= 3 * Q32 as u64 {
            0
        } else {
            lanczos3_q30(u)
        },
    }
}

} // verus!
