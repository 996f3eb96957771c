//! The coefficient builder: for one axis it turns a source length, a
//! destination length and a filter into per-destination-sample windows of
//! signed 16-bit taps.
//!
//! Taps are computed in fixed point and normalized so that every window
//! sums to exactly `2^precision`; window bounds always lie inside the
//! source, and the absolute tap sum of every window is small enough that
//! a 32-bit accumulator over components cannot overflow.

use crate::filters::{filter_eval, spec_filter_eval, spec_radius_den, spec_radius_num, FilterType};
use crate::fixed::{clamp_i128, mul_u64, round_div_i128};
use vstd::arithmetic::power2::pow2;
use vstd::prelude::*;

verus! {

/// The half-open window `[start, start + size)` of source samples that
/// feed one destination sample.
#[derive(Clone, Copy, Debug, PartialEq, Eq, Structural)]
pub struct Bound {
    pub start: u32,
    pub size: u32,
}

/// Precomputed taps for one axis pass: one `Bound` and one `window_size`
/// slab of `i16` taps (zero padded) per destination sample.
pub struct Coefficients {
    pub window_size: usize,
    pub precision: u32,
    pub bounds: Vec<Bound>,
    pub values: Vec<i16>,
}

/// The sum of a tap row.
pub open spec fn seq_sum(s: Seq<i16>) -> int
    decreases s.len(),
{
    if s.len() == 0 {
        0
    } else {
        seq_sum(s.drop_last()) + s.last()
    }
}

/// The sum of absolute values of a tap row.
pub open spec fn seq_abs_sum(s: Seq<i16>) -> int
    decreases s.len(),
{
    if s.len() == 0 {
        0
    } else {
        seq_abs_sum(s.drop_last()) + (if s.last() >= 0 {
            s.last() as int
        } else {
            -(s.last() as int)
        })
    }
}

pub open spec fn spec_clamp(x: int, lo: int, hi: int) -> int {
    if x < lo {
        lo
    } else if x > hi {
        hi
    } else {
        x
    }
}

/// The window size of one axis pass: twice the stretched filter radius,
/// rounded up and padded to an even count.
pub open spec fn spec_window_size(src: int, dst: int, f: FilterType) -> int {
    let m = if src >= dst {
        src
    } else {
        dst
    };
    let num = 2 * spec_radius_num(f) * m;
    let den = spec_radius_den(f) * dst;
    let w0 = (num + den - 1) / den;
    if w0 % 2 == 1 {
        w0 + 1
    } else {
        w0
    }
}

pub open spec fn spec_ceil_log2(n: int) -> int
    decreases n,
{
    if n <= 1 {
        0
    } else {
        1 + spec_ceil_log2((n + 1) / 2)
    }
}

/// The fixed-point precision of one axis pass, chosen from the window
/// size so that a full window of maximal components fits the accumulator.
pub open spec fn spec_precision(ws: int) -> int {
    let l = spec_ceil_log2(ws);
    if l >= 13 {
        1
    } else {
        14 - l
    }
}

/// The window start before clamping, as the floor of `center - radius + 1`.
pub open spec fn spec_left_raw(src: int, dst: int, f: FilterType, j: int) -> int {
    let m = if src >= dst {
        src
    } else {
        dst
    };
    let rd = spec_radius_den(f);
    let cnum = rd * ((2 * j + 1) * src - dst);
    let rnum = 2 * spec_radius_num(f) * m;
    let dd = 2 * rd * dst;
    (cnum - rnum + dd) / dd
}

/// The window end before clamping, as the floor of `center + radius` plus
/// one.
pub open spec fn spec_right_raw(src: int, dst: int, f: FilterType, j: int) -> int {
    let m = if src >= dst {
        src
    } else {
        dst
    };
    let rd = spec_radius_den(f);
    let cnum = rd * ((2 * j + 1) * src - dst);
    let rnum = 2 * spec_radius_num(f) * m;
    let dd = 2 * rd * dst;
    (cnum + rnum) / dd + 1
}

/// The clamped window start of destination sample `j`.
pub open spec fn spec_start(src: int, dst: int, f: FilterType, j: int) -> int {
    spec_clamp(spec_left_raw(src, dst, f, j), 0, src - 1)
}

/// The clamped window size of destination sample `j`.
pub open spec fn spec_size(src: int, dst: int, f: FilterType, j: int) -> int {
    let start = spec_start(src, dst, f, j);
    let right0 = spec_clamp(spec_right_raw(src, dst, f, j), start + 1, src);
    let ws = spec_window_size(src, dst, f);
    let right = if right0 > start + ws {
        start + ws
    } else {
        right0
    };
    right - start
}

/// The Q32 position of source sample `start + k` relative to the center
/// of destination sample `j`, in stretched filter units.
pub open spec fn spec_xpos(src: int, dst: int, f: FilterType, j: int, k: int) -> int {
    let m = if src >= dst {
        src
    } else {
        dst
    };
    let start = spec_start(src, dst, f, j);
    let a = (2 * (start + k) + 1) * dst - (2 * j + 1) * src;
    let b = 2 * m;
    let x = (2 * (a * 0x1_0000_0000) + b) / (2 * b);
    spec_clamp(x, -0x4_0000_0000, 0x4_0000_0000)
}

/// The raw fixed-point tap of source sample `start + k` for destination
/// sample `j`, before normalization. The stretched kernel's constant
/// `1 / max(1, scale)` factor is the same for every tap of a window and
/// cancels in normalization, so it is not computed.
pub open spec fn spec_raw_tap(src: int, dst: int, f: FilterType, j: int, k: int) -> int {
    spec_filter_eval(f, spec_xpos(src, dst, f, j, k))
}

/// The sum of the first `k` raw taps of destination sample `j`.
pub open spec fn spec_raw_prefix(src: int, dst: int, f: FilterType, j: int, k: nat) -> int
    decreases k,
{
    if k == 0 {
        0
    } else {
        spec_raw_prefix(src, dst, f, j, (k - 1) as nat) + spec_raw_tap(src, dst, f, j, k - 1)
    }
}

/// The total of all raw taps of destination sample `j`.
pub open spec fn spec_total(src: int, dst: int, f: FilterType, j: int) -> int {
    spec_raw_prefix(src, dst, f, j, spec_size(src, dst, f, j) as nat)
}

/// The normalized running target after `k` taps: the raw prefix scaled to
/// `2^p` over the total and rounded, pinned to exactly `2^p` at the end
/// of the window.
pub open spec fn spec_tq(src: int, dst: int, f: FilterType, p: int, j: int, k: int) -> int {
    let total = spec_total(src, dst, f, j);
    let size = spec_size(src, dst, f, j);
    if k <= 0 {
        0
    } else if k >= size {
        pow2(p as nat) as int
    } else if total <= 0 {
        0
    } else {
        let n = spec_raw_prefix(src, dst, f, j, k as nat) * pow2(p as nat);
        (2 * n + total) / (2 * total)
    }
}

/// The quantized `i16` tap `k` of destination sample `j`.
pub open spec fn spec_qtap(src: int, dst: int, f: FilterType, p: int, j: int, k: int) -> int {
    spec_tq(src, dst, f, p, j, k + 1) - spec_tq(src, dst, f, p, j, k)
}

/// The sum of absolute values of the first `k` quantized taps.
pub open spec fn spec_qabs_prefix(src: int, dst: int, f: FilterType, p: int, j: int, k: nat) -> int
    decreases k,
{
    if k == 0 {
        0
    } else {
        let t = spec_qtap(src, dst, f, p, j, k - 1);
        spec_qabs_prefix(src, dst, f, p, j, (k - 1) as nat) + (if t >= 0 {
            t
        } else {
            -t
        })
    }
}

/// Whether the quantized window of destination sample `j` is accepted:
/// positive raw total, every tap within `i16`, and an absolute tap sum
/// small enough for the 32-bit accumulator at component maximum `cmax`.
pub open spec fn spec_row_ok(
    src: int,
    dst: int,
    f: FilterType,
    p: int,
    cmax: int,
    j: int,
) -> bool {
    let size = spec_size(src, dst, f, j);
    &&& spec_total(src, dst, f, j) > 0
    &&& forall|k: int|
        0 <= k < size ==> -32767 <= #[trigger] spec_qtap(src, dst, f, p, j, k) <= 32767
    &&& spec_qabs_prefix(src, dst, f, p, j, size as nat) * cmax + pow2((p - 1) as nat)
        <= 0x7fff_ffff
}

/// The source sample nearest the center of destination sample `j`.
pub open spec fn spec_center(src: int, dst: int, j: int) -> int {
    ((2 * j + 1) * src) / (2 * dst)
}

/// The in-window index that receives the whole weight when a window is
/// rejected and replaced by a single-tap fallback.
pub open spec fn spec_fb_idx(src: int, dst: int, f: FilterType, j: int) -> int {
    let start = spec_start(src, dst, f, j);
    let size = spec_size(src, dst, f, j);
    spec_clamp(spec_center(src, dst, j) - start, 0, size - 1)
}

/// The final `i16` tap at window position `k` of destination sample `j`:
/// the quantized tap where the window is accepted, a single-tap fallback
/// where it is not, and zero padding beyond the window.
pub open spec fn spec_tap(
    src: int,
    dst: int,
    f: FilterType,
    p: int,
    cmax: int,
    j: int,
    k: int,
) -> int {
    let size = spec_size(src, dst, f, j);
    if k < 0 || k >= size {
        0
    } else if spec_row_ok(src, dst, f, p, cmax, j) {
        spec_qtap(src, dst, f, p, j, k)
    } else if k == spec_fb_idx(src, dst, f, j) {
        pow2(p as nat) as int
    } else {
        0
    }
}

pub open spec fn spec_tap_i16(
    src: int,
    dst: int,
    f: FilterType,
    p: int,
    cmax: int,
    j: int,
    k: int,
) -> i16 {
    spec_tap(src, dst, f, p, cmax, j, k) as i16
}

impl Coefficients {
    /// The tap row of destination sample `j`.
    pub open spec fn row(self, j: int) -> Seq<i16> {
        self.values@.subrange(j * self.window_size, (j + 1) * self.window_size)
    }

    /// Well-formedness against one axis of a source with `src_len`
    /// samples whose components are at most `cmax`: windows lie inside
    /// the source, every row sums to exactly `2^precision`, and absolute
    /// row sums keep the accumulator inside `i32`.
    pub open spec fn wf(self, src_len: int, cmax: int) -> bool {
        &&& 1 <= self.precision <= 14
        &&& 1 <= self.window_size
        &&& self.values@.len() == self.bounds@.len() * self.window_size
        &&& forall|j: int|
            0 <= j < self.bounds@.len() ==> 1 <= (#[trigger] self.bounds@[j]).size
                <= self.window_size
        &&& forall|j: int|
            0 <= j < self.bounds@.len() ==> (#[trigger] self.bounds@[j]).start + self.bounds@[j].size
                <= src_len
        &&& forall|j: int|
            0 <= j < self.bounds@.len() ==> seq_sum(#[trigger] self.row(j)) == pow2(
                self.precision as nat,
            )
        &&& forall|j: int|
            0 <= j < self.bounds@.len() ==> seq_abs_sum(#[trigger] self.row(j)) * cmax + pow2(
                (self.precision - 1) as nat,
            ) <= 0x7fff_ffff
    }
}

proof fn lemma_ceil_log2_le(n: int, b: nat)
    requires
        n <= pow2(b),
    ensures
        spec_ceil_log2(n) <= b,
    decreases b,
{
    if n <= 1 {
    } else {
        assert(b >= 1) by {
            if b == 0 {
                vstd::arithmetic::power2::lemma2_to64();
            }
        }
        assert(pow2(b) == 2 * pow2((b - 1) as nat)) by {
            vstd::arithmetic::power2::lemma_pow2_unfold(b);
        }
        lemma_ceil_log2_le((n + 1) / 2, (b - 1) as nat);
    }
}

fn ceil_log2_u64(n: u64) -> (r: u32)
    requires
        n <= 0x20_0000_0000,
    ensures
        r == spec_ceil_log2(n as int),
        r <= 37,
    decreases n,
{
    if n <= 1 {
        0
    } else {
        proof {
            vstd::arithmetic::power2::lemma2_to64();
            vstd::arithmetic::power2::lemma2_to64_rest();
            lemma_ceil_log2_le(((n + 1) / 2) as int, 36);
        }
        1 + ceil_log2_u64((n + 1) / 2)
    }
}

/// `2^p` for a precision in `1..=14`.
pub(crate) fn pow2_u32(p: u32) -> (r: u32)
    requires
        p <= 14,
    ensures
        r == pow2(p as nat),
        1 <= r <= 16384,
{
    proof {
        vstd::arithmetic::power2::lemma2_to64();
    }
    if p == 0 {
        1
    } else if p == 1 {
        2
    } else if p == 2 {
        4
    } else if p == 3 {
        8
    } else if p == 4 {
        16
    } else if p == 5 {
        32
    } else if p == 6 {
        64
    } else if p == 7 {
        128
    } else if p == 8 {
        256
    } else if p == 9 {
        512
    } else if p == 10 {
        1024
    } else if p == 11 {
        2048
    } else if p == 12 {
        4096
    } else if p == 13 {
        8192
    } else {
        16384
    }
}

/// The window size of the axis pass from `src_len` to `dst_len`.
pub fn window_size(src_len: u32, dst_len: u32, f: FilterType) -> (r: u64)
    requires
        src_len >= 1,
        dst_len >= 1,
    ensures
        r == spec_window_size(src_len as int, dst_len as int, f),
        1 <= r < 0x20_0000_0000,
{
    let rn = f.radius_num() as u64;
    let rd = f.radius_den() as u64;
    assert(1 <= rn <= 3 && 1 <= rd <= 2);
    let m: u64 = if src_len >= dst_len {
        src_len as u64
    } else {
        dst_len as u64
    };
    assert(2 * rn * m <= 6 * 0x1_0000_0000 && rn * m >= 1) by (nonlinear_arith)
        requires
            1 <= rn <= 3,
            1 <= m <= 0x1_0000_0000,
    ;
    let num = 2 * rn * m;
    assert(1 <= rd * (dst_len as u64) <= 2 * 0x1_0000_0000) by (nonlinear_arith)
        requires
            1 <= rd <= 2,
            1 <= dst_len <= 0x1_0000_0000,
    ;
    let den = rd * (dst_len as u64);
    let w0 = (num + den - 1) / den;
    proof {
        vstd::arithmetic::div_mod::lemma_div_is_ordered(
            (num + den - 1) as int,
            0x8_0000_0000_0000,
            den as int,
        );
        assert(num >= den) by (nonlinear_arith)
            requires
                num == 2 * rn * m,
                den == rd * dst_len,
                1 <= rn,
                1 <= rd <= 2,
                m >= dst_len >= 1,
        ;
        vstd::arithmetic::div_mod::lemma_div_is_ordered(
            den as int,
            (num + den - 1) as int,
            den as int,
        );
        vstd::arithmetic::div_mod::lemma_div_by_self(den as int);
    }
    if w0 % 2 == 1 {
        w0 + 1
    } else {
        w0
    }
}

/// Quantizes one window of raw taps to i16 taps that sum to `2^p`,
/// reporting whether the window passes the tap-range and accumulator
/// checks.
#[verifier::loop_isolation(false)]
#[verifier::rlimit(100)]
fn quantize_row(
    src_len: u32,
    dst_len: u32,
    f: FilterType,
    cmax: u32,
    p: u32,
    p2: u32,
    p2h: u32,
    m: i128,
    start: u32,
    size: u64,
    total: i128,
    j: u32,
) -> (r: (Vec<i16>, u64, bool))
    requires
        src_len >= 1,
        dst_len >= 1,
        1 <= cmax <= 65535,
        1 <= p <= 14,
        1 <= p2 <= 16384,
        p2 == pow2(p as nat),
        p2h == pow2((p - 1) as nat),
        m == (if src_len >= dst_len {
            src_len as int
        } else {
            dst_len as int
        }),
        start == spec_start(src_len as int, dst_len as int, f, j as int),
        size == spec_size(src_len as int, dst_len as int, f, j as int),
        1 <= size < 0x20_0000_0000,
        start + size <= src_len,
        total == spec_total(src_len as int, dst_len as int, f, j as int),
        total > 0,
        -0x8_0000_0000 * 0x20_0000_0000 <= total <= 0x8_0000_0000 * 0x20_0000_0000,
        j < dst_len,
    ensures
        r.2 == spec_row_ok(src_len as int, dst_len as int, f, p as int, cmax as int, j as int),
        r.2 ==> r.0@.len() == size,
        r.2 ==> forall|k: int|
            0 <= k < size ==> #[trigger] r.0@[k] == spec_tap_i16(
                src_len as int,
                dst_len as int,
                f,
                p as int,
                cmax as int,
                j as int,
                k,
            ),
        r.2 ==> seq_sum(r.0@) == pow2(p as nat),
        r.2 ==> seq_abs_sum(r.0@) == r.1,
        r.2 ==> r.1 * cmax + pow2((p - 1) as nat) <= 0x7fff_ffff,
{
    let ghost srcI = src_len as int;
    let ghost dstI = dst_len as int;
    let ghost cmaxI = cmax as int;
    let ghost jF = j as int;
    let mut tap_row: Vec<i16> = Vec::new();
    let mut ok: bool = true;
    let mut sumabs: u64 = 0;
    let mut prefix: i128 = 0;
    let mut prev: i128 = 0;
    let mut k: u64 = 0;
    while k < size
        invariant
            0 <= k <= size,
            ok ==> tap_row@.len() == k,
            ok ==> prefix == spec_raw_prefix(srcI, dstI, f, jF, k as nat),
            -0x8_0000_0000 * k <= prefix <= 0x8_0000_0000 * k,
            ok ==> prev == spec_tq(srcI, dstI, f, p as int, jF, k as int),
            -32767 * k - 16384 <= prev <= 32767 * k + 16384,
            ok ==> forall|k2: int|
                0 <= k2 < k ==> #[trigger] tap_row@[k2] == spec_qtap(srcI, dstI, f, p as int, jF, k2),
            ok ==> forall|k2: int|
                0 <= k2 < k ==> -32767 <= #[trigger] spec_qtap(srcI, dstI, f, p as int, jF, k2)
                    <= 32767,
            ok ==> seq_sum(tap_row@) == prev,
            ok ==> seq_abs_sum(tap_row@) == sumabs,
            ok ==> sumabs == spec_qabs_prefix(srcI, dstI, f, p as int, jF, k as nat),
            sumabs <= 32767 * k,
            !ok ==> !spec_row_ok(srcI, dstI, f, p as int, cmaxI, jF),
        decreases size - k,
    {
        if ok {
            let q = raw_tap(src_len, dst_len, f, m, start, j, k);
            prefix = prefix + (q as i128);
            assert(-0x8_0000_0000 * 0x20_0000_0000 * 16384 <= prefix * (p2 as i128)
                <= 0x8_0000_0000 * 0x20_0000_0000 * 16384) by (nonlinear_arith)
                requires
                    -0x8_0000_0000 * 0x20_0000_0000 <= prefix <= 0x8_0000_0000 * 0x20_0000_0000,
                    0 < p2 <= 16384,
            ;
            let prod = prefix * (p2 as i128);
            let t: i128 = if k == size - 1 {
                p2 as i128
            } else {
                let tq = round_div_i128(prod, total);
                proof {
                    crate::fixed::lemma_div_abs_le((2 * prod + total) as int, (2 * total) as int);
                }
                tq
            };
            assert(-0x1000_0000_0000_0000_0000_0000 <= t <= 0x1000_0000_0000_0000_0000_0000);
            assert(t == spec_tq(srcI, dstI, f, p as int, jF, k as int + 1));
            let tap = t - prev;
            if -32767 <= tap && tap <= 32767 {
                let ghost pre_row = tap_row@;
                tap_row.push(tap as i16);
                proof {
                    assert(tap_row@.drop_last() =~= pre_row);
                }
                sumabs = sumabs + (if tap >= 0 {
                    tap as u64
                } else {
                    (-tap) as u64
                });
                prev = t;
            } else {
                ok = false;
                assert(spec_qtap(srcI, dstI, f, p as int, jF, k as int) == tap);
                assert(!spec_row_ok(srcI, dstI, f, p as int, cmaxI, jF));
            }
        }
        k = k + 1;
    }
    if ok {
        let prod = mul_u64(sumabs, cmax as u64);
        assert(prod <= 0x20_0000_0000_0000 * 0x1_0000) by (nonlinear_arith)
            requires
                prod == sumabs * cmax,
                sumabs <= 0x20_0000_0000_0000,
                cmax <= 0x1_0000,
        ;
        if prod + (p2h as u128) > 0x7fff_ffff {
            ok = false;
        }
    }
    proof {
        if ok {
            assert(spec_row_ok(srcI, dstI, f, p as int, cmaxI, jF));
            assert forall|k2: int| 0 <= k2 < size implies #[trigger] tap_row@[k2] == spec_tap_i16(
                srcI,
                dstI,
                f,
                p as int,
                cmaxI,
                jF,
                k2,
            ) by {
                assert(spec_tap(srcI, dstI, f, p as int, cmaxI, jF, k2) == spec_qtap(
                    srcI,
                    dstI,
                    f,
                    p as int,
                    jF,
                    k2,
                ));
            }
        }
    }
    (tap_row, sumabs, ok)
}

/// Builds the single-tap fallback row: the whole weight `2^p` on the
/// in-window sample nearest the window center.
#[verifier::loop_isolation(false)]
fn fallback_row(
    src_len: u32,
    dst_len: u32,
    f: FilterType,
    cmax: u32,
    p: u32,
    p2: u32,
    start128: i128,
    size128: i128,
    j: u32,
) -> (r: (Vec<i16>, u64))
    requires
        src_len >= 1,
        dst_len >= 1,
        1 <= cmax <= 65535,
        1 <= p <= 14,
        1 <= p2 <= 16384,
        p2 == pow2(p as nat),
        start128 == spec_start(src_len as int, dst_len as int, f, j as int),
        size128 == spec_size(src_len as int, dst_len as int, f, j as int),
        1 <= size128 < 0x20_0000_0000,
        0 <= start128,
        start128 + size128 <= src_len,
        j < dst_len,
        !spec_row_ok(src_len as int, dst_len as int, f, p as int, cmax as int, j as int),
    ensures
        r.0@.len() == size128,
        forall|k: int|
            0 <= k < size128 ==> #[trigger] r.0@[k] == spec_tap_i16(
                src_len as int,
                dst_len as int,
                f,
                p as int,
                cmax as int,
                j as int,
                k,
            ),
        seq_sum(r.0@) == pow2(p as nat),
        seq_abs_sum(r.0@) == r.1,
        r.1 * cmax + pow2((p - 1) as nat) <= 0x7fff_ffff,
{
    let ghost srcI = src_len as int;
    let ghost dstI = dst_len as int;
    let ghost cmaxI = cmax as int;
    let ghost jF = j as int;
    let size = size128 as u64;
    assert((2 * (j as u128) + 1) * (src_len as u128) <= 0x4_0000_0000_0000_0000)
        by (nonlinear_arith)
        requires
            j < 0x1_0000_0000,
            src_len <= 0x1_0000_0000,
    ;
    let c128 = ((2 * (j as u128) + 1) * (src_len as u128)) / (2 * (dst_len as u128));
    let fbI = clamp_i128(c128 as i128 - start128, 0, size128 - 1);
    assert(fbI == spec_fb_idx(srcI, dstI, f, jF));
    let fb = fbI as u64;
    let mut tap_row: Vec<i16> = Vec::new();
    let mut sumabs: u64 = 0;
    let mut k: u64 = 0;
    while k < size
        invariant
            0 <= k <= size,
            tap_row@.len() == k,
            forall|k2: int|
                0 <= k2 < k ==> #[trigger] tap_row@[k2] == spec_tap_i16(
                    srcI,
                    dstI,
                    f,
                    p as int,
                    cmaxI,
                    jF,
                    k2,
                ),
            seq_sum(tap_row@) == if k > fb {
                pow2(p as nat) as int
            } else {
                0int
            },
            seq_abs_sum(tap_row@) == seq_sum(tap_row@),
            sumabs == seq_sum(tap_row@),
        decreases size - k,
    {
        let ghost pre_row = tap_row@;
        if k == fb {
            tap_row.push(p2 as i16);
            sumabs = p2 as u64;
        } else {
            tap_row.push(0);
        }
        proof {
            assert(tap_row@.drop_last() =~= pre_row);
        }
        k = k + 1;
    }
    proof {
        vstd::arithmetic::power2::lemma2_to64();
        if p < 14 {
            vstd::arithmetic::power2::lemma_pow2_strictly_increases(p as nat, 14);
        }
        if p - 1 < 13 {
            vstd::arithmetic::power2::lemma_pow2_strictly_increases((p - 1) as nat, 13);
        }
    }
    assert(sumabs as int * cmaxI + pow2((p - 1) as nat) <= 0x7fff_ffff) by (nonlinear_arith)
        requires
            sumabs <= 16384,
            cmaxI <= 65535,
            pow2((p - 1) as nat) <= 8192,
    ;
    (tap_row, sumabs)
}

/// Builds the bound and the padded tap row of destination sample `j`.
#[verifier::loop_isolation(false)]
#[verifier::rlimit(100)]
fn build_row(
    src_len: u32,
    dst_len: u32,
    f: FilterType,
    cmax: u32,
    ws64: u64,
    p: u32,
    p2: u32,
    p2h: u32,
    m: i128,
    j: u32,
) -> (r: (Bound, Vec<i16>))
    requires
        src_len >= 1,
        dst_len >= 1,
        1 <= cmax <= 65535,
        ws64 == spec_window_size(src_len as int, dst_len as int, f),
        1 <= ws64 < 0x20_0000_0000,
        p == spec_precision(ws64 as int),
        1 <= p <= 14,
        1 <= p2 <= 16384,
        p2 == pow2(p as nat),
        p2h == pow2((p - 1) as nat),
        m == (if src_len >= dst_len { src_len as int } else { dst_len as int }),
        j < dst_len,
    ensures
        r.0.start == spec_start(src_len as int, dst_len as int, f, j as int),
        r.0.size == spec_size(src_len as int, dst_len as int, f, j as int),
        1 <= r.0.size <= ws64,
        r.0.start + r.0.size <= src_len,
        r.1@.len() == ws64,
        forall|k: int|
            0 <= k < ws64 ==> #[trigger] r.1@[k] == spec_tap_i16(
                src_len as int,
                dst_len as int,
                f,
                p as int,
                cmax as int,
                j as int,
                k,
            ),
        seq_sum(r.1@) == pow2(p as nat),
        seq_abs_sum(r.1@) * cmax + pow2((p - 1) as nat) <= 0x7fff_ffff,
{
    let ghost srcI = src_len as int;
    let ghost dstI = dst_len as int;
    let ghost cmaxI = cmax as int;
    let ghost wsI = ws64 as int;
    let rn = f.radius_num() as i128;
    let rd = f.radius_den() as i128;
    let jI128 = j as i128;
    let srcI128 = src_len as i128;
    let dstI128 = dst_len as i128;
    assert((2 * jI128 + 1) * srcI128 <= 0x4_0000_0000_0000_0000 && (2 * jI128 + 1) * srcI128
        >= 1) by (nonlinear_arith)
        requires
            0 <= jI128 < 0x1_0000_0000,
            1 <= srcI128 <= 0x1_0000_0000,
    ;
    let cbase: i128 = (2 * jI128 + 1) * srcI128 - dstI128;
    assert(rd * cbase <= 2 * 0x4_0000_0000_0000_0000 && rd * cbase >= 2 * (
    -0x1_0000_0000_0000_0000)) by (nonlinear_arith)
        requires
            1 <= rd <= 2,
            -0x1_0000_0000 <= cbase <= 0x4_0000_0000_0000_0000,
    ;
    let cnum: i128 = rd * cbase;
    assert(2 <= 2 * rn * m <= 6 * 0x1_0000_0000) by (nonlinear_arith)
        requires
            1 <= rn <= 3,
            1 <= m <= 0x1_0000_0000,
    ;
    let rnum: i128 = 2 * rn * m;
    assert(2 <= 2 * rd * dstI128 <= 4 * 0x1_0000_0000) by (nonlinear_arith)
        requires
            1 <= rd <= 2,
            1 <= dstI128 <= 0x1_0000_0000,
    ;
    let dd: i128 = 2 * rd * dstI128;
    let left_raw = crate::fixed::floor_div_i128(cnum - rnum + dd, dd);
    let right_raw = crate::fixed::floor_div_i128(cnum + rnum, dd) + 1;
    let start128 = clamp_i128(left_raw, 0, srcI128 - 1);
    let right1 = clamp_i128(right_raw, start128 + 1, srcI128);
    let right: i128 = if right1 > start128 + (ws64 as i128) {
        start128 + (ws64 as i128)
    } else {
        right1
    };
    let size128 = right - start128;
    assert(start128 == spec_start(srcI, dstI, f, j as int));
    assert(size128 == spec_size(srcI, dstI, f, j as int));
    assert(1 <= size128 <= ws64 && start128 + size128 <= srcI128);
    let start = start128 as u32;
    let size = size128 as u64;
    let ghost jF = j as int;

    // First pass: the raw tap total of this window.
    let mut total: i128 = 0;
    let mut k: u64 = 0;
    while k < size
        invariant
            0 <= k <= size,
            total == spec_raw_prefix(srcI, dstI, f, jF, k as nat),
            -0x8_0000_0000 * k <= total <= 0x8_0000_0000 * k,
        decreases size - k,
    {
        let q = raw_tap(src_len, dst_len, f, m, start, j, k);
        total = total + (q as i128);
        k = k + 1;
    }

    // Second pass: quantize the window to i16 taps that sum to 2^p,
    // falling back to a single center tap when the window is rejected.
    let mut tap_row: Vec<i16>;
    let mut sumabs: u64;
    let mut accepted = false;
    if total > 0 {
        let (tr, sa, ok) = quantize_row(src_len, dst_len, f, cmax, p, p2, p2h, m, start, size,
            total, j);
        if ok {
            tap_row = tr;
            sumabs = sa;
            accepted = true;
        } else {
            let (tr2, sa2) = fallback_row(src_len, dst_len, f, cmax, p, p2, start128, size128, j);
            tap_row = tr2;
            sumabs = sa2;
        }
    } else {
        assert(!spec_row_ok(srcI, dstI, f, p as int, cmaxI, jF));
        let (tr2, sa2) = fallback_row(src_len, dst_len, f, cmax, p, p2, start128, size128, j);
        tap_row = tr2;
        sumabs = sa2;
    }
    assert(tap_row@.len() == size128);
    assert(forall|k2: int|
        0 <= k2 < size128 ==> #[trigger] tap_row@[k2] == spec_tap_i16(
            srcI,
            dstI,
            f,
            p as int,
            cmaxI,
            jF,
            k2,
        ));
    assert(seq_sum(tap_row@) == pow2(p as nat));
    assert(seq_abs_sum(tap_row@) == sumabs);
    assert(sumabs as int * cmaxI + pow2((p - 1) as nat) <= 0x7fff_ffff);

    // Pad the row to the window size.
    let mut k: u64 = size;
    while k < ws64
        invariant
            size <= k <= ws64,
            tap_row@.len() == k,
            forall|k2: int|
                0 <= k2 < k ==> #[trigger] tap_row@[k2] == spec_tap_i16(
                    srcI,
                    dstI,
                    f,
                    p as int,
                    cmaxI,
                    jF,
                    k2,
                ),
            seq_sum(tap_row@) == pow2(p as nat),
            seq_abs_sum(tap_row@) == sumabs,
        decreases ws64 - k,
    {
        let ghost pre_row = tap_row@;
        tap_row.push(0);
        proof {
            assert(tap_row@.drop_last() =~= pre_row);
        }
        k = k + 1;
    }

    (Bound { start, size: size as u32 }, tap_row)
}

/// Builds the coefficients of one axis pass: `dst_len` windows of taps
/// over a source axis of `src_len` samples whose components are at most
/// `cmax`.
#[verifier::loop_isolation(false)]
#[verifier::rlimit(100)]
pub fn compute_coefficients(src_len: u32, dst_len: u32, f: FilterType, cmax: u32) -> (r:
    Coefficients)
    requires
        src_len >= 1,
        dst_len >= 1,
        1 <= cmax <= 65535,
        dst_len * spec_window_size(src_len as int, dst_len as int, f) <= usize::MAX,
    ensures
        r.wf(src_len as int, cmax as int),
        r.window_size == spec_window_size(src_len as int, dst_len as int, f),
        r.window_size < 0x20_0000_0000,
        r.precision == spec_precision(spec_window_size(src_len as int, dst_len as int, f)),
        r.bounds@.len() == dst_len,
        r.values@.len() == dst_len * r.window_size,
        forall|j: int|
            0 <= j < dst_len ==> (#[trigger] r.bounds@[j]).start == spec_start(
                src_len as int,
                dst_len as int,
                f,
                j,
            ) && r.bounds@[j].size == spec_size(src_len as int, dst_len as int, f, j),
        forall|j: int, k: int|
            0 <= j < dst_len && 0 <= k < r.window_size ==> #[trigger] r.values@[j * r.window_size
                + k] == spec_tap_i16(
                src_len as int,
                dst_len as int,
                f,
                r.precision as int,
                cmax as int,
                j,
                k,
            ),
{
    let ghost srcI = src_len as int;
    let ghost dstI = dst_len as int;
    let ghost cmaxI = cmax as int;
    let ws64 = window_size(src_len, dst_len, f);
    let l = ceil_log2_u64(ws64);
    let p: u32 = if l >= 13 {
        1
    } else {
        14 - l
    };
    let ghost wsI = ws64 as int;
    assert(dst_len * wsI <= usize::MAX);
    assert(wsI <= dst_len * wsI) by (nonlinear_arith)
        requires
            dst_len >= 1,
            wsI >= 1,
    ;
    let ws = ws64 as usize;
    let p2 = pow2_u32(p);
    let p2h = p2 / 2;
    proof {
        vstd::arithmetic::power2::lemma_pow2_unfold(p as nat);
        vstd::arithmetic::power2::lemma2_to64();
    }
    assert(p2 <= 16384 && p2h == pow2((p - 1) as nat));
    let rn = f.radius_num() as i128;
    let rd = f.radius_den() as i128;
    let m: i128 = if src_len >= dst_len {
        src_len as i128
    } else {
        dst_len as i128
    };
    let mut bounds: Vec<Bound> = Vec::new();
    let mut values: Vec<i16> = Vec::new();
    let mut j: u32 = 0;
    while j < dst_len
        invariant
            j <= dst_len,
            bounds@.len() == j,
            values@.len() == j * wsI,
            forall|j2: int|
                0 <= j2 < j ==> (#[trigger] bounds@[j2]).start == spec_start(srcI, dstI, f, j2)
                    && bounds@[j2].size == spec_size(srcI, dstI, f, j2),
            forall|j2: int|
                0 <= j2 < j ==> 1 <= (#[trigger] bounds@[j2]).size <= wsI && bounds@[j2].start
                    + bounds@[j2].size <= srcI,
            forall|j2: int, k: int|
                0 <= j2 < j && 0 <= k < wsI ==> #[trigger] values@[j2 * wsI + k] == spec_tap_i16(
                    srcI,
                    dstI,
                    f,
                    p as int,
                    cmaxI,
                    j2,
                    k,
                ),
            forall|j2: int|
                0 <= j2 < j ==> seq_sum(#[trigger] values@.subrange(j2 * wsI, (j2 + 1) * wsI))
                    == pow2(p as nat),
            forall|j2: int|
                0 <= j2 < j ==> seq_abs_sum(#[trigger] values@.subrange(j2 * wsI, (j2 + 1) * wsI))
                    * cmaxI + pow2((p - 1) as nat) <= 0x7fff_ffff,
        decreases dst_len - j,
    {
        let (b, tap_row) = build_row(src_len, dst_len, f, cmax, ws64, p, p2, p2h, m, j);
        let ghost jF = j as int;
        bounds.push(b);
        assert((j as int) * wsI + wsI == (j as int + 1) * wsI && (j as int + 1) * wsI <= dst_len
            * wsI && 0 <= (j as int) * wsI) by (nonlinear_arith)
            requires
                0 <= j < dst_len,
                1 <= wsI,
        ;
        let ghost vpre = values@;
        proof {
            assert(values@ =~= vpre + tap_row@.take(0));
        }
        let base = (j as usize) * ws;
        let mut k: usize = 0;
        while k < ws
            invariant
                0 <= k <= ws,
                values@ == vpre + tap_row@.take(k as int),
            decreases ws - k,
        {
            let v = tap_row[k];
            values.push(v);
            proof {
                assert(values@ =~= vpre + tap_row@.take(k as int + 1));
            }
            k = k + 1;
        }
        proof {
            assert(tap_row@.take(wsI) =~= tap_row@);
            assert(values@ == vpre + tap_row@);
            assert(vpre.len() == jF * wsI);
            assert(values@.len() == jF * wsI + wsI);
            assert forall|i: int| 0 <= i < wsI implies values@[jF * wsI + i] == tap_row@[i] by {
                assert(values@[jF * wsI + i] == (vpre + tap_row@)[jF * wsI + i]);
            }
            assert(values@.subrange(jF * wsI, jF * wsI + wsI) =~= tap_row@);
            assert(values@.subrange(jF * wsI, (jF + 1) * wsI) == values@.subrange(
                jF * wsI,
                jF * wsI + wsI,
            ));
            assert forall|j2: int| 0 <= j2 < jF implies #[trigger] values@.subrange(
                j2 * wsI,
                (j2 + 1) * wsI,
            ) =~= vpre.subrange(j2 * wsI, (j2 + 1) * wsI) by {
                assert((j2 + 1) * wsI <= jF * wsI && (j2 + 1) * wsI == j2 * wsI + wsI && 0 <= j2
                    * wsI) by (nonlinear_arith)
                    requires
                        0 <= j2 < jF,
                        wsI >= 1,
                ;
                assert forall|i: int| 0 <= i < wsI implies #[trigger] values@[j2 * wsI + i]
                    == vpre[j2 * wsI + i] by {
                    assert(values@[j2 * wsI + i] == (vpre + tap_row@)[j2 * wsI + i]);
                }
            }
            assert forall|j2: int, k2: int| 0 <= j2 < jF + 1 && 0 <= k2 < wsI implies #[trigger] values@[j2
                * wsI + k2] == spec_tap_i16(srcI, dstI, f, p as int, cmaxI, j2, k2) by {
                if j2 < jF {
                    assert((j2 + 1) * wsI <= jF * wsI) by (nonlinear_arith)
                        requires
                            j2 < jF,
                            wsI >= 1,
                    ;
                    assert(0 <= j2 * wsI + k2 < jF * wsI) by (nonlinear_arith)
                        requires
                            0 <= j2,
                            0 <= k2 < wsI,
                            (j2 + 1) * wsI <= jF * wsI,
                    ;
                    assert(values@[j2 * wsI + k2] == vpre[j2 * wsI + k2]);
                } else {
                    assert(values@[jF * wsI + k2] == tap_row@[k2]);
                }
            }
        }
        j = j + 1;
    }
    let r = Coefficients { window_size: ws, precision: p, bounds, values };
    proof {
        assert(r.values@.len() == dst_len * wsI);
        assert forall|j2: int| 0 <= j2 < dst_len implies seq_sum(#[trigger] r.row(j2)) == pow2(
            p as nat,
        ) && seq_abs_sum(r.row(j2)) * cmaxI + pow2((p - 1) as nat) <= 0x7fff_ffff by {
            assert(r.row(j2) == r.values@.subrange(j2 * wsI, (j2 + 1) * wsI));
        }
    }
    r
}

/// The raw fixed-point tap of source sample `start + k` for destination
/// sample `j`.
fn raw_tap(src_len: u32, dst_len: u32, f: FilterType, m: i128, start: u32, j: u32, k: u64) -> (q:
    i64)
    requires
        src_len >= 1,
        dst_len >= 1,
        m == (if src_len >= dst_len {
            src_len as int
        } else {
            dst_len as int
        }),
        start == spec_start(src_len as int, dst_len as int, f, j as int),
        j < dst_len,
        0 <= k,
        start + k < 0x2_0000_0000,
    ensures
        q == spec_raw_tap(src_len as int, dst_len as int, f, j as int, k as int),
        -0x8_0000_0000 <= q <= 0x8_0000_0000,
{
    assert((2 * ((start as i128) + (k as i128)) + 1) * (dst_len as i128)
        <= 0x8_0000_0000_0000_0000 && (2 * ((start as i128) + (k as i128)) + 1) * (dst_len as i128)
        >= 0) by (nonlinear_arith)
        requires
            0 <= (start as i128) + (k as i128) < 0x2_0000_0000,
            1 <= dst_len <= 0x1_0000_0000,
    ;
    assert((2 * (j as i128) + 1) * (src_len as i128) <= 0x4_0000_0000_0000_0000 && (2 * (j as i128)
        + 1) * (src_len as i128) >= 0) by (nonlinear_arith)
        requires
            0 <= (j as i128) < 0x1_0000_0000,
            1 <= src_len <= 0x1_0000_0000,
    ;
    let a: i128 = (2 * ((start as i128) + (k as i128)) + 1) * (dst_len as i128) - (2 * (j as i128)
        + 1) * (src_len as i128);
    let b: i128 = 2 * m;
    let x0 = round_div_i128(a * 0x1_0000_0000, b);
    let x = clamp_i128(x0, -0x4_0000_0000, 0x4_0000_0000);
    filter_eval(f, x as i64)
}

} // verus!
