//! The scalar convolution kernels: one horizontal and one vertical pass
//! over packed integer components, driven by precomputed coefficients.
//!
//! Every destination component is the clipped weighted sum
//! `clip(2^(p-1) + sum(tap_k * src_k))`: the accumulator is proved to
//! stay inside `i32`, and `clip` divides by `2^p` (rounding to nearest
//! through the preloaded bias) and saturates into the component range.

use crate::coefficients::{seq_abs_sum, Bound, Coefficients};
use crate::image::Image;
use crate::pixels::{spec_component_max, spec_component_size, spec_components};
use vstd::arithmetic::power2::pow2;
use vstd::prelude::*;

verus! {

/// The integer value of the component stored at byte `base`:
/// little-endian, one or two bytes wide.
pub open spec fn spec_comp(buf: Seq<u8>, base: int, csize: int) -> int {
    if csize == 1 {
        buf[base] as int
    } else {
        buf[base] + 256 * buf[base + 1]
    }
}

/// Rounds an accumulator down by `2^p` and saturates it into
/// `[0, cmax]`.
pub open spec fn spec_clip(p: int, cmax: int, acc: int) -> int {
    if acc < 0 {
        0
    } else if acc / (pow2(p as nat) as int) > cmax {
        cmax
    } else {
        acc / (pow2(p as nat) as int)
    }
}

/// The weighted sum of the first `k` taps of `row` over the components
/// at `base`, `base + stride`, ...
pub open spec fn spec_dot(
    buf: Seq<u8>,
    base: int,
    stride: int,
    csize: int,
    row: Seq<i16>,
    k: int,
) -> int
    decreases k,
{
    if k <= 0 {
        0
    } else {
        spec_dot(buf, base, stride, csize, row, k - 1) + row[k - 1] * spec_comp(
            buf,
            base + (k - 1) * stride,
            csize,
        )
    }
}

/// The sum of absolute values of the first `k` taps of `row`.
pub open spec fn spec_abs_prefix(row: Seq<i16>, k: int) -> int
    decreases k,
{
    if k <= 0 {
        0
    } else {
        spec_abs_prefix(row, k - 1) + (if row[k - 1] >= 0 {
            row[k - 1] as int
        } else {
            -(row[k - 1] as int)
        })
    }
}

/// The sum of the first `k` taps of `row`.
pub open spec fn spec_tap_prefix(row: Seq<i16>, k: int) -> int
    decreases k,
{
    if k <= 0 {
        0
    } else {
        spec_tap_prefix(row, k - 1) + row[k - 1]
    }
}

proof fn lemma_tap_prefix_drop_last(row: Seq<i16>, k: int)
    requires
        0 <= k < row.len(),
    ensures
        spec_tap_prefix(row, k) == spec_tap_prefix(row.drop_last(), k),
    decreases k,
{
    if k > 0 {
        lemma_tap_prefix_drop_last(row, k - 1);
    }
}

/// The front-to-back tap prefix sum over a whole row equals its sum.
pub proof fn lemma_tap_prefix_is_sum(row: Seq<i16>)
    ensures
        spec_tap_prefix(row, row.len() as int) == crate::coefficients::seq_sum(row),
    decreases row.len(),
{
    if row.len() > 0 {
        lemma_tap_prefix_is_sum(row.drop_last());
        lemma_tap_prefix_drop_last(row, row.len() - 1);
    }
}

/// Zero padding beyond the window does not change the tap prefix sum.
pub proof fn lemma_tap_prefix_padding(row: Seq<i16>, size: int, k: int)
    requires
        0 <= size <= k <= row.len(),
        forall|t: int| size <= t < row.len() ==> row[t] == 0,
    ensures
        spec_tap_prefix(row, k) == spec_tap_prefix(row, size),
    decreases k,
{
    if k > size {
        lemma_tap_prefix_padding(row, size, k - 1);
    }
}

/// A dot product over constant components is the component times the
/// tap prefix sum.
pub proof fn lemma_dot_const(
    buf: Seq<u8>,
    base: int,
    stride: int,
    csize: int,
    row: Seq<i16>,
    k: int,
    v: int,
)
    requires
        0 <= k,
        forall|t: int| 0 <= t < k ==> #[trigger] spec_comp(buf, base + t * stride, csize) == v,
    ensures
        spec_dot(buf, base, stride, csize, row, k) == v * spec_tap_prefix(row, k),
    decreases k,
{
    if k > 0 {
        lemma_dot_const(buf, base, stride, csize, row, k - 1, v);
        assert(spec_comp(buf, base + (k - 1) * stride, csize) == v);
        assert(v * spec_tap_prefix(row, k - 1) + row[k - 1] * v == v * (spec_tap_prefix(
            row,
            k - 1,
        ) + row[k - 1])) by (nonlinear_arith);
    } else {
        assert(v * 0 == 0) by (nonlinear_arith);
    }
}

proof fn lemma_abs_prefix_mono(row: Seq<i16>, k1: int, k2: int)
    requires
        0 <= k1 <= k2,
    ensures
        spec_abs_prefix(row, k1) <= spec_abs_prefix(row, k2),
    decreases k2,
{
    if k1 < k2 {
        lemma_abs_prefix_mono(row, k1, k2 - 1);
    }
}

proof fn lemma_abs_prefix_drop_last(row: Seq<i16>, k: int)
    requires
        0 <= k < row.len(),
    ensures
        spec_abs_prefix(row, k) == spec_abs_prefix(row.drop_last(), k),
    decreases k,
{
    if k > 0 {
        lemma_abs_prefix_drop_last(row, k - 1);
    }
}

proof fn lemma_abs_prefix_is_sum(row: Seq<i16>)
    ensures
        spec_abs_prefix(row, row.len() as int) == seq_abs_sum(row),
    decreases row.len(),
{
    if row.len() > 0 {
        lemma_abs_prefix_is_sum(row.drop_last());
        lemma_abs_prefix_drop_last(row, row.len() - 1);
    }
}

/// Reads the component stored at byte `base`.
fn read_component(buf: &Vec<u8>, base: usize, csize: u32) -> (r: u32)
    requires
        csize == 1 || csize == 2,
        base + csize <= buf@.len(),
    ensures
        r == spec_comp(buf@, base as int, csize as int),
        r <= (if csize == 1 {
            255int
        } else {
            65535int
        }),
{
    let n = buf.len();
    if csize == 1 {
        buf[base] as u32
    } else {
        (buf[base] as u32) + 256 * (buf[base + 1] as u32)
    }
}

/// Writes the component value `v` at byte `base`, touching only its
/// `csize` bytes.
fn write_component(buf: &mut Vec<u8>, base: usize, csize: u32, v: u32)
    requires
        csize == 1 || csize == 2,
        base + csize <= old(buf)@.len(),
        v <= (if csize == 1 {
            255int
        } else {
            65535int
        }),
    ensures
        final(buf)@.len() == old(buf)@.len(),
        final(buf)@[base as int] == (v % 256) as u8,
        csize == 2 ==> final(buf)@[base as int + 1] == (v / 256) as u8,
        forall|i: int|
            0 <= i < old(buf)@.len() && i != base && i != base + csize - 1
                ==> final(buf)@[i] == old(buf)@[i],
{
    let n = buf.len();
    buf.set(base, (v % 256) as u8);
    if csize == 2 {
        buf.set(base + 1, (v / 256) as u8);
    }
}

/// Divides the accumulator by `2^p` and saturates into `[0, cmax]`.
fn clip(acc: i32, p2: u32, cmax: u32, Ghost(p): Ghost<int>) -> (r: u32)
    requires
        1 <= p <= 14,
        p2 == pow2(p as nat),
        1 <= cmax,
    ensures
        r == spec_clip(p, cmax as int, acc as int),
        r <= cmax,
{
    proof {
        vstd::arithmetic::power2::lemma2_to64();
        if p < 14 {
            vstd::arithmetic::power2::lemma_pow2_strictly_increases(p as nat, 14);
        }
    }
    if acc < 0 {
        0
    } else {
        let q = (acc as u32) / p2;
        if q > cmax {
            cmax
        } else {
            q
        }
    }
}

/// One destination component: the clipped weighted sum of `size` source
/// components read with the given stride.
#[verifier::loop_isolation(false)]
fn dot_clip(
    buf: &Vec<u8>,
    base: usize,
    stride: usize,
    csize: u32,
    cmax: u32,
    values: &Vec<i16>,
    tbase: usize,
    size: u32,
    p2: u32,
    p2h: u32,
    Ghost(row): Ghost<Seq<i16>>,
    Ghost(p): Ghost<int>,
) -> (r: u32)
    requires
        csize == 1 || csize == 2,
        cmax == (if csize == 1 {
            255int
        } else {
            65535int
        }),
        1 <= p <= 14,
        p2 == pow2(p as nat),
        p2h == pow2((p - 1) as nat),
        1 <= size <= row.len(),
        row.len() < 0x20_0000_0000,
        tbase + row.len() <= values@.len(),
        forall|k: int| 0 <= k < row.len() ==> #[trigger] values@[tbase + k] == row[k],
        seq_abs_sum(row) * cmax + p2h <= 0x7fff_ffff,
        stride >= 1,
        base + (size - 1) * stride + csize <= buf@.len(),
    ensures
        r == spec_clip(
            p,
            cmax as int,
            pow2((p - 1) as nat) + spec_dot(buf@, base as int, stride as int, csize as int, row, size as int),
        ),
        r <= cmax,
{
    proof {
        vstd::arithmetic::power2::lemma2_to64();
        if p - 1 < 13 {
            vstd::arithmetic::power2::lemma_pow2_strictly_increases((p - 1) as nat, 13);
        }
        lemma_abs_prefix_is_sum(row);
        lemma_abs_prefix_mono(row, size as int, row.len() as int);
        lemma_abs_prefix_mono(row, 0, row.len() as int);
        assert(seq_abs_sum(row) >= 0);
    }
    let n = buf.len();
    let nv = values.len();
    let mut acc: i32 = p2h as i32;
    let mut k: u32 = 0;
    while k < size
        invariant
            0 <= k <= size,
            acc == p2h + spec_dot(buf@, base as int, stride as int, csize as int, row, k as int),
            -(spec_abs_prefix(row, k as int) * cmax) <= acc - p2h <= spec_abs_prefix(row, k as int)
                * cmax,
        decreases size - k,
    {
        proof {
            vstd::arithmetic::mul::lemma_mul_inequality(
                k as int,
                size - 1,
                stride as int,
            );
            vstd::arithmetic::mul::lemma_mul_is_commutative(k as int, stride as int);
            vstd::arithmetic::mul::lemma_mul_is_commutative(size - 1, stride as int);
            vstd::arithmetic::mul::lemma_mul_nonnegative(k as int, stride as int);
        }
        let comp = read_component(buf, base + k as usize * stride, csize);
        let tap = values[tbase + k as usize];
        let ghost t = row[k as int];
        let ghost ta: int = if t >= 0 {
            t as int
        } else {
            -(t as int)
        };
        assert(-(ta * cmax) <= tap * comp <= ta * cmax) by (nonlinear_arith)
            requires
                -ta <= tap <= ta,
                0 <= comp <= cmax,
                0 <= ta,
        ;
        proof {
            lemma_abs_prefix_mono(row, k as int + 1, size as int);
            assert((spec_abs_prefix(row, k as int) + (if t >= 0 {
                t as int
            } else {
                -(t as int)
            })) * cmax == spec_abs_prefix(row, k as int) * cmax + (if t >= 0 {
                t as int
            } else {
                -(t as int)
            }) * cmax) by (nonlinear_arith);
            assert(spec_abs_prefix(row, size as int) * cmax <= seq_abs_sum(row) * cmax)
                by (nonlinear_arith)
                requires
                    spec_abs_prefix(row, size as int) <= seq_abs_sum(row),
                    cmax >= 1,
            ;
            assert(spec_abs_prefix(row, k as int + 1) * cmax <= spec_abs_prefix(row, size as int)
                * cmax) by (nonlinear_arith)
                requires
                    spec_abs_prefix(row, k as int + 1) <= spec_abs_prefix(row, size as int),
                    cmax >= 1,
            ;
        }
        acc = acc + (tap as i32) * (comp as i32);
        k = k + 1;
    }
    clip(acc, p2, cmax, Ghost(p))
}

pub(crate) proof fn lemma_grid(r: int, bigr: int, x: int, bigx: int)
    requires
        0 <= r < bigr,
        0 <= x < bigx,
    ensures
        0 <= r * bigx + x < bigr * bigx,
    decreases 0int,
{
    assert(r * bigx + x < bigr * bigx) by (nonlinear_arith)
        requires
            0 <= r < bigr,
            0 <= x < bigx,
    ;
    assert(r * bigx >= 0) by (nonlinear_arith)
        requires
            r >= 0,
            bigx > 0,
    ;
}

/// Recovers row, column and byte indices from a flat byte position
/// `(j * bigx + x) * csize + b`.
pub(crate) proof fn lemma_decomp2(i: int, j: int, x: int, b: int, bigx: int, csize: int)
    requires
        1 <= bigx,
        1 <= csize,
        0 <= j,
        0 <= x < bigx,
        0 <= b < csize,
        i == (j * bigx + x) * csize + b,
    ensures
        i / (bigx * csize) == j,
        (i % (bigx * csize)) / csize == x,
        (i % (bigx * csize)) % csize == b,
{
    let rem = x * csize + b;
    assert(i == j * (bigx * csize) + rem && 0 <= rem && rem < bigx * csize && j * (bigx * csize)
        == (bigx * csize) * j) by (nonlinear_arith)
        requires
            i == (j * bigx + x) * csize + b,
            0 <= j,
            0 <= x < bigx,
            0 <= b < csize,
            1 <= bigx,
            1 <= csize,
            rem == x * csize + b,
    ;
    vstd::arithmetic::div_mod::lemma_fundamental_div_mod_converse(i, bigx * csize, j, rem);
    assert(x * csize == csize * x) by (nonlinear_arith);
    vstd::arithmetic::div_mod::lemma_fundamental_div_mod_converse(rem, csize, x, b);
}

/// Recovers row, pixel, channel and byte indices from a flat byte
/// position `((y * dw + x) * cc + c) * csize + b`.
proof fn lemma_decomp3(i: int, y: int, x: int, c: int, b: int, dw: int, cc: int, csize: int)
    requires
        1 <= dw,
        1 <= cc,
        1 <= csize,
        0 <= y,
        0 <= x < dw,
        0 <= c < cc,
        0 <= b < csize,
        i == ((y * dw + x) * cc + c) * csize + b,
    ensures
        i / (dw * (cc * csize)) == y,
        (i % (dw * (cc * csize))) / (cc * csize) == x,
        ((i % (dw * (cc * csize))) % (cc * csize)) / csize == c,
        ((i % (dw * (cc * csize))) % (cc * csize)) % csize == b,
{
    let xx = x * cc + c;
    assert(i == (y * (dw * cc) + xx) * csize + b && 0 <= xx < dw * cc) by (nonlinear_arith)
        requires
            i == ((y * dw + x) * cc + c) * csize + b,
            0 <= y,
            0 <= x < dw,
            0 <= c < cc,
            1 <= dw,
            1 <= cc,
            xx == x * cc + c,
    ;
    lemma_decomp2(i, y, xx, b, dw * cc, csize);
    assert(dw * cc * csize == dw * (cc * csize) && (dw * cc) * csize == dw * (cc * csize))
        by (nonlinear_arith);
    let rem = i % (dw * (cc * csize));
    assert(rem / csize == xx && rem % csize == b);
    vstd::arithmetic::div_mod::lemma_fundamental_div_mod(rem, csize);
    assert(csize * xx == xx * csize) by (nonlinear_arith);
    assert(rem == (x * cc + c) * csize + b);
    lemma_decomp2(rem, x, c, b, cc, csize);
}


/// The byte at flat position `i` of the horizontal pass output: for the
/// pixel row `y`, destination column `x` and channel `c` that `i` falls
/// in, the clipped weighted sum of the source components of window `x`
/// on row `y`.
pub open spec fn spec_conv_h_byte(
    src: Seq<u8>,
    sw: int,
    dw: int,
    cc: int,
    csize: int,
    cmax: int,
    ws: int,
    p: int,
    bounds: Seq<Bound>,
    values: Seq<i16>,
    i: int,
) -> u8 {
    let bpp = cc * csize;
    let y = i / (dw * bpp);
    let rem = i % (dw * bpp);
    let x = rem / bpp;
    let inner = rem % bpp;
    let c = inner / csize;
    let b = inner % csize;
    let start = bounds[x].start as int;
    let size = bounds[x].size as int;
    let row = values.subrange(x * ws, x * ws + ws);
    let acc = pow2((p - 1) as nat) + spec_dot(
        src,
        ((y * sw + start) * cc + c) * csize,
        cc * csize,
        csize,
        row,
        size,
    );
    let v = spec_clip(p, cmax, acc);
    if b == 0 {
        (v % 256) as u8
    } else {
        (v / 256) as u8
    }
}

/// The byte at flat position `i` of the vertical pass output: for the
/// destination row `j` and component column `x` that `i` falls in, the
/// clipped weighted sum over the source rows of window `j`.
pub open spec fn spec_conv_v_byte(
    src: Seq<u8>,
    w: int,
    cc: int,
    csize: int,
    cmax: int,
    ws: int,
    p: int,
    bounds: Seq<Bound>,
    values: Seq<i16>,
    i: int,
) -> u8 {
    let wc = w * cc;
    let j = i / (wc * csize);
    let rem = i % (wc * csize);
    let x = rem / csize;
    let b = rem % csize;
    let start = bounds[j].start as int;
    let size = bounds[j].size as int;
    let row = values.subrange(j * ws, j * ws + ws);
    let acc = pow2((p - 1) as nat) + spec_dot(
        src,
        (start * wc + x) * csize,
        wc * csize,
        csize,
        row,
        size,
    );
    let v = spec_clip(p, cmax, acc);
    if b == 0 {
        (v % 256) as u8
    } else {
        (v / 256) as u8
    }
}

/// Applies the horizontal convolution pass: each destination row `y`
/// equals the source row `y` resampled along its width by the
/// coefficient windows.
#[verifier::loop_isolation(false)]
#[verifier::rlimit(100)]
pub fn horiz_convolution(src: &Image, dst: &mut Image, coeffs: &Coefficients)
    requires
        src.wf(),
        old(dst).wf(),
        old(dst).pixel_type == src.pixel_type,
        old(dst).height == src.height,
        coeffs.wf(src.width as int, spec_component_max(src.pixel_type)),
        coeffs.bounds@.len() == old(dst).width,
        1 <= coeffs.window_size < 0x20_0000_0000,
        1 <= coeffs.precision <= 14,
    ensures
        final(dst).wf(),
        final(dst).width == old(dst).width,
        final(dst).height == old(dst).height,
        final(dst).pixel_type == old(dst).pixel_type,
        final(dst).buffer@.len() == old(dst).buffer@.len(),
        forall|i: int|
            0 <= i < final(dst).buffer@.len() ==> final(dst).buffer@[i] == spec_conv_h_byte(
                src.buffer@,
                src.width as int,
                old(dst).width as int,
                spec_components(src.pixel_type),
                spec_component_size(src.pixel_type),
                spec_component_max(src.pixel_type),
                coeffs.window_size as int,
                coeffs.precision as int,
                coeffs.bounds@,
                coeffs.values@,
                i,
            ),
{
    let pt = src.pixel_type;
    let cc = pt.components();
    let csize = pt.component_size();
    let cmax = pt.component_max();
    let sw = src.width;
    let dw = dst.width;
    let dh = dst.height;
    let ws = coeffs.window_size;
    let p = coeffs.precision;
    let p2 = crate::coefficients::pow2_u32(p);
    let p2h = p2 / 2;
    proof {
        vstd::arithmetic::power2::lemma_pow2_unfold(p as nat);
    }
    let ghost srcb = src.buffer@;
    let ghost wsI = ws as int;
    let ghost pI = p as int;
    let ghost ccI = cc as int;
    let ghost csI = csize as int;
    let ghost cmaxI = cmax as int;
    let ghost bpp = ccI * csI;
    let nsrc = src.buffer.len();
    let ndst = dst.buffer.len();
    let nval = coeffs.values.len();
    assert(coeffs.bounds@.len() * wsI == nval);
    let mut pos: usize = 0;
    let mut y: u32 = 0;
    while y < dh
        invariant
            0 <= y <= dh,
            pos == y * (dw * bpp),
            0 <= pos <= ndst,
            dst.buffer@.len() == ndst,
            dst.width == dw,
            dst.height == dh,
            dst.pixel_type == pt,
            forall|i: int|
                0 <= i < pos ==> dst.buffer@[i] == spec_conv_h_byte(
                    srcb,
                    sw as int,
                    dw as int,
                    ccI,
                    csI,
                    cmaxI,
                    wsI,
                    pI,
                    coeffs.bounds@,
                    coeffs.values@,
                    i,
                ),
        decreases dh - y,
    {
        let mut x: u32 = 0;
        while x < dw
            invariant
                0 <= x <= dw,
                y < dh,
                pos == y * (dw * bpp) + x * bpp,
                0 <= pos <= ndst,
                dst.buffer@.len() == ndst,
                dst.width == dw,
                dst.height == dh,
                dst.pixel_type == pt,
                forall|i: int|
                    0 <= i < pos ==> dst.buffer@[i] == spec_conv_h_byte(
                        srcb,
                        sw as int,
                        dw as int,
                        ccI,
                        csI,
                        cmaxI,
                        wsI,
                        pI,
                        coeffs.bounds@,
                        coeffs.values@,
                        i,
                    ),
            decreases dw - x,
        {
            let bnd = coeffs.bounds[x as usize];
            let start = bnd.start;
            let size = bnd.size;
            let ghost row = coeffs.values@.subrange(x as int * wsI, x as int * wsI + wsI);
            proof {
                assert(x as int * wsI + wsI == (x as int + 1) * wsI && (x as int + 1) * wsI
                    <= coeffs.bounds@.len() * wsI && 0 <= x as int * wsI) by (nonlinear_arith)
                    requires
                        0 <= x < coeffs.bounds@.len(),
                        1 <= wsI,
                ;
                assert(coeffs.row(x as int) == row);
                assert(seq_abs_sum(row) * cmaxI + pow2((p - 1) as nat) <= 0x7fff_ffff);
            }
            let tbase = (x as usize) * ws;
            let mut c: u32 = 0;
            while c < cc
                invariant
                    0 <= c <= cc,
                    x < dw,
                    y < dh,
                    pos == y * (dw * bpp) + x * bpp + c * csI,
                    0 <= pos <= ndst,
                    dst.buffer@.len() == ndst,
                    dst.width == dw,
                    dst.height == dh,
                    dst.pixel_type == pt,
                    forall|i: int|
                        0 <= i < pos ==> dst.buffer@[i] == spec_conv_h_byte(
                            srcb,
                            sw as int,
                            dw as int,
                            ccI,
                            csI,
                            cmaxI,
                            wsI,
                            pI,
                            coeffs.bounds@,
                            coeffs.values@,
                            i,
                        ),
                decreases cc - c,
            {
                proof {
                    lemma_grid(y as int, dh as int, start + size - 1, sw as int);
                    lemma_grid(y as int * sw + start + size - 1, dh as int * sw, c as int, ccI);
                    lemma_grid(
                        (y as int * sw + start + size - 1) * ccI + c,
                        dh as int * sw * ccI,
                        csI - 1,
                        csI,
                    );
                    assert((dh as int * sw) * ccI == dh as int * sw * ccI && (dh as int * sw * ccI)
                        * csI == sw * dh * (ccI * csI)) by (nonlinear_arith);
                    assert(((y as int * sw + start) * ccI + c) * csI + (size - 1) * (ccI * csI)
                        + csI == (((y as int * sw + start + size - 1) * ccI + c) * csI + csI - 1)
                        + 1) by (nonlinear_arith);
                    assert(((y as int * sw + start) * ccI + c) * csI >= 0) by (nonlinear_arith)
                        requires
                            y >= 0,
                            start >= 0,
                            c >= 0,
                            sw >= 1,
                            ccI >= 1,
                            csI >= 1,
                    ;
                }
                let sbase = ((y as usize * sw as usize + start as usize) * cc as usize + c as usize)
                    * csize as usize;
                let v = dot_clip(
                    &src.buffer,
                    sbase,
                    (cc * csize) as usize,
                    csize,
                    cmax,
                    &coeffs.values,
                    tbase,
                    size,
                    p2,
                    p2h,
                    Ghost(row),
                    Ghost(pI),
                );
                proof {
                    lemma_grid(y as int, dh as int, x as int, dw as int);
                    lemma_grid(y as int * dw + x, dh as int * dw, c as int, ccI);
                    lemma_grid((y as int * dw + x) * ccI + c, dh as int * dw * ccI, csI - 1, csI);
                    assert(pos == ((y as int * dw + x) * ccI + c) * csI && pos + csI <= dh as int
                        * dw * ccI * csI && (dh as int * dw * ccI) * csI == dh as int * dw * ccI
                        * csI && dw as int * dh * (ccI * csI) == dh as int * dw * ccI * csI)
                        by (nonlinear_arith)
                        requires
                            pos == y * (dw as int * (ccI * csI)) + x * (ccI * csI) + c * csI,
                            ((y as int * dw + x) * ccI + c) * csI + csI - 1 < dh as int * dw * ccI
                                * csI,
                            0 <= y < dh,
                            0 <= x < dw,
                            0 <= c < ccI,
                            1 <= csI,
                            1 <= ccI,
                            1 <= dw,
                    ;
                }
                let ghost pre = dst.buffer@;
                write_component(&mut dst.buffer, pos, csize, v);
                proof {
                    assert forall|i: int| 0 <= i < pos + csI implies dst.buffer@[i]
                        == spec_conv_h_byte(
                        srcb,
                        sw as int,
                        dw as int,
                        ccI,
                        csI,
                        cmaxI,
                        wsI,
                        pI,
                        coeffs.bounds@,
                        coeffs.values@,
                        i,
                    ) by {
                        if i < pos {
                            assert(dst.buffer@[i] == pre[i]);
                        } else {
                            let b = i - pos;
                            lemma_decomp3(
                                i,
                                y as int,
                                x as int,
                                c as int,
                                b,
                                dw as int,
                                ccI,
                                csI,
                            );
                        }
                    }
                }
                pos = pos + csize as usize;
                c = c + 1;
            }
            proof {
                assert(y * (dw as int * bpp) + x * bpp + ccI * csI == y * (dw as int * bpp) + (x
                    + 1) * bpp) by (nonlinear_arith)
                    requires
                        bpp == ccI * csI,
                ;
            }
            x = x + 1;
        }
        proof {
            assert(y * (dw as int * bpp) + dw as int * bpp == (y + 1) * (dw as int * bpp))
                by (nonlinear_arith)
                requires
                    bpp == ccI * csI,
            ;
        }
        y = y + 1;
    }
    proof {
        assert(dh as int * (dw as int * bpp) == dw as int * dh as int * ccI * csI)
            by (nonlinear_arith)
            requires
                bpp == ccI * csI,
        ;
        assert(pos == ndst);
    }
}


/// Applies the vertical convolution pass: each destination row `j`
/// equals the weighted sum of `window_size` source rows.
#[verifier::loop_isolation(false)]
#[verifier::rlimit(100)]
pub fn vert_convolution(src: &Image, dst: &mut Image, coeffs: &Coefficients)
    requires
        src.wf(),
        old(dst).wf(),
        old(dst).pixel_type == src.pixel_type,
        old(dst).width == src.width,
        coeffs.wf(src.height as int, spec_component_max(src.pixel_type)),
        coeffs.bounds@.len() == old(dst).height,
        1 <= coeffs.window_size < 0x20_0000_0000,
        1 <= coeffs.precision <= 14,
    ensures
        final(dst).wf(),
        final(dst).width == old(dst).width,
        final(dst).height == old(dst).height,
        final(dst).pixel_type == old(dst).pixel_type,
        final(dst).buffer@.len() == old(dst).buffer@.len(),
        forall|i: int|
            0 <= i < final(dst).buffer@.len() ==> final(dst).buffer@[i] == spec_conv_v_byte(
                src.buffer@,
                src.width as int,
                spec_components(src.pixel_type),
                spec_component_size(src.pixel_type),
                spec_component_max(src.pixel_type),
                coeffs.window_size as int,
                coeffs.precision as int,
                coeffs.bounds@,
                coeffs.values@,
                i,
            ),
{
    let pt = src.pixel_type;
    let cc = pt.components();
    let csize = pt.component_size();
    let cmax = pt.component_max();
    let w = src.width;
    let sh = src.height;
    let dh = dst.height;
    let ws = coeffs.window_size;
    let p = coeffs.precision;
    let p2 = crate::coefficients::pow2_u32(p);
    let p2h = p2 / 2;
    proof {
        vstd::arithmetic::power2::lemma_pow2_unfold(p as nat);
    }
    let ghost srcb = src.buffer@;
    let ghost wsI = ws as int;
    let ghost pI = p as int;
    let ghost ccI = cc as int;
    let ghost csI = csize as int;
    let ghost cmaxI = cmax as int;
    let ghost wcI = w as int * ccI;
    let nsrc = src.buffer.len();
    let ndst = dst.buffer.len();
    let nval = coeffs.values.len();
    assert(coeffs.bounds@.len() * wsI == nval);
    assert(w as int * sh as int * ccI * csI == sh as int * wcI * csI && w as int * dh as int * ccI
        * csI == dh as int * (wcI * csI) && wcI >= 1 && wcI <= w as int * dh as int * ccI * csI
        && wcI * csI <= sh as int * wcI * csI) by (nonlinear_arith)
        requires
            wcI == w as int * ccI,
            w >= 1,
            ccI >= 1,
            csI >= 1,
            dh >= 1,
            sh >= 1,
    ;
    let wc: usize = w as usize * cc as usize;
    let mut pos: usize = 0;
    let mut j: u32 = 0;
    while j < dh
        invariant
            0 <= j <= dh,
            pos == j * (wcI * csI),
            0 <= pos <= ndst,
            dst.buffer@.len() == ndst,
            dst.width == w,
            dst.height == dh,
            dst.pixel_type == pt,
            forall|i: int|
                0 <= i < pos ==> dst.buffer@[i] == spec_conv_v_byte(
                    srcb,
                    w as int,
                    ccI,
                    csI,
                    cmaxI,
                    wsI,
                    pI,
                    coeffs.bounds@,
                    coeffs.values@,
                    i,
                ),
        decreases dh - j,
    {
        let bnd = coeffs.bounds[j as usize];
        let start = bnd.start;
        let size = bnd.size;
        let ghost row = coeffs.values@.subrange(j as int * wsI, j as int * wsI + wsI);
        proof {
            assert(j as int * wsI + wsI == (j as int + 1) * wsI && (j as int + 1) * wsI
                <= coeffs.bounds@.len() * wsI && 0 <= j as int * wsI) by (nonlinear_arith)
                requires
                    0 <= j < coeffs.bounds@.len(),
                    1 <= wsI,
            ;
            assert(coeffs.row(j as int) == row);
            assert(seq_abs_sum(row) * cmaxI + pow2((p - 1) as nat) <= 0x7fff_ffff);
        }
        let tbase = (j as usize) * ws;
        let mut x: usize = 0;
        while x < wc
            invariant
                0 <= x <= wcI,
                j < dh,
                pos == j * (wcI * csI) + x * csI,
                0 <= pos <= ndst,
                dst.buffer@.len() == ndst,
                dst.width == w,
                dst.height == dh,
                dst.pixel_type == pt,
                forall|i: int|
                    0 <= i < pos ==> dst.buffer@[i] == spec_conv_v_byte(
                        srcb,
                        w as int,
                        ccI,
                        csI,
                        cmaxI,
                        wsI,
                        pI,
                        coeffs.bounds@,
                        coeffs.values@,
                        i,
                    ),
            decreases wcI - x,
        {
            proof {
                lemma_grid(start + size - 1, sh as int, x as int, wcI);
                lemma_grid((start + size - 1) * wcI + x, sh as int * wcI, csI - 1, csI);
                assert((sh as int * wcI) * csI == sh as int * wcI * csI) by (nonlinear_arith);
                assert((start * wcI + x) * csI + (size - 1) * (wcI * csI) + csI == (((start + size
                    - 1) * wcI + x) * csI + csI - 1) + 1 && (start * wcI + x) * csI >= 0 && (size
                    - 1) * (wcI * csI) >= 0) by (nonlinear_arith)
                    requires
                        start >= 0,
                        x >= 0,
                        size >= 1,
                        wcI >= 1,
                        csI >= 1,
                ;
            }
            let sbase = (start as usize * wc + x) * csize as usize;
            let v = dot_clip(
                &src.buffer,
                sbase,
                wc * csize as usize,
                csize,
                cmax,
                &coeffs.values,
                tbase,
                size,
                p2,
                p2h,
                Ghost(row),
                Ghost(pI),
            );
            proof {
                lemma_grid(j as int, dh as int, x as int, wcI);
                lemma_grid(j as int * wcI + x, dh as int * wcI, csI - 1, csI);
                assert(pos == (j as int * wcI + x) * csI && pos + csI <= dh as int * (wcI * csI)
                    && (dh as int * wcI) * csI == dh as int * (wcI * csI)) by (nonlinear_arith)
                    requires
                        pos == j * (wcI * csI) + x * csI,
                        (j as int * wcI + x) * csI + csI - 1 < (dh as int * wcI) * csI,
                        0 <= j < dh,
                        0 <= x < wcI,
                        1 <= csI,
                ;
            }
            let ghost pre = dst.buffer@;
            write_component(&mut dst.buffer, pos, csize, v);
            proof {
                assert forall|i: int| 0 <= i < pos + csI implies dst.buffer@[i]
                    == spec_conv_v_byte(
                    srcb,
                    w as int,
                    ccI,
                    csI,
                    cmaxI,
                    wsI,
                    pI,
                    coeffs.bounds@,
                    coeffs.values@,
                    i,
                ) by {
                    if i < pos {
                        assert(dst.buffer@[i] == pre[i]);
                    } else {
                        let b = i - pos;
                        lemma_decomp2(i, j as int, x as int, b, wcI, csI);
                    }
                }
            }
            pos = pos + csize as usize;
            x = x + 1;
        }
        proof {
            assert(j * (wcI * csI) + wcI * csI == (j + 1) * (wcI * csI)) by (nonlinear_arith);
        }
        j = j + 1;
    }
    proof {
        assert(pos == ndst);
    }
}

} // verus!
