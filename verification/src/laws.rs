//! The library-wide laws, each stated once over the specification
//! functions that the public contracts use.

use crate::coefficients::{seq_sum, Coefficients};
use crate::convolution::spec_clip;
use crate::nearest::{spec_nearest_byte, spec_nearest_index, spec_nearest_output};
use crate::pixels::PixelType;
use crate::resizer::{spec_resize_output, ResizeAlg, Resizer};
use vstd::arithmetic::power2::pow2;
use vstd::prelude::*;

verus! {

/// Tap normalization: every window of a well-formed coefficient set sums
/// to exactly `2^precision`, so a constant span of components passes
/// through convolution unchanged up to rounding.
pub proof fn lemma_tap_normalization(c: Coefficients, src_len: int, cmax: int, j: int)
    requires
        c.wf(src_len, cmax),
        0 <= j < c.bounds@.len(),
    ensures
        seq_sum(c.row(j)) == pow2(c.precision as nat),
{
}

/// Tap accuracy: inside an accepted window, each running tap target
/// `spec_tq` sits within half a unit of the exact scaling of the raw
/// prefix to `2^p`; the quantized taps redistribute at most one unit of
/// rounding between neighbors.
pub proof fn lemma_tap_rounding(
    src: int,
    dst: int,
    f: crate::filters::FilterType,
    p: int,
    j: int,
    k: int,
)
    requires
        0 < k < crate::coefficients::spec_size(src, dst, f, j),
        crate::coefficients::spec_total(src, dst, f, j) > 0,
        p >= 0,
    ensures
        ({
            let total = crate::coefficients::spec_total(src, dst, f, j);
            let n = crate::coefficients::spec_raw_prefix(src, dst, f, j, k as nat) * pow2(
                p as nat,
            );
            let t = crate::coefficients::spec_tq(src, dst, f, p, j, k);
            -total < 2 * total * t - 2 * n <= total
        }),
{
    let total = crate::coefficients::spec_total(src, dst, f, j);
    let n = crate::coefficients::spec_raw_prefix(src, dst, f, j, k as nat) * pow2(p as nat);
    let t = crate::coefficients::spec_tq(src, dst, f, p, j, k);
    assert(t == (2 * n + total) / (2 * total));
    vstd::arithmetic::div_mod::lemma_fundamental_div_mod(2 * n + total, 2 * total);
    vstd::arithmetic::div_mod::lemma_mod_bound(2 * n + total, 2 * total);
    let r = (2 * n + total) % (2 * total);
    assert(2 * n + total == (2 * total) * t + r);
    assert(2 * total * t == (2 * total) * t) by (nonlinear_arith);
}

/// Saturation: a clipped accumulator always lands inside the component
/// range `[0, cmax]`, whatever the accumulator held.
pub proof fn lemma_saturation(p: int, cmax: int, acc: int)
    requires
        1 <= p,
        1 <= cmax,
    ensures
        0 <= spec_clip(p, cmax, acc) <= cmax,
{
    vstd::arithmetic::power2::lemma_pow2_pos(p as nat);
    if acc >= 0 {
        vstd::arithmetic::div_mod::lemma_div_pos_is_pos(acc, pow2(p as nat) as int);
    }
}

/// Constant preservation: a destination component whose whole window
/// reads one constant value `v` comes out as exactly `v`, for every
/// filter and precision — the rounding bias and the exact tap sum
/// `2^p` cancel. A constant image therefore passes through convolution
/// byte for byte.
pub proof fn lemma_constant_window(
    p: int,
    cmax: int,
    v: int,
    buf: Seq<u8>,
    base: int,
    stride: int,
    csize: int,
    row: Seq<i16>,
    size: int,
)
    requires
        1 <= p,
        0 <= v <= cmax,
        1 <= size <= row.len(),
        forall|t: int| size <= t < row.len() ==> row[t] == 0,
        seq_sum(row) == pow2(p as nat),
        forall|t: int|
            0 <= t < size ==> #[trigger] crate::convolution::spec_comp(buf, base + t * stride, csize)
                == v,
    ensures
        spec_clip(
            p,
            cmax,
            pow2((p - 1) as nat) + crate::convolution::spec_dot(buf, base, stride, csize, row, size),
        ) == v,
{
    crate::convolution::lemma_dot_const(buf, base, stride, csize, row, size, v);
    crate::convolution::lemma_tap_prefix_is_sum(row);
    crate::convolution::lemma_tap_prefix_padding(row, size, row.len() as int);
    vstd::arithmetic::power2::lemma_pow2_unfold(p as nat);
    vstd::arithmetic::power2::lemma_pow2_pos(p as nat);
    vstd::arithmetic::power2::lemma_pow2_pos((p - 1) as nat);
    let acc = pow2((p - 1) as nat) + v * pow2(p as nat);
    assert(v * pow2(p as nat) == pow2(p as nat) * v) by (nonlinear_arith);
    vstd::arithmetic::div_mod::lemma_fundamental_div_mod_converse(
        acc,
        pow2(p as nat) as int,
        v,
        pow2((p - 1) as nat) as int,
    );
    assert(acc >= 0) by (nonlinear_arith)
        requires
            v >= 0,
            pow2(p as nat) > 0,
            pow2((p - 1) as nat) > 0,
            acc == pow2((p - 1) as nat) + v * pow2(p as nat),
    ;
}

/// Backend equivalence: the bytes a resize produces are a function of
/// the algorithm, the source and the destination dimensions alone; the
/// backend preference of the two resizers plays no part, so any two
/// backends produce identical output.
pub proof fn lemma_backend_equivalence(
    r1: Resizer,
    r2: Resizer,
    out1: Seq<u8>,
    out2: Seq<u8>,
    src: Seq<u8>,
    sw: int,
    sh: int,
    pt: PixelType,
    dw: int,
    dh: int,
)
    requires
        r1.algorithm == r2.algorithm,
        out1 == spec_resize_output(r1.algorithm, src, sw, sh, pt, dw, dh),
        out2 == spec_resize_output(r2.algorithm, src, sw, sh, pt, dw, dh),
    ensures
        out1 == out2,
{
}

/// Separability determinism: two resizes of the same source with the
/// same algorithm and destination dimensions yield identical bytes.
pub proof fn lemma_resize_deterministic(
    alg: ResizeAlg,
    out1: Seq<u8>,
    out2: Seq<u8>,
    src: Seq<u8>,
    sw: int,
    sh: int,
    pt: PixelType,
    dw: int,
    dh: int,
)
    requires
        out1 == spec_resize_output(alg, src, sw, sh, pt, dw, dh),
        out2 == spec_resize_output(alg, src, sw, sh, pt, dw, dh),
    ensures
        out1 == out2,
{
}

/// Identity: a nearest-neighbor resize of an image to its own
/// dimensions returns the source bytes unchanged.
pub proof fn lemma_nearest_identity(src: Seq<u8>, w: int, h: int, bpp: int)
    requires
        w >= 1,
        h >= 1,
        bpp >= 1,
        src.len() == w * h * bpp,
    ensures
        spec_nearest_output(src, w, h, w, h, bpp) == src,
{
    assert forall|i: int| 0 <= i < w * h * bpp implies spec_nearest_byte(src, w, h, w, h, bpp, i)
        == src[i] by {
        let rowb = w * bpp;
        assert(w * bpp >= 1 && w * h * bpp == (w * bpp) * h) by (nonlinear_arith)
            requires
                w >= 1,
                h >= 1,
                bpp >= 1,
        ;
        vstd::arithmetic::div_mod::lemma_fundamental_div_mod(i, rowb);
        vstd::arithmetic::div_mod::lemma_mod_bound(i, rowb);
        let y = i / rowb;
        let rem = i % rowb;
        vstd::arithmetic::div_mod::lemma_div_pos_is_pos(i, rowb);
        vstd::arithmetic::div_mod::lemma_fundamental_div_mod(rem, bpp);
        vstd::arithmetic::div_mod::lemma_mod_bound(rem, bpp);
        vstd::arithmetic::div_mod::lemma_div_pos_is_pos(rem, bpp);
        let x = rem / bpp;
        let b = rem % bpp;
        assert(x < w) by (nonlinear_arith)
            requires
                rem < w * bpp,
                rem == bpp * x + b,
                0 <= b < bpp,
                0 <= x,
                bpp >= 1,
        ;
        assert(y < h) by (nonlinear_arith)
            requires
                i < w * h * bpp,
                i == (w * bpp) * y + rem,
                0 <= rem < w * bpp,
                0 <= y,
                w * h * bpp == (w * bpp) * h,
                w >= 1,
                bpp >= 1,
        ;
        lemma_nearest_index_identity(x, w);
        lemma_nearest_index_identity(y, h);
        assert((y * w + x) * bpp + b == i) by (nonlinear_arith)
            requires
                i == (w * bpp) * y + rem,
                rem == bpp * x + b,
        ;
    }
    assert(spec_nearest_output(src, w, h, w, h, bpp) =~= src);
}

/// Resizing an axis to its own length maps every index to itself.
pub proof fn lemma_nearest_index_identity(pos: int, len: int)
    requires
        0 <= pos < len,
    ensures
        spec_nearest_index(pos, len, len) == pos,
{
    assert((2 * pos + 1) * len == pos * (2 * len) + len) by (nonlinear_arith);
    vstd::arithmetic::div_mod::lemma_fundamental_div_mod_converse(
        (2 * pos + 1) * len,
        2 * len,
        pos,
        len,
    );
}


/// On an axis resized to its own length, the bilinear filter produces a
/// two-tap window starting at each sample, whose whole weight `2^13`
/// lands on the sample itself.
proof fn lemma_bilinear_axis(len: int, j: int, cmax: int)
    requires
        1 <= len,
        0 <= j < len,
        1 <= cmax <= 65535,
    ensures
        crate::coefficients::spec_window_size(len, len, crate::filters::FilterType::Bilinear)
            == 2,
        crate::coefficients::spec_precision(2) == 13,
        crate::coefficients::spec_start(len, len, crate::filters::FilterType::Bilinear, j) == j,
        crate::coefficients::spec_size(len, len, crate::filters::FilterType::Bilinear, j) == (
        if j == len - 1 {
            1int
        } else {
            2int
        }),
        crate::coefficients::spec_tap(
            len,
            len,
            crate::filters::FilterType::Bilinear,
            13,
            cmax,
            j,
            0,
        ) == 8192,
        crate::coefficients::spec_tap(
            len,
            len,
            crate::filters::FilterType::Bilinear,
            13,
            cmax,
            j,
            1,
        ) == 0,
{
    let f = crate::filters::FilterType::Bilinear;
    vstd::arithmetic::power2::lemma2_to64();
    // Window size: ceil(2 * len / len) == 2, already even.
    assert(3 * len - 1 == 2 * len + (len - 1)) by (nonlinear_arith);
    vstd::arithmetic::div_mod::lemma_fundamental_div_mod_converse(3 * len - 1, len, 2, len - 1);
    assert(crate::coefficients::spec_window_size(len, len, f) == 2);
    // Precision schedule at window size two.
    assert(crate::coefficients::spec_ceil_log2(1) == 0);
    assert(crate::coefficients::spec_ceil_log2(2) == 1);
    assert(crate::coefficients::spec_precision(2) == 13);
    // Window bounds: start j, end j + 2 clamped to the axis.
    assert((2 * j + 1) * len - len == j * (2 * len) && (2 * j + 1) * len - len + 2 * len == (j + 1)
        * (2 * len)) by (nonlinear_arith);
    vstd::arithmetic::div_mod::lemma_fundamental_div_mod_converse(
        j * (2 * len),
        2 * len,
        j,
        0,
    );
    vstd::arithmetic::div_mod::lemma_fundamental_div_mod_converse(
        (j + 1) * (2 * len),
        2 * len,
        j + 1,
        0,
    );
    assert(crate::coefficients::spec_left_raw(len, len, f, j) == j);
    assert(crate::coefficients::spec_right_raw(len, len, f, j) == j + 2);
    assert(crate::coefficients::spec_start(len, len, f, j) == j);
    let size = crate::coefficients::spec_size(len, len, f, j);
    assert(size == if j == len - 1 {
        1int
    } else {
        2int
    });
    // Tap positions: exactly zero and exactly one filter unit.
    assert((2 * (j + 0) + 1) * len - (2 * j + 1) * len == 0 && (2 * (j + 1) + 1) * len - (2 * j
        + 1) * len == 2 * len) by (nonlinear_arith);
    assert(2 * (0int * 0x1_0000_0000) + 2 * len == 0 * (2 * (2 * len)) + 2 * len && 0 <= 2 * len
        < 2 * (2 * len)) by (nonlinear_arith)
        requires
            len >= 1,
    ;
    vstd::arithmetic::div_mod::lemma_fundamental_div_mod_converse(
        2 * len,
        2 * (2 * len),
        0,
        2 * len,
    );
    assert(crate::coefficients::spec_xpos(len, len, f, j, 0) == 0);
    assert(2 * ((2 * len) * 0x1_0000_0000) + 2 * len == 0x1_0000_0000 * (2 * (2 * len)) + 2 * len)
        by (nonlinear_arith);
    vstd::arithmetic::div_mod::lemma_fundamental_div_mod_converse(
        2 * ((2 * len) * 0x1_0000_0000) + 2 * len,
        2 * (2 * len),
        0x1_0000_0000,
        2 * len,
    );
    assert(crate::coefficients::spec_xpos(len, len, f, j, 1) == 0x1_0000_0000);
    // Kernel values: one at the center, zero at distance one.
    assert(crate::filters::spec_filter_eval(f, 0) == 0x4000_0000);
    assert(crate::filters::spec_filter_eval(f, 0x1_0000_0000) == 0);
    assert(crate::coefficients::spec_raw_tap(len, len, f, j, 0) == 0x4000_0000);
    assert(crate::coefficients::spec_raw_tap(len, len, f, j, 1) == 0);
    // Raw prefix sums and the window total.
    assert(crate::coefficients::spec_raw_prefix(len, len, f, j, 0) == 0);
    assert(crate::coefficients::spec_raw_prefix(len, len, f, j, 1) == 0x4000_0000);
    assert(crate::coefficients::spec_raw_prefix(len, len, f, j, 2) == 0x4000_0000);
    let total = crate::coefficients::spec_total(len, len, f, j);
    assert(total == 0x4000_0000);
    // Running targets: the whole weight lands after the first tap.
    assert(pow2(13) == 8192);
    if size == 2 {
        assert(2 * (0x4000_0000 * pow2(13) as int) + 0x4000_0000 == 8192 * (2 * 0x4000_0000)
            + 0x4000_0000) by (nonlinear_arith)
            requires
                pow2(13) == 8192,
        ;
        vstd::arithmetic::div_mod::lemma_fundamental_div_mod_converse(
            2 * (0x4000_0000 * pow2(13) as int) + 0x4000_0000,
            2 * 0x4000_0000int,
            8192,
            0x4000_0000,
        );
        assert(crate::coefficients::spec_tq(len, len, f, 13, j, 1) == 8192);
    }
    assert(crate::coefficients::spec_qtap(len, len, f, 13, j, 0) == 8192);
    assert(size == 2 ==> crate::coefficients::spec_qtap(len, len, f, 13, j, 1) == 0);
    // The window is accepted: taps in range and a safe absolute sum.
    assert(crate::coefficients::spec_qabs_prefix(len, len, f, 13, j, 0) == 0);
    assert(crate::coefficients::spec_qabs_prefix(len, len, f, 13, j, 1) == 8192);
    assert(size == 2 ==> crate::coefficients::spec_qabs_prefix(len, len, f, 13, j, 2) == 8192);
    assert(8192 * cmax + pow2(12) <= 0x7fff_ffff) by (nonlinear_arith)
        requires
            cmax <= 65535,
            pow2(12) == 4096,
    ;
    assert forall|k: int|
        0 <= k < size implies -32767 <= #[trigger] crate::coefficients::spec_qtap(
        len,
        len,
        f,
        13,
        j,
        k,
    ) <= 32767 by {
        if k == 0 {
        } else {
            assert(k == 1 && size == 2);
        }
    }
    assert(crate::coefficients::spec_row_ok(len, len, f, 13, cmax, j));
}


/// A horizontal bilinear pass to the same width is the identity on the
/// bytes.
proof fn lemma_bilinear_pass_h_identity(src: Seq<u8>, w: int, sh: int, pt: PixelType)
    requires
        1 <= w <= 0xffff_ffff,
        1 <= sh,
        src.len() == sh * w * crate::pixels::spec_components(pt)
            * crate::pixels::spec_component_size(pt),
    ensures
        crate::resizer::spec_conv_pass_h(src, w, sh, pt, w, crate::filters::FilterType::Bilinear)
            == src,
{
    let f = crate::filters::FilterType::Bilinear;
    let cc = crate::pixels::spec_components(pt);
    let cs = crate::pixels::spec_component_size(pt);
    let cmax = crate::pixels::spec_component_max(pt);
    let bpp = cc * cs;
    vstd::arithmetic::power2::lemma2_to64();
    lemma_bilinear_axis(w, 0, cmax);
    assert forall|i: int| 0 <= i < sh * w * cc * cs implies crate::convolution::spec_conv_h_byte(
        src,
        w,
        w,
        cc,
        cs,
        cmax,
        2,
        13,
        crate::resizer::spec_bounds_seq(w, w, f),
        crate::resizer::spec_values_seq(w, w, f, cmax),
        i,
    ) == src[i] by {
        let rowb = w * bpp;
        assert(w * bpp >= 1 && sh * w * cc * cs == (w * bpp) * sh && cc * cs >= 1)
            by (nonlinear_arith)
            requires
                w >= 1,
                sh >= 1,
                cc >= 1,
                cs >= 1,
                bpp == cc * cs,
        ;
        vstd::arithmetic::div_mod::lemma_fundamental_div_mod(i, rowb);
        vstd::arithmetic::div_mod::lemma_mod_bound(i, rowb);
        vstd::arithmetic::div_mod::lemma_div_pos_is_pos(i, rowb);
        let y = i / rowb;
        let rem = i % rowb;
        vstd::arithmetic::div_mod::lemma_fundamental_div_mod(rem, bpp);
        vstd::arithmetic::div_mod::lemma_mod_bound(rem, bpp);
        vstd::arithmetic::div_mod::lemma_div_pos_is_pos(rem, bpp);
        let x = rem / bpp;
        let inner = rem % bpp;
        vstd::arithmetic::div_mod::lemma_fundamental_div_mod(inner, cs);
        vstd::arithmetic::div_mod::lemma_mod_bound(inner, cs);
        vstd::arithmetic::div_mod::lemma_div_pos_is_pos(inner, cs);
        let c = inner / cs;
        let b = inner % cs;
        assert(x < w) by (nonlinear_arith)
            requires
                rem < w * bpp,
                rem == bpp * x + inner,
                0 <= inner < bpp,
                0 <= x,
                bpp >= 1,
        ;
        assert(y < sh) by (nonlinear_arith)
            requires
                i < sh * w * cc * cs,
                i == (w * bpp) * y + rem,
                0 <= rem < w * bpp,
                0 <= y,
                sh * w * cc * cs == (w * bpp) * sh,
                w * bpp >= 1,
        ;
        assert(c < cc) by (nonlinear_arith)
            requires
                inner < bpp,
                bpp == cc * cs,
                inner == cs * c + b,
                0 <= b < cs,
                0 <= c,
                cs >= 1,
        ;
        lemma_bilinear_axis(w, x, cmax);
        // The two taps of window x inside the flat slab.
        vstd::arithmetic::div_mod::lemma_fundamental_div_mod_converse(2 * x, 2, x, 0);
        vstd::arithmetic::div_mod::lemma_fundamental_div_mod_converse(2 * x + 1, 2, x, 1);
        assert(0 <= 2 * x && 2 * x + 2 <= w * 2) by (nonlinear_arith)
            requires
                0 <= x < w,
        ;
        let row = crate::resizer::spec_values_seq(w, w, f, cmax).subrange(x * 2, x * 2 + 2);
        assert(row[0] == 8192i16 && row[1] == 0i16);
        // The window of destination column x and its dot product.
        let start = crate::coefficients::spec_start(w, w, f, x);
        let size = crate::coefficients::spec_size(w, w, f, x);
        assert(crate::resizer::spec_bounds_seq(w, w, f)[x].start == x as u32);
        assert((x as u32) as int == x);
        assert((size as u32) as int == size);
        let base = ((y * w + start) * cc + c) * cs;
        let v = crate::convolution::spec_comp(src, base, cs);
        assert(crate::convolution::spec_dot(src, base, bpp, cs, row, 1) == 8192 * v + 0
            && base + 0 * bpp == base) by (nonlinear_arith)
            requires
                crate::convolution::spec_dot(src, base, bpp, cs, row, 0) == 0,
                row[0] == 8192,
                v == crate::convolution::spec_comp(src, base + 0 * bpp, cs),
        ;
        if size == 2 {
            assert(crate::convolution::spec_dot(src, base, bpp, cs, row, 2) == 8192 * v)
                by (nonlinear_arith)
                requires
                    crate::convolution::spec_dot(src, base, bpp, cs, row, 1) == 8192 * v,
                    row[1] == 0,
                    crate::convolution::spec_dot(src, base, bpp, cs, row, 2)
                        == crate::convolution::spec_dot(src, base, bpp, cs, row, 1) + row[1]
                        * crate::convolution::spec_comp(src, base + 1 * bpp, cs),
            ;
        }
        assert(crate::convolution::spec_dot(src, base, bpp, cs, row, size) == 8192 * v);
        // Clipping gives the component back.
        assert(0 <= v <= cmax);
        let acc = pow2(12) + 8192 * v;
        assert(acc == v * 8192 + 4096 && acc >= 0) by (nonlinear_arith)
            requires
                acc == 4096 + 8192 * v,
                v >= 0,
        ;
        vstd::arithmetic::div_mod::lemma_fundamental_div_mod_converse(acc, 8192, v, 4096);
        assert(crate::convolution::spec_clip(13, cmax, acc) == v);
        // The component's bytes are the source bytes at i.
        assert(base + b == i) by (nonlinear_arith)
            requires
                i == (w * bpp) * y + rem,
                rem == bpp * x + inner,
                inner == cs * c + b,
                bpp == cc * cs,
                base == ((y * w + x) * cc + c) * cs,
        ;
        if cs == 1 {
            vstd::arithmetic::div_mod::lemma_fundamental_div_mod_converse(v, 256, 0, v);
        } else {
            assert(v == (src[base + 1] as int) * 256 + src[base]) by (nonlinear_arith)
                requires
                    v == src[base] + 256 * src[base + 1],
            ;
            vstd::arithmetic::div_mod::lemma_fundamental_div_mod_converse(
                v,
                256,
                src[base + 1] as int,
                src[base] as int,
            );
        }
    }
    assert(crate::resizer::spec_conv_pass_h(src, w, sh, pt, w, f) =~= src);
}


/// A vertical bilinear pass to the same height is the identity on the
/// bytes.
proof fn lemma_bilinear_pass_v_identity(src: Seq<u8>, w: int, sh: int, pt: PixelType)
    requires
        1 <= w,
        1 <= sh <= 0xffff_ffff,
        src.len() == w * sh * crate::pixels::spec_components(pt)
            * crate::pixels::spec_component_size(pt),
    ensures
        crate::resizer::spec_conv_pass_v(src, w, sh, pt, sh, crate::filters::FilterType::Bilinear)
            == src,
{
    let f = crate::filters::FilterType::Bilinear;
    let cc = crate::pixels::spec_components(pt);
    let cs = crate::pixels::spec_component_size(pt);
    let cmax = crate::pixels::spec_component_max(pt);
    let wc = w * cc;
    vstd::arithmetic::power2::lemma2_to64();
    lemma_bilinear_axis(sh, 0, cmax);
    assert forall|i: int| 0 <= i < w * sh * cc * cs implies crate::convolution::spec_conv_v_byte(
        src,
        w,
        cc,
        cs,
        cmax,
        2,
        13,
        crate::resizer::spec_bounds_seq(sh, sh, f),
        crate::resizer::spec_values_seq(sh, sh, f, cmax),
        i,
    ) == src[i] by {
        let rowb = wc * cs;
        assert(wc >= 1 && wc * cs >= 1 && w * sh * cc * cs == (wc * cs) * sh) by (nonlinear_arith)
            requires
                w >= 1,
                sh >= 1,
                cc >= 1,
                cs >= 1,
                wc == w * cc,
        ;
        vstd::arithmetic::div_mod::lemma_fundamental_div_mod(i, rowb);
        vstd::arithmetic::div_mod::lemma_mod_bound(i, rowb);
        vstd::arithmetic::div_mod::lemma_div_pos_is_pos(i, rowb);
        let j = i / rowb;
        let rem = i % rowb;
        vstd::arithmetic::div_mod::lemma_fundamental_div_mod(rem, cs);
        vstd::arithmetic::div_mod::lemma_mod_bound(rem, cs);
        vstd::arithmetic::div_mod::lemma_div_pos_is_pos(rem, cs);
        let x = rem / cs;
        let b = rem % cs;
        assert(x < wc) by (nonlinear_arith)
            requires
                rem < wc * cs,
                rem == cs * x + b,
                0 <= b < cs,
                0 <= x,
                cs >= 1,
        ;
        assert(j < sh) by (nonlinear_arith)
            requires
                i < w * sh * cc * cs,
                i == (wc * cs) * j + rem,
                0 <= rem < wc * cs,
                0 <= j,
                w * sh * cc * cs == (wc * cs) * sh,
                wc * cs >= 1,
        ;
        lemma_bilinear_axis(sh, j, cmax);
        // The two taps of window j inside the flat slab.
        vstd::arithmetic::div_mod::lemma_fundamental_div_mod_converse(2 * j, 2, j, 0);
        vstd::arithmetic::div_mod::lemma_fundamental_div_mod_converse(2 * j + 1, 2, j, 1);
        assert(0 <= 2 * j && 2 * j + 2 <= sh * 2) by (nonlinear_arith)
            requires
                0 <= j < sh,
        ;
        let row = crate::resizer::spec_values_seq(sh, sh, f, cmax).subrange(j * 2, j * 2 + 2);
        assert(row[0] == 8192i16 && row[1] == 0i16);
        let start = crate::coefficients::spec_start(sh, sh, f, j);
        let size = crate::coefficients::spec_size(sh, sh, f, j);
        assert(crate::resizer::spec_bounds_seq(sh, sh, f)[j].start == j as u32);
        assert((j as u32) as int == j);
        assert((size as u32) as int == size);
        let base = (start * wc + x) * cs;
        let v = crate::convolution::spec_comp(src, base, cs);
        assert(crate::convolution::spec_dot(src, base, wc * cs, cs, row, 1) == 8192 * v + 0
            && base + 0 * (wc * cs) == base) by (nonlinear_arith)
            requires
                crate::convolution::spec_dot(src, base, wc * cs, cs, row, 0) == 0,
                row[0] == 8192,
                v == crate::convolution::spec_comp(src, base + 0 * (wc * cs), cs),
        ;
        if size == 2 {
            assert(crate::convolution::spec_dot(src, base, wc * cs, cs, row, 2) == 8192 * v)
                by (nonlinear_arith)
                requires
                    crate::convolution::spec_dot(src, base, wc * cs, cs, row, 1) == 8192 * v,
                    row[1] == 0,
                    crate::convolution::spec_dot(src, base, wc * cs, cs, row, 2)
                        == crate::convolution::spec_dot(src, base, wc * cs, cs, row, 1) + row[1]
                        * crate::convolution::spec_comp(src, base + 1 * (wc * cs), cs),
            ;
        }
        assert(crate::convolution::spec_dot(src, base, wc * cs, cs, row, size) == 8192 * v);
        assert(0 <= v <= cmax);
        let acc = pow2(12) + 8192 * v;
        assert(acc == v * 8192 + 4096 && acc >= 0) by (nonlinear_arith)
            requires
                acc == 4096 + 8192 * v,
                v >= 0,
        ;
        vstd::arithmetic::div_mod::lemma_fundamental_div_mod_converse(acc, 8192, v, 4096);
        assert(crate::convolution::spec_clip(13, cmax, acc) == v);
        assert(base + b == i) by (nonlinear_arith)
            requires
                i == (wc * cs) * j + rem,
                rem == cs * x + b,
                base == (j * wc + x) * cs,
        ;
        if cs == 1 {
            vstd::arithmetic::div_mod::lemma_fundamental_div_mod_converse(v, 256, 0, v);
        } else {
            assert(v == (src[base + 1] as int) * 256 + src[base]) by (nonlinear_arith)
                requires
                    v == src[base] + 256 * src[base + 1],
            ;
            vstd::arithmetic::div_mod::lemma_fundamental_div_mod_converse(
                v,
                256,
                src[base + 1] as int,
                src[base] as int,
            );
        }
    }
    assert(crate::resizer::spec_conv_pass_v(src, w, sh, pt, sh, f) =~= src);
}

/// Identity under convolution: resizing an image to its own dimensions
/// with the bilinear filter returns the source byte for byte. At scale
/// one the bilinear window holds the sample itself at kernel value one
/// and a neighbor at kernel value zero, so the whole quantized weight
/// `2^13` lands on the sample.
pub proof fn lemma_bilinear_identity(src: Seq<u8>, w: int, h: int, pt: PixelType)
    requires
        1 <= w <= 0xffff_ffff,
        1 <= h <= 0xffff_ffff,
        src.len() == w * h * crate::pixels::spec_components(pt)
            * crate::pixels::spec_component_size(pt),
    ensures
        crate::resizer::spec_conv_resize(src, w, h, pt, w, h, crate::filters::FilterType::Bilinear)
            == src,
{
    let f = crate::filters::FilterType::Bilinear;
    assert(!crate::resizer::spec_horizontal_first(w, h, w, h)) by (nonlinear_arith);
    lemma_bilinear_pass_v_identity(src, w, h, pt);
    assert(h * w * crate::pixels::spec_components(pt) * crate::pixels::spec_component_size(pt)
        == w * h * crate::pixels::spec_components(pt) * crate::pixels::spec_component_size(pt))
        by (nonlinear_arith);
    lemma_bilinear_pass_h_identity(src, w, h, pt);
}

} // verus!
