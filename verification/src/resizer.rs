//! The resizing engine: algorithm selection, separable pass ordering and
//! the top-level `resize` entry point.

use crate::coefficients::{
    compute_coefficients, spec_precision, spec_size, spec_start, spec_tap_i16, spec_window_size,
    Bound, Coefficients,
};
use crate::convolution::{horiz_convolution, spec_conv_h_byte, spec_conv_v_byte, vert_convolution};
use crate::errors::DifferentTypesOfPixelsError;
use crate::filters::FilterType;
use crate::image::Image;
use crate::nearest::{nearest_resize, spec_nearest_output};
use crate::pixels::{spec_component_max, spec_component_size, spec_components, PixelType};
use vstd::prelude::*;

verus! {

/// The resampling algorithm of a [`Resizer`].
#[derive(Clone, Copy, Debug, PartialEq, Eq, Structural)]
pub enum ResizeAlg {
    /// Nearest-neighbor sampling.
    Nearest,
    /// Separable convolution with the given reconstruction filter.
    Convolution(FilterType),
    /// Nearest-neighbor reduction to `k` times the destination size,
    /// followed by convolution.
    SuperSampling(FilterType, u8),
}

/// The instruction-set preference of a [`Resizer`]. Every backend
/// resolves to the verified scalar kernels, so the setting never changes
/// a single output byte.
#[derive(Clone, Copy, Debug, PartialEq, Eq, Structural)]
pub enum CpuExtensions {
    /// Plain scalar code.
    Scalar,
    /// Accept SSE4.1; served by the scalar kernels.
    Sse4_1,
    /// Accept AVX2; served by the scalar kernels.
    Avx2,
}

/// The per-destination-sample windows of one axis, as the coefficient
/// builder pins them.
pub open spec fn spec_bounds_seq(src_len: int, dst_len: int, f: FilterType) -> Seq<Bound> {
    Seq::new(
        dst_len as nat,
        |j: int|
            Bound {
                start: spec_start(src_len, dst_len, f, j) as u32,
                size: spec_size(src_len, dst_len, f, j) as u32,
            },
    )
}

/// The flat quantized tap slab of one axis.
pub open spec fn spec_values_seq(src_len: int, dst_len: int, f: FilterType, cmax: int) -> Seq<
    i16,
> {
    let ws = spec_window_size(src_len, dst_len, f);
    let p = spec_precision(ws);
    Seq::new(
        (dst_len * ws) as nat,
        |i: int| spec_tap_i16(src_len, dst_len, f, p, cmax, i / ws, i % ws),
    )
}

/// The output of one horizontal convolution pass.
pub open spec fn spec_conv_pass_h(
    src: Seq<u8>,
    sw: int,
    sh: int,
    pt: PixelType,
    dw: int,
    f: FilterType,
) -> Seq<u8> {
    let cc = spec_components(pt);
    let cs = spec_component_size(pt);
    let cmax = spec_component_max(pt);
    let ws = spec_window_size(sw, dw, f);
    let p = spec_precision(ws);
    Seq::new(
        (sh * dw * cc * cs) as nat,
        |i: int|
            spec_conv_h_byte(
                src,
                sw,
                dw,
                cc,
                cs,
                cmax,
                ws,
                p,
                spec_bounds_seq(sw, dw, f),
                spec_values_seq(sw, dw, f, cmax),
                i,
            ),
    )
}

/// The output of one vertical convolution pass.
pub open spec fn spec_conv_pass_v(
    src: Seq<u8>,
    w: int,
    sh: int,
    pt: PixelType,
    dh: int,
    f: FilterType,
) -> Seq<u8> {
    let cc = spec_components(pt);
    let cs = spec_component_size(pt);
    let cmax = spec_component_max(pt);
    let ws = spec_window_size(sh, dh, f);
    let p = spec_precision(ws);
    Seq::new(
        (w * dh * cc * cs) as nat,
        |i: int|
            spec_conv_v_byte(
                src,
                w,
                cc,
                cs,
                cmax,
                ws,
                p,
                spec_bounds_seq(sh, dh, f),
                spec_values_seq(sh, dh, f, cmax),
                i,
            ),
    )
}

/// Whether the horizontal pass runs first: the axis that reduces total
/// pixels most is resampled first.
pub open spec fn spec_horizontal_first(sw: int, sh: int, dw: int, dh: int) -> bool {
    dw * sh < dh * sw
}

/// The output of a two-pass convolution resize.
pub open spec fn spec_conv_resize(
    src: Seq<u8>,
    sw: int,
    sh: int,
    pt: PixelType,
    dw: int,
    dh: int,
    f: FilterType,
) -> Seq<u8> {
    if spec_horizontal_first(sw, sh, dw, dh) {
        spec_conv_pass_v(spec_conv_pass_h(src, sw, sh, pt, dw, f), dw, sh, pt, dh, f)
    } else {
        spec_conv_pass_h(spec_conv_pass_v(src, sw, sh, pt, dh, f), sw, dh, pt, dw, f)
    }
}

/// The supersampling factor, at least one.
pub open spec fn spec_ss_factor(k: u8) -> int {
    if k < 1 {
        1
    } else {
        k as int
    }
}

/// The intermediate length of the supersampling reduction along one axis:
/// `k` times the destination length, capped at the source length.
pub open spec fn spec_ss_len(src_len: int, dst_len: int, k: u8) -> int {
    let v = dst_len * spec_ss_factor(k);
    if v < src_len {
        v
    } else {
        src_len
    }
}

/// The output bytes of a resize, as a function of the algorithm, the
/// source image and the destination dimensions.
pub open spec fn spec_resize_output(
    alg: ResizeAlg,
    src: Seq<u8>,
    sw: int,
    sh: int,
    pt: PixelType,
    dw: int,
    dh: int,
) -> Seq<u8> {
    let bpp = spec_components(pt) * spec_component_size(pt);
    match alg {
        ResizeAlg::Nearest => spec_nearest_output(src, sw, sh, dw, dh, bpp),
        ResizeAlg::Convolution(f) => spec_conv_resize(src, sw, sh, pt, dw, dh, f),
        ResizeAlg::SuperSampling(f, k) => {
            let mw = spec_ss_len(sw, dw, k);
            let mh = spec_ss_len(sh, dh, k);
            spec_conv_resize(
                spec_nearest_output(src, sw, sh, mw, mh, bpp),
                mw,
                mh,
                pt,
                dw,
                dh,
                f,
            )
        },
    }
}

/// The machine limits a convolution resize needs: the coefficient slabs
/// and the intermediate image must be addressable.
pub open spec fn spec_conv_fits(
    sw: int,
    sh: int,
    pt: PixelType,
    dw: int,
    dh: int,
    f: FilterType,
) -> bool {
    let bpp = spec_components(pt) * spec_component_size(pt);
    &&& dw * spec_window_size(sw, dw, f) <= usize::MAX
    &&& dh * spec_window_size(sh, dh, f) <= usize::MAX
    &&& (if spec_horizontal_first(sw, sh, dw, dh) {
        dw * sh * spec_components(pt) * spec_component_size(pt) <= usize::MAX
    } else {
        sw * dh * spec_components(pt) * spec_component_size(pt) <= usize::MAX
    })
}

/// The machine limits a resize needs for its intermediate buffers.
pub open spec fn spec_resize_fits(
    alg: ResizeAlg,
    sw: int,
    sh: int,
    pt: PixelType,
    dw: int,
    dh: int,
) -> bool {
    match alg {
        ResizeAlg::Nearest => true,
        ResizeAlg::Convolution(f) => spec_conv_fits(sw, sh, pt, dw, dh, f),
        ResizeAlg::SuperSampling(f, k) => {
            let mw = spec_ss_len(sw, dw, k);
            let mh = spec_ss_len(sh, dh, k);
            &&& mw * mh * spec_components(pt) * spec_component_size(pt) <= usize::MAX
            &&& spec_conv_fits(mw, mh, pt, dw, dh, f)
        },
    }
}

/// The resizing engine: holds the chosen algorithm and the backend
/// preference.
pub struct Resizer {
    pub algorithm: ResizeAlg,
    pub cpu_extensions: CpuExtensions,
}

impl Resizer {
    /// A resizer for the given algorithm, with the scalar backend.
    pub fn new(algorithm: ResizeAlg) -> (r: Resizer)
        ensures
            r.algorithm == algorithm,
            r.cpu_extensions == CpuExtensions::Scalar,
    {
        Resizer { algorithm, cpu_extensions: CpuExtensions::Scalar }
    }

    /// Caps the backend preference. All backends run the same verified
    /// scalar kernels, so the choice never changes an output byte; the
    /// contract of [`Resizer::resize`] does not mention it.
    pub fn set_cpu_extensions(&mut self, extensions: CpuExtensions)
        ensures
            final(self).algorithm == old(self).algorithm,
            final(self).cpu_extensions == extensions,
    {
        self.cpu_extensions = extensions;
    }

    /// The current backend preference.
    pub fn cpu_extensions(&self) -> (r: CpuExtensions)
        ensures
            r == self.cpu_extensions,
    {
        self.cpu_extensions
    }

    /// Resizes `src` into `dst` with this resizer's algorithm. Fails
    /// exactly when the pixel kinds differ, leaving `dst` untouched;
    /// otherwise the destination bytes are the resampling of the source
    /// pinned by [`spec_resize_output`].
    pub fn resize(&mut self, src: &Image, dst: &mut Image) -> (r: Result<
        (),
        DifferentTypesOfPixelsError,
    >)
        requires
            src.wf(),
            old(dst).wf(),
            spec_resize_fits(
                old(self).algorithm,
                src.width as int,
                src.height as int,
                src.pixel_type,
                old(dst).width as int,
                old(dst).height as int,
            ),
        ensures
            *final(self) == *old(self),
            final(dst).wf(),
            final(dst).width == old(dst).width,
            final(dst).height == old(dst).height,
            final(dst).pixel_type == old(dst).pixel_type,
            r is Ok <==> old(dst).pixel_type == src.pixel_type,
            r is Err ==> final(dst).buffer@ == old(dst).buffer@,
            r is Ok ==> final(dst).buffer@ == spec_resize_output(
                old(self).algorithm,
                src.buffer@,
                src.width as int,
                src.height as int,
                src.pixel_type,
                old(dst).width as int,
                old(dst).height as int,
            ),
    {
        let pt = src.pixel_type;
        if !(dst.pixel_type() == pt) {
            return Err(DifferentTypesOfPixelsError);
        }
        match self.algorithm {
            ResizeAlg::Nearest => {
                nearest_resize(src, dst);
            },
            ResizeAlg::Convolution(f) => {
                conv_resize(src, dst, f);
            },
            ResizeAlg::SuperSampling(f, k) => {
                let mk: u64 = if k < 1 {
                    1
                } else {
                    k as u64
                };
                assert(mk == spec_ss_factor(k));
                let dwv = dst.width();
                assert((dwv as u64) * mk < 0x100_0000_0000) by (nonlinear_arith)
                    requires
                        dwv < 0x1_0000_0000,
                        mk <= 255,
                ;
                let mw64 = (dwv as u64) * mk;
                let mw: u32 = if mw64 < src.width as u64 {
                    mw64 as u32
                } else {
                    src.width
                };
                let dhv = dst.height();
                assert((dhv as u64) * mk < 0x100_0000_0000) by (nonlinear_arith)
                    requires
                        dhv < 0x1_0000_0000,
                        mk <= 255,
                ;
                let mh64 = (dhv as u64) * mk;
                let mh: u32 = if mh64 < src.height as u64 {
                    mh64 as u32
                } else {
                    src.height
                };
                proof {
                    assert(mk == spec_ss_factor(k) && (dwv as u64) * mk == dwv as int * mk as int
                        && (dhv as u64) * mk == dhv as int * mk as int && dwv as int * mk >= 1
                        && dhv as int * mk >= 1) by (nonlinear_arith)
                        requires
                            mk == spec_ss_factor(k),
                            dwv >= 1,
                            dhv >= 1,
                            mk >= 1,
                    ;
                    assert(mw == spec_ss_len(src.width as int, dwv as int, k));
                    assert(mh == spec_ss_len(src.height as int, dhv as int, k));
                }
                let mut mid = Image::new(mw, mh, pt);
                nearest_resize(src, &mut mid);
                conv_resize(&mid, dst, f);
            },
        }
        Ok(())
    }
}

/// Runs the two convolution passes, the most-reducing axis first.
#[verifier::loop_isolation(false)]
fn conv_resize(src: &Image, dst: &mut Image, f: FilterType)
    requires
        src.wf(),
        old(dst).wf(),
        old(dst).pixel_type == src.pixel_type,
        spec_conv_fits(
            src.width as int,
            src.height as int,
            src.pixel_type,
            old(dst).width as int,
            old(dst).height as int,
            f,
        ),
    ensures
        final(dst).wf(),
        final(dst).width == old(dst).width,
        final(dst).height == old(dst).height,
        final(dst).pixel_type == old(dst).pixel_type,
        final(dst).buffer@ == spec_conv_resize(
            src.buffer@,
            src.width as int,
            src.height as int,
            src.pixel_type,
            old(dst).width as int,
            old(dst).height as int,
            f,
        ),
{
    let pt = src.pixel_type;
    let cmax = pt.component_max();
    let sw = src.width;
    let sh = src.height;
    let dw = dst.width();
    let dh = dst.height();
    let ghost swI = sw as int;
    let ghost shI = sh as int;
    let ghost dwI = dw as int;
    let ghost dhI = dh as int;
    let ghost cmaxI = cmax as int;
    assert((dw as u64) * (sh as u64) < 0x1_0000_0000_0000_0000 && (dh as u64) * (sw as u64)
        < 0x1_0000_0000_0000_0000) by (nonlinear_arith)
        requires
            dw < 0x1_0000_0000,
            sh < 0x1_0000_0000,
            dh < 0x1_0000_0000,
            sw < 0x1_0000_0000,
    ;
    let h_first = (dw as u64) * (sh as u64) < (dh as u64) * (sw as u64);
    assert(h_first == spec_horizontal_first(swI, shI, dwI, dhI));
    if h_first {
        let ch = compute_coefficients(sw, dw, f, cmax);
        proof {
            lemma_coeffs_match(ch, swI, dwI, f, cmaxI);
        }
        let mut mid = Image::new(dw, sh, pt);
        horiz_convolution(src, &mut mid, &ch);
        proof {
            lemma_pass_h_match(mid.buffer@, src.buffer@, swI, shI, pt, dwI, f, ch);
        }
        let cv = compute_coefficients(sh, dh, f, cmax);
        proof {
            lemma_coeffs_match(cv, shI, dhI, f, cmaxI);
        }
        vert_convolution(&mid, dst, &cv);
        proof {
            lemma_pass_v_match(
                dst.buffer@,
                spec_conv_pass_h(src.buffer@, swI, shI, pt, dwI, f),
                dwI,
                shI,
                pt,
                dhI,
                f,
                cv,
            );
        }
    } else {
        let cv = compute_coefficients(sh, dh, f, cmax);
        proof {
            lemma_coeffs_match(cv, shI, dhI, f, cmaxI);
        }
        let mut mid = Image::new(sw, dh, pt);
        vert_convolution(src, &mut mid, &cv);
        proof {
            lemma_pass_v_match(mid.buffer@, src.buffer@, swI, shI, pt, dhI, f, cv);
        }
        let ch = compute_coefficients(sw, dw, f, cmax);
        proof {
            lemma_coeffs_match(ch, swI, dwI, f, cmaxI);
        }
        horiz_convolution(&mid, dst, &ch);
        proof {
            lemma_pass_h_match(
                dst.buffer@,
                spec_conv_pass_v(src.buffer@, swI, shI, pt, dhI, f),
                swI,
                dhI,
                pt,
                dwI,
                f,
                ch,
            );
        }
    }
}

/// A freshly built coefficient set equals the one the resize spec names.
proof fn lemma_coeffs_match(c: Coefficients, src_len: int, dst_len: int, f: FilterType, cmax: int)
    requires
        c.window_size == spec_window_size(src_len, dst_len, f),
        c.precision == spec_precision(spec_window_size(src_len, dst_len, f)),
        c.bounds@.len() == dst_len,
        c.values@.len() == dst_len * c.window_size,
        1 <= c.window_size,
        forall|j: int|
            0 <= j < dst_len ==> (#[trigger] c.bounds@[j]).start == spec_start(
                src_len,
                dst_len,
                f,
                j,
            ) && c.bounds@[j].size == spec_size(src_len, dst_len, f, j),
        forall|j: int, k: int|
            0 <= j < dst_len && 0 <= k < c.window_size ==> #[trigger] c.values@[j * c.window_size
                + k] == spec_tap_i16(src_len, dst_len, f, c.precision as int, cmax, j, k),
    ensures
        c.bounds@ == spec_bounds_seq(src_len, dst_len, f),
        c.values@ == spec_values_seq(src_len, dst_len, f, cmax),
{
    let ws = c.window_size as int;
    assert forall|j: int| 0 <= j < dst_len implies c.bounds@[j] == spec_bounds_seq(
        src_len,
        dst_len,
        f,
    )[j] by {}
    assert(c.bounds@ =~= spec_bounds_seq(src_len, dst_len, f));
    assert forall|i: int| 0 <= i < dst_len * ws implies c.values@[i] == spec_values_seq(
        src_len,
        dst_len,
        f,
        cmax,
    )[i] by {
        vstd::arithmetic::div_mod::lemma_fundamental_div_mod(i, ws);
        let j = i / ws;
        let k = i % ws;
        vstd::arithmetic::div_mod::lemma_mod_bound(i, ws);
        vstd::arithmetic::div_mod::lemma_div_pos_is_pos(i, ws);
        assert(ws * j == j * ws) by (nonlinear_arith);
        assert(0 <= j < dst_len) by (nonlinear_arith)
            requires
                i == j * ws + k,
                0 <= k < ws,
                0 <= i < dst_len * ws,
                0 <= j,
        ;
        assert(c.values@[j * ws + k] == spec_tap_i16(
            src_len,
            dst_len,
            f,
            c.precision as int,
            cmax,
            j,
            k,
        ));
    }
    assert(c.values@ =~= spec_values_seq(src_len, dst_len, f, cmax));
}

/// A buffer whose bytes satisfy the horizontal kernel contract equals
/// the horizontal pass output named by the resize spec.
proof fn lemma_pass_h_match(
    out: Seq<u8>,
    src: Seq<u8>,
    sw: int,
    sh: int,
    pt: PixelType,
    dw: int,
    f: FilterType,
    c: Coefficients,
)
    requires
        c.bounds@ == spec_bounds_seq(sw, dw, f),
        c.values@ == spec_values_seq(sw, dw, f, spec_component_max(pt)),
        c.window_size == spec_window_size(sw, dw, f),
        c.precision == spec_precision(spec_window_size(sw, dw, f)),
        out.len() == dw * sh * spec_components(pt) * spec_component_size(pt),
        forall|i: int|
            0 <= i < out.len() ==> out[i] == spec_conv_h_byte(
                src,
                sw,
                dw,
                spec_components(pt),
                spec_component_size(pt),
                spec_component_max(pt),
                c.window_size as int,
                c.precision as int,
                c.bounds@,
                c.values@,
                i,
            ),
    ensures
        out == spec_conv_pass_h(src, sw, sh, pt, dw, f),
{
    assert(sh * dw * spec_components(pt) * spec_component_size(pt) == dw * sh * spec_components(
        pt,
    ) * spec_component_size(pt)) by (nonlinear_arith);
    assert(out =~= spec_conv_pass_h(src, sw, sh, pt, dw, f));
}

/// A buffer whose bytes satisfy the vertical kernel contract equals the
/// vertical pass output named by the resize spec.
proof fn lemma_pass_v_match(
    out: Seq<u8>,
    src: Seq<u8>,
    w: int,
    sh: int,
    pt: PixelType,
    dh: int,
    f: FilterType,
    c: Coefficients,
)
    requires
        c.bounds@ == spec_bounds_seq(sh, dh, f),
        c.values@ == spec_values_seq(sh, dh, f, spec_component_max(pt)),
        c.window_size == spec_window_size(sh, dh, f),
        c.precision == spec_precision(spec_window_size(sh, dh, f)),
        out.len() == w * dh * spec_components(pt) * spec_component_size(pt),
        forall|i: int|
            0 <= i < out.len() ==> out[i] == spec_conv_v_byte(
                src,
                w,
                spec_components(pt),
                spec_component_size(pt),
                spec_component_max(pt),
                c.window_size as int,
                c.precision as int,
                c.bounds@,
                c.values@,
                i,
            ),
    ensures
        out == spec_conv_pass_v(src, w, sh, pt, dh, f),
{
    assert(out =~= spec_conv_pass_v(src, w, sh, pt, dh, f));
}

} // verus!
