//! Nearest-neighbor resampling: each destination pixel copies the source
//! pixel whose center is nearest, with clamped indices and no arithmetic
//! on the samples.

use crate::convolution::lemma_grid;
use crate::image::Image;
use crate::pixels::{spec_component_size, spec_components};
use vstd::prelude::*;

verus! {

/// The source index sampled for destination index `pos`:
/// `floor((pos + 1/2) * src_len / dst_len)`, clamped into the source.
pub open spec fn spec_nearest_index(pos: int, src_len: int, dst_len: int) -> int {
    let v = ((2 * pos + 1) * src_len) / (2 * dst_len);
    if v > src_len - 1 {
        src_len - 1
    } else {
        v
    }
}

/// The byte at flat position `i` of a nearest-neighbor resize output.
pub open spec fn spec_nearest_byte(
    src: Seq<u8>,
    sw: int,
    sh: int,
    dw: int,
    dh: int,
    bpp: int,
    i: int,
) -> u8 {
    let y = i / (dw * bpp);
    let rem = i % (dw * bpp);
    let x = rem / bpp;
    let b = rem % bpp;
    let sy = spec_nearest_index(y, sh, dh);
    let sx = spec_nearest_index(x, sw, dw);
    src[(sy * sw + sx) * bpp + b]
}

/// The whole output of a nearest-neighbor resize.
pub open spec fn spec_nearest_output(
    src: Seq<u8>,
    sw: int,
    sh: int,
    dw: int,
    dh: int,
    bpp: int,
) -> Seq<u8> {
    Seq::new((dw * dh * bpp) as nat, |i: int| spec_nearest_byte(src, sw, sh, dw, dh, bpp, i))
}

/// Computes the source index sampled for destination index `pos`.
fn nearest_index(pos: u32, src_len: u32, dst_len: u32) -> (r: u32)
    requires
        src_len >= 1,
        dst_len >= 1,
        pos < dst_len,
    ensures
        r == spec_nearest_index(pos as int, src_len as int, dst_len as int),
        r < src_len,
{
    assert((2 * (pos as u128) + 1) * (src_len as u128) < 0x4_0000_0000_0000_0000)
        by (nonlinear_arith)
        requires
            pos < 0x1_0000_0000,
            src_len <= 0x1_0000_0000,
    ;
    let v = ((2 * (pos as u128) + 1) * (src_len as u128)) / (2 * (dst_len as u128));
    proof {
        vstd::arithmetic::div_mod::lemma_div_is_ordered(
            ((2 * (pos as u128) + 1) * (src_len as u128)) as int,
            0x4_0000_0000_0000_0000,
            (2 * (dst_len as u128)) as int,
        );
    }
    if v > (src_len - 1) as u128 {
        src_len - 1
    } else {
        v as u32
    }
}

/// Resizes `src` into `dst` by nearest-neighbor sampling.
#[verifier::loop_isolation(false)]
#[verifier::rlimit(100)]
pub fn nearest_resize(src: &Image, dst: &mut Image)
    requires
        src.wf(),
        old(dst).wf(),
        old(dst).pixel_type == src.pixel_type,
    ensures
        final(dst).wf(),
        final(dst).width == old(dst).width,
        final(dst).height == old(dst).height,
        final(dst).pixel_type == old(dst).pixel_type,
        final(dst).buffer@ == spec_nearest_output(
            src.buffer@,
            src.width as int,
            src.height as int,
            old(dst).width as int,
            old(dst).height as int,
            spec_components(src.pixel_type) * spec_component_size(src.pixel_type),
        ),
{
    let pt = src.pixel_type;
    let bpp = pt.bytes_per_pixel();
    let sw = src.width;
    let sh = src.height;
    let dw = dst.width;
    let dh = dst.height;
    let ghost srcb = src.buffer@;
    let ghost bppI = bpp as int;
    let nsrc = src.buffer.len();
    let ndst = dst.buffer.len();
    assert(sw as int * sh as int * bppI == nsrc && dw as int * dh as int * bppI == ndst)
        by (nonlinear_arith)
        requires
            nsrc == sw as int * sh as int * spec_components(pt) * spec_component_size(pt),
            ndst == dw as int * dh as int * spec_components(pt) * spec_component_size(pt),
            bppI == spec_components(pt) * spec_component_size(pt),
    ;
    let mut pos: usize = 0;
    let mut y: u32 = 0;
    while y < dh
        invariant
            0 <= y <= dh,
            pos == y * (dw as int * bppI),
            0 <= pos <= ndst,
            dst.buffer@.len() == ndst,
            dst.width == dw,
            dst.height == dh,
            dst.pixel_type == pt,
            forall|i: int|
                0 <= i < pos ==> dst.buffer@[i] == spec_nearest_byte(
                    srcb,
                    sw as int,
                    sh as int,
                    dw as int,
                    dh as int,
                    bppI,
                    i,
                ),
        decreases dh - y,
    {
        let sy = nearest_index(y, sh, dh);
        let mut x: u32 = 0;
        while x < dw
            invariant
                0 <= x <= dw,
                y < dh,
                sy == spec_nearest_index(y as int, sh as int, dh as int),
                sy < sh,
                pos == y * (dw as int * bppI) + x * bppI,
                0 <= pos <= ndst,
                dst.buffer@.len() == ndst,
                dst.width == dw,
                dst.height == dh,
                dst.pixel_type == pt,
                forall|i: int|
                    0 <= i < pos ==> dst.buffer@[i] == spec_nearest_byte(
                        srcb,
                        sw as int,
                        sh as int,
                        dw as int,
                        dh as int,
                        bppI,
                        i,
                    ),
            decreases dw - x,
        {
            let sx = nearest_index(x, sw, dw);
            proof {
                lemma_grid(sy as int, sh as int, sx as int, sw as int);
                lemma_grid(sy as int * sw + sx, sh as int * sw, bppI - 1, bppI);
                assert((sh as int * sw) * bppI == sw as int * sh as int * bppI
                    && (sy as int * sw + sx) * bppI >= 0) by (nonlinear_arith)
                    requires
                        sy >= 0,
                        sx >= 0,
                        sw >= 1,
                        bppI >= 1,
                ;
                lemma_grid(y as int, dh as int, x as int, dw as int);
                lemma_grid(y as int * dw + x, dh as int * dw, bppI - 1, bppI);
                assert(pos == (y as int * dw + x) * bppI && (dh as int * dw) * bppI == dw as int
                    * dh as int * bppI) by (nonlinear_arith)
                    requires
                        pos == y * (dw as int * bppI) + x * bppI,
                ;
            }
            let sbase = (sy as usize * sw as usize + sx as usize) * bpp as usize;
            let mut b: u32 = 0;
            while b < bpp
                invariant
                    0 <= b <= bpp,
                    y < dh,
                    x < dw,
                    sy == spec_nearest_index(y as int, sh as int, dh as int),
                    sx == spec_nearest_index(x as int, sw as int, dw as int),
                    sy < sh,
                    sx < sw,
                    sbase == (sy as int * sw + sx) * bppI,
                    sbase + bppI <= nsrc,
                    pos == (y as int * dw + x) * bppI + b,
                    pos + bppI - b <= ndst,
                    dst.buffer@.len() == ndst,
                    dst.width == dw,
                    dst.height == dh,
                    dst.pixel_type == pt,
                    forall|i: int|
                        0 <= i < pos ==> dst.buffer@[i] == spec_nearest_byte(
                            srcb,
                            sw as int,
                            sh as int,
                            dw as int,
                            dh as int,
                            bppI,
                            i,
                        ),
                decreases bpp - b,
            {
                let ghost pre = dst.buffer@;
                let v = src.buffer[sbase + b as usize];
                dst.buffer.set(pos, v);
                proof {
                    assert(pos as int == y as int * (dw as int * bppI) + (x as int * bppI + b)
                        && 0 <= x as int * bppI + b < dw as int * bppI) by (nonlinear_arith)
                        requires
                            pos == (y as int * dw + x) * bppI + b,
                            0 <= x < dw,
                            0 <= b < bppI,
                            1 <= bppI,
                            0 <= y,
                    ;
                    assert(spec_nearest_byte(srcb, sw as int, sh as int, dw as int, dh as int,
                        bppI, pos as int) == v) by {
                        vstd::arithmetic::div_mod::lemma_fundamental_div_mod_converse(
                            pos as int,
                            dw as int * bppI,
                            y as int,
                            x as int * bppI + b,
                        );
                        vstd::arithmetic::div_mod::lemma_fundamental_div_mod_converse(
                            x as int * bppI + b,
                            bppI,
                            x as int,
                            b as int,
                        );
                        assert(y as int * (dw as int * bppI) == (dw as int * bppI) * y
                            && x as int * bppI == bppI * x) by (nonlinear_arith);
                    }
                    assert forall|i: int| 0 <= i < pos + 1 implies dst.buffer@[i]
                        == spec_nearest_byte(srcb, sw as int, sh as int, dw as int, dh as int,
                        bppI, i) by {
                        if i < pos {
                            assert(dst.buffer@[i] == pre[i]);
                        }
                    }
                }
                pos = pos + 1;
                b = b + 1;
            }
            proof {
                assert((y as int * dw + x) * bppI + bppI == y as int * (dw as int * bppI) + (x
                    + 1) * bppI) by (nonlinear_arith);
            }
            x = x + 1;
        }
        proof {
            assert(y * (dw as int * bppI) + dw as int * bppI == (y + 1) * (dw as int * bppI))
                by (nonlinear_arith);
        }
        y = y + 1;
    }
    proof {
        assert(dh as int * (dw as int * bppI) == dw as int * dh as int * bppI)
            by (nonlinear_arith);
        assert(pos == ndst);
        assert(dst.buffer@ =~= spec_nearest_output(
            srcb,
            sw as int,
            sh as int,
            dw as int,
            dh as int,
            bppI,
        ));
    }
}

} // verus!
