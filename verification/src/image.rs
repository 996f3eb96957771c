//! The image container: a contiguous row-major buffer with fixed pixel
//! kind and strictly positive dimensions.

use crate::errors::{CropBoxError, ImageBufferError, ImageRowsError};
use crate::pixels::PixelType;
use crate::pixels::{spec_component_size, spec_components};
use vstd::prelude::*;

verus! {

/// An owned raster image: `width * height` pixels of one kind, stored
/// row-major with no padding.
pub struct Image {
    pub width: u32,
    pub height: u32,
    pub pixel_type: PixelType,
    pub buffer: Vec<u8>,
}

impl Image {
    /// The container invariant: positive dimensions and an exactly sized
    /// buffer.
    pub open spec fn wf(self) -> bool {
        &&& self.width >= 1
        &&& self.height >= 1
        &&& self.buffer@.len() == self.width * self.height * spec_components(self.pixel_type)
            * spec_component_size(self.pixel_type)
    }

    /// A new image with a zero-initialized buffer.
    pub fn new(width: u32, height: u32, pixel_type: PixelType) -> (r: Image)
        requires
            width >= 1,
            height >= 1,
            width * height * spec_components(pixel_type) * spec_component_size(pixel_type)
                <= usize::MAX,
        ensures
            r.wf(),
            r.width == width,
            r.height == height,
            r.pixel_type == pixel_type,
            r.buffer@ == Seq::new(
                (width * height * spec_components(pixel_type) * spec_component_size(pixel_type)) as nat,
                |i: int| 0u8,
            ),
    {
        let bpp = pixel_type.bytes_per_pixel();
        assert(width * height * bpp == width * height * spec_components(pixel_type)
            * spec_component_size(pixel_type)) by (nonlinear_arith)
            requires
                bpp == spec_components(pixel_type) * spec_component_size(pixel_type),
        ;
        assert((width as u64) * (height as u64) <= u64::MAX) by (nonlinear_arith)
            requires
                width <= u32::MAX,
                height <= u32::MAX,
        ;
        let n64 = (width as u64) * (height as u64);
        assert(n64 * (bpp as u64) == width * height * bpp && n64 * (bpp as u64) <= usize::MAX)
            by (nonlinear_arith)
            requires
                n64 == (width as u64) * (height as u64),
                bpp <= 8,
                width * height * bpp <= usize::MAX,
                bpp == spec_components(pixel_type) * spec_component_size(pixel_type),
        ;
        let len = (n64 * (bpp as u64)) as usize;
        let mut buffer: Vec<u8> = Vec::new();
        let mut i: usize = 0;
        while i < len
            invariant
                i <= len,
                buffer@.len() == i,
                forall|t: int| 0 <= t < i ==> buffer@[t] == 0u8,
            decreases len - i,
        {
            buffer.push(0u8);
            i = i + 1;
        }
        let ghost target = Seq::new(len as nat, |i: int| 0u8);
        assert(buffer@ =~= target);
        Image { width, height, pixel_type, buffer }
    }

    /// Adopts an externally supplied byte buffer. Fails when the buffer
    /// holds fewer bytes than `width * height * bytes_per_pixel`; extra
    /// trailing bytes are dropped.
    pub fn from_vec_u8(width: u32, height: u32, buffer: Vec<u8>, pixel_type: PixelType) -> (r:
        Result<Image, ImageBufferError>)
        requires
            width >= 1,
            height >= 1,
        ensures
            match r {
                Ok(img) => {
                    &&& img.wf()
                    &&& img.width == width
                    &&& img.height == height
                    &&& img.pixel_type == pixel_type
                    &&& buffer@.len() >= width * height * spec_components(pixel_type)
                        * spec_component_size(pixel_type)
                    &&& img.buffer@ == buffer@.take(
                        width * height * spec_components(pixel_type) * spec_component_size(
                            pixel_type,
                        ),
                    )
                },
                Err(e) => {
                    &&& e == ImageBufferError::InvalidBufferSize
                    &&& buffer@.len() < width * height * spec_components(pixel_type)
                        * spec_component_size(pixel_type)
                },
            },
    {
        let bpp = pixel_type.bytes_per_pixel();
        assert((width as u128) * (height as u128) * (bpp as u128) == width * height
            * spec_components(pixel_type) * spec_component_size(pixel_type) && (width as u128)
            * (height as u128) * (bpp as u128) < 0x8000_0000_0000_0000_0000u128)
            by (nonlinear_arith)
            requires
                width <= u32::MAX,
                height <= u32::MAX,
                bpp <= 8,
                bpp == spec_components(pixel_type) * spec_component_size(pixel_type),
        ;
        let needed128 = (width as u128) * (height as u128) * (bpp as u128);
        if (buffer.len() as u128) < needed128 {
            return Err(ImageBufferError::InvalidBufferSize);
        }
        let needed = needed128 as usize;
        let mut buffer = buffer;
        buffer.truncate(needed);
        Ok(Image { width, height, pixel_type, buffer })
    }

    /// Builds an image from externally supplied rows of bytes. Fails when
    /// the row count is not `height` or some row does not hold exactly
    /// `width * bytes_per_pixel` bytes.
    pub fn from_rows_u8(width: u32, height: u32, rows: &Vec<Vec<u8>>, pixel_type: PixelType) -> (r:
        Result<Image, ImageRowsError>)
        requires
            width >= 1,
            height >= 1,
            width * height * spec_components(pixel_type) * spec_component_size(pixel_type)
                <= usize::MAX,
        ensures
            match r {
                Ok(img) => {
                    &&& img.wf()
                    &&& img.width == width
                    &&& img.height == height
                    &&& img.pixel_type == pixel_type
                    &&& rows@.len() == height
                    &&& forall|y: int|
                        0 <= y < height ==> rows@[y]@.len() == width * spec_components(pixel_type)
                            * spec_component_size(pixel_type)
                    &&& forall|y: int, t: int|
                        0 <= y < height && 0 <= t < width * spec_components(pixel_type)
                            * spec_component_size(pixel_type) ==> img.buffer@[y * (
                        width * spec_components(pixel_type) * spec_component_size(pixel_type)) + t]
                            == rows@[y]@[t]
                },
                Err(ImageRowsError::InvalidRowsCount) => rows@.len() != height,
                Err(ImageRowsError::InvalidRowSize) => rows@.len() == height && exists|y: int|
                    0 <= y < height && rows@[y]@.len() != width * spec_components(pixel_type)
                        * spec_component_size(pixel_type),
            },
    {
        let bpp = pixel_type.bytes_per_pixel();
        if rows.len() != height as usize {
            return Err(ImageRowsError::InvalidRowsCount);
        }
        assert((width as u64) * (bpp as u64) == width * spec_components(pixel_type)
            * spec_component_size(pixel_type) && width * bpp <= width * height
            * spec_components(pixel_type) * spec_component_size(pixel_type)) by (nonlinear_arith)
            requires
                width <= u32::MAX,
                height >= 1,
                bpp <= 8,
                bpp == spec_components(pixel_type) * spec_component_size(pixel_type),
        ;
        let row_size = ((width as u64) * (bpp as u64)) as usize;
        let ghost rs = (width * spec_components(pixel_type) * spec_component_size(
            pixel_type,
        )) as int;
        assert(height * rs == width * height * spec_components(pixel_type) * spec_component_size(
            pixel_type,
        )) by (nonlinear_arith)
            requires
                rs == width * spec_components(pixel_type) * spec_component_size(pixel_type),
        ;
        let mut buffer: Vec<u8> = Vec::new();
        let mut y: usize = 0;
        while y < rows.len()
            invariant
                rows@.len() == height,
                y <= height,
                row_size == rs,
                rs == width * spec_components(pixel_type) * spec_component_size(pixel_type),
                buffer@.len() == y * rs,
                height * rs == width * height * spec_components(pixel_type) * spec_component_size(
                    pixel_type,
                ),
                forall|t: int| 0 <= t < y ==> rows@[t]@.len() == rs,
                forall|t: int, b: int|
                    0 <= t < y && 0 <= b < rs ==> buffer@[t * rs + b] == rows@[t]@[b],
            decreases rows@.len() - y,
        {
            let row = &rows[y];
            if row.len() != row_size {
                return Err(ImageRowsError::InvalidRowSize);
            }
            let ghost pre = buffer@;
            let mut b: usize = 0;
            while b < row.len()
                invariant
                    b <= rs,
                    row@.len() == rs,
                    buffer@.len() == pre.len() + b,
                    buffer@ == pre + row@.take(b as int),
                decreases row@.len() - b,
            {
                buffer.push(row[b]);
                assert(buffer@ =~= pre + row@.take(b + 1));
                b = b + 1;
            }
            assert(row@.take(rs as int) =~= row@);
            assert(y * rs + rs == (y + 1) * rs) by (nonlinear_arith);
            assert forall|t: int, bb: int| 0 <= t < y + 1 && 0 <= bb < rs implies buffer@[t * rs
                + bb] == rows@[t]@[bb] by {
                if t < y {
                    assert(t * rs + bb < y * rs) by (nonlinear_arith)
                        requires
                            t < y,
                            0 <= bb < rs,
                            t >= 0,
                    ;
                    assert(buffer@[t * rs + bb] == pre[t * rs + bb]);
                } else {
                    assert(buffer@[t * rs + bb] == row@[bb]);
                }
            }
            y = y + 1;
        }
        assert(y == height);
        Ok(Image { width, height, pixel_type, buffer })
    }

    /// Copies a rectangular window of the image into a new image of the
    /// window's size. Fails when the position lies outside the image, or
    /// when the window extends past its right or bottom edge.
    #[verifier::loop_isolation(false)]
    pub fn crop(&self, left: u32, top: u32, width: u32, height: u32) -> (r: Result<
        Image,
        CropBoxError,
    >)
        requires
            self.wf(),
            width >= 1,
            height >= 1,
        ensures
            match r {
                Ok(img) => {
                    &&& left < self.width && top < self.height
                    &&& left + width <= self.width && top + height <= self.height
                    &&& img.wf()
                    &&& img.width == width
                    &&& img.height == height
                    &&& img.pixel_type == self.pixel_type
                    &&& forall|y: int, t: int|
                        0 <= y < height && 0 <= t < width * spec_components(self.pixel_type)
                            * spec_component_size(self.pixel_type) ==> #[trigger] img.buffer@[y * (
                        width * spec_components(self.pixel_type) * spec_component_size(
                            self.pixel_type,
                        )) + t] == self.buffer@[((top + y) * self.width + left)
                            * (spec_components(self.pixel_type) * spec_component_size(
                            self.pixel_type,
                        )) + t]
                },
                Err(CropBoxError::PositionIsOutOfImageBoundaries) => left >= self.width || top
                    >= self.height,
                Err(CropBoxError::SizeIsOutOfImageBoundaries) => left < self.width && top
                    < self.height && (left + width > self.width || top + height > self.height),
            },
    {
        if left >= self.width || top >= self.height {
            return Err(CropBoxError::PositionIsOutOfImageBoundaries);
        }
        if width > self.width - left || height > self.height - top {
            return Err(CropBoxError::SizeIsOutOfImageBoundaries);
        }
        let pt = self.pixel_type;
        let bpp = pt.bytes_per_pixel();
        let sw = self.width;
        let ghost bppI = bpp as int;
        let ghost rs = width as int * bppI;
        let n = self.buffer.len();
        assert(n == self.width as int * self.height as int * bppI && width as int * height as int
            * spec_components(pt) * spec_component_size(pt) == height as int * rs && width as int
            * spec_components(pt) * spec_component_size(pt) == rs) by (nonlinear_arith)
            requires
                n == self.width as int * self.height as int * spec_components(pt)
                    * spec_component_size(pt),
                bppI == spec_components(pt) * spec_component_size(pt),
                rs == width as int * bppI,
        ;
        assert(rs <= n) by (nonlinear_arith)
            requires
                rs == width as int * bppI,
                n == self.width as int * self.height as int * bppI,
                width <= self.width,
                self.height >= 1,
                bppI >= 1,
        ;
        let row_size = width as usize * bpp as usize;
        let mut buffer: Vec<u8> = Vec::new();
        let mut y: u32 = 0;
        while y < height
            invariant
                0 <= y <= height,
                buffer@.len() == y * rs,
                forall|y2: int, t: int|
                    0 <= y2 < y && 0 <= t < rs ==> #[trigger] buffer@[y2 * rs + t]
                        == self.buffer@[((top + y2) * self.width + left) * bppI + t],
            decreases height - y,
        {
            proof {
                assert(((top + y) * self.width as int + left) * bppI + rs <= n && 0 <= (top
                    + y as int) * self.width as int + left && y * rs + rs == (y + 1) * rs && (top
                    + y as int) * self.width as int + left <= n && (top + y as int)
                    * self.width as int <= n) by (nonlinear_arith)
                    requires
                        0 <= y < height,
                        top + height <= self.height,
                        left + width <= self.width,
                        rs == width as int * bppI,
                        n == self.width as int * self.height as int * bppI,
                        bppI >= 1,
                        self.width >= 1,
                ;
            }
            let sbase = ((top as usize + y as usize) * sw as usize + left as usize)
                * bpp as usize;
            let ghost pre = buffer@;
            let mut t: usize = 0;
            while t < row_size
                invariant
                    0 <= t <= rs,
                    buffer@.len() == pre.len() + t,
                    buffer@ == pre + self.buffer@.subrange(sbase as int, sbase + t),
                decreases row_size - t,
            {
                buffer.push(self.buffer[sbase + t]);
                proof {
                    assert(buffer@ =~= pre + self.buffer@.subrange(sbase as int, sbase + t + 1));
                }
                t = t + 1;
            }
            proof {
                assert forall|y2: int, tt: int| 0 <= y2 < y + 1 && 0 <= tt < rs implies #[trigger] buffer@[y2
                    * rs + tt] == self.buffer@[((top + y2) * self.width as int + left) * bppI
                    + tt] by {
                    if y2 < y {
                        assert(y2 * rs + tt < y * rs) by (nonlinear_arith)
                            requires
                                0 <= y2 < y,
                                0 <= tt < rs,
                        ;
                        assert(buffer@[y2 * rs + tt] == pre[y2 * rs + tt]);
                    } else {
                        assert(buffer@[y as int * rs + tt] == self.buffer@.subrange(
                            sbase as int,
                            sbase + rs,
                        )[tt]);
                    }
                }
            }
            y = y + 1;
        }
        Ok(Image { width, height, pixel_type: pt, buffer })
    }

    /// The image width in pixels.
    pub fn width(&self) -> (r: u32)
        ensures
            r == self.width,
    {
        self.width
    }

    /// The image height in pixels.
    pub fn height(&self) -> (r: u32)
        ensures
            r == self.height,
    {
        self.height
    }

    /// The pixel kind fixed at creation.
    pub fn pixel_type(&self) -> (r: PixelType)
        ensures
            r == self.pixel_type,
    {
        self.pixel_type
    }

    /// The raw image bytes, row-major.
    pub fn buffer(&self) -> (r: &Vec<u8>)
        ensures
            r@ == self.buffer@,
    {
        &self.buffer
    }
}

} // verus!
