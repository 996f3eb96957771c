use fast_image_resize::{
    CpuExtensions, DifferentTypesOfPixelsError, FilterType, Image, PixelType, ResizeAlg, Resizer,
};

fn image_checksum<const N: usize>(buffer: &[u8]) -> [u64; N] {
    let mut sums = [0u64; N];
    for pixel in buffer.chunks_exact(N) {
        for (channel, sum) in pixel.iter().zip(sums.iter_mut()) {
            *sum += *channel as u64;
        }
    }
    sums
}

#[test]
fn try_resize_to_other_pixel_type() {
    let src_image = Image::new(120, 100, PixelType::U8x4);
    let mut resizer = Resizer::new(ResizeAlg::Convolution(FilterType::Lanczos3));
    let mut dst_image = Image::new(1024, 256, PixelType::U8);
    assert!(matches!(
        resizer.resize(&src_image, &mut dst_image),
        Err(DifferentTypesOfPixelsError)
    ));
}

#[test]
fn downscale_u8_1() {
    let src_vec = vec![1u8; 1280 * 720];
    let src_image = Image::from_vec_u8(1280, 720, src_vec, PixelType::U8).unwrap();
    let mut dst_image = Image::new(64, 64, PixelType::U8);
    let mut resizer = Resizer::new(ResizeAlg::Convolution(FilterType::Lanczos3));
    resizer.set_cpu_extensions(CpuExtensions::Avx2);
    resizer.resize(&src_image, &mut dst_image).unwrap();
}

#[test]
fn downscale_all_ones_u8x4_is_all_ones() {
    // A constant image stays constant under convolution: the taps of
    // every window sum to exactly 2^precision.
    let src_vec = vec![1u8; 1280 * 720 * 4];
    let src_image = Image::from_vec_u8(1280, 720, src_vec, PixelType::U8x4).unwrap();
    let mut dst_image = Image::new(64, 64, PixelType::U8x4);
    let mut resizer = Resizer::new(ResizeAlg::Convolution(FilterType::Lanczos3));
    resizer.resize(&src_image, &mut dst_image).unwrap();
    assert!(dst_image.buffer().iter().all(|&b| b == 1));
    assert_eq!(image_checksum::<4>(dst_image.buffer()), [4096, 4096, 4096, 4096]);
}

#[test]
fn nearest_exact_values() {
    let src_image = Image::from_vec_u8(4, 1, vec![10, 20, 30, 40], PixelType::U8).unwrap();
    let mut dst_image = Image::new(2, 1, PixelType::U8);
    let mut resizer = Resizer::new(ResizeAlg::Nearest);
    resizer.resize(&src_image, &mut dst_image).unwrap();
    assert_eq!(dst_image.buffer().as_slice(), &[20, 40]);
}

#[test]
fn nearest_identity() {
    let bytes: Vec<u8> = (0u8..24).collect();
    let src_image = Image::from_vec_u8(4, 2, bytes.clone(), PixelType::U8x3).unwrap();
    let mut dst_image = Image::new(4, 2, PixelType::U8x3);
    let mut resizer = Resizer::new(ResizeAlg::Nearest);
    resizer.resize(&src_image, &mut dst_image).unwrap();
    assert_eq!(dst_image.buffer().as_slice(), bytes.as_slice());
}

#[test]
fn bilinear_identity() {
    let bytes: Vec<u8> = (0u8..16).map(|v| v * 13 % 251).collect();
    let src_image = Image::from_vec_u8(4, 4, bytes.clone(), PixelType::U8).unwrap();
    let mut dst_image = Image::new(4, 4, PixelType::U8);
    let mut resizer = Resizer::new(ResizeAlg::Convolution(FilterType::Bilinear));
    resizer.resize(&src_image, &mut dst_image).unwrap();
    assert_eq!(dst_image.buffer().as_slice(), bytes.as_slice());
}

#[test]
fn box_downscale_averages() {
    let src_image = Image::from_vec_u8(4, 1, vec![0, 2, 4, 6], PixelType::U8).unwrap();
    let mut dst_image = Image::new(2, 1, PixelType::U8);
    let mut resizer = Resizer::new(ResizeAlg::Convolution(FilterType::Box));
    resizer.resize(&src_image, &mut dst_image).unwrap();
    assert_eq!(dst_image.buffer().as_slice(), &[1, 5]);
}

#[test]
fn box_downscale_u16() {
    // Components 1000 and 3000, little-endian; their mean rounds to 2000.
    let src_image =
        Image::from_vec_u8(2, 1, vec![0xe8, 0x03, 0xb8, 0x0b], PixelType::U16).unwrap();
    let mut dst_image = Image::new(1, 1, PixelType::U16);
    let mut resizer = Resizer::new(ResizeAlg::Convolution(FilterType::Box));
    resizer.resize(&src_image, &mut dst_image).unwrap();
    assert_eq!(dst_image.buffer().as_slice(), &[0xd0, 0x07]);
}

#[test]
fn box_downscale_u8x3_exact() {
    // Two RGB pixels average channelwise; halves round up.
    let src_image =
        Image::from_vec_u8(2, 1, vec![10, 20, 30, 20, 40, 50], PixelType::U8x3).unwrap();
    let mut dst_image = Image::new(1, 1, PixelType::U8x3);
    let mut resizer = Resizer::new(ResizeAlg::Convolution(FilterType::Box));
    resizer.resize(&src_image, &mut dst_image).unwrap();
    assert_eq!(dst_image.buffer().as_slice(), &[15, 30, 40]);
}

#[test]
fn nearest_u16x4_picks_pixels() {
    // Two RGBA16 pixels; a 1x1 nearest resize picks the second one,
    // whose center is nearest to the destination center.
    let mut bytes = Vec::new();
    for v in [100u16, 200, 300, 400, 1000, 2000, 3000, 4000] {
        bytes.extend_from_slice(&v.to_le_bytes());
    }
    let src_image = Image::from_vec_u8(2, 1, bytes, PixelType::U16x4).unwrap();
    let mut dst_image = Image::new(1, 1, PixelType::U16x4);
    let mut resizer = Resizer::new(ResizeAlg::Nearest);
    resizer.resize(&src_image, &mut dst_image).unwrap();
    let out: Vec<u16> = dst_image
        .buffer()
        .chunks_exact(2)
        .map(|c| u16::from_le_bytes([c[0], c[1]]))
        .collect();
    assert_eq!(out, vec![1000, 2000, 3000, 4000]);
}

#[test]
fn backend_equivalence() {
    let bytes: Vec<u8> = (0..60 * 47 * 3).map(|v| (v * 31 % 256) as u8).collect();
    let src_image = Image::from_vec_u8(60, 47, bytes, PixelType::U8x3).unwrap();
    let mut outputs: Vec<Vec<u8>> = Vec::new();
    for ext in [CpuExtensions::Scalar, CpuExtensions::Sse4_1, CpuExtensions::Avx2] {
        let mut resizer = Resizer::new(ResizeAlg::Convolution(FilterType::Lanczos3));
        resizer.set_cpu_extensions(ext);
        let mut dst_image = Image::new(17, 13, PixelType::U8x3);
        resizer.resize(&src_image, &mut dst_image).unwrap();
        outputs.push(dst_image.buffer().clone());
    }
    assert_eq!(outputs[0], outputs[1]);
    assert_eq!(outputs[0], outputs[2]);
}

#[test]
fn resize_is_deterministic() {
    let bytes: Vec<u8> = (0..32 * 21).map(|v| (v * 7 % 256) as u8).collect();
    let src_image = Image::from_vec_u8(32, 21, bytes, PixelType::U8).unwrap();
    let mut resizer = Resizer::new(ResizeAlg::Convolution(FilterType::CatmullRom));
    let mut first = Image::new(9, 5, PixelType::U8);
    resizer.resize(&src_image, &mut first).unwrap();
    let mut second = Image::new(9, 5, PixelType::U8);
    resizer.resize(&src_image, &mut second).unwrap();
    assert_eq!(first.buffer(), second.buffer());
}

#[test]
fn supersampling_runs_all_filters() {
    let bytes: Vec<u8> = (0..40 * 30 * 4).map(|v| (v % 256) as u8).collect();
    let src_image = Image::from_vec_u8(40, 30, bytes, PixelType::U8x4).unwrap();
    for filter in [
        FilterType::Box,
        FilterType::Bilinear,
        FilterType::Hamming,
        FilterType::Mitchell,
        FilterType::CatmullRom,
        FilterType::Lanczos3,
    ] {
        let mut resizer = Resizer::new(ResizeAlg::SuperSampling(filter, 2));
        let mut dst_image = Image::new(10, 8, PixelType::U8x4);
        resizer.resize(&src_image, &mut dst_image).unwrap();
        assert_eq!(dst_image.pixel_type(), PixelType::U8x4);
    }
}

#[test]
fn pixel_kind_is_preserved() {
    for pt in [
        PixelType::U8,
        PixelType::U8x3,
        PixelType::U8x4,
        PixelType::U16,
        PixelType::U16x3,
        PixelType::U16x4,
    ] {
        let src_image = Image::new(20, 20, pt);
        let mut dst_image = Image::new(7, 9, pt);
        let mut resizer = Resizer::new(ResizeAlg::Convolution(FilterType::Mitchell));
        assert!(resizer.resize(&src_image, &mut dst_image).is_ok());
        assert_eq!(dst_image.pixel_type(), pt);
        assert_eq!(dst_image.width(), 7);
        assert_eq!(dst_image.height(), 9);
    }
}
