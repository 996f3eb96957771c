use fast_image_resize::{CropBoxError, Image, ImageBufferError, ImageRowsError, PixelType};

#[test]
fn from_vec_rejects_short_buffer() {
    let r = Image::from_vec_u8(4, 4, vec![0u8; 15], PixelType::U8);
    assert!(matches!(r, Err(ImageBufferError::InvalidBufferSize)));
}

#[test]
fn from_vec_drops_extra_bytes() {
    let img = Image::from_vec_u8(2, 2, vec![7u8; 9], PixelType::U8).unwrap();
    assert_eq!(img.buffer().as_slice(), &[7, 7, 7, 7]);
}

#[test]
fn from_rows_rejects_wrong_count() {
    let rows = vec![vec![0u8; 3]; 2];
    let r = Image::from_rows_u8(3, 3, &rows, PixelType::U8);
    assert!(matches!(r, Err(ImageRowsError::InvalidRowsCount)));
}

#[test]
fn from_rows_rejects_wrong_row_size() {
    let rows = vec![vec![0u8; 3], vec![0u8; 2]];
    let r = Image::from_rows_u8(3, 2, &rows, PixelType::U8);
    assert!(matches!(r, Err(ImageRowsError::InvalidRowSize)));
}

#[test]
fn from_rows_builds_row_major() {
    let rows = vec![vec![1u8, 2, 3], vec![4u8, 5, 6]];
    let img = Image::from_rows_u8(3, 2, &rows, PixelType::U8).unwrap();
    assert_eq!(img.buffer().as_slice(), &[1, 2, 3, 4, 5, 6]);
}

#[test]
fn crop_rejects_bad_position() {
    let img = Image::new(4, 4, PixelType::U8);
    let r = img.crop(4, 0, 1, 1);
    assert!(matches!(r, Err(CropBoxError::PositionIsOutOfImageBoundaries)));
}

#[test]
fn crop_rejects_bad_size() {
    let img = Image::new(4, 4, PixelType::U8);
    let r = img.crop(2, 2, 3, 1);
    assert!(matches!(r, Err(CropBoxError::SizeIsOutOfImageBoundaries)));
}

#[test]
fn crop_copies_the_window() {
    let bytes: Vec<u8> = (0u8..16).collect();
    let img = Image::from_vec_u8(4, 4, bytes, PixelType::U8).unwrap();
    let sub = img.crop(1, 2, 2, 2).unwrap();
    assert_eq!(sub.width(), 2);
    assert_eq!(sub.height(), 2);
    assert_eq!(sub.buffer().as_slice(), &[9, 10, 13, 14]);
}

#[test]
fn new_image_is_zeroed() {
    let img = Image::new(3, 2, PixelType::U16x3);
    assert_eq!(img.buffer().len(), 3 * 2 * 6);
    assert!(img.buffer().iter().all(|&b| b == 0));
}
