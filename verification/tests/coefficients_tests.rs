use fast_image_resize::coefficients::compute_coefficients;
use fast_image_resize::FilterType;

const ALL_FILTERS: [FilterType; 6] = [
    FilterType::Box,
    FilterType::Bilinear,
    FilterType::Hamming,
    FilterType::Mitchell,
    FilterType::CatmullRom,
    FilterType::Lanczos3,
];

#[test]
fn tap_rows_sum_to_power_of_precision() {
    for filter in ALL_FILTERS {
        for (src_len, dst_len) in [(7u32, 3u32), (1920, 255), (64, 300), (5, 5), (1, 4)] {
            let c = compute_coefficients(src_len, dst_len, filter, 255);
            assert!(c.precision >= 1 && c.precision <= 14);
            let expected = 1i64 << c.precision;
            assert_eq!(c.bounds.len(), dst_len as usize);
            for j in 0..dst_len as usize {
                let row = &c.values[j * c.window_size..(j + 1) * c.window_size];
                let sum: i64 = row.iter().map(|&t| t as i64).sum();
                assert_eq!(sum, expected, "filter {:?} {}x{} row {}", filter, src_len, dst_len, j);
            }
        }
    }
}

#[test]
fn bounds_lie_inside_the_source() {
    for filter in ALL_FILTERS {
        let src_len = 100u32;
        let dst_len = 33u32;
        let c = compute_coefficients(src_len, dst_len, filter, 65535);
        for b in &c.bounds {
            assert!(b.size >= 1);
            assert!(b.size as usize <= c.window_size);
            assert!(b.start + b.size <= src_len);
        }
    }
}

#[test]
fn accumulator_stays_inside_i32() {
    for filter in ALL_FILTERS {
        let c = compute_coefficients(999, 333, filter, 65535);
        for j in 0..333usize {
            let row = &c.values[j * c.window_size..(j + 1) * c.window_size];
            let abs_sum: i64 = row.iter().map(|&t| (t as i64).abs()).sum();
            assert!(abs_sum * 65535 + (1 << (c.precision - 1)) <= i32::MAX as i64);
        }
    }
}
