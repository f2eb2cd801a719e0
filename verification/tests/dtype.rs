use rustycogs::dtype::{decimal_string, format_dtype, pixel_dtype, tile_dims, PixelType, SampleKind};

#[test]
fn float32_is_little_endian_f4() {
    assert_eq!(format_dtype(&[SampleKind::Float], &[32]), "<f4");
}

#[test]
fn uint8_has_no_byte_order() {
    assert_eq!(format_dtype(&[SampleKind::Uint, SampleKind::Uint], &[8, 8]), "|u1");
}

#[test]
fn defaults_are_unsigned_bytes() {
    assert_eq!(format_dtype(&[], &[]), "|u1");
}

#[test]
fn int16() {
    assert_eq!(format_dtype(&[SampleKind::Int], &[16]), "<i2");
}

#[test]
fn odd_bit_depths_round_up() {
    assert_eq!(format_dtype(&[SampleKind::Uint], &[12]), "<u2");
    assert_eq!(format_dtype(&[SampleKind::Uint], &[1]), "|u1");
    assert_eq!(format_dtype(&[SampleKind::Uint], &[2]), "|u1");
    assert_eq!(format_dtype(&[SampleKind::Uint], &[0]), "<u0");
}

#[test]
fn other_formats_are_floats() {
    assert_eq!(format_dtype(&[SampleKind::Void], &[64]), "<f8");
    assert_eq!(format_dtype(&[SampleKind::Unknown(9)], &[16]), "<f2");
}

#[test]
fn largest_bit_depth_with_a_byte_count() {
    assert_eq!(format_dtype(&[SampleKind::Uint], &[65528]), "<u8191");
}

#[test]
fn decimal_strings() {
    assert_eq!(decimal_string(0), "0");
    assert_eq!(decimal_string(7), "7");
    assert_eq!(decimal_string(10), "10");
    assert_eq!(decimal_string(65535), "65535");
}

#[test]
fn pixel_dtypes() {
    assert_eq!(pixel_dtype(Some(PixelType::UInt8)), "|u1");
    assert_eq!(pixel_dtype(Some(PixelType::UInt16)), "<u2");
    assert_eq!(pixel_dtype(Some(PixelType::UInt32)), "<u4");
    assert_eq!(pixel_dtype(Some(PixelType::UInt64)), "<u8");
    assert_eq!(pixel_dtype(Some(PixelType::Int8)), "|i1");
    assert_eq!(pixel_dtype(Some(PixelType::Int16)), "<i2");
    assert_eq!(pixel_dtype(Some(PixelType::Int32)), "<i4");
    assert_eq!(pixel_dtype(Some(PixelType::Int64)), "<i8");
    assert_eq!(pixel_dtype(Some(PixelType::Float32)), "<f4");
    assert_eq!(pixel_dtype(Some(PixelType::Float64)), "<f8");
    assert_eq!(pixel_dtype(Some(PixelType::Bool)), "|u1");
    assert_eq!(pixel_dtype(None), "|u1");
}

#[test]
fn single_band_tile_has_two_dims() {
    assert_eq!(tile_dims([256, 512, 1], false), vec![256, 512]);
    assert_eq!(tile_dims([1, 256, 512], true), vec![256, 512]);
}

#[test]
fn multi_band_tile_has_three_dims() {
    assert_eq!(tile_dims([256, 512, 3], false), vec![256, 512, 3]);
    assert_eq!(tile_dims([3, 256, 512], true), vec![256, 512, 3]);
}

#[test]
fn tile_dims_as_r_integers() {
    assert_eq!(tile_dims([1usize << 31, 3, 2], false), vec![i32::MIN, 3, 2]);
}

#[test]
fn summary_dtype_matches_decoded_dtype_on_known_types() {
    let cases = [
        (SampleKind::Uint, 1u16, Some(PixelType::Bool)),
        (SampleKind::Uint, 8, Some(PixelType::UInt8)),
        (SampleKind::Uint, 16, Some(PixelType::UInt16)),
        (SampleKind::Uint, 32, Some(PixelType::UInt32)),
        (SampleKind::Uint, 64, Some(PixelType::UInt64)),
        (SampleKind::Int, 8, Some(PixelType::Int8)),
        (SampleKind::Int, 16, Some(PixelType::Int16)),
        (SampleKind::Int, 32, Some(PixelType::Int32)),
        (SampleKind::Int, 64, Some(PixelType::Int64)),
        (SampleKind::Float, 32, Some(PixelType::Float32)),
        (SampleKind::Float, 64, Some(PixelType::Float64)),
    ];
    for (kind, bits, t) in cases {
        assert_eq!(format_dtype(&[kind], &[bits]), pixel_dtype(t));
    }
}
