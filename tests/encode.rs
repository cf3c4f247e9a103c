use mandelbrot::encode::{encode_png, PngError};

#[test]
fn zero_buffer_round_trips_through_png() {
    let bytes = encode_png(&[0u8; 4], (2, 2)).unwrap();
    assert_eq!(&bytes[..8], &[0x89, b'P', b'N', b'G', 0x0d, 0x0a, 0x1a, 0x0a]);
    let image = image::load_from_memory(&bytes).unwrap();
    assert_eq!(image.color(), image::ColorType::L8);
    let gray = image.to_luma8();
    assert_eq!((gray.width(), gray.height()), (2, 2));
    assert!(gray.as_raw().iter().all(|&b| b == 0));
}

#[test]
fn png_keeps_pixel_values() {
    let pixels = vec![0u8, 64, 128, 255, 1, 2];
    let bytes = encode_png(&pixels, (3, 2)).unwrap();
    let gray = image::load_from_memory(&bytes).unwrap().to_luma8();
    assert_eq!((gray.width(), gray.height()), (3, 2));
    assert_eq!(gray.as_raw(), &pixels);
}

#[test]
fn png_rejects_wrong_buffer_size() {
    assert_eq!(encode_png(&[0u8; 3], (2, 2)), Err(PngError::BufferSize));
    assert_eq!(encode_png(&[0u8; 5], (2, 2)), Err(PngError::BufferSize));
}

#[test]
fn png_rejects_oversized_side() {
    let too_wide = u32::MAX as usize + 1;
    assert_eq!(encode_png(&[], (too_wide, 0)), Err(PngError::TooLarge));
}

#[test]
fn png_rejects_empty_image() {
    assert_eq!(encode_png(&[], (0, 3)), Err(PngError::Empty));
    assert_eq!(encode_png(&[], (3, 0)), Err(PngError::Empty));
}

#[test]
fn png_encodes_single_pixel() {
    let bytes = encode_png(&[200u8], (1, 1)).unwrap();
    let gray = image::load_from_memory(&bytes).unwrap().to_luma8();
    assert_eq!(gray.as_raw(), &vec![200u8]);
}
