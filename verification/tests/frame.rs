use face_auth::frame::{decode_jpeg, frame_from_raster, DecodeError, Frame, MIN_JPEG_LEN};

fn frame_test_jpeg(width: u32, height: u32, rgb: [u8; 3]) -> Vec<u8> {
    let mut samples = Vec::new();
    for _ in 0..(width * height) {
        samples.extend_from_slice(&rgb);
    }
    let mut bytes = Vec::new();
    image::codecs::jpeg::JpegEncoder::new_with_quality(&mut bytes, 90)
        .encode(&samples, width, height, image::ExtendedColorType::Rgb8)
        .unwrap();
    bytes
}

#[test]
fn complete_raster_becomes_a_frame() {
    let frame = Frame::from_raw(2, 1, vec![1, 2, 3, 4, 5, 6]).unwrap();
    assert_eq!(frame.width(), 2);
    assert_eq!(frame.height(), 1);
    assert_eq!(frame.pixels(), &[1, 2, 3, 4, 5, 6]);
    assert_eq!(frame.into_raw(), vec![1, 2, 3, 4, 5, 6]);
}

#[test]
fn empty_raster_is_a_frame() {
    let frame = Frame::from_raw(0, 5, Vec::new()).unwrap();
    assert_eq!(frame.width(), 0);
    assert_eq!(frame.height(), 5);
    assert!(frame.pixels().is_empty());
}

#[test]
fn short_raster_is_rejected() {
    assert!(Frame::from_raw(2, 2, vec![0; 11]).is_none());
}

#[test]
fn long_raster_is_rejected() {
    assert!(Frame::from_raw(2, 2, vec![0; 13]).is_none());
}

#[test]
fn oversized_dimensions_are_rejected() {
    assert!(Frame::from_raw(65536, 0, Vec::new()).is_none());
    assert!(Frame::from_raw(0, 65536, Vec::new()).is_none());
    assert!(Frame::from_raw(65535, 0, Vec::new()).is_some());
}

#[test]
fn clone_keeps_the_raster() {
    let frame = Frame::from_raw(1, 2, vec![9, 8, 7, 6, 5, 4]).unwrap();
    let copy = frame.clone();
    assert_eq!(copy.width(), 1);
    assert_eq!(copy.height(), 2);
    assert_eq!(copy.pixels(), frame.pixels());
}

#[test]
fn raster_from_the_decoder_becomes_a_frame() {
    let frame = frame_from_raster(Some((1, 1, vec![10, 20, 30]))).ok().unwrap();
    assert_eq!((frame.width(), frame.height()), (1, 1));
    assert_eq!(frame.pixels(), &[10, 20, 30]);
}

#[test]
fn incomplete_raster_from_the_decoder_is_malformed() {
    assert_eq!(frame_from_raster(Some((1, 1, vec![10, 20]))).err(), Some(DecodeError::Malformed));
}

#[test]
fn rejection_by_the_decoder_is_malformed() {
    assert_eq!(frame_from_raster(None).err(), Some(DecodeError::Malformed));
}

#[test]
fn ranges_under_ten_bytes_are_too_small() {
    assert_eq!(MIN_JPEG_LEN, 10);
    assert_eq!(decode_jpeg(&[]).err(), Some(DecodeError::TooSmall));
    assert_eq!(decode_jpeg(&[0xFF, 0xD8, 0xFF, 0xD9]).err(), Some(DecodeError::TooSmall));
    assert_eq!(decode_jpeg(&[0xFF, 0xD8, 1, 2, 3, 4, 5, 0xFF, 0xD9]).err(), Some(DecodeError::TooSmall));
}

#[test]
fn a_valid_jpeg_is_too_small_when_cut_to_nine_bytes() {
    let jpeg = frame_test_jpeg(4, 4, [200, 10, 10]);
    assert_eq!(decode_jpeg(&jpeg[..9]).err(), Some(DecodeError::TooSmall));
}

#[test]
fn ten_bytes_that_are_no_jpeg_are_malformed() {
    assert_eq!(
        decode_jpeg(&[0xFF, 0xD8, 1, 2, 3, 4, 5, 6, 0xFF, 0xD9]).err(),
        Some(DecodeError::Malformed)
    );
    assert_eq!(decode_jpeg(&[0u8; 64]).err(), Some(DecodeError::Malformed));
}

#[test]
fn a_truncated_jpeg_header_is_malformed() {
    let jpeg = frame_test_jpeg(8, 8, [1, 2, 3]);
    assert_eq!(decode_jpeg(&jpeg[..12]).err(), Some(DecodeError::Malformed));
}

#[test]
fn a_jpeg_decodes_to_the_raster_of_the_image_crate() {
    let jpeg = frame_test_jpeg(6, 4, [30, 160, 220]);
    let expected =
        image::load_from_memory_with_format(&jpeg, image::ImageFormat::Jpeg).unwrap().to_rgb8();
    let frame = decode_jpeg(&jpeg).ok().unwrap();
    assert_eq!(frame.width(), 6);
    assert_eq!(frame.height(), 4);
    assert_eq!(frame.pixels().len(), 6 * 4 * 3);
    assert_eq!(frame.pixels(), expected.as_raw().as_slice());
    assert_ne!(frame.pixels(), jpeg.as_slice());
}

#[test]
fn a_decoded_colour_is_close_to_the_encoded_one() {
    let jpeg = frame_test_jpeg(8, 8, [30, 160, 220]);
    let frame = decode_jpeg(&jpeg).ok().unwrap();
    for pixel in frame.pixels().chunks(3) {
        assert!((pixel[0] as i32 - 30).abs() <= 6);
        assert!((pixel[1] as i32 - 160).abs() <= 6);
        assert!((pixel[2] as i32 - 220).abs() <= 6);
    }
}

#[test]
fn a_grey_jpeg_decodes_to_three_equal_channels() {
    let mut bytes = Vec::new();
    image::codecs::jpeg::JpegEncoder::new_with_quality(&mut bytes, 90)
        .encode(&[128u8; 16], 4, 4, image::ExtendedColorType::L8)
        .unwrap();
    let frame = decode_jpeg(&bytes).ok().unwrap();
    assert_eq!((frame.width(), frame.height()), (4, 4));
    assert_eq!(frame.pixels().len(), 48);
    for pixel in frame.pixels().chunks(3) {
        assert_eq!(pixel[0], pixel[1]);
        assert_eq!(pixel[1], pixel[2]);
    }
}

#[test]
fn decode_errors_say_why() {
    assert_eq!(DecodeError::TooSmall.message(), "JPEG data too small");
    assert_eq!(DecodeError::Malformed.message(), "malformed JPEG data");
}
