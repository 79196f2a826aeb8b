use std::io::Cursor;

use flower_classifier::preprocess;
use flower_classifier::preprocess::channel_first;
use flower_classifier::preprocess::INPUT_LEN;
use flower_classifier::preprocess::INPUT_PIXELS;
use flower_classifier::Error;

fn png_bytes(width: u32, height: u32, pixel: [u8; 3]) -> Vec<u8> {
    let img = image::RgbImage::from_pixel(width, height, image::Rgb(pixel));
    let mut bytes: Vec<u8> = Vec::new();
    image::DynamicImage::ImageRgb8(img)
        .write_to(&mut Cursor::new(&mut bytes), image::ImageFormat::Png)
        .unwrap();
    bytes
}

#[test]
fn decoded_image_fills_the_input_grid() {
    let bytes = png_bytes(2, 2, [10, 20, 30]);
    let planar = preprocess(&bytes).unwrap();
    assert_eq!(planar.len(), INPUT_LEN);
}

#[test]
fn resize_spreads_a_single_pixel_over_all_planes() {
    let bytes = png_bytes(1, 1, [255, 0, 0]);
    let planar = preprocess(&bytes).unwrap();
    assert_eq!(planar.len(), INPUT_LEN);
    for p in 0..INPUT_PIXELS {
        assert_eq!(planar[p], 255);
        assert_eq!(planar[INPUT_PIXELS + p], 0);
        assert_eq!(planar[2 * INPUT_PIXELS + p], 0);
    }
}

#[test]
fn preprocessing_is_deterministic() {
    let bytes = png_bytes(37, 19, [1, 2, 3]);
    let first = preprocess(&bytes).unwrap();
    let second = preprocess(&bytes).unwrap();
    assert_eq!(first, second);
}

#[test]
fn truncated_png_header_is_a_decode_error() {
    let bytes: Vec<u8> = vec![0x89, 0x50, 0x4e, 0x47];
    match preprocess(&bytes) {
        Err(e) => assert_eq!(e, Error::Decode),
        Ok(_) => panic!("truncated header must not decode"),
    }
}

#[test]
fn arbitrary_bytes_are_a_decode_error() {
    let bytes: Vec<u8> = vec![1, 2, 3, 4, 5];
    match preprocess(&bytes) {
        Err(e) => assert_eq!(e, Error::Decode),
        Ok(_) => panic!("garbage must not decode"),
    }
}

#[test]
fn empty_input_is_a_decode_error() {
    let bytes: Vec<u8> = vec![];
    assert_eq!(preprocess(&bytes).unwrap_err(), Error::Decode);
}

#[test]
fn a_large_jpeg_is_resized_to_the_grid() {
    let img = image::RgbImage::from_pixel(300, 300, image::Rgb([80, 160, 240]));
    let mut bytes: Vec<u8> = Vec::new();
    image::DynamicImage::ImageRgb8(img)
        .write_to(&mut Cursor::new(&mut bytes), image::ImageFormat::Jpeg)
        .unwrap();
    let planar = preprocess(&bytes).unwrap();
    assert_eq!(planar.len(), INPUT_LEN);
}

#[test]
fn channel_first_reorders_interleaved_bytes() {
    let mut pixels: Vec<u8> = Vec::with_capacity(INPUT_LEN);
    for j in 0..INPUT_LEN {
        pixels.push((j % 251) as u8);
    }
    let planar = channel_first(&pixels);
    assert_eq!(planar.len(), INPUT_LEN);
    for c in 0..3 {
        for p in 0..INPUT_PIXELS {
            assert_eq!(planar[c * INPUT_PIXELS + p], pixels[3 * p + c]);
        }
    }
}
