use std::io::Cursor;

use image::{DynamicImage, GenericImageView, ImageFormat, Rgb, RgbImage, Rgba, RgbaImage};
use image_transform::raster::{DecodedImage, PixelLayout, ProcessError};
use image_transform::ops::{parse_operations, OutputFormat};
use image_transform::pipeline::{
    decode, process_image, transform, EncodedOutput, ResizeStrategy,
};

fn rgb_source(w: u32, h: u32, format: ImageFormat) -> Vec<u8> {
    let img = RgbImage::from_fn(w, h, |x, y| {
        Rgb([(x * 7 % 256) as u8, (y * 13 % 256) as u8, ((x * y) % 256) as u8])
    });
    let mut buf = Vec::new();
    DynamicImage::ImageRgb8(img).write_to(&mut Cursor::new(&mut buf), format).unwrap();
    buf
}

fn rgba_png(w: u32, h: u32) -> Vec<u8> {
    let img = RgbaImage::from_fn(w, h, |x, y| {
        Rgba([(x * 5 % 256) as u8, (y * 3 % 256) as u8, 90, ((x + y) * 9 % 256) as u8])
    });
    let mut buf = Vec::new();
    DynamicImage::ImageRgba8(img).write_to(&mut Cursor::new(&mut buf), ImageFormat::Png).unwrap();
    buf
}

fn run(bytes: &[u8], operations: &str) -> EncodedOutput {
    process_image(bytes, operations, ResizeStrategy::Convolution).unwrap()
}

fn decoded_size(bytes: &[u8]) -> (u32, u32) {
    image::load_from_memory(bytes).unwrap().dimensions()
}

#[test]
fn jpeg_to_webp_at_half_width() {
    let src = rgb_source(1000, 500, ImageFormat::Jpeg);
    let out = run(&src, "width=500,format=webp,quality=80");
    assert_eq!(out.content_type, "image/webp");
    assert_eq!(out.format, OutputFormat::WebP);
    assert_eq!((out.width, out.height), (500, 250));
    assert_eq!(&out.bytes[0..4], b"RIFF");
    assert_eq!(&out.bytes[8..12], b"WEBP");
    assert_eq!(decoded_size(&out.bytes), (500, 250));
}

#[test]
fn png_without_operations_becomes_jpeg_of_same_size() {
    let src = rgb_source(40, 30, ImageFormat::Png);
    let out = run(&src, "");
    assert_eq!(out.content_type, "image/jpeg");
    assert_eq!(&out.bytes[0..2], &[0xFFu8, 0xD8]);
    assert_eq!(decoded_size(&out.bytes), (40, 30));
    let at_default = run(&src, "quality=75");
    assert_eq!(out.bytes, at_default.bytes);
}

#[test]
fn corrupt_input_is_a_decode_error() {
    let src = rgb_source(64, 64, ImageFormat::Png);
    let truncated = &src[..src.len() / 2];
    assert!(matches!(
        process_image(truncated, "format=png", ResizeStrategy::Convolution),
        Err(ProcessError::Decode)
    ));
    assert!(matches!(
        process_image(b"not an image at all", "", ResizeStrategy::Convolution),
        Err(ProcessError::Decode)
    ));
    assert!(matches!(process_image(&[], "", ResizeStrategy::Triangle), Err(ProcessError::Decode)));
}

#[test]
fn png_output_has_signature_and_keeps_size() {
    let src = rgb_source(33, 21, ImageFormat::Jpeg);
    let out = run(&src, "format=png");
    assert_eq!(out.content_type, "image/png");
    assert_eq!(&out.bytes[0..8], &[137u8, 80, 78, 71, 13, 10, 26, 10]);
    assert_eq!(decoded_size(&out.bytes), (33, 21));
}

#[test]
fn avif_output_is_an_avif_file() {
    let src = rgb_source(16, 12, ImageFormat::Png);
    let out = run(&src, "format=avif,width=8");
    assert_eq!(out.content_type, "image/avif");
    assert_eq!((out.width, out.height), (8, 6));
    assert_eq!(&out.bytes[4..8], b"ftyp");
    assert_eq!(&out.bytes[8..12], b"avif");
    assert!(out.bytes.windows(4).any(|w| w == b"avif"));
}

#[test]
fn png_ignores_quality() {
    let src = rgb_source(50, 40, ImageFormat::Png);
    let low = run(&src, "format=png,quality=5");
    let high = run(&src, "format=png,quality=100");
    assert_eq!(low.bytes, high.bytes);
}

#[test]
fn lossy_formats_follow_quality() {
    let src = rgb_source(128, 96, ImageFormat::Png);
    for format in ["jpeg", "webp"] {
        let low = run(&src, &format!("format={format},quality=5"));
        let high = run(&src, &format!("format={format},quality=100"));
        assert!(high.bytes.len() > low.bytes.len() + low.bytes.len() / 4, "{format}");
    }
    let small = rgb_source(24, 24, ImageFormat::Png);
    let low = run(&small, "format=avif,quality=1");
    let high = run(&small, "format=avif,quality=100");
    assert!(high.bytes.len() > low.bytes.len());
}

#[test]
fn outputs_decode_to_the_expected_size() {
    let src = rgb_source(300, 200, ImageFormat::Jpeg);
    for format in ["png", "jpeg", "webp"] {
        let out = run(&src, &format!("format={format},width=100"));
        assert_eq!((out.width, out.height), (100, 67));
        assert_eq!(decoded_size(&out.bytes), (100, 67), "{format}");
    }
}

#[test]
fn triangle_strategy_gives_the_same_size() {
    let src = rgb_source(300, 200, ImageFormat::Png);
    let out = process_image(&src, "width=150,format=png", ResizeStrategy::Triangle).unwrap();
    assert_eq!(decoded_size(&out.bytes), (150, 100));
    let rgba = rgba_png(20, 10);
    let out = process_image(&rgba, "width=10,format=png", ResizeStrategy::Triangle).unwrap();
    assert_eq!(decoded_size(&out.bytes), (10, 5));
}

#[test]
fn alpha_images_keep_their_layout_until_encoding() {
    let src = rgba_png(20, 10);
    let img = decode(&src).unwrap();
    assert_eq!(img.layout, PixelLayout::Rgba8);
    assert_eq!(img.pixels.len(), 20 * 10 * 4);
    let jpeg = run(&src, "width=10");
    assert_eq!(decoded_size(&jpeg.bytes), (10, 5));
    let webp = run(&src, "format=webp");
    assert_eq!(decoded_size(&webp.bytes), (20, 10));
    let opaque = decode(&rgb_source(5, 4, ImageFormat::Png)).unwrap();
    assert_eq!(opaque.layout, PixelLayout::Rgb8);
    assert_eq!((opaque.width, opaque.height), (5, 4));
}

#[test]
fn oversized_webp_is_an_encode_error() {
    let img = DecodedImage {
        width: 16384,
        height: 1,
        layout: PixelLayout::Rgb8,
        pixels: vec![0u8; 16384 * 3],
    };
    let r = transform(img, parse_operations("format=webp"), ResizeStrategy::Convolution);
    assert!(matches!(r, Err(ProcessError::Encode)));
}

#[test]
fn overflowing_height_is_a_resize_error() {
    let img = DecodedImage { width: 1, height: 3, layout: PixelLayout::Rgb8, pixels: vec![0u8; 9] };
    let r = transform(img, parse_operations("width=2000000000"), ResizeStrategy::Convolution);
    assert!(matches!(r, Err(ProcessError::Resize)));
}

#[test]
fn empty_images_are_encode_errors() {
    for format in ["avif", "webp", "jpeg", "png"] {
        let img = DecodedImage { width: 0, height: 5, layout: PixelLayout::Rgb8, pixels: vec![] };
        let r = transform(img, parse_operations(&format!("format={format}")), ResizeStrategy::Convolution);
        assert!(matches!(r, Err(ProcessError::Encode)), "{format}");
    }
}

#[test]
fn overwide_webp_without_pixels_is_an_encode_error() {
    let img = DecodedImage { width: 1 << 31, height: 0, layout: PixelLayout::Rgba8, pixels: vec![] };
    let r = transform(img, parse_operations("format=webp"), ResizeStrategy::Convolution);
    assert!(matches!(r, Err(ProcessError::Encode)));
}

#[test]
fn empty_string_equals_explicit_defaults() {
    let src = rgba_png(30, 20);
    let implicit = run(&src, "");
    let explicit = run(&src, "format=jpeg,quality=75");
    assert_eq!(implicit.bytes, explicit.bytes);
    assert_eq!(decoded_size(&implicit.bytes), (30, 20));
}

#[test]
fn stray_prefix_keeps_the_request() {
    let src = rgb_source(1000, 500, ImageFormat::Jpeg);
    let plain = run(&src, "width=500");
    let prefixed = run(&src, "foo,quality=,width=500");
    assert_eq!((prefixed.width, prefixed.height), (500, 250));
    assert_eq!(plain.bytes, prefixed.bytes);
}

#[test]
fn avif_output_is_repeatable() {
    let src = rgba_png(16, 16);
    let first = run(&src, "format=avif,quality=60");
    let second = run(&src, "format=avif,quality=60");
    assert_eq!(first.bytes, second.bytes);
}
