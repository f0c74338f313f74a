//! The calls into the image codecs and resamplers. Each function here is
//! trusted: its contract states what the called crate does.
use crate::raster::{channels, PixelLayout};
use image::ImageEncoder;
use vstd::prelude::*;

verus! {

/// Whether `image::load_from_memory` reads these bytes as an image.
pub uninterp spec fn readable(bytes: Seq<u8>) -> bool;

/// Whether the decoded image has an alpha channel.
pub uninterp spec fn decoded_alpha(bytes: Seq<u8>) -> bool;

/// Width, height and RGB pixels of the decoded image.
pub uninterp spec fn decoded_rgb(bytes: Seq<u8>) -> (u32, u32, Seq<u8>);

/// Width, height and RGBA pixels of the decoded image.
pub uninterp spec fn decoded_rgba(bytes: Seq<u8>) -> (u32, u32, Seq<u8>);

/// What the convolution resampler makes of the pixels at `tw x th`.
pub uninterp spec fn convolution_resized(
    pixels: Seq<u8>,
    w: u32,
    h: u32,
    alpha: bool,
    tw: u32,
    th: u32,
) -> Seq<u8>;

/// What the triangle filter makes of RGB pixels at `tw x th`.
pub uninterp spec fn triangle_resized_rgb(pixels: Seq<u8>, w: u32, h: u32, tw: u32, th: u32) -> Seq<
    u8,
>;

/// What the triangle filter makes of RGBA pixels at `tw x th`.
pub uninterp spec fn triangle_resized_rgba(pixels: Seq<u8>, w: u32, h: u32, tw: u32, th: u32) -> Seq<
    u8,
>;

/// The stream that `JpegEncoder::write_image` writes for RGB pixels.
pub uninterp spec fn jpeg_stream(pixels: Seq<u8>, w: u32, h: u32, quality: u8) -> Option<Seq<u8>>;

/// The file that `ravif::Encoder::encode_rgba` writes for RGBA pixels on the
/// given number of threads.
pub uninterp spec fn avif_stream(
    pixels: Seq<u8>,
    w: usize,
    h: usize,
    quality: u8,
    speed: u8,
    threads: usize,
) -> Option<Seq<u8>>;

/// The stream that `PngEncoder::write_image` writes for these pixels, if it
/// accepts them.
pub uninterp spec fn png_stream(pixels: Seq<u8>, width: u32, height: u32, alpha: bool) -> Option<
    Seq<u8>,
>;

pub open spec fn png_signature() -> Seq<u8> {
    seq![137u8, 80, 78, 71, 13, 10, 26, 10]
}

pub open spec fn jpeg_start() -> Seq<u8> {
    seq![255u8, 216]
}

pub open spec fn riff_tag() -> Seq<u8> {
    seq![82u8, 73, 70, 70]
}

pub open spec fn webp_tag() -> Seq<u8> {
    seq![87u8, 69, 66, 80]
}

pub open spec fn ftyp_tag() -> Seq<u8> {
    seq![102u8, 116, 121, 112]
}

pub open spec fn avif_brand() -> Seq<u8> {
    seq![97u8, 118, 105, 102]
}

/// A RIFF container of WebP data: `RIFF`, a size, `WEBP`.
pub open spec fn is_webp_container(b: Seq<u8>) -> bool {
    b.len() >= 12 && b.subrange(0, 4) == riff_tag() && b.subrange(8, 12) == webp_tag()
}

/// An ISO media file whose first box is `ftyp` with the major brand `avif`.
pub open spec fn is_avif_container(b: Seq<u8>) -> bool {
    b.len() >= 12 && b.subrange(4, 8) == ftyp_tag() && b.subrange(8, 12) == avif_brand()
}

/// Relies on `image::load_from_memory`, which detects the format from the
/// bytes, and `ColorType::has_alpha` of the decoded image.
#[verifier::external_body]
pub(crate) fn detect_alpha(bytes: &[u8]) -> (r: Option<bool>)
    ensures
        r is Some == readable(bytes@),
        r matches Some(a) ==> a == decoded_alpha(bytes@),
{
    let img = image::load_from_memory(bytes).ok()?;
    Some(img.color().has_alpha())
}

/// Relies on `image::load_from_memory` and `DynamicImage::to_rgb8`: an RGB
/// buffer of width x height pixels.
#[verifier::external_body]
pub(crate) fn decode_rgb(bytes: &[u8]) -> (r: Option<(u32, u32, Vec<u8>)>)
    ensures
        r is Some == readable(bytes@),
        r matches Some(t) ==> t.2@.len() == t.0 * t.1 * 3 && decoded_rgb(bytes@) == (
        t.0,
        t.1,
        t.2@,
        ),
{
    let img = image::load_from_memory(bytes).ok()?;
    let b = img.to_rgb8();
    let (w, h) = b.dimensions();
    Some((w, h, b.into_raw()))
}

/// Relies on `image::load_from_memory` and `DynamicImage::to_rgba8`: an
/// RGBA buffer of width x height pixels.
#[verifier::external_body]
pub(crate) fn decode_rgba(bytes: &[u8]) -> (r: Option<(u32, u32, Vec<u8>)>)
    ensures
        r is Some == readable(bytes@),
        r matches Some(t) ==> t.2@.len() == t.0 * t.1 * 4 && decoded_rgba(bytes@) == (
        t.0,
        t.1,
        t.2@,
        ),
{
    let img = image::load_from_memory(bytes).ok()?;
    let b = img.to_rgba8();
    let (w, h) = b.dimensions();
    Some((w, h, b.into_raw()))
}

/// Relies on `fast_image_resize::Resizer::resize`: a convolution resampler
/// that fills a destination image of the requested size and pixel type; it
/// fails only where the two pixel types differ, which they never do here.
#[verifier::external_body]
pub(crate) fn resize_convolution(
    pixels: Vec<u8>,
    w: u32,
    h: u32,
    layout: PixelLayout,
    tw: u32,
    th: u32,
) -> (r: Option<Vec<u8>>)
    requires
        pixels@.len() == w * h * channels(layout),
        tw * th * channels(layout) <= usize::MAX,
    ensures
        r is Some,
        r matches Some(v) ==> v@.len() == tw * th * channels(layout) && v@ == convolution_resized(
            pixels@,
            w,
            h,
            layout == PixelLayout::Rgba8,
            tw,
            th,
        ),
{
    let pt = match layout {
        PixelLayout::Rgb8 => fast_image_resize::PixelType::U8x3,
        PixelLayout::Rgba8 => fast_image_resize::PixelType::U8x4,
    };
    let src = fast_image_resize::images::Image::from_vec_u8(w, h, pixels, pt).ok()?;
    let mut dst = fast_image_resize::images::Image::new(tw, th, pt);
    fast_image_resize::Resizer::new().resize(&src, &mut dst, None).ok()?;
    Some(dst.into_vec())
}

/// Relies on `image::imageops::resize` with the triangle filter, on RGB
/// pixels: `from_raw` takes an exact-size buffer and the resize cannot fail.
#[verifier::external_body]
pub(crate) fn resize_triangle_rgb(pixels: Vec<u8>, w: u32, h: u32, tw: u32, th: u32) -> (r: Option<
    Vec<u8>,
>)
    requires
        pixels@.len() == w * h * 3,
        tw * th * 3 <= usize::MAX,
    ensures
        r is Some,
        r matches Some(v) ==> v@.len() == tw * th * 3 && v@ == triangle_resized_rgb(
            pixels@,
            w,
            h,
            tw,
            th,
        ),
{
    let src = image::RgbImage::from_raw(w, h, pixels)?;
    let out = image::imageops::resize(&src, tw, th, image::imageops::FilterType::Triangle);
    Some(out.into_raw())
}

/// Relies on `image::imageops::resize` with the triangle filter, on RGBA
/// pixels: `from_raw` takes an exact-size buffer and the resize cannot fail.
#[verifier::external_body]
pub(crate) fn resize_triangle_rgba(pixels: Vec<u8>, w: u32, h: u32, tw: u32, th: u32) -> (r: Option<
    Vec<u8>,
>)
    requires
        pixels@.len() == w * h * 4,
        tw * th * 4 <= usize::MAX,
    ensures
        r is Some,
        r matches Some(v) ==> v@.len() == tw * th * 4 && v@ == triangle_resized_rgba(
            pixels@,
            w,
            h,
            tw,
            th,
        ),
{
    let src = image::RgbaImage::from_raw(w, h, pixels)?;
    let out = image::imageops::resize(&src, tw, th, image::imageops::FilterType::Triangle);
    Some(out.into_raw())
}

/// Relies on `image::codecs::png::PngEncoder::write_image`: a lossless PNG
/// stream, which the `png` crate starts with the PNG signature, and which
/// depends on the pixels, size and layout alone; only a side of 0 is refused.
#[verifier::external_body]
pub(crate) fn encode_png(pixels: &[u8], w: u32, h: u32, layout: PixelLayout) -> (r: Option<
    Vec<u8>,
>)
    requires
        pixels@.len() == w * h * channels(layout),
    ensures
        r matches Some(b) ==> png_signature().is_prefix_of(b@),
        1 <= w && 1 <= h ==> r is Some,
        png_stream(pixels@, w, h, layout == PixelLayout::Rgba8) == match r {
            Some(b) => Some(b@),
            None => None::<Seq<u8>>,
        },
{
    let color = match layout {
        PixelLayout::Rgb8 => image::ExtendedColorType::Rgb8,
        PixelLayout::Rgba8 => image::ExtendedColorType::Rgba8,
    };
    let mut out: Vec<u8> = Vec::new();
    image::codecs::png::PngEncoder::new(&mut out).write_image(pixels, w, h, color).ok()?;
    Some(out)
}

/// Relies on `image::codecs::jpeg::JpegEncoder::write_image` at the given
/// quality, on RGB pixels: the stream starts with the start-of-image marker;
/// the only size it refuses is a side of 0 or above 65535.
#[verifier::external_body]
pub(crate) fn encode_jpeg(pixels: &[u8], w: u32, h: u32, quality: u8) -> (r: Option<Vec<u8>>)
    requires
        pixels@.len() == w * h * 3,
    ensures
        r matches Some(b) ==> jpeg_start().is_prefix_of(b@),
        jpeg_stream(pixels@, w, h, quality) == match r {
            Some(b) => Some(b@),
            None => None::<Seq<u8>>,
        },
        1 <= w <= 65535 && 1 <= h <= 65535 ==> r is Some,
{
    let mut out: Vec<u8> = Vec::new();
    image::codecs::jpeg::JpegEncoder::new_with_quality(&mut out, quality).write_image(
        pixels,
        w,
        h,
        image::ExtendedColorType::Rgb8,
    ).ok()?;
    Some(out)
}

/// Relies on `webp::Encoder::encode_simple`, lossy, on RGBA pixels: libwebp
/// writes a RIFF container tagged `WEBP`. Sides above 16383 pixels are left
/// out: the crate computes `width * 4` as an `i32`.
#[verifier::external_body]
pub(crate) fn encode_webp(pixels: &[u8], w: u32, h: u32, quality: u8) -> (r: Option<Vec<u8>>)
    requires
        pixels@.len() == w * h * 4,
        1 <= w <= 16383,
        1 <= h <= 16383,
        quality <= 100,
    ensures
        r matches Some(b) ==> is_webp_container(b@),
{
    let encoder = webp::Encoder::new(pixels, webp::PixelLayout::Rgba, w, h);
    encoder.encode_simple(false, quality.into()).ok().map(|m| m.to_vec())
}

/// Relies on `ravif::Encoder::encode_rgba` with the given quality and speed,
/// on RGBA pixels: the AVIF file starts with its `ftyp` box, whose major
/// brand is `avif`. The thread count is fixed because it sets the number of
/// AV1 tiles, and so the bytes written.
#[verifier::external_body]
pub(crate) fn encode_avif(
    pixels: &[u8],
    w: usize,
    h: usize,
    quality: u8,
    speed: u8,
    threads: usize,
) -> (r: Option<Vec<u8>>)
    requires
        pixels@.len() == w * h * 4,
        1 <= w <= 65535,
        1 <= h <= 65535,
        1 <= quality <= 100,
        1 <= speed <= 10,
        threads >= 1,
    ensures
        r matches Some(b) ==> is_avif_container(b@),
        avif_stream(pixels@, w, h, quality, speed, threads) == match r {
            Some(b) => Some(b@),
            None => None::<Seq<u8>>,
        },
{
    let px: &[rgb::RGBA8] = rgb::FromSlice::as_rgba(pixels);
    let encoder = ravif::Encoder::new().with_quality(quality.into()).with_speed(speed).with_num_threads(
        Some(threads),
    );
    encoder.encode_rgba(ravif::Img::new(px, w, h)).ok().map(|e| e.avif_file)
}

} // verus!
