//! Decode, resize, encode: one request, all or nothing.
use crate::codec::{
    avif_stream, convolution_resized, decode_rgb, decode_rgba, decoded_alpha, decoded_rgb,
    decoded_rgba, detect_alpha, encode_avif, encode_jpeg, encode_png, encode_webp,
    is_avif_container, is_webp_container, jpeg_start, jpeg_stream, png_signature, png_stream,
    readable, resize_convolution, resize_triangle_rgb, resize_triangle_rgba, triangle_resized_rgb,
    triangle_resized_rgba,
};
use crate::raster::{
    add_alpha, channels, drop_alpha, scaled_size, target_height, with_alpha, without_alpha,
    DecodedImage, PixelLayout, ProcessError,
};
use crate::ops::{
    all_digits, avif_word, digits_value, format_key, lemma_first_index_at, lemma_lookup_prepend,
    lemma_no_comma_last, no_comma, png_word, quality_key, webp_word, width_key, PLUS,
    first_index, last_index, operations_of, parse_operations, Operations, OutputFormat, COMMA,
    DEFAULT_QUALITY, EQUALS,
};
use vstd::prelude::*;
use vstd::string::StringSliceAdditionalSpecFns;

verus! {

/// The fastest of the AVIF encoder's speed presets.
pub const AVIF_SPEED: u8 = 10;

/// The AVIF encoder runs on one thread, so that its output is the same on
/// every machine.
pub const AVIF_THREADS: usize = 1;

/// Which resampler scales the pixels.
#[derive(Clone, Copy, Debug, PartialEq, Eq, Structural)]
pub enum ResizeStrategy {
    /// A convolution resampler that keeps the pixel layout and spreads
    /// rows over threads.
    Convolution,
    /// A plain triangle-filter resize.
    Triangle,
}

/// An encoded image and what describes it.
pub struct EncodedOutput {
    pub bytes: Vec<u8>,
    pub content_type: &'static str,
    pub format: OutputFormat,
    pub width: u32,
    pub height: u32,
}

pub open spec fn content_type_of(format: OutputFormat) -> Seq<char> {
    match format {
        OutputFormat::Png => "image/png"@,
        OutputFormat::Jpeg => "image/jpeg"@,
        OutputFormat::WebP => "image/webp"@,
        OutputFormat::Avif => "image/avif"@,
    }
}

/// The leading bytes that mark a stream of the format.
pub open spec fn has_format_tag(format: OutputFormat, b: Seq<u8>) -> bool {
    match format {
        OutputFormat::Png => png_signature().is_prefix_of(b),
        OutputFormat::Jpeg => jpeg_start().is_prefix_of(b),
        OutputFormat::WebP => is_webp_container(b),
        OutputFormat::Avif => is_avif_container(b),
    }
}

/// The MIME type of the format.
pub fn content_type(format: OutputFormat) -> (r: &'static str)
    ensures
        r@ == content_type_of(format),
{
    proof {
        reveal_strlit("image/png");
        reveal_strlit("image/jpeg");
        reveal_strlit("image/webp");
        reveal_strlit("image/avif");
    }
    match format {
        OutputFormat::Png => "image/png",
        OutputFormat::Jpeg => "image/jpeg",
        OutputFormat::WebP => "image/webp",
        OutputFormat::Avif => "image/avif",
    }
}

/// The bytes of `format=jpeg,quality=75`.
pub open spec fn explicit_defaults() -> Seq<u8> {
    format_key() + seq![EQUALS, 106u8, 112, 101, 103, COMMA] + quality_key() + seq![EQUALS, 55u8, 53]
}

/// The decoded image of readable bytes: width, height, layout, pixels.
pub open spec fn decoded(bytes: Seq<u8>) -> (u32, u32, PixelLayout, Seq<u8>) {
    if decoded_alpha(bytes) {
        (decoded_rgba(bytes).0, decoded_rgba(bytes).1, PixelLayout::Rgba8, decoded_rgba(bytes).2)
    } else {
        (decoded_rgb(bytes).0, decoded_rgb(bytes).1, PixelLayout::Rgb8, decoded_rgb(bytes).2)
    }
}

pub open spec fn rgb_of(layout: PixelLayout, p: Seq<u8>) -> Seq<u8> {
    match layout {
        PixelLayout::Rgb8 => p,
        PixelLayout::Rgba8 => without_alpha(p),
    }
}

pub open spec fn rgba_of(layout: PixelLayout, p: Seq<u8>) -> Seq<u8> {
    match layout {
        PixelLayout::Rgb8 => with_alpha(p),
        PixelLayout::Rgba8 => p,
    }
}

/// Sizes the JPEG encoder accepts.
pub open spec fn jpeg_fits(w: nat, h: nat) -> bool {
    1 <= w <= 65535 && 1 <= h <= 65535
}

/// Sizes the WebP encoder accepts.
pub open spec fn webp_fits(w: nat, h: nat) -> bool {
    1 <= w <= 16383 && 1 <= h <= 16383
}

/// Sizes handed to the AVIF encoder.
pub open spec fn avif_fits(w: nat, h: nat) -> bool {
    1 <= w <= 65535 && 1 <= h <= 65535 && w * h * 4 <= usize::MAX
}

/// Sizes that one of the encoders is known to accept.
pub open spec fn encoder_accepts(format: OutputFormat, w: nat, h: nat) -> bool {
    (format == OutputFormat::Jpeg && jpeg_fits(w, h)) || (format == OutputFormat::Png && 1 <= w
        && 1 <= h)
}

pub open spec fn avif_quality(quality: u8) -> u8 {
    if quality == 0 {
        1
    } else {
        quality
    }
}

/// The bytes that encoding the pixels in the format gives, if any, for the
/// formats whose encoder writes one fixed stream (all but WebP).
pub open spec fn encoded_stream(
    w: u32,
    h: u32,
    layout: PixelLayout,
    p: Seq<u8>,
    format: OutputFormat,
    quality: u8,
) -> Option<Seq<u8>> {
    match format {
        OutputFormat::Png => png_stream(p, w, h, layout == PixelLayout::Rgba8),
        OutputFormat::Jpeg => jpeg_stream(rgb_of(layout, p), w, h, quality),
        OutputFormat::WebP => None,
        OutputFormat::Avif => if avif_fits(w as nat, h as nat) {
            avif_stream(
                rgba_of(layout, p),
                w as usize,
                h as usize,
                avif_quality(quality),
                AVIF_SPEED,
                AVIF_THREADS,
            )
        } else {
            None
        },
    }
}

/// Whether `out` is what encoding the pixels in the format may give: the
/// encoder's one stream, or, for WebP, any RIFF container tagged `WEBP`.
pub open spec fn encoding_outcome(
    w: u32,
    h: u32,
    layout: PixelLayout,
    p: Seq<u8>,
    format: OutputFormat,
    quality: u8,
    out: Result<Seq<u8>, ProcessError>,
) -> bool {
    if format == OutputFormat::WebP {
        if webp_fits(w as nat, h as nat) {
            match out {
                Ok(b) => is_webp_container(b),
                Err(e) => e == ProcessError::Encode,
            }
        } else {
            out == Err::<Seq<u8>, ProcessError>(ProcessError::Encode)
        }
    } else {
        out == encoded_result(encoded_stream(w, h, layout, p, format, quality))
    }
}

/// The bytes of an encoded output, or the error.
pub open spec fn bytes_of(r: Result<EncodedOutput, ProcessError>) -> Result<Seq<u8>, ProcessError> {
    match r {
        Ok(out) => Ok(out.bytes@),
        Err(e) => Err(e),
    }
}

/// Whether a `tw x th` buffer of the layout can be held in memory.
pub open spec fn size_fits(tw: u32, th: u32, layout: PixelLayout) -> bool {
    tw * th * channels(layout) <= usize::MAX
}

/// The pixels that the resampler makes at `tw x th`.
pub open spec fn resized_pixels(
    p: Seq<u8>,
    w: u32,
    h: u32,
    layout: PixelLayout,
    tw: u32,
    th: u32,
    strategy: ResizeStrategy,
) -> Seq<u8> {
    match strategy {
        ResizeStrategy::Convolution => convolution_resized(
            p,
            w,
            h,
            layout == PixelLayout::Rgba8,
            tw,
            th,
        ),
        ResizeStrategy::Triangle => match layout {
            PixelLayout::Rgb8 => triangle_resized_rgb(p, w, h, tw, th),
            PixelLayout::Rgba8 => triangle_resized_rgba(p, w, h, tw, th),
        },
    }
}

/// Whether scaling a `w0 x h0` image to the width succeeds.
pub open spec fn resize_ok(w0: u32, h0: u32, layout: PixelLayout, w: u32) -> bool {
    w0 != 0 && w != 0 && target_height(w0 as nat, h0 as nat, w as nat) <= u32::MAX && size_fits(
        w,
        target_height(w0 as nat, h0 as nat, w as nat) as u32,
        layout,
    )
}

/// The size after the optional resize.
pub open spec fn final_size(w0: u32, h0: u32, width: Option<u32>) -> (nat, nat) {
    match width {
        None => (w0 as nat, h0 as nat),
        Some(w) => (w as nat, target_height(w0 as nat, h0 as nat, w as nat)),
    }
}

pub open spec fn encoded_result(s: Option<Seq<u8>>) -> Result<Seq<u8>, ProcessError> {
    match s {
        Some(b) => Ok(b),
        None => Err(ProcessError::Encode),
    }
}

/// Whether `out` is what transforming the pixels as the operations ask may give.
pub open spec fn transform_outcome(
    w0: u32,
    h0: u32,
    layout: PixelLayout,
    p: Seq<u8>,
    ops: Operations,
    strategy: ResizeStrategy,
    out: Result<Seq<u8>, ProcessError>,
) -> bool {
    match ops.width {
        None => encoding_outcome(w0, h0, layout, p, ops.format, ops.quality, out),
        Some(w) => if resize_ok(w0, h0, layout, w) {
            let th = target_height(w0 as nat, h0 as nat, w as nat) as u32;
            encoding_outcome(
                w,
                th,
                layout,
                resized_pixels(p, w0, h0, layout, w, th, strategy),
                ops.format,
                ops.quality,
                out,
            )
        } else {
            out == Err::<Seq<u8>, ProcessError>(ProcessError::Resize)
        },
    }
}

/// Whether `out` is what processing the image bytes with the operation
/// string may give.
pub open spec fn process_outcome(
    bytes: Seq<u8>,
    operations: Seq<u8>,
    strategy: ResizeStrategy,
    out: Result<Seq<u8>, ProcessError>,
) -> bool {
    if !readable(bytes) {
        out == Err::<Seq<u8>, ProcessError>(ProcessError::Decode)
    } else {
        let d = decoded(bytes);
        transform_outcome(d.0, d.1, d.2, d.3, operations_of(operations), strategy, out)
    }
}

/// Decodes image bytes, whatever their format, into RGBA pixels when the
/// image has an alpha channel and RGB pixels otherwise.
pub fn decode(bytes: &[u8]) -> (r: Result<DecodedImage, ProcessError>)
    ensures
        r is Ok <==> readable(bytes@),
        r matches Ok(img) ==> img.wf() && (img.width, img.height, img.layout, img.pixels@)
            == decoded(bytes@),
        r matches Err(e) ==> e == ProcessError::Decode,
{
    match detect_alpha(bytes) {
        None => Err(ProcessError::Decode),
        Some(alpha) => if alpha {
            match decode_rgba(bytes) {
                Some((width, height, pixels)) => Ok(
                    DecodedImage { width, height, layout: PixelLayout::Rgba8, pixels },
                ),
                None => Err(ProcessError::Decode),
            }
        } else {
            match decode_rgb(bytes) {
                Some((width, height, pixels)) => Ok(
                    DecodedImage { width, height, layout: PixelLayout::Rgb8, pixels },
                ),
                None => Err(ProcessError::Decode),
            }
        },
    }
}

/// Resamples the image to `tw x th`, keeping its layout.
pub fn resize_image(img: DecodedImage, tw: u32, th: u32, strategy: ResizeStrategy) -> (r: Result<
    DecodedImage,
    ProcessError,
>)
    requires
        img.wf(),
    ensures
        size_fits(tw, th, img.layout) ==> (r matches Ok(out) && out.wf() && out.width == tw
            && out.height == th && out.layout == img.layout && out.pixels@ == resized_pixels(
            img.pixels@,
            img.width,
            img.height,
            img.layout,
            tw,
            th,
            strategy,
        )),
        !size_fits(tw, th, img.layout) ==> r == Err::<DecodedImage, ProcessError>(
            ProcessError::Resize,
        ),
{
    let layout = img.layout;
    let ch: u128 = if layout == PixelLayout::Rgb8 { 3 } else { 4 };
    assert(tw as nat * th as nat <= 0xffff_ffff_ffff_ffff) by (nonlinear_arith)
        requires
            tw <= 0xffff_ffff,
            th <= 0xffff_ffff,
    ;
    let size: u128 = tw as u128 * th as u128 * ch;
    if size > usize::MAX as u128 {
        return Err(ProcessError::Resize);
    }
    let resized = match strategy {
        ResizeStrategy::Convolution => resize_convolution(
            img.pixels,
            img.width,
            img.height,
            layout,
            tw,
            th,
        ),
        ResizeStrategy::Triangle => match layout {
            PixelLayout::Rgb8 => resize_triangle_rgb(img.pixels, img.width, img.height, tw, th),
            PixelLayout::Rgba8 => resize_triangle_rgba(img.pixels, img.width, img.height, tw, th),
        },
    };
    match resized {
        Some(pixels) => Ok(DecodedImage { width: tw, height: th, layout, pixels }),
        None => Err(ProcessError::Resize),
    }
}

/// Scales the image to the requested width, keeping the aspect ratio, or
/// leaves it as it is when no width is requested.
pub fn apply_resize(img: DecodedImage, width: Option<u32>, strategy: ResizeStrategy) -> (r: Result<
    DecodedImage,
    ProcessError,
>)
    requires
        img.wf(),
    ensures
        r matches Ok(out) ==> out.wf() && out.layout == img.layout && (out.width as nat,
        out.height as nat) == final_size(img.width, img.height, width),
        r matches Err(e) ==> e == ProcessError::Resize,
        width is None ==> (r matches Ok(out) && out.width == img.width && out.height == img.height
            && out.pixels@ == img.pixels@),
        width matches Some(w) ==> (r is Ok <==> resize_ok(img.width, img.height, img.layout, w)),
        width matches Some(w) ==> (r matches Ok(out) ==> out.width == w && out.height
            == target_height(img.width as nat, img.height as nat, w as nat) && out.pixels@
            == resized_pixels(
            img.pixels@,
            img.width,
            img.height,
            img.layout,
            out.width,
            out.height,
            strategy,
        )),
{
    match width {
        None => Ok(img),
        Some(w) => match scaled_size(img.width, img.height, w) {
            Ok((tw, th)) => resize_image(img, tw, th, strategy),
            Err(e) => Err(e),
        },
    }
}

/// Encodes the image in the format at the quality; PNG ignores the quality.
pub fn encode(img: &DecodedImage, format: OutputFormat, quality: u8) -> (r: Result<
    EncodedOutput,
    ProcessError,
>)
    requires
        img.wf(),
        quality <= 100,
    ensures
        r matches Ok(out) ==> out.format == format && out.content_type@ == content_type_of(format)
            && out.width == img.width && out.height == img.height && has_format_tag(
            format,
            out.bytes@,
        ),
        encoding_outcome(
            img.width,
            img.height,
            img.layout,
            img.pixels@,
            format,
            quality,
            bytes_of(r),
        ),
        encoder_accepts(format, img.width as nat, img.height as nat) ==> r is Ok,
{
    let w = img.width;
    let h = img.height;
    let len = img.pixels.len();
    let ch = if img.layout == PixelLayout::Rgb8 { 3usize } else { 4usize };
    let n: usize = len / ch;
    assert(n == w * h) by (nonlinear_arith)
        requires
            len == w * h * ch,
            n == len / ch,
            ch == 3 || ch == 4,
    ;
    let encoded = match format {
        OutputFormat::Png => encode_png(img.pixels.as_slice(), w, h, img.layout),
        OutputFormat::Jpeg => if img.layout == PixelLayout::Rgb8 {
            encode_jpeg(img.pixels.as_slice(), w, h, quality)
        } else {
            let rgb = drop_alpha(img.pixels.as_slice(), n);
            encode_jpeg(rgb.as_slice(), w, h, quality)
        },
        OutputFormat::WebP => if 1 <= w && w <= 16383 && 1 <= h && h <= 16383 {
            assert(n <= 16383 * 16383) by (nonlinear_arith)
                requires
                    n == w * h,
                    w <= 16383,
                    h <= 16383,
            ;
            let rgba = if img.layout == PixelLayout::Rgba8 {
                img.pixels.clone()
            } else {
                add_alpha(img.pixels.as_slice(), n)
            };
            encode_webp(rgba.as_slice(), w, h, quality)
        } else {
            None
        },
        OutputFormat::Avif => if 1 <= w && w <= 65535 && 1 <= h && h <= 65535 && n <= usize::MAX
            / 4 {
            let rgba = if img.layout == PixelLayout::Rgba8 {
                img.pixels.clone()
            } else {
                add_alpha(img.pixels.as_slice(), n)
            };
            let q = if quality == 0 { 1 } else { quality };
            encode_avif(rgba.as_slice(), w as usize, h as usize, q, AVIF_SPEED, AVIF_THREADS)
        } else {
            None
        },
    };
    match encoded {
        Some(bytes) => Ok(EncodedOutput {
            bytes,
            content_type: content_type(format),
            format,
            width: w,
            height: h,
        }),
        None => Err(ProcessError::Encode),
    }
}

/// Resizes and encodes a decoded image as the operations ask.
pub fn transform(img: DecodedImage, ops: Operations, strategy: ResizeStrategy) -> (r: Result<
    EncodedOutput,
    ProcessError,
>)
    requires
        img.wf(),
        ops.quality <= 100,
    ensures
        r matches Ok(out) ==> out.format == ops.format && out.content_type@ == content_type_of(
            ops.format,
        ) && has_format_tag(ops.format, out.bytes@) && (out.width as nat, out.height as nat)
            == final_size(img.width, img.height, ops.width),
        transform_outcome(
            img.width,
            img.height,
            img.layout,
            img.pixels@,
            ops,
            strategy,
            bytes_of(r),
        ),
        (ops.width matches Some(w) ==> resize_ok(img.width, img.height, img.layout, w))
            && encoder_accepts(
            ops.format,
            final_size(img.width, img.height, ops.width).0,
            final_size(img.width, img.height, ops.width).1,
        ) ==> r is Ok,
{
    let resized = apply_resize(img, ops.width, strategy);
    match resized {
        Ok(out) => encode(&out, ops.format, ops.quality),
        Err(e) => Err(e),
    }
}

/// Transforms image bytes as the operation string asks: the format is
/// detected from the bytes, the image is scaled to the requested width with
/// its aspect ratio kept, and it is re-encoded in the requested format.
/// Nothing is returned unless every step succeeds.
pub fn process_image(image_data: &[u8], operations: &str, strategy: ResizeStrategy) -> (r: Result<
    EncodedOutput,
    ProcessError,
>)
    ensures
        process_outcome(image_data@, operations.spec_bytes(), strategy, bytes_of(r)),
        r == Err::<EncodedOutput, ProcessError>(ProcessError::Decode) <==> !readable(image_data@),
        r matches Ok(out) ==> out.format == operations_of(operations.spec_bytes()).format
            && out.content_type@ == content_type_of(out.format) && has_format_tag(
            out.format,
            out.bytes@,
        ) && (out.width as nat, out.height as nat) == final_size(
            decoded(image_data@).0,
            decoded(image_data@).1,
            operations_of(operations.spec_bytes()).width,
        ),
        readable(image_data@) && (operations_of(operations.spec_bytes()).width matches Some(w)
            ==> resize_ok(decoded(image_data@).0, decoded(image_data@).1, decoded(image_data@).2, w))
            && encoder_accepts(
            operations_of(operations.spec_bytes()).format,
            final_size(
                decoded(image_data@).0,
                decoded(image_data@).1,
                operations_of(operations.spec_bytes()).width,
            ).0,
            final_size(
                decoded(image_data@).0,
                decoded(image_data@).1,
                operations_of(operations.spec_bytes()).width,
            ).1,
        ) ==> r is Ok,
{
    let ops = parse_operations(operations);
    let img = match decode(image_data) {
        Ok(img) => img,
        Err(e) => return Err(e),
    };
    transform(img, ops, strategy)
}

/// PNG is lossless: two operation strings that ask for PNG at the same width
/// admit the same results whatever qualities they name.
pub proof fn png_output_ignores_quality(
    bytes: Seq<u8>,
    s1: Seq<u8>,
    s2: Seq<u8>,
    strategy: ResizeStrategy,
    out: Result<Seq<u8>, ProcessError>,
)
    requires
        operations_of(s1).format == OutputFormat::Png,
        operations_of(s2).format == OutputFormat::Png,
        operations_of(s1).width == operations_of(s2).width,
    ensures
        process_outcome(bytes, s1, strategy, out) == process_outcome(bytes, s2, strategy, out),
{
}

/// An empty operation string asks for the defaults: no resize, JPEG, quality
/// 75; so it admits what any string that parses to those defaults admits.
pub proof fn empty_operations_are_defaults(
    bytes: Seq<u8>,
    s: Seq<u8>,
    strategy: ResizeStrategy,
    out: Result<Seq<u8>, ProcessError>,
)
    requires
        operations_of(s) == (Operations {
            width: None,
            quality: DEFAULT_QUALITY,
            format: OutputFormat::Jpeg,
        }),
    ensures
        operations_of(Seq::empty()) == operations_of(s),
        process_outcome(bytes, Seq::empty(), strategy, out) == process_outcome(
            bytes,
            s,
            strategy,
            out,
        ),
{
    assert(first_index(Seq::<u8>::empty(), EQUALS) == -1);
    assert(last_index(Seq::<u8>::empty(), COMMA) == -1);
}

/// `format=jpeg,quality=75` spells out the defaults, so it admits what an
/// empty operation string admits.
pub proof fn explicit_defaults_match_empty(
    bytes: Seq<u8>,
    strategy: ResizeStrategy,
    out: Result<Seq<u8>, ProcessError>,
)
    ensures
        process_outcome(bytes, explicit_defaults(), strategy, out) == process_outcome(
            bytes,
            Seq::empty(),
            strategy,
            out,
        ),
{
    let f = format_key() + seq![EQUALS, 106u8, 112, 101, 103];
    let q = quality_key() + seq![EQUALS, 55u8, 53];
    assert(explicit_defaults() =~= f + seq![COMMA] + q);
    assert(no_comma(f));
    assert(no_comma(q));
    lemma_first_index_at(f, EQUALS, 6);
    lemma_first_index_at(q, EQUALS, 7);
    lemma_no_comma_last(q);
    assert(f.subrange(0, 6) =~= format_key());
    assert(q.subrange(0, 7) =~= quality_key());
    assert(f.subrange(0, 6) != width_key());
    assert(f.subrange(0, 6) != quality_key());
    assert(q.subrange(0, 7) != width_key());
    assert(q.subrange(0, 7) != format_key());
    let jpeg = f.subrange(7, 11);
    assert(jpeg =~= seq![106u8, 112, 101, 103]);
    assert(jpeg != png_word());
    assert(jpeg != webp_word());
    assert(jpeg != avif_word());
    let digits = q.subrange(8, 10);
    assert(digits =~= seq![55u8, 53]);
    assert(digits[0] != PLUS);
    assert(all_digits(digits));
    assert(digits.drop_last() =~= seq![55u8]);
    assert(digits.drop_last().drop_last() =~= Seq::<u8>::empty());
    assert(seq![55u8].drop_last() =~= Seq::<u8>::empty());
    assert(digits_value(Seq::<u8>::empty()) == 0);
    assert(seq![55u8].last() == 55);
    assert(digits_value(seq![55u8]) == 7);
    assert(digits_value(digits) == 75);
    lemma_lookup_prepend(f, q, width_key());
    lemma_lookup_prepend(f, q, quality_key());
    lemma_lookup_prepend(f, q, format_key());
    empty_operations_are_defaults(bytes, explicit_defaults(), strategy, out);
}

} // verus!
