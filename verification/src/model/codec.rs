//! Bridge between the core and the `image` codec library.
//!
//! This is the only module that calls the codec library. Filters and
//! pipeline stages only handle [`PixelBuffer`]; each codec call goes through
//! one trusted wrapper below, and what the library computes is named by an
//! uninterpreted spec function.

use image::codecs::bmp::BmpEncoder;
use image::codecs::jpeg::JpegEncoder;
use image::codecs::png::{CompressionType, FilterType as PngFilterType, PngEncoder};
use image::codecs::tiff::TiffEncoder;
use image::codecs::webp::WebPEncoder;
use image::imageops::FilterType as ResizeFilter;
use image::{ExtendedColorType, ImageEncoder, ImageError, RgbaImage};
use std::io::Cursor;
use vstd::prelude::*;

use crate::model::error::FiltroError;
use crate::model::pipeline::formatter::{FormatOptions, OutputFormat};
use crate::model::pixel::{pixel_of, Dimensions, PixelBuffer, Rgba8};
use crate::text::str_to_string;

verus! {

/// What decoding a byte stream in the built-in format `image::guess_format`
/// recognises, followed by `into_rgba8`, gives: width, height and the RGBA8
/// bytes; `None` when no format is recognised or decoding fails.
pub uninterp spec fn decoded_rgba8(bytes: Seq<u8>) -> Option<(u32, u32, Seq<u8>)>;

/// The `Debug` name of the format `image::guess_format` recognises in a byte
/// stream; `None` when it recognises none.
pub uninterp spec fn guessed_format_name(bytes: Seq<u8>) -> Option<Seq<char>>;

/// The bytes `PngEncoder` (default compression, adaptive filter) writes for an
/// RGBA8 image; `None` when it reports an error.
pub uninterp spec fn png_encoding(rgba: Seq<u8>, width: u32, height: u32) -> Option<Seq<u8>>;

/// The bytes `JpegEncoder::new_with_quality` writes for an RGB8 image.
pub uninterp spec fn jpeg_encoding(rgb: Seq<u8>, width: u32, height: u32, quality: u8) -> Option<
    Seq<u8>,
>;

/// The bytes `BmpEncoder` writes for an RGB8 image.
pub uninterp spec fn bmp_encoding(rgb: Seq<u8>, width: u32, height: u32) -> Option<Seq<u8>>;

/// The bytes `TiffEncoder` writes for an RGBA8 image.
pub uninterp spec fn tiff_encoding(rgba: Seq<u8>, width: u32, height: u32) -> Option<Seq<u8>>;

/// The bytes the lossless `WebPEncoder` writes for an RGBA8 image.
pub uninterp spec fn webp_encoding(rgba: Seq<u8>, width: u32, height: u32) -> Option<Seq<u8>>;

/// `image::guess_format`, then `image::load_from_memory_with_format` with
/// the built-in format found, then `DynamicImage::into_rgba8`: decodes a byte
/// stream to its width, height and RGBA8 bytes. A built-in format is
/// decoded without the process-wide decoding hooks, so the result depends on
/// the bytes alone. The contract only ties the result to the name
/// `decoded_rgba8`; nothing is claimed of the bytes.
#[verifier::external_body]
fn load_rgba8(bytes: &[u8]) -> (r: Result<(u32, u32, Vec<u8>), ImageError>)
    ensures
        r is Ok <==> decoded_rgba8(bytes@) is Some,
        r matches Ok((w, h, data)) ==> decoded_rgba8(bytes@) == Some((w, h, data@)),
{
    let format = image::guess_format(bytes)?;
    let rgba = image::load_from_memory_with_format(bytes, format)?.into_rgba8();
    let (width, height) = rgba.dimensions();
    Ok((width, height, rgba.into_raw()))
}

/// `image::guess_format`: the `Debug` name of the recognised format.
#[verifier::external_body]
fn guess_format_name(bytes: &[u8]) -> (r: Option<String>)
    ensures
        r is Some <==> guessed_format_name(bytes@) is Some,
        r matches Some(name) ==> guessed_format_name(bytes@) == Some(name@),
{
    match image::guess_format(bytes) {
        Ok(format) => Some(format!("{format:?}")),
        Err(_) => None,
    }
}

/// `image::imageops::resize` with the Lanczos3 filter, on an RGBA8 image
/// rebuilt by `RgbaImage::from_raw`. `from_raw` succeeds since the length is
/// exact; `resize` samples vertically into a `width` x `new_height` image of
/// 32-bit floats, then horizontally into the `new_width` x `new_height`
/// RGBA8 image it returns, so both must be allocatable.
///
/// The bytes are not named: the Lanczos kernel is computed with `f32::sin`,
/// whose precision the standard library leaves to the platform. What is
/// claimed (`keeps_local_colour`) does not rest on the kernel's exact
/// values: each output pixel is a weighted sum of the source pixels in the
/// kernel's window around its scaled-back position, each weight divided by
/// the sum of the window's weights (`sample.rs`, `vertical_sample` then
/// `horizontal_sample`, with `left = floor(c - s)` and `right = ceil(c + s)`
/// around `c = (x + 0.5) * ratio`, `s = 3 * max(ratio, 1)`). When all those
/// pixels have one colour, every pass computes that colour up to rounding
/// errors far below half a unit (a Lanczos3 window's weights sum to about
/// `max(ratio, 1)`, far from zero, and its negative lobes are small), and
/// the final rounding to the nearest integer (`FloatNearest`) gives it back
/// exactly. The claim is made where those errors are bounded:
/// sides of at most 2^20 pixels (positions exact to within a third of a
/// pixel, inside the window `within_reach` widens by three pixels) and a
/// shrinking ratio of at most 64 per axis (at most 387 weights per pass).
#[verifier::external_body]
fn resize_rgba8(rgba: &[u8], width: u32, height: u32, new_width: u32, new_height: u32) -> (r:
    Option<Vec<u8>>)
    requires
        rgba@.len() == width * height * 4,
        width * new_height * 16 <= isize::MAX,
        new_width * new_height * 4 <= isize::MAX,
    ensures
        r is Some,
        r matches Some(v) ==> v@.len() == new_width * new_height * 4,
        r matches Some(v) ==> keeps_local_colour(
            rgba@,
            Dimensions { width, height },
            Dimensions { width: new_width, height: new_height },
            v@,
        ),
{
    let source = RgbaImage::from_raw(width, height, rgba.to_vec())?;
    Some(
        image::imageops::resize(&source, new_width, new_height, ResizeFilter::Lanczos3).into_raw(),
    )
}

/// `PngEncoder::write_image` (default compression, adaptive filter) on RGBA8.
#[verifier::external_body]
fn encode_png(rgba: &[u8], width: u32, height: u32) -> (r: Result<Vec<u8>, ImageError>)
    requires
        rgba@.len() == width * height * 4,
    ensures
        r is Ok <==> png_encoding(rgba@, width, height) is Some,
        r matches Ok(v) ==> png_encoding(rgba@, width, height) == Some(v@),
{
    let mut out: Vec<u8> = Vec::new();
    PngEncoder::new_with_quality(&mut out, CompressionType::Default, PngFilterType::Adaptive)
        .write_image(rgba, width, height, ExtendedColorType::Rgba8)?;
    Ok(out)
}

/// `JpegEncoder::new_with_quality(..).encode` on RGB8.
#[verifier::external_body]
fn encode_jpeg(rgb: &[u8], width: u32, height: u32, quality: u8) -> (r: Result<
    Vec<u8>,
    ImageError,
>)
    requires
        rgb@.len() == width * height * 3,
    ensures
        r is Ok <==> jpeg_encoding(rgb@, width, height, quality) is Some,
        r matches Ok(v) ==> jpeg_encoding(rgb@, width, height, quality) == Some(v@),
{
    let mut out: Vec<u8> = Vec::new();
    JpegEncoder::new_with_quality(&mut out, quality).encode(
        rgb,
        width,
        height,
        ExtendedColorType::Rgb8,
    )?;
    Ok(out)
}

/// `BmpEncoder::encode` on RGB8.
#[verifier::external_body]
fn encode_bmp(rgb: &[u8], width: u32, height: u32) -> (r: Result<Vec<u8>, ImageError>)
    requires
        rgb@.len() == width * height * 3,
    ensures
        r is Ok <==> bmp_encoding(rgb@, width, height) is Some,
        r matches Ok(v) ==> bmp_encoding(rgb@, width, height) == Some(v@),
{
    let mut out: Vec<u8> = Vec::new();
    BmpEncoder::new(&mut Cursor::new(&mut out)).encode(rgb, width, height, ExtendedColorType::Rgb8)?;
    Ok(out)
}

/// `TiffEncoder::write_image` on RGBA8.
#[verifier::external_body]
fn encode_tiff(rgba: &[u8], width: u32, height: u32) -> (r: Result<Vec<u8>, ImageError>)
    requires
        rgba@.len() == width * height * 4,
    ensures
        r is Ok <==> tiff_encoding(rgba@, width, height) is Some,
        r matches Ok(v) ==> tiff_encoding(rgba@, width, height) == Some(v@),
{
    let mut out: Vec<u8> = Vec::new();
    TiffEncoder::new(Cursor::new(&mut out)).write_image(
        rgba,
        width,
        height,
        ExtendedColorType::Rgba8,
    )?;
    Ok(out)
}

/// `WebPEncoder::new_lossless(..).write_image` on RGBA8.
#[verifier::external_body]
fn encode_webp(rgba: &[u8], width: u32, height: u32) -> (r: Result<Vec<u8>, ImageError>)
    requires
        rgba@.len() == width * height * 4,
    ensures
        r is Ok <==> webp_encoding(rgba@, width, height) is Some,
        r matches Ok(v) ==> webp_encoding(rgba@, width, height) == Some(v@),
{
    let mut out: Vec<u8> = Vec::new();
    WebPEncoder::new_lossless(&mut out).write_image(rgba, width, height, ExtendedColorType::Rgba8)?;
    Ok(out)
}

/// What decoding a byte stream gives once checked: the dimensions and the
/// RGBA8 bytes, or `None` when decoding fails or gives an unusable image.
pub open spec fn decode_outcome(bytes: Seq<u8>) -> Option<(Dimensions, Seq<u8>)> {
    match decoded_rgba8(bytes) {
        Some((w, h, data)) => {
            let d = Dimensions { width: w, height: h };
            if w > 0 && h > 0 && PixelBuffer::byte_len(d) == Some(data.len() as usize) {
                Some((d, data))
            } else {
                None
            }
        },
        None => None,
    }
}

/// `e` reports why a decoded image of `w` x `h` pixels holding `data`
/// cannot be used: a zero side, or a byte count that does not match.
pub open spec fn unusable_decoded(e: FiltroError, w: u32, h: u32, data: Seq<u8>) -> bool {
    let d = Dimensions { width: w, height: h };
    e matches FiltroError::InvalidImage(m) && (if w == 0 || h == 0 {
        m@ == "dimensions nulles ("@ + d.text() + ")"@
    } else {
        match PixelBuffer::byte_len(d) {
            None => m@ == "image trop grande : "@ + d.text(),
            Some(expected) => m@ == PixelBuffer::size_mismatch_text(d, data.len(), expected as nat),
        }
    })
}

/// Decodes raw bytes to an RGBA8 buffer, with the name of the detected
/// format (`Debug` name of the codec's format, when one is recognised).
pub fn decode(bytes: &[u8], origin: &str) -> (r: Result<(PixelBuffer, Option<String>), FiltroError>)
    ensures
        r is Ok <==> decode_outcome(bytes@) is Some,
        r matches Ok((b, name)) ==> b.wf() && Some((b.dims(), b.bytes())) == decode_outcome(bytes@)
            && (name is Some <==> guessed_format_name(bytes@) is Some) && (name matches Some(n)
            ==> guessed_format_name(bytes@) == Some(n@)),
        r matches Err(e) ==> match decoded_rgba8(bytes@) {
            None => e matches FiltroError::Decode { origin: o, .. } && o@ == origin@,
            Some((w, h, data)) => unusable_decoded(e, w, h, data),
        },
{
    let format = guess_format_name(bytes);
    let (width, height, data) = match load_rgba8(bytes) {
        Ok(decoded) => decoded,
        Err(source) => {
            return Err(FiltroError::Decode { origin: str_to_string(origin), source });
        },
    };
    let dimensions = Dimensions::new(width, height)?;
    let buffer = PixelBuffer::from_raw(dimensions, data)?;
    Ok((buffer, format))
}

/// Whether source position `i` (of `n`) lies within reach of the Lanczos3
/// window of output position `x` (of `m`): at most `3 * max(n / m, 1) + 3`
/// from the output position scaled back, `(x + 0.5) * n / m`, counting
/// from pixel centres.
pub open spec fn within_reach(i: int, x: int, n: int, m: int) -> bool {
    let big = if n > m {
        n
    } else {
        m
    };
    let d = (2 * i + 1) * m - (2 * x + 1) * n;
    -2 * (3 * big + 3 * m) <= d <= 2 * (3 * big + 3 * m)
}

/// Whether every source pixel within reach of output pixel `(x, y)` has
/// colour `c`.
pub open spec fn reach_is(
    src: Seq<u8>,
    from: Dimensions,
    target: Dimensions,
    x: int,
    y: int,
    c: Rgba8,
) -> bool {
    forall|i: int, j: int|
        0 <= i < from.width && 0 <= j < from.height && within_reach(i, x, from.width as int, target.width as int)
            && within_reach(j, y, from.height as int, target.height as int) ==> #[trigger] pixel_of(
            src,
            j * from.width + i,
        ) == c
}

/// The sizes for which the resampling's rounding errors are bounded: sides
/// of 1 to 2^20 pixels, shrinking by at most 64 per axis.
pub open spec fn kernel_bounded(from: Dimensions, target: Dimensions) -> bool {
    &&& 1 <= from.width <= 0x10_0000
    &&& 1 <= from.height <= 0x10_0000
    &&& target.width <= 0x10_0000
    &&& target.height <= 0x10_0000
    &&& from.width <= 64 * target.width
    &&& from.height <= 64 * target.height
}

/// Resampling is local: an output pixel whose whole neighbourhood in the
/// source has one colour has that colour (for bounded sizes).
pub open spec fn keeps_local_colour(src: Seq<u8>, from: Dimensions, target: Dimensions, out: Seq<u8>) -> bool {
    kernel_bounded(from, target) ==> forall|x: int, y: int, c: Rgba8|
        0 <= x < target.width && 0 <= y < target.height && #[trigger] reach_is(src, from, target, x, y, c)
            ==> pixel_of(out, y * target.width + x) == c
}

/// `out` can be the RGBA8 bytes of an image of `from` resampled to
/// `target` (Lanczos3): the bytes themselves when nothing changes, else
/// bytes of the target's size in which every pixel whose neighbourhood in
/// the source has one colour has that colour.
pub open spec fn resampled(src: Seq<u8>, from: Dimensions, target: Dimensions, out: Seq<u8>) -> bool {
    if from == target {
        out == src
    } else {
        &&& out.len() == target.width * target.height * 4
        &&& keeps_local_colour(src, from, target, out)
    }
}

/// Whether every pixel of an image of `d` held in `bytes` has colour `c`.
pub open spec fn uniform(bytes: Seq<u8>, d: Dimensions, c: Rgba8) -> bool {
    forall|x: int, y: int|
        0 <= x < d.width && 0 <= y < d.height ==> #[trigger] pixel_of(bytes, y * d.width + x) == c
}

/// Resampling an image of one colour gives that colour at every pixel of
/// the result (for bounded sizes).
pub proof fn resampling_keeps_a_uniform_colour(
    src: Seq<u8>,
    from: Dimensions,
    target: Dimensions,
    out: Seq<u8>,
    c: Rgba8,
)
    requires
        resampled(src, from, target, out),
        from == target || kernel_bounded(from, target),
        uniform(src, from, c),
    ensures
        uniform(out, target, c),
{
    assert forall|x: int, y: int|
        0 <= x < target.width && 0 <= y < target.height implies #[trigger] pixel_of(
        out,
        y * target.width + x,
    ) == c by {
        if from != target {
            assert(reach_is(src, from, target, x, y, c));
        }
    }
}

/// Each pixel of a resampled image is decided by the source pixels within
/// reach of its scaled-back position: when they all have colour `c`, so
/// does the pixel (for bounded sizes).
pub proof fn resampled_pixel_follows_its_neighbourhood(
    src: Seq<u8>,
    from: Dimensions,
    target: Dimensions,
    out: Seq<u8>,
    x: int,
    y: int,
    c: Rgba8,
)
    requires
        resampled(src, from, target, out),
        from == target || kernel_bounded(from, target),
        0 <= x < target.width,
        0 <= y < target.height,
        reach_is(src, from, target, x, y, c),
    ensures
        pixel_of(out, y * target.width + x) == c,
{
    if from == target {
        assert(within_reach(x, x, from.width as int, target.width as int));
        assert(within_reach(y, y, from.height as int, target.height as int));
        assert(pixel_of(src, y * from.width + x) == c);
    }
}

/// When every source column from `a` on has colour `c`, every column of
/// the resampled image whose scaled-back position lies more than the
/// kernel's reach to the right of column `a` has colour `c` (for bounded
/// sizes): a uniform right part of the image stays uniform.
pub proof fn resampling_keeps_a_uniform_right_part(
    src: Seq<u8>,
    from: Dimensions,
    target: Dimensions,
    out: Seq<u8>,
    a: int,
    c: Rgba8,
)
    requires
        resampled(src, from, target, out),
        from == target || kernel_bounded(from, target),
        forall|i: int, j: int|
            a <= i < from.width && 0 <= j < from.height ==> #[trigger] pixel_of(
                src,
                j * from.width + i,
            ) == c,
    ensures
        forall|x: int, y: int|
            0 <= x < target.width && 0 <= y < target.height && (2 * x + 1) * from.width >= (2 * a
                + 1) * target.width + 2 * (3 * (if from.width > target.width {
                from.width as int
            } else {
                target.width as int
            }) + 3 * target.width) ==> #[trigger] pixel_of(out, y * target.width + x) == c,
{
    let n = from.width as int;
    let m = target.width as int;
    let big = if n > m {
        n
    } else {
        m
    };
    assert forall|x: int, y: int|
        0 <= x < m && 0 <= y < target.height && (2 * x + 1) * n >= (2 * a + 1) * m + 2 * (3 * big
            + 3 * m) implies #[trigger] pixel_of(out, y * target.width + x) == c by {
        assert forall|i: int, j: int|
            0 <= i < from.width && 0 <= j < from.height && within_reach(i, x, n, m) && within_reach(
                j,
                y,
                from.height as int,
                target.height as int,
            ) implies #[trigger] pixel_of(src, j * from.width + i) == c by {
            assert((2 * i + 1) * m >= (2 * a + 1) * m);
            assert(i >= a) by (nonlinear_arith)
                requires
                    (2 * i + 1) * m >= (2 * a + 1) * m,
                    m > 0,
            ;
        }
        resampled_pixel_follows_its_neighbourhood(src, from, target, out, x, y, c);
    }
}

/// Whether resampling from `from` to `target` stays within what the codec
/// library can allocate: its intermediate image of `from.width` x
/// `target.height` pixels in 32-bit floats, and the result.
pub open spec fn resample_fits(from: Dimensions, target: Dimensions) -> bool {
    from.width * target.height * 16 <= isize::MAX && target.width * target.height * 4
        <= isize::MAX
}

/// Whether `resize` succeeds: nothing to do, or a resampling that fits.
pub open spec fn resizes(from: Dimensions, target: Dimensions) -> bool {
    from == target || resample_fits(from, target)
}

/// Resamples a buffer (Lanczos3).
///
/// This is the pipeline's internal resampling, unrelated to the filters.
pub fn resize(buffer: &PixelBuffer, target: Dimensions) -> (r: Result<PixelBuffer, FiltroError>)
    requires
        buffer.wf(),
    ensures
        r is Ok <==> resizes(buffer.dims(), target),
        r matches Ok(b) ==> b.wf() && b.dims() == target && resampled(
            buffer.bytes(),
            buffer.dims(),
            target,
            b.bytes(),
        ),
        r matches Err(e) ==> e matches FiltroError::InvalidImage(m) && m@ == "image trop grande : "@
            + target.text(),
{
    if buffer.dimensions() == target {
        return Ok(buffer.duplicate());
    }
    let w = buffer.width() as u128;
    let tw = target.width as u128;
    let th = target.height as u128;
    assert(w * th <= 0xFFFF_FFFF * 0xFFFF_FFFF && tw * th <= 0xFFFF_FFFF * 0xFFFF_FFFF) by (nonlinear_arith)
        requires
            w <= 0xFFFF_FFFF,
            tw <= 0xFFFF_FFFF,
            th <= 0xFFFF_FFFF,
    ;
    let fits = w * th * 16 <= (isize::MAX as u128) && tw * th * 4 <= (isize::MAX as u128);
    if !fits {
        return Err(PixelBuffer::too_large(target));
    }
    match resize_rgba8(
        buffer.as_bytes(),
        buffer.width(),
        buffer.height(),
        target.width,
        target.height,
    ) {
        Some(data) => PixelBuffer::from_raw(target, data),
        None => Err(
            FiltroError::InvalidImage(
                str_to_string("tampon incompatible avec les dimensions"),
            ),
        ),
    }
}

/// The RGB bytes of an RGBA buffer: the alpha byte of each pixel dropped.
pub open spec fn rgb_of(rgba: Seq<u8>) -> Seq<u8> {
    Seq::new(rgba.len() / 4 * 3, |i: int| rgba[(i / 3) * 4 + i % 3])
}

/// Drops the alpha channel (formats without alpha).
pub fn to_rgb_bytes(buffer: &PixelBuffer) -> (v: Vec<u8>)
    ensures
        v@ == rgb_of(buffer.bytes()),
{
    let bytes = buffer.as_bytes();
    let len = bytes.len();
    let n = len / 4;
    let mut rgb: Vec<u8> = Vec::new();
    let mut i: usize = 0;
    while i < n
        invariant
            n == bytes@.len() / 4,
            len == bytes@.len(),
            bytes@ == buffer.bytes(),
            i <= n,
            rgb@.len() == 3 * i,
            forall|j: int| 0 <= j < 3 * i ==> #[trigger] rgb@[j] == bytes@[(j / 3) * 4 + j % 3],
        decreases n - i,
    {
        let o = 4 * i;
        rgb.push(bytes[o]);
        rgb.push(bytes[o + 1]);
        rgb.push(bytes[o + 2]);
        assert forall|j: int| 0 <= j < 3 * (i + 1) implies #[trigger] rgb@[j] == bytes@[(j / 3) * 4
            + j % 3] by {
            if j >= 3 * i {
                assert(j / 3 == i);
            }
        }
        i = i + 1;
    }
    assert(rgb@ =~= rgb_of(bytes@));
    rgb
}

/// The bytes of `format`'s encoding of an image, as the codec library
/// writes them; `None` when it reports an error.
pub open spec fn encoding(
    format: OutputFormat,
    rgba: Seq<u8>,
    dims: Dimensions,
    quality: u8,
) -> Option<Seq<u8>> {
    match format {
        OutputFormat::Png => png_encoding(rgba, dims.width, dims.height),
        OutputFormat::Jpeg => jpeg_encoding(rgb_of(rgba), dims.width, dims.height, quality),
        OutputFormat::Bmp => bmp_encoding(rgb_of(rgba), dims.width, dims.height),
        OutputFormat::Tiff => tiff_encoding(rgba, dims.width, dims.height),
        OutputFormat::WebP => webp_encoding(rgba, dims.width, dims.height),
    }
}

/// Encodes a buffer into the bytes of an image file.
pub fn encode(buffer: &PixelBuffer, format: OutputFormat, options: &FormatOptions) -> (r: Result<
    Vec<u8>,
    FiltroError,
>)
    requires
        buffer.wf(),
    ensures
        r is Ok <==> encoding(format, buffer.bytes(), buffer.dims(), options.quality) is Some,
        r matches Ok(v) ==> encoding(format, buffer.bytes(), buffer.dims(), options.quality)
            == Some(v@),
        r matches Err(e) ==> e matches FiltroError::Encode { format: f, .. } && f@
            == format.spec_name(),
{
    let width = buffer.width();
    let height = buffer.height();
    let rgba = buffer.as_bytes();
    let result = match format {
        OutputFormat::Png => encode_png(rgba, width, height),
        OutputFormat::Jpeg => {
            let rgb = to_rgb_bytes(buffer);
            proof { lemma_rgb_len(buffer.bytes(), width, height); }
            encode_jpeg(rgb.as_slice(), width, height, options.quality)
        },
        OutputFormat::Bmp => {
            let rgb = to_rgb_bytes(buffer);
            proof { lemma_rgb_len(buffer.bytes(), width, height); }
            encode_bmp(rgb.as_slice(), width, height)
        },
        OutputFormat::Tiff => encode_tiff(rgba, width, height),
        OutputFormat::WebP => encode_webp(rgba, width, height),
    };
    match result {
        Ok(bytes) => Ok(bytes),
        Err(source) => Err(FiltroError::Encode { format: str_to_string(format.name()), source }),
    }
}

proof fn lemma_rgb_len(rgba: Seq<u8>, width: u32, height: u32)
    requires
        rgba.len() == width * height * 4,
    ensures
        rgb_of(rgba).len() == width * height * 3,
{
    assert(width * height * 4 / 4 == width * height) by (nonlinear_arith);
}

} // verus!
