//! Decoding of JPEG and PNG files into RGBA8 pixel buffers.
use vstd::prelude::*;
use zune_core::bytestream::ZCursor;
use zune_core::colorspace::ColorSpace;
use zune_core::options::DecoderOptions;
use zune_jpeg::errors::DecodeErrors;
use zune_jpeg::JpegDecoder;
use zune_png::PngDecoder;

verus! {

#[verifier::external_type_specification]
#[verifier::external_body]
pub struct ExJpegDecodeErrors(DecodeErrors);

/// Width and height that zune-jpeg reads from the headers of `bytes` when it
/// decodes them to RGBA without error (strict mode off); `None` where it reports
/// an error.
pub uninterp spec fn jpeg_size(bytes: Seq<u8>) -> Option<(u16, u16)>;

/// Width, height and pixel bytes that zune-png decodes from `bytes`, with an
/// alpha channel added and strict mode off; `None` where it reports an error.
pub uninterp spec fn png_rgba(bytes: Seq<u8>) -> Option<(usize, usize, Seq<u8>)>;

/// Runs `zune_jpeg::JpegDecoder` on `bytes`: `decode_headers`, then `info` for the
/// size (always there once the headers were read), then `decode`. Claims that the
/// decoder succeeds exactly where `jpeg_size` says so, with that size; that the
/// headers refuse a zero width or height; and that `decode` returns a buffer of
/// `width * height` pixels of 4 bytes each (RGBA output). The pixel values are left
/// unstated: the decoder picks SIMD or scalar code for the inverse transform,
/// upsampling and colour conversion at run time, and nothing in its source says
/// that the two give the same bytes. The error it returns is opaque.
#[verifier::external_body]
fn decode_jpeg_rgba(bytes: &[u8]) -> (r: Result<(u16, u16, Vec<u8>), DecodeErrors>)
    ensures
        match r {
            Ok(v) => jpeg_size(bytes@) == Some((v.0, v.1)) && 1 <= v.0 && 1 <= v.1
                && v.2@.len() == v.0 * v.1 * 4,
            Err(_) => jpeg_size(bytes@) is None,
        },
{
    let options = DecoderOptions::default().jpeg_set_out_colorspace(ColorSpace::RGBA).set_strict_mode(false);
    let mut decoder = JpegDecoder::new_with_options(ZCursor::new(bytes), options);
    decoder.decode_headers()?;
    let info = decoder.info().unwrap();
    let pixels = decoder.decode()?;
    Ok((info.width, info.height, pixels))
}

/// Runs `zune_png::PngDecoder` on `bytes`: `decode_headers`, `dimensions`, then
/// `decode_raw`. Claims only that the outcome is the decoder's, named `png_rgba`.
#[verifier::external_body]
fn decode_png_rgba(bytes: &[u8]) -> (r: Option<(usize, usize, Vec<u8>)>)
    ensures
        match r {
            Some(v) => png_rgba(bytes@) == Some((v.0, v.1, v.2@)),
            None => png_rgba(bytes@) is None,
        },
{
    let options = DecoderOptions::default().png_set_add_alpha_channel(true).set_strict_mode(false);
    let mut decoder = PngDecoder::new_with_options(ZCursor::new(bytes), options);
    decoder.decode_headers().ok()?;
    let (width, height) = decoder.dimensions()?;
    let pixels = decoder.decode_raw().ok()?;
    Some((width, height, pixels))
}

/// An image decoded to 8-bit RGBA pixels.
pub struct RGBA8Buffer {
    pub width: usize,
    pub height: usize,
    pub data: Vec<u8>,
}

impl Default for RGBA8Buffer {
    fn default() -> (b: RGBA8Buffer)
        ensures
            b.width == 0,
            b.height == 0,
            b.data@.len() == 0,
    {
        RGBA8Buffer { width: 0, height: 0, data: Vec::new() }
    }
}

/// The file formats that `decode` recognises by their first bytes.
#[derive(Clone, Copy, Debug, PartialEq, Eq, Structural)]
pub enum ImageFormat {
    Jpeg,
    Png,
}

/// The JPEG start-of-image marker.
pub open spec fn jpeg_magic() -> Seq<u8> {
    seq![0xFFu8, 0xD8u8]
}

/// The PNG signature.
pub open spec fn png_magic() -> Seq<u8> {
    seq![0x89u8, 0x50u8, 0x4Eu8, 0x47u8, 0x0Du8, 0x0Au8, 0x1Au8, 0x0Au8]
}

/// The format that the first bytes of `bytes` announce: a JPEG marker is looked for first.
pub open spec fn sniff_format(bytes: Seq<u8>) -> Option<ImageFormat> {
    if bytes.len() >= 2 && bytes.subrange(0, 2) == jpeg_magic() {
        Some(ImageFormat::Jpeg)
    } else if bytes.len() >= 8 && bytes.subrange(0, 8) == png_magic() {
        Some(ImageFormat::Png)
    } else {
        None
    }
}

/// Whether the PNG decoder reads `bytes` to exactly 4 bytes per pixel, which is what
/// `decode` accepts of a PNG file (16-bit images give more).
pub open spec fn png_is_rgba8(bytes: Seq<u8>) -> bool {
    match png_rgba(bytes) {
        Some(v) => v.2.len() == v.0 * v.1 * 4,
        None => false,
    }
}

/// The inputs on which `decode` returns instead of panicking.
pub open spec fn decodable(bytes: Seq<u8>) -> bool {
    match sniff_format(bytes) {
        Some(ImageFormat::Jpeg) => true,
        Some(ImageFormat::Png) => png_is_rgba8(bytes),
        None => false,
    }
}

/// Why a JPEG file could not be decoded.
pub enum ImageDecodeError {
    Jpeg(DecodeErrors),
}

/// Whether `r` is what decoding the JPEG file `bytes` gives: the decoder's size with
/// 4 bytes per pixel, or an error exactly where the decoder reports one.
pub open spec fn jpeg_outcome(bytes: Seq<u8>, r: Result<RGBA8Buffer, ImageDecodeError>) -> bool {
    match r {
        Ok(b) => 1 <= b.width < 0x1_0000 && 1 <= b.height < 0x1_0000
            && jpeg_size(bytes) == Some((b.width as u16, b.height as u16))
            && b.data@.len() == b.width * b.height * 4,
        Err(_) => jpeg_size(bytes) is None,
    }
}

/// Whether `b` holds the size and pixels that the PNG decoder gives for `bytes`.
pub open spec fn png_outcome(bytes: Seq<u8>, b: RGBA8Buffer) -> bool {
    png_rgba(bytes) == Some((b.width, b.height, b.data@))
}

/// Tells a file's format by its first bytes.
pub fn image_format(bytes: &[u8]) -> (r: Option<ImageFormat>)
    ensures
        r == sniff_format(bytes@),
{
    if bytes.len() >= 2 && bytes[0] == 0xFF && bytes[1] == 0xD8 {
        assert(bytes@.subrange(0, 2) =~= jpeg_magic());
        return Some(ImageFormat::Jpeg);
    }
    assert(bytes@.len() >= 2 ==> bytes@.subrange(0, 2)[0] == bytes@[0] && bytes@.subrange(0, 2)[1] == bytes@[1]);
    if bytes.len() >= 8 && bytes[0] == 0x89 && bytes[1] == 0x50 && bytes[2] == 0x4E && bytes[3] == 0x47
        && bytes[4] == 0x0D && bytes[5] == 0x0A && bytes[6] == 0x1A && bytes[7] == 0x0A {
        assert(bytes@.subrange(0, 8) =~= png_magic());
        return Some(ImageFormat::Png);
    }
    proof {
        if bytes@.len() >= 8 {
            let p = bytes@.subrange(0, 8);
            assert(p[0] == bytes@[0] && p[1] == bytes@[1] && p[2] == bytes@[2] && p[3] == bytes@[3]);
            assert(p[4] == bytes@[4] && p[5] == bytes@[5] && p[6] == bytes@[6] && p[7] == bytes@[7]);
        }
    }
    None
}

/// The buffer made of what the PNG decoder returned: `None` unless the pixels are
/// exactly 4 bytes each.
pub fn png_buffer(width: usize, height: usize, pixels: Vec<u8>) -> (r: Option<RGBA8Buffer>)
    ensures
        match r {
            Some(b) => pixels@.len() == width * height * 4 && b.width == width && b.height == height
                && b.data@ == pixels@,
            None => pixels@.len() != width * height * 4,
        },
{
    let expected = match width.checked_mul(height) {
        Some(area) => {
            assert(area == width * height);
            area.checked_mul(4)
        },
        None => None,
    };
    assert(expected matches Some(n) ==> n == width * height * 4);
    match expected {
        Some(n) => {
            if pixels.len() == n {
                let b = RGBA8Buffer { width, height, data: pixels };
                assert(b.data@ == pixels@);
                Some(b)
            } else {
                None
            }
        },
        None => {
            assert(width * height * 4 > usize::MAX) by (nonlinear_arith)
                requires
                    width * height > usize::MAX || (width * height) * 4 > usize::MAX,
            ;
            assert(pixels@.len() <= usize::MAX) by {
                assert(pixels@.len() == pixels.len());
            }
            None
        },
    }
}

/// Decodes the PNG file `bytes`, `None` where the decoder fails or gives other than
/// 4 bytes per pixel.
pub fn decode_png(bytes: &[u8]) -> (r: Option<RGBA8Buffer>)
    ensures
        r is Some <==> png_is_rgba8(bytes@),
        r is Some ==> png_outcome(bytes@, r->0),
{
    match decode_png_rgba(bytes) {
        Some((w, h, pixels)) => png_buffer(w, h, pixels),
        None => None,
    }
}

/// Decodes the JPEG file `bytes`, passing on the decoder's error.
pub fn decode_jpeg(bytes: &[u8]) -> (r: Result<RGBA8Buffer, ImageDecodeError>)
    ensures
        jpeg_outcome(bytes@, r),
{
    match decode_jpeg_rgba(bytes) {
        Ok((w, h, pixels)) => Ok(RGBA8Buffer { width: w as usize, height: h as usize, data: pixels }),
        Err(e) => Err(ImageDecodeError::Jpeg(e)),
    }
}

/// Decodes a JPEG or a PNG file, telling them apart by their first bytes.
/// A JPEG file that does not decode gives the decoder's error; a file of neither
/// format, or a PNG file that does not decode to 4 bytes per pixel, is refused
/// by `requires` (see `try_decode` for a function that takes any bytes).
pub fn decode(bytes: &[u8]) -> (r: Result<RGBA8Buffer, ImageDecodeError>)
    requires
        decodable(bytes@),
    ensures
        sniff_format(bytes@) == Some(ImageFormat::Jpeg) ==> jpeg_outcome(bytes@, r),
        sniff_format(bytes@) == Some(ImageFormat::Png) ==> r is Ok && png_outcome(bytes@, r->Ok_0),
{
    match image_format(bytes) {
        Some(ImageFormat::Jpeg) => decode_jpeg(bytes),
        _ => Ok(decode_png(bytes).unwrap()),
    }
}

/// `decode` for any bytes: `None` where `decode` would refuse them (neither format, or
/// a PNG file that does not decode to 4 bytes per pixel).
pub fn try_decode(bytes: &[u8]) -> (r: Option<Result<RGBA8Buffer, ImageDecodeError>>)
    ensures
        r is Some <==> decodable(bytes@),
        sniff_format(bytes@) == Some(ImageFormat::Jpeg) ==> r is Some && jpeg_outcome(bytes@, r->0),
        sniff_format(bytes@) == Some(ImageFormat::Png) && png_is_rgba8(bytes@) ==> r is Some && r->0 is Ok
            && png_outcome(bytes@, r->0->Ok_0),
{
    match image_format(bytes) {
        Some(ImageFormat::Jpeg) => Some(decode_jpeg(bytes)),
        Some(ImageFormat::Png) => match decode_png(bytes) {
            Some(b) => Some(Ok(b)),
            None => None,
        },
        None => None,
    }
}

} // verus!
