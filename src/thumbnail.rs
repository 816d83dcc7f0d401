//! Thumbnail generation: decode, aspect-preserving downscale, PNG encode.
use vstd::prelude::*;
use image::imageops::FilterType;
use image::{DynamicImage, ImageError};

verus! {

#[verifier::external_type_specification]
#[verifier::external_body]
pub struct ExDynamicImage(DynamicImage);

#[verifier::external_type_specification]
#[verifier::external_body]
pub struct ExImageError(ImageError);

/// The resampling filter of a resize, as the image crate offers them.
#[derive(Clone, Copy, Debug, PartialEq, Eq, Structural)]
pub enum ResizeFilter {
    Nearest,
    Triangle,
    CatmullRom,
    Gaussian,
    Lanczos3,
}

pub open spec fn min(a: int, b: int) -> int {
    if a <= b {
        a
    } else {
        b
    }
}

/// The size of a thumbnail of an `ow` x `oh` image within `mw` x `mh`.
/// The longer side (width on a tie) is capped by its bound and by its own
/// length; the other side follows the original aspect ratio, rounded down,
/// and is capped by its bound too.
pub open spec fn fit_within(ow: int, oh: int, mw: int, mh: int) -> (int, int) {
    if ow >= oh {
        let w = min(mw, ow);
        let h = if ow == 0 { 0 } else { min(mh, w * oh / ow) };
        (w, h)
    } else {
        let h = min(mh, oh);
        let w = min(mw, h * ow / oh);
        (w, h)
    }
}

proof fn lemma_scaled_side_bounded(a: int, b: int, c: int)
    requires
        0 <= a <= c,
        0 <= b,
        0 < c,
    ensures
        0 <= a * b / c <= b,
        a * b <= c * b,
{
    assert(a * b <= c * b) by (nonlinear_arith)
        requires
            0 <= a <= c,
            0 <= b,
    ;
    assert(0 <= a * b) by (nonlinear_arith)
        requires
            0 <= a,
            0 <= b,
    ;
    assert(a * b / c <= b) by (nonlinear_arith)
        requires
            a * b <= c * b,
            0 < c,
            0 <= a * b,
    ;
    assert(0 <= a * b / c) by (nonlinear_arith)
        requires
            0 < c,
            0 <= a * b,
    ;
}

proof fn lemma_u32_product_fits(a: u32, b: u32)
    ensures
        (a as int) * (b as int) <= u64::MAX,
{
    assert((a as int) * (b as int) <= 0xffff_ffff * 0xffff_ffff) by (nonlinear_arith)
        requires
            0 <= a <= 0xffff_ffff,
            0 <= b <= 0xffff_ffff,
    ;
}

/// The dimensions of the thumbnail of an image of `original_width` x
/// `original_height` pixels, bounded by `max_width` x `max_height`.
pub fn target_dimensions(original_width: u32, original_height: u32, max_width: u32, max_height: u32) -> (r: (
    u32,
    u32,
))
    ensures
        (r.0 as int, r.1 as int) == fit_within(
            original_width as int,
            original_height as int,
            max_width as int,
            max_height as int,
        ),
        r.0 <= max_width,
        r.1 <= max_height,
{
    if original_width >= original_height {
        let w: u32 = if max_width <= original_width { max_width } else { original_width };
        let h: u32 = if original_width == 0 {
            0
        } else {
            proof {
                lemma_u32_product_fits(w, original_height);
                lemma_scaled_side_bounded(w as int, original_height as int, original_width as int);
            }
            let derived: u64 = (w as u64) * (original_height as u64) / (original_width as u64);
            if (max_height as u64) <= derived { max_height } else { derived as u32 }
        };
        (w, h)
    } else {
        let h: u32 = if max_height <= original_height { max_height } else { original_height };
        proof {
            lemma_u32_product_fits(h, original_width);
            lemma_scaled_side_bounded(h as int, original_width as int, original_height as int);
        }
        let derived: u64 = (h as u64) * (original_width as u64) / (original_height as u64);
        let w: u32 = if (max_width as u64) <= derived { max_width } else { derived as u32 };
        (w, h)
    }
}

/// The width and height of the image that `bytes` encode, or `None` when
/// they do not decode.
pub uninterp spec fn decoded_size(bytes: Seq<u8>) -> Option<(u32, u32)>;

/// Relies on image::load_from_memory, which decodes an image whose format it
/// guesses from the bytes alone, and on GenericImageView::dimensions of the
/// result.
#[verifier::external_body]
pub(crate) fn decode_image(bytes: &[u8]) -> (r: Result<(DynamicImage, u32, u32), ImageError>)
    ensures
        r is Ok <==> decoded_size(bytes@) is Some,
        r matches Ok((_, w, h)) ==> decoded_size(bytes@) == Some((w, h)),
{
    match image::load_from_memory(bytes) {
        Ok(img) => {
            let (w, h) = image::GenericImageView::dimensions(&img);
            Ok((img, w, h))
        },
        Err(e) => Err(e),
    }
}

/// Relies on image::imageops::resize, which makes an image of exactly the
/// size asked for; its 8-bit RGBA pixels are handed back row by row.
#[verifier::external_body]
pub(crate) fn resize_rgba(img: &DynamicImage, width: u32, height: u32, filter: ResizeFilter) -> (r: Vec<u8>)
    ensures
        r@.len() == 4 * (width as int) * (height as int),
{
    let filter = match filter {
        ResizeFilter::Nearest => FilterType::Nearest,
        ResizeFilter::Triangle => FilterType::Triangle,
        ResizeFilter::CatmullRom => FilterType::CatmullRom,
        ResizeFilter::Gaussian => FilterType::Gaussian,
        ResizeFilter::Lanczos3 => FilterType::Lanczos3,
    };
    image::imageops::resize(img, width, height, filter).into_raw()
}

/// Relies on PngEncoder::write_image with 8-bit RGBA pixels: it panics on a
/// buffer of the wrong length, and fails only when a side is zero.
#[verifier::external_body]
pub(crate) fn encode_png(pixels: &Vec<u8>, width: u32, height: u32) -> (r: Result<Vec<u8>, ImageError>)
    requires
        pixels@.len() == 4 * (width as int) * (height as int),
    ensures
        r matches Ok(_) <==> (width > 0 && height > 0),
{
    let mut out = Vec::new();
    let encoder = image::codecs::png::PngEncoder::new(&mut out);
    match image::ImageEncoder::write_image(encoder, pixels, width, height, image::ExtendedColorType::Rgba8) {
        Ok(()) => Ok(out),
        Err(e) => Err(e),
    }
}

/// Why a thumbnail could not be made.
#[derive(Debug, PartialEq, Eq, Structural)]
pub enum ThumbnailError {
    /// The source bytes are not an image that could be decoded.
    Decode,
    /// The downscaled image could not be encoded.
    Encode,
}

/// A source image scaled to fit within a bound, as 8-bit RGBA pixels.
pub struct ResizedImage {
    pub pixels: Vec<u8>,
    pub source_width: u32,
    pub source_height: u32,
    pub width: u32,
    pub height: u32,
}

impl ResizedImage {
    pub open spec fn fits(&self, max_width: u32, max_height: u32) -> bool {
        (self.width as int, self.height as int) == fit_within(
            self.source_width as int,
            self.source_height as int,
            max_width as int,
            max_height as int,
        )
    }
}

/// The bytes decode, and the size that `fit_within` gives for them has no
/// zero side, so that a thumbnail can be encoded.
pub open spec fn makes_thumbnail(source: Seq<u8>, max_width: u32, max_height: u32) -> bool {
    match decoded_size(source) {
        Some((ow, oh)) => {
            let size = fit_within(ow as int, oh as int, max_width as int, max_height as int);
            size.0 > 0 && size.1 > 0
        },
        None => false,
    }
}

/// An encoded thumbnail and the sizes it was made from.
pub struct Thumbnail {
    pub source_width: u32,
    pub source_height: u32,
    pub width: u32,
    pub height: u32,
    pub png: Vec<u8>,
}

impl Thumbnail {
    pub open spec fn fits(&self, max_width: u32, max_height: u32) -> bool {
        (self.width as int, self.height as int) == fit_within(
            self.source_width as int,
            self.source_height as int,
            max_width as int,
            max_height as int,
        )
    }
}

} // verus!
