//! Trusted wrappers around the image codec: decoding bytes into a plain
//! pixel buffer, decoding-and-fitting a tile, and bounding a large source.
//! Each result is a function of the wrapper's arguments alone, so it is
//! given a name that contracts elsewhere speak of.

use vstd::prelude::*;

verus! {

use crate::img::Img;

/// What decoding a byte stream into an RGB raster returns:
/// width, height, and the row-major pixels.
pub uninterp spec fn decoded_image(bytes: Seq<u8>) -> Option<(u32, u32, Seq<(u8, u8, u8)>)>;

/// What decoding a byte stream and fill-cropping it to the requested
/// size returns.
pub uninterp spec fn fitted_image(bytes: Seq<u8>, width: u32, height: u32) -> Option<
    (u32, u32, Seq<(u8, u8, u8)>),
>;

/// What the aspect-preserving downscale of a raster to fit within a
/// square bound returns.
pub uninterp spec fn shrunken_image(
    width: u32,
    height: u32,
    pixels: Seq<(u8, u8, u8)>,
    max_edge: u32,
) -> (u32, u32, Seq<(u8, u8, u8)>);

/// Relies on image::load_from_memory (decoding is a function of the bytes
/// alone; an error on bytes no decoder accepts, never a panic) and
/// DynamicImage::to_rgb8 (an RGB buffer of exactly width * height pixels,
/// row-major).
#[verifier::external_body]
pub(crate) fn decode_rgb(bytes: &Vec<u8>) -> (r: Option<Img>)
    ensures
        r is Some <==> decoded_image(bytes@) is Some,
        r matches Some(img) ==> Some((img.width, img.height, img.pixels@)) == decoded_image(
            bytes@,
        ) && img.pixels@.len() == img.width * img.height,
{
    let decoded = match image::load_from_memory(bytes) {
        Ok(d) => d,
        Err(_) => return None,
    };
    let buf = decoded.to_rgb8();
    let (width, height) = buf.dimensions();
    let pixels = buf.into_raw().chunks_exact(3).map(|c| (c[0], c[1], c[2])).collect();
    Some(Img { width, height, pixels })
}

/// Relies on image::load_from_memory, DynamicImage::resize_to_fill with
/// the nearest-neighbor filter (scale preserving aspect ratio, then
/// center-crop to the requested size), and to_rgb8 (an RGB buffer of
/// exactly width * height pixels). The result is a function of the bytes
/// and the requested size alone.
#[verifier::external_body]
pub(crate) fn decode_fit(bytes: &Vec<u8>, width: u32, height: u32) -> (r: Option<Img>)
    requires
        1 <= width,
        1 <= height,
    ensures
        r is Some <==> fitted_image(bytes@, width, height) is Some,
        r matches Some(img) ==> Some((img.width, img.height, img.pixels@)) == fitted_image(
            bytes@,
            width,
            height,
        ) && img.pixels@.len() == img.width * img.height,
{
    let decoded = match image::load_from_memory(bytes) {
        Ok(d) => d,
        Err(_) => return None,
    };
    let buf = decoded.resize_to_fill(width, height, image::imageops::FilterType::Nearest).to_rgb8();
    let (w, h) = buf.dimensions();
    let pixels = buf.into_raw().chunks_exact(3).map(|c| (c[0], c[1], c[2])).collect();
    Some(Img { width: w, height: h, pixels })
}

/// Relies on image::RgbImage::from_raw (Some exactly when the buffer holds
/// width * height pixels, which the precondition guarantees) and
/// DynamicImage::thumbnail (an aspect-preserving scale whose output
/// dimensions are at least 1 and never exceed the given bounds — image's
/// resize_dimensions with fill = false — and a function of the pixels and
/// the bounds alone).
#[verifier::external_body]
pub(crate) fn shrink_rgb(img: &Img, max_edge: u32) -> (r: Img)
    requires
        1 <= img.width,
        1 <= img.height,
        img.pixels@.len() == img.width * img.height,
        1 <= max_edge,
    ensures
        (r.width, r.height, r.pixels@) == shrunken_image(
            img.width,
            img.height,
            img.pixels@,
            max_edge,
        ),
        1 <= r.width <= max_edge,
        1 <= r.height <= max_edge,
        r.pixels@.len() == r.width * r.height,
{
    let mut raw = Vec::with_capacity(img.pixels.len() * 3);
    for p in img.pixels.iter() {
        raw.push(p.0);
        raw.push(p.1);
        raw.push(p.2);
    }
    let buf = image::RgbImage::from_raw(img.width, img.height, raw).unwrap();
    let out = image::DynamicImage::ImageRgb8(buf).thumbnail(max_edge, max_edge).into_rgb8();
    let (w, h) = out.dimensions();
    let pixels = out.into_raw().chunks_exact(3).map(|c| (c[0], c[1], c[2])).collect();
    Img { width: w, height: h, pixels }
}

} // verus!
