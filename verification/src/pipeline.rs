//! The pipeline: build the tile library, bound the source image, compose
//! the mosaic, and report the outcome.

use vstd::prelude::*;

verus! {

use crate::color::Color;
use crate::color::avg_of;
use crate::compose::compose;
use crate::compose::mosaic_pixel;
use crate::decode::decode_rgb;
use crate::decode::decoded_image;
use crate::decode::shrink_rgb;
use crate::decode::shrunken_image;
use crate::img::Img;
use crate::img::MAX_DIM;
use crate::tiles::TileLibrary;
use crate::tiles::built_tiles;
use crate::tiles::views_of;
use vstd::arithmetic::div_mod::lemma_div_is_ordered;
use vstd::arithmetic::div_mod::lemma_fundamental_div_mod;
use vstd::arithmetic::mul::lemma_mul_inequality;

/// Failures the mosaic pipeline reports.
#[derive(Clone, Copy, Debug, PartialEq, Eq, Structural)]
pub enum MosaicError {
    /// The tile directory could not be enumerated.
    DirectoryUnreadable,
    /// No tile image could be decoded.
    EmptyLibrary,
    /// The source image could not be decoded into a usable raster.
    SourceImageUndecodable,
    /// The finished canvas could not be encoded or written.
    OutputWriteFailure,
}

/// The longest edge the working copy of the source image may keep: a
/// larger source is downscaled to fit within this square bound before the
/// grid is formed; a smaller one is used as it is.
pub const MAX_EDGE: u32 = 500;

/// The working copy of the source: the decoded raster, downscaled to fit
/// within `MAX_EDGE` where it exceeds that bound in either dimension.
/// `None` where the bytes do not decode, or decode to a raster with a
/// zero dimension, which no grid cell can be cut from.
pub open spec fn bounded_source(bytes: Seq<u8>) -> Option<(u32, u32, Seq<(u8, u8, u8)>)> {
    match decoded_image(bytes) {
        None => None,
        Some(d) => if d.0 == 0 || d.1 == 0 {
            None
        } else if d.0 > MAX_EDGE || d.1 > MAX_EDGE {
            Some(shrunken_image(d.0, d.1, d.2, MAX_EDGE))
        } else {
            Some(d)
        },
    }
}

/// The average colors of built tile buffers, in order.
pub open spec fn built_avgs(built: Seq<Seq<(u8, u8, u8)>>, tw: u32, th: u32) -> Seq<Color> {
    built.map_values(|px: Seq<(u8, u8, u8)>| avg_of(px, tw as int, 0, 0, tw as int, th as int))
}

/// Everything the pipeline promises of its outcome: the canvas is the
/// mosaic of the bounded source over the built tile library, and each
/// error comes exactly when its condition holds — `EmptyLibrary` when no
/// tile decodes to the requested size, `SourceImageUndecodable` when the
/// library is usable but the source yields no working raster.
pub open spec fn run_post(
    files: Seq<Seq<u8>>,
    src: Seq<u8>,
    stride: u32,
    tw: u32,
    th: u32,
    r: Result<Img, MosaicError>,
) -> bool {
    let built = built_tiles(files, tw, th);
    match r {
        Ok(canvas) => {
            &&& built.len() >= 1
            &&& match bounded_source(src) {
                Some(s) => {
                    &&& canvas.wf()
                    &&& canvas.width == (s.0 as int / stride as int) * tw
                    &&& canvas.height == (s.1 as int / stride as int) * th
                    &&& forall|x: int, y: int|
                        0 <= x < canvas.width && 0 <= y < canvas.height
                            ==> #[trigger] canvas.spec_pixel(x, y) == mosaic_pixel(
                            s.2,
                            s.0 as int,
                            built,
                            built_avgs(built, tw, th),
                            stride as int,
                            tw as int,
                            th as int,
                            x,
                            y,
                        )
                },
                None => false,
            }
        },
        Err(e) => {
            ||| (e == MosaicError::EmptyLibrary && built.len() == 0)
            ||| (e == MosaicError::SourceImageUndecodable && built.len() >= 1 && bounded_source(
                src,
            ) is None)
        },
    }
}

/// Runs the whole pipeline on plain values: builds the tile library from
/// the candidate files' bytes, decodes and bounds the source image, and
/// composes the mosaic canvas.
pub fn run(
    tile_files: &Vec<Vec<u8>>,
    source_bytes: &Vec<u8>,
    stride: u32,
    tile_width: u32,
    tile_height: u32,
) -> (r: Result<Img, MosaicError>)
    requires
        1 <= stride,
        1 <= tile_width <= MAX_DIM,
        1 <= tile_height <= MAX_DIM,
        (MAX_EDGE as int / stride as int) * tile_width <= MAX_DIM,
        (MAX_EDGE as int / stride as int) * tile_height <= MAX_DIM,
    ensures
        run_post(views_of(tile_files@), source_bytes@, stride, tile_width, tile_height, r),
{
    let ghost built = built_tiles(views_of(tile_files@), tile_width, tile_height);
    let lib = match TileLibrary::build_from_bytes(tile_files, tile_width, tile_height) {
        Ok(lib) => lib,
        Err(e) => {
            return Err(e);
        },
    };
    let source = match decode_rgb(source_bytes) {
        Some(img) => img,
        None => {
            return Err(MosaicError::SourceImageUndecodable);
        },
    };
    if source.width == 0 || source.height == 0 {
        return Err(MosaicError::SourceImageUndecodable);
    }
    let bounded: Img = if source.width > MAX_EDGE || source.height > MAX_EDGE {
        shrink_rgb(&source, MAX_EDGE)
    } else {
        source
    };
    proof {
        lemma_div_is_ordered(
            bounded.width as int,
            MAX_EDGE as int,
            stride as int,
        );
        lemma_div_is_ordered(
            bounded.height as int,
            MAX_EDGE as int,
            stride as int,
        );
        lemma_mul_inequality(
            bounded.width as int / stride as int,
            MAX_EDGE as int / stride as int,
            tile_width as int,
        );
        lemma_mul_inequality(
            bounded.height as int / stride as int,
            MAX_EDGE as int / stride as int,
            tile_height as int,
        );
    }
    let canvas = compose(&bounded, &lib, stride);
    proof {
        assert(lib.imgs() =~= built);
        assert(lib.avgs() =~= built_avgs(built, tile_width, tile_height));
    }
    Ok(canvas)
}

/// The pipeline is deterministic: two outcomes that both satisfy the
/// pipeline's contract on the same inputs agree — the same error, or
/// canvases of the same dimensions with the same pixels. Running the
/// pipeline twice on identical inputs therefore yields identical output.
pub proof fn lemma_run_deterministic(
    files: Seq<Seq<u8>>,
    src: Seq<u8>,
    stride: u32,
    tw: u32,
    th: u32,
    r1: Result<Img, MosaicError>,
    r2: Result<Img, MosaicError>,
)
    requires
        run_post(files, src, stride, tw, th, r1),
        run_post(files, src, stride, tw, th, r2),
    ensures
        match (r1, r2) {
            (Ok(c1), Ok(c2)) => c1.width == c2.width && c1.height == c2.height && c1.pixels@
                == c2.pixels@,
            (Err(e1), Err(e2)) => e1 == e2,
            _ => false,
        },
{
    match (r1, r2) {
        (Ok(c1), Ok(c2)) => {
            let w = c1.width as int;
            let h = c1.height as int;
            assert(c1.pixels@.len() == c2.pixels@.len());
            assert forall|k: int| 0 <= k < c1.pixels@.len() implies c1.pixels@[k]
                == c2.pixels@[k] by {
                assert(w >= 1 && h >= 1 && 0 <= k % w < w && 0 <= k / w < h) by (nonlinear_arith)
                    requires
                        0 <= k < w * h,
                        0 <= w,
                        0 <= h,
                ;
                lemma_fundamental_div_mod(k, w);
                assert(c1.spec_pixel(k % w, k / w) == c2.spec_pixel(k % w, k / w));
            }
            assert(c1.pixels@ =~= c2.pixels@);
        },
        (Err(_), Err(_)) => {
        },
        _ => {
            assert(false);
        },
    }
}

} // verus!
