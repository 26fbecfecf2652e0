//! Configuration of one mosaic run.

use vstd::prelude::*;

verus! {

/// The settings of a run: the source image path, the output path, and
/// the directory of candidate tile images.
pub struct MosaicArgs {
    pub input: String,
    pub output: String,
    pub tiles: String,
}

} // verus!
