//! A photomosaic engine: it builds a library of fixed-size tile images
//! indexed by their average color, partitions a source image into a uniform
//! grid, and paints the nearest-colored tile into an output canvas for each
//! grid cell.

pub mod args;
pub mod color;
pub mod compose;
pub mod decode;
pub mod img;
pub mod pipeline;
pub mod tiles;
