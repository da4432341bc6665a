//! Photomosaic engine: rebuilds a picture out of small tile images, choosing for
//! each grid cell the tile whose average colour is nearest while discouraging reuse.
//!
//! All real-valued quantities (colours, weights, penalties) are fixed-point
//! integers with sixteen fractional bits, so every result is exact and portable.

pub mod average;
pub mod base64;
pub mod codec;
pub mod color;
pub mod compose;
pub mod errors;
pub mod fixed;
pub mod generate;
pub mod grid;
pub mod imaging;
pub mod index;
pub mod library;
pub mod mask;
pub mod mosaic;
pub mod raster;
pub mod select;
pub mod source;
pub mod tile;
