//! Fetches the tiles of a full-disk satellite image of Earth, stitches them
//! into one picture, and cuts wallpapers from it for the displays at hand.
//!
//! The library holds the rules of the pipeline: which image to ask for, what
//! to make of a tile, where a tile goes on the canvas, how wide the border
//! is, what part of the picture a display gets, and which old images go. It
//! reads no file and opens no connection; the caller does, and hands over
//! what it read.

pub mod border;
pub mod codec;
pub mod cropper;
pub mod displays;
pub mod mosaic;
pub mod paths;
pub mod raster;
pub mod retention;
pub mod rounding;
pub mod setter;
pub mod text;
pub mod tiles;
pub mod time;

pub use paths::add_suffix_to_filename;
