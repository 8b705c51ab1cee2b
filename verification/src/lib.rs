//! Photo mosaics: a model image is rebuilt from a grid of thumbnails, each
//! picked because its dominant colour is closest to the colour of the model
//! region it replaces.
//!
//! A gallery is preprocessed once ([`preprocess`]): every picture gets a
//! thumbnail ([`resample`]), a representative colour ([`extract`]) and an
//! aspect ratio in lowest terms ([`ratio`]), and so an entry in the catalogue
//! ([`catalogue`]). A mosaic is then built for a model image ([`mosaic`]): the
//! model is cut into chunks ([`chunks`], [`layout`]), the catalogue entry
//! closest in colour is chosen for every chunk ([`color`], [`matcher`]), and
//! the thumbnails of the chosen entries are copied onto the canvas
//! ([`compose`], [`copy`]).
//!
//! The library works on images held in memory ([`raster`]). Reading and
//! writing files is left to the caller.

use vstd::prelude::*;

pub mod catalogue;
pub mod chunks;
pub mod color;
pub mod compose;
pub mod copy;
pub mod error;
pub mod extract;
pub mod layout;
pub mod matcher;
pub mod mosaic;
pub mod preprocess;
pub mod raster;
pub mod ratio;
pub mod resample;

verus! {

/// The side, in pixels, of the square thumbnail kept for every picture, and
/// the longer side of a tile of the mosaic.
pub const THUMBNAIL_SIZE: u32 = 64;

/// The longer side, in pixels, of a chunk of the model image.
pub const CHUNK_SIZE: u32 = 8;

} // verus!
