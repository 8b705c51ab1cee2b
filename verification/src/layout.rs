//! The geometry of a mosaic: the chunks that the model image is cut into, and
//! the tiles of the canvas that take their places.

use crate::chunks::Grid;
use crate::error::MosaicError;
use crate::ratio::{dimensions_for, ratio_to_dim};
use crate::{CHUNK_SIZE, THUMBNAIL_SIZE};
use vstd::prelude::*;

verus! {

/// The sizes that a mosaic is laid out with.
#[derive(Debug, Clone, Copy, PartialEq, Eq, Structural)]
pub struct MosaicLayout {
    /// The width of a chunk of the model image.
    pub chunk_w: u32,
    /// The height of a chunk of the model image.
    pub chunk_h: u32,
    /// The width of a tile of the canvas.
    pub tile_w: u32,
    /// The height of a tile of the canvas.
    pub tile_h: u32,
    /// The number of chunks, and of tiles, in a row.
    pub cols: u32,
    /// The number of rows of chunks, and of tiles.
    pub rows: u32,
}

impl MosaicLayout {
    /// The grid of the tiles of the canvas.
    pub open spec fn tiles(self) -> Grid {
        Grid {
            cols: self.cols as nat,
            rows: self.rows as nat,
            cell_w: self.tile_w as nat,
            cell_h: self.tile_h as nat,
        }
    }

    /// The width of the canvas: a whole number of tiles.
    pub open spec fn canvas_width(self) -> int {
        self.cols * self.tile_w
    }

    /// The height of the canvas: a whole number of tiles.
    pub open spec fn canvas_height(self) -> int {
        self.rows * self.tile_h
    }

    /// The layout for a model image of the given size and ratio: chunks whose
    /// longer side is `CHUNK_SIZE`, tiles whose longer side is
    /// `THUMBNAIL_SIZE`, and as many columns and rows as whole chunks fit
    /// into the model image.
    pub open spec fn is_layout_for(self, width: u32, height: u32, ratio: (u32, u32)) -> bool {
        let r = (ratio.0 as nat, ratio.1 as nat);
        &&& (self.chunk_w as nat, self.chunk_h as nat) == dimensions_for(r, CHUNK_SIZE as nat)
        &&& (self.tile_w as nat, self.tile_h as nat) == dimensions_for(r, THUMBNAIL_SIZE as nat)
        &&& self.chunk_w > 0
        &&& self.chunk_h > 0
        &&& self.cols == width / self.chunk_w
        &&& self.rows == height / self.chunk_h
        &&& self.canvas_width() <= u32::MAX
        &&& self.canvas_height() <= u32::MAX
    }
}

/// The layout for a model image of the given size and ratio.
pub open spec fn layout_for(width: u32, height: u32, ratio: (u32, u32)) -> MosaicLayout {
    let r = (ratio.0 as nat, ratio.1 as nat);
    let chunk = dimensions_for(r, CHUNK_SIZE as nat);
    let tile = dimensions_for(r, THUMBNAIL_SIZE as nat);
    MosaicLayout {
        chunk_w: chunk.0 as u32,
        chunk_h: chunk.1 as u32,
        tile_w: tile.0 as u32,
        tile_h: tile.1 as u32,
        cols: (width as nat / chunk.0) as u32,
        rows: (height as nat / chunk.1) as u32,
    }
}

/// A chunk of the given ratio has both a width and a height.
pub open spec fn chunk_has_area(ratio: (u32, u32)) -> bool {
    let chunk = dimensions_for((ratio.0 as nat, ratio.1 as nat), CHUNK_SIZE as nat);
    chunk.0 > 0 && chunk.1 > 0
}

/// The canvas for a model image of the given size and ratio is no wider and
/// no higher than a `u32` can say.
pub open spec fn canvas_fits(width: u32, height: u32, ratio: (u32, u32)) -> bool {
    let r = (ratio.0 as nat, ratio.1 as nat);
    let chunk = dimensions_for(r, CHUNK_SIZE as nat);
    let tile = dimensions_for(r, THUMBNAIL_SIZE as nat);
    (width as nat / chunk.0) * tile.0 <= u32::MAX && (height as nat / chunk.1) * tile.1 <= u32::MAX
}

proof fn lemma_product_fits(a: u32, b: u32)
    ensures
        0 <= a * b <= 0xFFFF_FFFF * 0xFFFF_FFFF,
{
    assert(0 <= a * b <= 0xFFFF_FFFF * 0xFFFF_FFFF) by (nonlinear_arith)
        requires
            0 <= a <= 0xFFFF_FFFF,
            0 <= b <= 0xFFFF_FFFF,
    ;
}

/// Lays out the mosaic of a model image of the given size and ratio.
///
/// Fails with `RatioTooThin` where a chunk would have no area, and else with
/// `CanvasTooLarge` where the canvas would not fit `u32` coordinates.
pub fn plan_layout(width: u32, height: u32, ratio: (u32, u32)) -> (r: Result<
    MosaicLayout,
    MosaicError,
>)
    requires
        ratio.0 > 0 || ratio.1 > 0,
    ensures
        r is Ok <==> chunk_has_area(ratio) && canvas_fits(width, height, ratio),
        match r {
            Ok(layout) => layout.is_layout_for(width, height, ratio) && layout == layout_for(
                width,
                height,
                ratio,
            ),
            Err(e) => if !chunk_has_area(ratio) {
                e == (MosaicError::RatioTooThin { ratio_width: ratio.0, ratio_height: ratio.1 })
            } else {
                !canvas_fits(width, height, ratio) && e == MosaicError::CanvasTooLarge
            },
        },
{
    let chunk: (u32, u32) = ratio_to_dim(ratio, CHUNK_SIZE);
    if chunk.0 == 0 || chunk.1 == 0 {
        return Err(MosaicError::RatioTooThin { ratio_width: ratio.0, ratio_height: ratio.1 });
    }
    let tile: (u32, u32) = ratio_to_dim(ratio, THUMBNAIL_SIZE);
    let cols: u32 = width / chunk.0;
    let rows: u32 = height / chunk.1;
    proof {
        lemma_product_fits(cols, tile.0);
        lemma_product_fits(rows, tile.1);
    }
    let canvas_w: u64 = (cols as u64) * (tile.0 as u64);
    let canvas_h: u64 = (rows as u64) * (tile.1 as u64);
    if canvas_w > u32::MAX as u64 || canvas_h > u32::MAX as u64 {
        return Err(MosaicError::CanvasTooLarge);
    }
    Ok(MosaicLayout { chunk_w: chunk.0, chunk_h: chunk.1, tile_w: tile.0, tile_h: tile.1, cols, rows })
}

} // verus!
