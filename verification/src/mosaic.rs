//! Building the mosaic of a model image: a picture is chosen for every chunk
//! of the model, and the thumbnails of the chosen pictures are put together.

use crate::catalogue::{pictures_with_ratio, with_ratio, ProcessedPicture, ProcessedPictureMetadata};
use crate::chunks::{chunk_color, chunk_grid, compute_main_color_by_chunk};
use crate::compose::{compose, composition_error, shows_tiles};
use crate::error::MosaicError;
use crate::layout::{canvas_fits, chunk_has_area, layout_for, plan_layout, MosaicLayout};
use crate::matcher::{closest_index, find_closest_index};
use crate::raster::{Image, Raster};
use vstd::prelude::*;

verus! {

/// The catalogue entry chosen for chunk `k` of the model image: the one whose
/// colour is closest to the colour of the chunk.
pub open spec fn tile_choice(
    model: Image,
    pics: Seq<ProcessedPicture>,
    chunk_w: nat,
    chunk_h: nat,
    k: int,
) -> int {
    closest_index(pics, chunk_color(model, chunk_w, chunk_h, k))
}

/// The catalogue entries chosen for the chunks of the model image, in
/// row-major order.
pub open spec fn tile_choices(
    model: Image,
    pics: Seq<ProcessedPicture>,
    chunk_w: nat,
    chunk_h: nat,
) -> Seq<usize> {
    Seq::new(
        chunk_grid(model, chunk_w, chunk_h).count(),
        |k: int| tile_choice(model, pics, chunk_w, chunk_h, k) as usize,
    )
}

/// Chooses a catalogue entry for every chunk of the model image, row by row
/// from the top-left corner: the entry whose colour is closest to the mean
/// colour of the chunk, and of several equally close the first.
pub fn choose_tiles(model: &Raster, pics: &[ProcessedPicture], chunk_w: u32, chunk_h: u32) -> (choices:
    Vec<usize>)
    requires
        model.wf(),
        pics@.len() > 0,
        chunk_w > 0,
        chunk_h > 0,
    ensures
        choices@ == tile_choices(model@, pics@, chunk_w as nat, chunk_h as nat),
        forall|k: int| 0 <= k < choices@.len() ==> 0 <= #[trigger] choices@[k] < pics@.len(),
{
    let colors: Vec<[u8; 3]> = compute_main_color_by_chunk(model, chunk_w, chunk_h);
    let mut choices: Vec<usize> = Vec::new();
    let mut k: usize = 0;
    while k < colors.len()
        invariant
            pics@.len() > 0,
            k <= colors@.len(),
            choices@.len() == k,
            forall|j: int|
                0 <= j < colors@.len() ==> #[trigger] colors@[j] == chunk_color(
                    model@,
                    chunk_w as nat,
                    chunk_h as nat,
                    j,
                ),
            forall|j: int|
                0 <= j < k ==> #[trigger] choices@[j] == tile_choice(
                    model@,
                    pics@,
                    chunk_w as nat,
                    chunk_h as nat,
                    j,
                ),
            forall|j: int| 0 <= j < k ==> 0 <= #[trigger] choices@[j] < pics@.len(),
        decreases colors@.len() - k,
    {
        let choice: usize = find_closest_index(pics, colors[k]);
        choices.push(choice);
        k = k + 1;
    }
    assert(choices@ =~= tile_choices(model@, pics@, chunk_w as nat, chunk_h as nat));
    choices
}

/// Why the mosaic of a model image cannot be built, if it cannot: the first
/// that holds of a ratio too thin for a chunk, a canvas too large, and a tile
/// that does not fit.
pub open spec fn mosaic_error(
    model: Image,
    pics: Seq<ProcessedPicture>,
    thumbs: Seq<Option<Raster>>,
    ratio: (u32, u32),
) -> Option<MosaicError> {
    let width = model.width as u32;
    let height = model.height as u32;
    let layout = layout_for(width, height, ratio);
    if !chunk_has_area(ratio) {
        Some(MosaicError::RatioTooThin { ratio_width: ratio.0, ratio_height: ratio.1 })
    } else if !canvas_fits(width, height, ratio) {
        Some(MosaicError::CanvasTooLarge)
    } else {
        composition_error(
            layout,
            thumbs,
            tile_choices(model, pics, layout.chunk_w as nat, layout.chunk_h as nat),
        )
    }
}

/// `canvas` is the mosaic of the model image: as large as the layout for the
/// model says, and showing for every chunk, in row-major order, the thumbnail
/// of the catalogue entry chosen for it.
pub open spec fn is_mosaic_of(
    canvas: Image,
    model: Image,
    pics: Seq<ProcessedPicture>,
    thumbs: Seq<Option<Raster>>,
    ratio: (u32, u32),
) -> bool {
    let layout = layout_for(model.width as u32, model.height as u32, ratio);
    let choices = tile_choices(model, pics, layout.chunk_w as nat, layout.chunk_h as nat);
    shows_tiles(canvas, layout, thumbs, choices, choices.len())
}

/// Builds the mosaic of a model image from the pictures of its ratio.
///
/// The model is cut into chunks whose longer side is `CHUNK_SIZE`. For every
/// chunk, in row-major order, the entry of `pics` whose colour is closest to
/// the chunk's mean colour is chosen, and its thumbnail (`thumbs` holds them
/// in the order of `pics`, `None` for one that could not be had) is copied
/// onto the canvas at the chunk's place in a grid of tiles whose longer side
/// is `THUMBNAIL_SIZE`.
pub fn create_mosaic(
    model: &Raster,
    pics: &[ProcessedPicture],
    thumbs: &[Option<Raster>],
    ratio: (u32, u32),
) -> (r: Result<Raster, MosaicError>)
    requires
        model.wf(),
        pics@.len() > 0,
        thumbs@.len() == pics@.len(),
        forall|i: int|
            0 <= i < thumbs@.len() ==> (#[trigger] thumbs@[i] matches Some(t) ==> t.wf()),
        ratio.0 > 0 || ratio.1 > 0,
    ensures
        match r {
            Ok(canvas) => {
                &&& canvas.wf()
                &&& mosaic_error(model@, pics@, thumbs@, ratio) is None
                &&& is_mosaic_of(canvas@, model@, pics@, thumbs@, ratio)
            },
            Err(e) => mosaic_error(model@, pics@, thumbs@, ratio) == Some(e),
        },
{
    let layout: MosaicLayout = match plan_layout(model.width(), model.height(), ratio) {
        Ok(layout) => layout,
        Err(e) => {
            return Err(e);
        },
    };
    let choices: Vec<usize> = choose_tiles(model, pics, layout.chunk_w, layout.chunk_h);
    compose(&layout, choices.as_slice(), thumbs)
}

/// Picks from a catalogue the pictures that can stand in a mosaic of a model
/// image of the given ratio: those of exactly that ratio, in catalogue order.
/// Where there is none the mosaic cannot be built, and the error names the
/// ratio.
pub fn select_pictures(metadata: ProcessedPictureMetadata, ratio: (u32, u32)) -> (r: Result<
    Vec<ProcessedPicture>,
    MosaicError,
>)
    ensures
        match r {
            Ok(pics) => pics@.len() > 0 && pics@ == with_ratio(metadata.pictures@, ratio),
            Err(e) => {
                &&& with_ratio(metadata.pictures@, ratio).len() == 0
                &&& e == (MosaicError::NoMatchingPicture {
                    ratio_width: ratio.0,
                    ratio_height: ratio.1,
                })
            },
        },
{
    let pics: Vec<ProcessedPicture> = pictures_with_ratio(metadata.pictures, ratio);
    if pics.len() == 0 {
        Err(MosaicError::NoMatchingPicture { ratio_width: ratio.0, ratio_height: ratio.1 })
    } else {
        Ok(pics)
    }
}

} // verus!
