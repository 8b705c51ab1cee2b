//! Copying the chosen thumbnails onto the canvas, tile by tile.

use crate::chunks::{lemma_cell_index, lemma_cell_position, Grid};
use crate::error::MosaicError;
use crate::layout::MosaicLayout;
use crate::raster::{lemma_offset_in_bounds, Image, Raster};
use vstd::arithmetic::div_mod::{
    lemma_div_pos_is_pos, lemma_fundamental_div_mod, lemma_fundamental_div_mod_converse,
    lemma_mod_bound,
};
use vstd::prelude::*;

verus! {

/// The thumbnail that goes on tile `k`, if it is there.
pub open spec fn tile(thumbs: Seq<Option<Raster>>, choices: Seq<usize>, k: int) -> Option<Raster> {
    thumbs[choices[k] as int]
}

/// The thumbnail for tile `k` is there and, put with its top-left corner on
/// the top-left corner of the tile, lies inside the canvas.
pub open spec fn tile_fits(
    layout: MosaicLayout,
    thumbs: Seq<Option<Raster>>,
    choices: Seq<usize>,
    k: int,
) -> bool {
    match tile(thumbs, choices, k) {
        Some(t) => {
            &&& layout.tiles().cell_x(k) + t@.width <= layout.canvas_width()
            &&& layout.tiles().cell_y(k) + t@.height <= layout.canvas_height()
        },
        None => false,
    }
}

/// What is wrong with tile `k` where it does not fit.
pub open spec fn tile_error(thumbs: Seq<Option<Raster>>, choices: Seq<usize>, k: int) -> MosaicError {
    if tile(thumbs, choices, k) is None {
        MosaicError::MissingThumbnail { index: choices[k] }
    } else {
        MosaicError::TileOutOfCanvas { tile: k as usize }
    }
}

/// The first of the tiles `0..n` that does not fit, if there is one.
pub open spec fn first_misfit(
    layout: MosaicLayout,
    thumbs: Seq<Option<Raster>>,
    choices: Seq<usize>,
    n: nat,
) -> Option<int>
    decreases n,
{
    if n == 0 {
        None
    } else {
        match first_misfit(layout, thumbs, choices, (n - 1) as nat) {
            Some(k) => Some(k),
            None => if tile_fits(layout, thumbs, choices, n - 1) {
                None
            } else {
                Some(n - 1)
            },
        }
    }
}

/// Channel `c` of canvas pixel `(px, py)` once the tiles `0..n` have been
/// copied onto a canvas of zeros, one after the other: the value from the last
/// of them that covers the pixel, and 0 where none does.
pub open spec fn painted(
    layout: MosaicLayout,
    thumbs: Seq<Option<Raster>>,
    choices: Seq<usize>,
    n: nat,
    px: int,
    py: int,
    c: int,
) -> u8
    decreases n,
{
    if n == 0 {
        0
    } else {
        let k = n - 1;
        let x = layout.tiles().cell_x(k);
        let y = layout.tiles().cell_y(k);
        match tile(thumbs, choices, k) {
            Some(t) if Image::covered_by(t@, x, y, px, py) => t@.channel(px - x, py - y, c),
            _ => painted(layout, thumbs, choices, (n - 1) as nat, px, py, c),
        }
    }
}

/// `canvas` is as large as the layout says and shows the tiles `0..n`.
pub open spec fn shows_tiles(
    canvas: Image,
    layout: MosaicLayout,
    thumbs: Seq<Option<Raster>>,
    choices: Seq<usize>,
    n: nat,
) -> bool {
    &&& canvas.wf()
    &&& canvas.width == layout.canvas_width()
    &&& canvas.height == layout.canvas_height()
    &&& forall|px: int, py: int, c: int|
        canvas.contains(px, py) && 0 <= c < 4 ==> #[trigger] canvas.channel(px, py, c) == painted(
            layout,
            thumbs,
            choices,
            n,
            px,
            py,
            c,
        )
}

/// Why the tiles cannot be put together, if they cannot: the canvas is too
/// large for one allocation, or else the first tile that does not fit.
pub open spec fn composition_error(
    layout: MosaicLayout,
    thumbs: Seq<Option<Raster>>,
    choices: Seq<usize>,
) -> Option<MosaicError> {
    if layout.canvas_width() * layout.canvas_height() * 4 > isize::MAX {
        Some(MosaicError::CanvasTooLarge)
    } else {
        match first_misfit(layout, thumbs, choices, choices.len()) {
            Some(k) => Some(tile_error(thumbs, choices, k)),
            None => None,
        }
    }
}

/// A canvas of zeros shows no tile at all.
proof fn lemma_blank_canvas(
    canvas: Image,
    layout: MosaicLayout,
    thumbs: Seq<Option<Raster>>,
    choices: Seq<usize>,
)
    requires
        canvas.wf(),
        canvas.width == layout.canvas_width(),
        canvas.height == layout.canvas_height(),
        forall|i: int| 0 <= i < canvas.data.len() ==> canvas.data[i] == 0,
    ensures
        shows_tiles(canvas, layout, thumbs, choices, 0),
{
    assert forall|px: int, py: int, c: int|
        canvas.contains(px, py) && 0 <= c < 4 implies #[trigger] canvas.channel(px, py, c)
        == painted(layout, thumbs, choices, 0, px, py, c) by {
        lemma_offset_in_bounds(canvas, px, py);
    }
}

/// The cell after cell `(row, col)` in row-major order.
proof fn lemma_next_cell(grid: Grid, row: int, col: int, k: int)
    requires
        0 <= row < grid.rows,
        0 <= col < grid.cols,
        k == grid.index(row, col),
    ensures
        col + 1 < grid.cols ==> grid.index(row, col + 1) == k + 1,
        col + 1 == grid.cols ==> grid.index(row + 1, 0) == k + 1,
        k + 1 < grid.count() && col + 1 == grid.cols ==> row + 1 < grid.rows,
        k + 1 <= grid.count(),
{
    let cols = grid.cols as int;
    let rows = grid.rows as int;
    assert((row + 1) * cols == row * cols + cols) by (nonlinear_arith);
    assert((row + 1) * cols <= cols * rows) by (nonlinear_arith)
        requires
            0 <= row < rows,
            cols >= 0,
    ;
    if col + 1 == cols && row + 1 >= rows {
        assert(k + 1 == cols * rows) by (nonlinear_arith)
            requires
                k == row * cols + col,
                col + 1 == cols,
                row + 1 == rows,
        ;
    }
}

/// Once a tile is the first that does not fit, it stays the first however
/// many more tiles are looked at.
proof fn lemma_first_misfit_stays(
    layout: MosaicLayout,
    thumbs: Seq<Option<Raster>>,
    choices: Seq<usize>,
    m: nat,
    n: nat,
)
    requires
        m <= n,
        first_misfit(layout, thumbs, choices, m) is Some,
    ensures
        first_misfit(layout, thumbs, choices, n) == first_misfit(layout, thumbs, choices, m),
    decreases n,
{
    if m < n {
        lemma_first_misfit_stays(layout, thumbs, choices, m, (n - 1) as nat);
    }
}

/// Copies the chosen thumbnails onto a canvas of zeros, tile by tile in
/// row-major order, each with its top-left corner on the top-left corner of
/// its tile.
///
/// Fails with `CanvasTooLarge` where the canvas is too large to allocate, and
/// else at the first tile whose thumbnail is not there (`MissingThumbnail`) or
/// reaches beyond the canvas (`TileOutOfCanvas`).
pub fn compose(layout: &MosaicLayout, choices: &[usize], thumbs: &[Option<Raster>]) -> (r: Result<
    Raster,
    MosaicError,
>)
    requires
        layout.canvas_width() <= u32::MAX,
        layout.canvas_height() <= u32::MAX,
        choices@.len() == layout.tiles().count(),
        forall|k: int| 0 <= k < choices@.len() ==> 0 <= #[trigger] choices@[k] < thumbs@.len(),
        forall|i: int|
            0 <= i < thumbs@.len() ==> (#[trigger] thumbs@[i] matches Some(t) ==> t.wf()),
    ensures
        match r {
            Ok(canvas) => {
                &&& canvas.wf()
                &&& composition_error(*layout, thumbs@, choices@) is None
                &&& shows_tiles(canvas@, *layout, thumbs@, choices@, choices@.len())
            },
            Err(e) => composition_error(*layout, thumbs@, choices@) == Some(e),
        },
{
    let ghost grid = layout.tiles();
    let width: u32 = layout.cols * layout.tile_w;
    let height: u32 = layout.rows * layout.tile_h;
    let mut canvas: Raster = match Raster::new(width, height) {
        Some(blank) => blank,
        None => {
            return Err(MosaicError::CanvasTooLarge);
        },
    };
    proof {
        lemma_blank_canvas(canvas@, *layout, thumbs@, choices@);
        assert(grid.count() > 0 ==> layout.rows > 0 && layout.cols > 0) by (nonlinear_arith)
            requires
                grid.count() == layout.cols * layout.rows,
        ;
    }
    let mut col: u32 = 0;
    let mut row: u32 = 0;
    let mut k: usize = 0;
    while k < choices.len()
        invariant
            grid == layout.tiles(),
            width == layout.canvas_width(),
            height == layout.canvas_height(),
            width * height * 4 <= isize::MAX,
            canvas.wf(),
            choices@.len() == grid.count(),
            forall|j: int| 0 <= j < choices@.len() ==> 0 <= #[trigger] choices@[j] < thumbs@.len(),
            forall|i: int|
                0 <= i < thumbs@.len() ==> (#[trigger] thumbs@[i] matches Some(t) ==> t.wf()),
            k <= choices@.len(),
            k == grid.index(row as int, col as int),
            k < choices@.len() ==> row < layout.rows && col < layout.cols,
            first_misfit(*layout, thumbs@, choices@, k as nat) is None,
            shows_tiles(canvas@, *layout, thumbs@, choices@, k as nat),
        decreases choices@.len() - k,
    {
        proof {
            lemma_cell_index(grid, row as int, col as int);
            lemma_next_cell(grid, row as int, col as int, k as int);
            assert(col * layout.tile_w <= layout.cols * layout.tile_w) by (nonlinear_arith)
                requires
                    col < layout.cols,
                    layout.tile_w >= 0,
            ;
            assert(row * layout.tile_h <= layout.rows * layout.tile_h) by (nonlinear_arith)
                requires
                    row < layout.rows,
                    layout.tile_h >= 0,
            ;
        }
        let x: u32 = col * layout.tile_w;
        let y: u32 = row * layout.tile_h;
        let index: usize = choices[k];
        let fits: bool = match &thumbs[index] {
            Some(thumb) => canvas.copy_from(thumb, x, y),
            None => false,
        };
        if !fits {
            proof {
                lemma_first_misfit_stays(
                    *layout,
                    thumbs@,
                    choices@,
                    (k + 1) as nat,
                    choices@.len(),
                );
            }
            return Err(
                match &thumbs[index] {
                    Some(_) => MosaicError::TileOutOfCanvas { tile: k },
                    None => MosaicError::MissingThumbnail { index },
                },
            );
        }
        k = k + 1;
        col = col + 1;
        if col == layout.cols {
            col = 0;
            row = row + 1;
        }
    }
    Ok(canvas)
}

/// Every thumbnail that goes on a tile is there and has exactly the size of a
/// tile.
pub open spec fn tiles_are_exact(
    layout: MosaicLayout,
    thumbs: Seq<Option<Raster>>,
    choices: Seq<usize>,
) -> bool {
    &&& layout.tile_w > 0
    &&& layout.tile_h > 0
    &&& choices.len() == layout.tiles().count()
    &&& forall|k: int|
        0 <= k < choices.len() ==> (#[trigger] tile(thumbs, choices, k) matches Some(t) && t@.width
            == layout.tile_w && t@.height == layout.tile_h)
}

/// The number of the tile that canvas pixel `(px, py)` lies in.
pub open spec fn tile_of(layout: MosaicLayout, px: int, py: int) -> int {
    layout.tiles().index(py / (layout.tile_h as int), px / (layout.tile_w as int))
}

/// A number lies in the `a`-th stretch of length `size` exactly when its
/// quotient by `size` is `a`.
proof fn lemma_stretch(p: int, size: int, a: int)
    requires
        size > 0,
        0 <= p,
    ensures
        (a * size <= p < a * size + size) <==> p / size == a,
        p / size == a ==> p - a * size == p % size,
        0 <= p / size,
{
    lemma_fundamental_div_mod(p, size);
    lemma_mod_bound(p, size);
    lemma_div_pos_is_pos(p, size);
    if a * size <= p < a * size + size {
        assert(size * a == a * size) by (nonlinear_arith);
        lemma_fundamental_div_mod_converse(p, size, a, p - a * size);
    }
    if p / size == a {
        assert(size * a == a * size) by (nonlinear_arith);
    }
}

/// A pixel of the canvas lies in a tile of the grid.
proof fn lemma_tile_of(layout: MosaicLayout, px: int, py: int)
    requires
        layout.tile_w > 0,
        layout.tile_h > 0,
        0 <= px < layout.canvas_width(),
        0 <= py < layout.canvas_height(),
    ensures
        0 <= px / (layout.tile_w as int) < layout.cols,
        0 <= py / (layout.tile_h as int) < layout.rows,
        0 <= tile_of(layout, px, py) < layout.tiles().count(),
{
    let tw = layout.tile_w as int;
    let th = layout.tile_h as int;
    lemma_stretch(px, tw, px / tw);
    lemma_stretch(py, th, py / th);
    assert(px / tw < layout.cols) by (nonlinear_arith)
        requires
            (px / tw) * tw <= px,
            px < layout.cols * tw,
            tw > 0,
    ;
    assert(py / th < layout.rows) by (nonlinear_arith)
        requires
            (py / th) * th <= py,
            py < layout.rows * th,
            th > 0,
    ;
    lemma_cell_index(layout.tiles(), py / th, px / tw);
}

/// With exact tiles, tile `k` covers a pixel of the canvas exactly when the
/// pixel lies in tile `k`.
proof fn lemma_exact_tile_covers(
    layout: MosaicLayout,
    thumbs: Seq<Option<Raster>>,
    choices: Seq<usize>,
    k: int,
    px: int,
    py: int,
)
    requires
        tiles_are_exact(layout, thumbs, choices),
        0 <= k < choices.len(),
        0 <= px < layout.canvas_width(),
        0 <= py < layout.canvas_height(),
    ensures
        Image::covered_by(
            tile(thumbs, choices, k).unwrap()@,
            layout.tiles().cell_x(k),
            layout.tiles().cell_y(k),
            px,
            py,
        ) <==> k == tile_of(layout, px, py),
        k == tile_of(layout, px, py) ==> px - layout.tiles().cell_x(k) == px % (
        layout.tile_w as int) && py - layout.tiles().cell_y(k) == py % (layout.tile_h as int),
{
    let grid = layout.tiles();
    let tw = layout.tile_w as int;
    let th = layout.tile_h as int;
    assert(tile(thumbs, choices, k) is Some);
    lemma_cell_position(grid, k);
    lemma_tile_of(layout, px, py);
    lemma_stretch(px, tw, grid.col(k));
    lemma_stretch(py, th, grid.row(k));
    lemma_cell_index(grid, py / th, px / tw);
}

/// With exact tiles, once the tiles `0..n` are on the canvas a pixel shows
/// the thumbnail of its tile if that tile is among them, and 0 if it is not.
proof fn lemma_painted_exact(
    layout: MosaicLayout,
    thumbs: Seq<Option<Raster>>,
    choices: Seq<usize>,
    n: nat,
    px: int,
    py: int,
    c: int,
)
    requires
        tiles_are_exact(layout, thumbs, choices),
        n <= choices.len(),
        0 <= px < layout.canvas_width(),
        0 <= py < layout.canvas_height(),
    ensures
        painted(layout, thumbs, choices, n, px, py, c) == (if tile_of(layout, px, py) < n {
            tile(thumbs, choices, tile_of(layout, px, py)).unwrap()@.channel(
                px % (layout.tile_w as int),
                py % (layout.tile_h as int),
                c,
            )
        } else {
            0
        }),
    decreases n,
{
    if n > 0 {
        lemma_painted_exact(layout, thumbs, choices, (n - 1) as nat, px, py, c);
        lemma_exact_tile_covers(layout, thumbs, choices, n - 1, px, py);
    }
}

/// Where every thumbnail has exactly the size of a tile, the tiles neither
/// overlap nor leave a gap: every tile fits, and every pixel of the mosaic is
/// the pixel at the same place in the thumbnail of the tile it lies in.
pub proof fn lemma_exact_tiles(
    layout: MosaicLayout,
    thumbs: Seq<Option<Raster>>,
    choices: Seq<usize>,
    px: int,
    py: int,
    c: int,
)
    requires
        tiles_are_exact(layout, thumbs, choices),
        0 <= px < layout.canvas_width(),
        0 <= py < layout.canvas_height(),
    ensures
        first_misfit(layout, thumbs, choices, choices.len()) is None,
        0 <= tile_of(layout, px, py) < choices.len(),
        painted(layout, thumbs, choices, choices.len(), px, py, c) == tile(
            thumbs,
            choices,
            tile_of(layout, px, py),
        ).unwrap()@.channel(px % (layout.tile_w as int), py % (layout.tile_h as int), c),
{
    lemma_tile_of(layout, px, py);
    lemma_painted_exact(layout, thumbs, choices, choices.len(), px, py, c);
    lemma_exact_tiles_fit(layout, thumbs, choices, choices.len());
}

/// With exact tiles, every tile fits.
proof fn lemma_exact_tiles_fit(
    layout: MosaicLayout,
    thumbs: Seq<Option<Raster>>,
    choices: Seq<usize>,
    n: nat,
)
    requires
        tiles_are_exact(layout, thumbs, choices),
        n <= choices.len(),
    ensures
        first_misfit(layout, thumbs, choices, n) is None,
    decreases n,
{
    if n > 0 {
        lemma_exact_tiles_fit(layout, thumbs, choices, (n - 1) as nat);
        let k = n - 1;
        let grid = layout.tiles();
        assert(tile(thumbs, choices, k) is Some);
        lemma_cell_position(grid, k);
        assert(grid.col(k) * layout.tile_w + layout.tile_w <= layout.cols * layout.tile_w)
            by (nonlinear_arith)
            requires
                0 <= grid.col(k) < layout.cols,
                layout.tile_w >= 0,
        ;
        assert(grid.row(k) * layout.tile_h + layout.tile_h <= layout.rows * layout.tile_h)
            by (nonlinear_arith)
            requires
                0 <= grid.row(k) < layout.rows,
                layout.tile_h >= 0,
        ;
    }
}

} // verus!
