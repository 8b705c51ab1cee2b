//! Cutting an image into a grid of equal chunks and taking the representative
//! colour of each.

use crate::extract::region_color;
use crate::raster::{Image, Raster};
use vstd::arithmetic::div_mod::{
    lemma_div_pos_is_pos, lemma_fundamental_div_mod, lemma_fundamental_div_mod_converse,
    lemma_mod_bound,
};
use vstd::prelude::*;

verus! {

/// A grid of equal cells, numbered row by row from the top-left corner.
pub struct Grid {
    pub cols: nat,
    pub rows: nat,
    pub cell_w: nat,
    pub cell_h: nat,
}

impl Grid {
    /// The grid of the cells of the given size that fit entirely into a
    /// `width` by `height` area. What is left over at the right and at the
    /// bottom belongs to no cell.
    pub open spec fn over(width: nat, height: nat, cell_w: nat, cell_h: nat) -> Grid {
        Grid { cols: width / cell_w, rows: height / cell_h, cell_w, cell_h }
    }

    /// The number of cells.
    pub open spec fn count(self) -> nat {
        self.cols * self.rows
    }

    /// The column of cell `k`.
    pub open spec fn col(self, k: int) -> int {
        k % (self.cols as int)
    }

    /// The row of cell `k`.
    pub open spec fn row(self, k: int) -> int {
        k / (self.cols as int)
    }

    /// The left edge of cell `k`.
    pub open spec fn cell_x(self, k: int) -> int {
        self.col(k) * self.cell_w
    }

    /// The top edge of cell `k`.
    pub open spec fn cell_y(self, k: int) -> int {
        self.row(k) * self.cell_h
    }

    /// The number of the cell in row `r` and column `c`.
    pub open spec fn index(self, r: int, c: int) -> int {
        r * self.cols + c
    }
}

/// The chunks of an image: the grid of the chunks of the given size that fit
/// into it.
pub open spec fn chunk_grid(img: Image, chunk_w: nat, chunk_h: nat) -> Grid {
    Grid::over(img.width, img.height, chunk_w, chunk_h)
}

/// The colour of chunk `k` of an image.
pub open spec fn chunk_color(img: Image, chunk_w: nat, chunk_h: nat, k: int) -> [u8; 3] {
    let grid = chunk_grid(img, chunk_w, chunk_h);
    img.region_color(grid.cell_x(k), grid.cell_y(k), chunk_w, chunk_h)
}

/// The cell in row `r` and column `c` has the number `r * cols + c`, and that
/// number leads back to the row and the column.
pub proof fn lemma_cell_index(grid: Grid, r: int, c: int)
    requires
        0 <= r < grid.rows,
        0 <= c < grid.cols,
    ensures
        0 <= grid.index(r, c) < grid.count(),
        grid.row(grid.index(r, c)) == r,
        grid.col(grid.index(r, c)) == c,
{
    let cols = grid.cols as int;
    let rows = grid.rows as int;
    lemma_fundamental_div_mod_converse(r * cols + c, cols, r, c);
    assert(r * cols == cols * r) by (nonlinear_arith);
    assert(0 <= r * cols + c < cols * rows) by (nonlinear_arith)
        requires
            0 <= r < rows,
            0 <= c < cols,
    ;
}

/// Every cell of a grid has a row and a column inside the grid.
pub proof fn lemma_cell_position(grid: Grid, k: int)
    requires
        0 <= k < grid.count(),
    ensures
        0 <= grid.row(k) < grid.rows,
        0 <= grid.col(k) < grid.cols,
        grid.index(grid.row(k), grid.col(k)) == k,
{
    let cols = grid.cols as int;
    let rows = grid.rows as int;
    assert(cols > 0) by (nonlinear_arith)
        requires
            0 <= k < cols * rows,
            cols >= 0,
            rows >= 0,
    ;
    lemma_fundamental_div_mod(k, cols);
    lemma_mod_bound(k, cols);
    lemma_div_pos_is_pos(k, cols);
    let q = k / cols;
    assert(q < rows) by (nonlinear_arith)
        requires
            k == cols * q + k % cols,
            0 <= k % cols,
            k < cols * rows,
            cols > 0,
            q >= 0,
    ;
    assert(cols * q == q * cols) by (nonlinear_arith);
}

/// Every cell of the grid laid over an area lies entirely inside that area.
pub proof fn lemma_cell_inside(width: nat, height: nat, cell_w: nat, cell_h: nat, k: int)
    requires
        cell_w > 0,
        cell_h > 0,
        0 <= k < Grid::over(width, height, cell_w, cell_h).count(),
    ensures
        0 <= Grid::over(width, height, cell_w, cell_h).cell_x(k),
        Grid::over(width, height, cell_w, cell_h).cell_x(k) + cell_w <= width,
        0 <= Grid::over(width, height, cell_w, cell_h).cell_y(k),
        Grid::over(width, height, cell_w, cell_h).cell_y(k) + cell_h <= height,
{
    let grid = Grid::over(width, height, cell_w, cell_h);
    lemma_cell_position(grid, k);
    lemma_span(width, cell_w, grid.col(k));
    lemma_span(height, cell_h, grid.row(k));
}

/// Of the `extent / cell` cells that fit side by side into `extent`, cell `i`
/// ends inside `extent`.
pub proof fn lemma_span(extent: nat, cell: nat, i: int)
    requires
        cell > 0,
        0 <= i < extent / cell,
    ensures
        0 <= i * cell,
        i * cell + cell <= extent,
{
    let n = (extent / cell) as int;
    lemma_fundamental_div_mod(extent as int, cell as int);
    lemma_mod_bound(extent as int, cell as int);
    assert(0 <= i * cell && i * cell + cell <= cell * n) by (nonlinear_arith)
        requires
            0 <= i < n,
            cell > 0,
    ;
}

/// The representative colour of every chunk of an image, row by row from the
/// top-left corner. The chunks are `chunk_w` wide and `chunk_h` high and do
/// not overlap; a strip at the right or at the bottom that is too narrow for a
/// whole chunk is left out.
pub fn compute_main_color_by_chunk(img: &Raster, chunk_w: u32, chunk_h: u32) -> (colors: Vec<
    [u8; 3],
>)
    requires
        img.wf(),
        chunk_w > 0,
        chunk_h > 0,
    ensures
        colors@.len() == chunk_grid(img@, chunk_w as nat, chunk_h as nat).count(),
        forall|k: int|
            0 <= k < colors@.len() ==> #[trigger] colors@[k] == chunk_color(
                img@,
                chunk_w as nat,
                chunk_h as nat,
                k,
            ),
        forall|k: int|
            0 <= k < colors@.len() ==> img@.contains_rect(
                #[trigger] chunk_grid(img@, chunk_w as nat, chunk_h as nat).cell_x(k),
                chunk_grid(img@, chunk_w as nat, chunk_h as nat).cell_y(k),
                chunk_w as int,
                chunk_h as int,
            ),
{
    let ghost grid = chunk_grid(img@, chunk_w as nat, chunk_h as nat);
    let cols: u32 = img.width() / chunk_w;
    let rows: u32 = img.height() / chunk_h;
    let mut colors: Vec<[u8; 3]> = Vec::new();
    let mut r: u32 = 0;
    while r < rows
        invariant
            img.wf(),
            chunk_w > 0,
            chunk_h > 0,
            grid == chunk_grid(img@, chunk_w as nat, chunk_h as nat),
            cols == grid.cols,
            rows == grid.rows,
            r <= rows,
            colors@.len() == grid.index(r as int, 0),
            forall|k: int|
                0 <= k < colors@.len() ==> #[trigger] colors@[k] == chunk_color(
                    img@,
                    chunk_w as nat,
                    chunk_h as nat,
                    k,
                ),
        decreases rows - r,
    {
        let mut c: u32 = 0;
        while c < cols
            invariant
                img.wf(),
                chunk_w > 0,
                chunk_h > 0,
                grid == chunk_grid(img@, chunk_w as nat, chunk_h as nat),
                cols == grid.cols,
                rows == grid.rows,
                r < rows,
                c <= cols,
                colors@.len() == grid.index(r as int, c as int),
                forall|k: int|
                    0 <= k < colors@.len() ==> #[trigger] colors@[k] == chunk_color(
                        img@,
                        chunk_w as nat,
                        chunk_h as nat,
                        k,
                    ),
            decreases cols - c,
        {
            proof {
                img.lemma_dimensions_fit();
                lemma_cell_index(grid, r as int, c as int);
                lemma_span(img@.width, chunk_w as nat, c as int);
                lemma_span(img@.height, chunk_h as nat, r as int);
            }
            let color: [u8; 3] = region_color(img, c * chunk_w, r * chunk_h, chunk_w, chunk_h);
            colors.push(color);
            c = c + 1;
        }
        r = r + 1;
        assert(grid.index(r as int, 0) == grid.index(r - 1, cols as int)) by (nonlinear_arith)
            requires
                grid.index(r as int, 0) == r * grid.cols + 0,
                grid.index(r - 1, cols as int) == (r - 1) * grid.cols + cols,
                cols == grid.cols,
        ;
    }
    proof {
        assert(grid.index(rows as int, 0) == grid.count()) by (nonlinear_arith)
            requires
                grid.index(rows as int, 0) == rows * grid.cols + 0,
                grid.count() == grid.cols * grid.rows,
                rows == grid.rows,
        ;
        assert forall|k: int| 0 <= k < colors@.len() implies img@.contains_rect(
            #[trigger] grid.cell_x(k),
            grid.cell_y(k),
            chunk_w as int,
            chunk_h as int,
        ) by {
            lemma_cell_inside(img@.width, img@.height, chunk_w as nat, chunk_h as nat, k);
        }
    }
    colors
}

} // verus!
