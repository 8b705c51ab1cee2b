//! The representative colour of an image or of a rectangle inside it: the
//! mean of each colour channel over the pixels, rounded down.

use crate::raster::{Image, Raster};
use vstd::prelude::*;

verus! {

/// A row sum is at most 255 for every pixel in it.
pub proof fn lemma_row_sum_bounds(img: Image, c: int, x: int, y: int, n: nat)
    ensures
        0 <= img.row_sum(c, x, y, n) <= 255 * n,
    decreases n,
{
    if n > 0 {
        lemma_row_sum_bounds(img, c, x, y, (n - 1) as nat);
    }
}

/// A region sum is at most 255 for every pixel in the region.
pub proof fn lemma_region_sum_bounds(img: Image, c: int, x: int, y: int, w: nat, h: nat)
    ensures
        0 <= img.region_sum(c, x, y, w, h) <= 255 * (w * h),
    decreases h,
{
    if h > 0 {
        lemma_region_sum_bounds(img, c, x, y, w, (h - 1) as nat);
        lemma_row_sum_bounds(img, c, x, y + h - 1, w);
        assert(w * h == w * (h - 1) + w) by (nonlinear_arith);
    } else {
        assert(w * h == 0) by (nonlinear_arith)
            requires
                h == 0,
        ;
    }
}

/// The mean of a channel over a region that holds a pixel is a byte.
pub proof fn lemma_region_mean_bounds(img: Image, c: int, x: int, y: int, w: nat, h: nat)
    requires
        w > 0,
        h > 0,
    ensures
        0 <= img.region_mean(c, x, y, w, h) <= 255,
{
    lemma_region_sum_bounds(img, c, x, y, w, h);
    let s = img.region_sum(c, x, y, w, h);
    let n = (w * h) as int;
    assert(n > 0) by (nonlinear_arith)
        requires
            n == w * h,
            w > 0,
            h > 0,
    ;
    assert(0 <= s / n <= 255) by (nonlinear_arith)
        requires
            0 <= s <= 255 * n,
            n > 0,
    ;
}

/// Every pixel of the rectangle has the colour `color`.
pub open spec fn is_filled_with(img: Image, x: int, y: int, w: nat, h: nat, color: [u8; 3]) -> bool {
    forall|px: int, py: int, c: int|
        x <= px < x + w && y <= py < y + h && 0 <= c < 3 ==> #[trigger] img.channel(px, py, c)
            == color[c]
}

proof fn lemma_solid_row_sum(img: Image, c: int, x: int, y: int, n: nat, v: int)
    requires
        forall|px: int| x <= px < x + n ==> #[trigger] img.channel(px, y, c) == v,
    ensures
        img.row_sum(c, x, y, n) == v * n,
    decreases n,
{
    if n > 0 {
        lemma_solid_row_sum(img, c, x, y, (n - 1) as nat, v);
        assert(img.channel(x + n - 1, y, c) == v);
        assert(v * (n - 1) + v == v * n) by (nonlinear_arith);
    } else {
        assert(v * 0 == 0) by (nonlinear_arith);
    }
}

proof fn lemma_solid_region_sum(img: Image, c: int, x: int, y: int, w: nat, h: nat, v: int)
    requires
        forall|px: int, py: int|
            x <= px < x + w && y <= py < y + h ==> #[trigger] img.channel(px, py, c) == v,
    ensures
        img.region_sum(c, x, y, w, h) == v * (w * h),
    decreases h,
{
    if h > 0 {
        lemma_solid_region_sum(img, c, x, y, w, (h - 1) as nat, v);
        lemma_solid_row_sum(img, c, x, y + h - 1, w, v);
        assert(v * (w * (h - 1)) + v * w == v * (w * h)) by (nonlinear_arith);
    } else {
        assert(v * (w * 0) == 0) by (nonlinear_arith);
    }
}

/// The mean colour of a rectangle filled with one colour is that colour.
pub proof fn lemma_solid_region_color(img: Image, x: int, y: int, w: nat, h: nat, color: [u8; 3])
    requires
        w > 0,
        h > 0,
        is_filled_with(img, x, y, w, h, color),
    ensures
        img.region_color(x, y, w, h) == color,
{
    broadcast use vstd::array::group_array_axioms;

    let n = (w * h) as int;
    assert(n > 0) by (nonlinear_arith)
        requires
            n == w * h,
            w > 0,
            h > 0,
    ;
    assert forall|c: int| 0 <= c < 3 implies img.region_mean(c, x, y, w, h) == color[c] by {
        let v = color[c] as int;
        assert forall|px: int, py: int| x <= px < x + w && y <= py < y + h implies #[trigger]
            img.channel(px, py, c) == v by {
            assert(img.channel(px, py, c) == color[c]);
        }
        lemma_solid_region_sum(img, c, x, y, w, h, v);
        assert((v * n) / n == v) by (nonlinear_arith)
            requires
                n > 0,
        ;
    }
    let mean = img.region_color(x, y, w, h);
    assert(mean[0] == color[0] && mean[1] == color[1] && mean[2] == color[2]);
    assert(mean =~= color);
}

/// The sums of the red, green and blue channels over `w` pixels of row `y`,
/// from column `x` on.
fn row_sums(img: &Raster, x: u32, y: u32, w: u32) -> (s: [u64; 3])
    requires
        img.wf(),
        img@.contains_rect(x as int, y as int, w as int, 1),
    ensures
        s[0] == img@.row_sum(0, x as int, y as int, w as nat),
        s[1] == img@.row_sum(1, x as int, y as int, w as nat),
        s[2] == img@.row_sum(2, x as int, y as int, w as nat),
{
    let mut r: u64 = 0;
    let mut g: u64 = 0;
    let mut b: u64 = 0;
    let mut i: u32 = 0;
    while i < w
        invariant
            img.wf(),
            img@.contains_rect(x as int, y as int, w as int, 1),
            i <= w,
            r == img@.row_sum(0, x as int, y as int, i as nat),
            g == img@.row_sum(1, x as int, y as int, i as nat),
            b == img@.row_sum(2, x as int, y as int, i as nat),
        decreases w - i,
    {
        proof {
            img.lemma_dimensions_fit();
            lemma_row_sum_bounds(img@, 0, x as int, y as int, i as nat);
            lemma_row_sum_bounds(img@, 1, x as int, y as int, i as nat);
            lemma_row_sum_bounds(img@, 2, x as int, y as int, i as nat);
        }
        let p: [u8; 4] = img.get_pixel(x + i, y);
        r = r + p[0] as u64;
        g = g + p[1] as u64;
        b = b + p[2] as u64;
        i = i + 1;
    }
    [r, g, b]
}

/// The mean colour of the rectangle with top-left corner `(x, y)`, `w` pixels
/// wide and `h` pixels high: for red, green and blue, the sum of the channel
/// over the rectangle divided by the number of its pixels, rounded down.
pub fn region_color(img: &Raster, x: u32, y: u32, w: u32, h: u32) -> (color: [u8; 3])
    requires
        img.wf(),
        img@.contains_rect(x as int, y as int, w as int, h as int),
        w > 0,
        h > 0,
    ensures
        color == img@.region_color(x as int, y as int, w as nat, h as nat),
{
    let mut r: u128 = 0;
    let mut g: u128 = 0;
    let mut b: u128 = 0;
    let mut j: u32 = 0;
    while j < h
        invariant
            img.wf(),
            img@.contains_rect(x as int, y as int, w as int, h as int),
            j <= h,
            r == img@.region_sum(0, x as int, y as int, w as nat, j as nat),
            g == img@.region_sum(1, x as int, y as int, w as nat, j as nat),
            b == img@.region_sum(2, x as int, y as int, w as nat, j as nat),
        decreases h - j,
    {
        proof {
            img.lemma_dimensions_fit();
        }
        let row: [u64; 3] = row_sums(img, x, y + j, w);
        proof {
            let next = (j + 1) as nat;
            lemma_region_sum_bounds(img@, 0, x as int, y as int, w as nat, next);
            lemma_region_sum_bounds(img@, 1, x as int, y as int, w as nat, next);
            lemma_region_sum_bounds(img@, 2, x as int, y as int, w as nat, next);
            assert((w as nat) * next <= 0xFFFF_FFFF * 0xFFFF_FFFF) by (nonlinear_arith)
                requires
                    w <= 0xFFFF_FFFF,
                    next <= 0xFFFF_FFFF,
            ;
        }
        r = r + row[0] as u128;
        g = g + row[1] as u128;
        b = b + row[2] as u128;
        j = j + 1;
    }
    proof {
        lemma_region_mean_bounds(img@, 0, x as int, y as int, w as nat, h as nat);
        lemma_region_mean_bounds(img@, 1, x as int, y as int, w as nat, h as nat);
        lemma_region_mean_bounds(img@, 2, x as int, y as int, w as nat, h as nat);
        assert(0 < (w as nat) * (h as nat) <= 0xFFFF_FFFF * 0xFFFF_FFFF) by (nonlinear_arith)
            requires
                0 < w <= 0xFFFF_FFFF,
                0 < h <= 0xFFFF_FFFF,
        ;
    }
    let count: u128 = (w as u128) * (h as u128);
    [(r / count) as u8, (g / count) as u8, (b / count) as u8]
}

/// The mean colour of a whole image.
pub fn compute_main_color(img: &Raster) -> (color: [u8; 3])
    requires
        img.wf(),
        img@.width > 0,
        img@.height > 0,
    ensures
        color == img@.main_color(),
{
    region_color(img, 0, 0, img.width(), img.height())
}

} // verus!
