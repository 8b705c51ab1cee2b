//! Copying rectangles of pixels: one image into another, and a part of an
//! image out of it.

use crate::raster::{Image, Raster};
use vstd::arithmetic::div_mod::{lemma_div_pos_is_pos, lemma_fundamental_div_mod, lemma_mod_bound};
use vstd::prelude::*;

verus! {

impl Image {
    /// A tile put with its top-left corner at `(x, y)` lies inside the image.
    pub open spec fn fits(self, tile: Image, x: int, y: int) -> bool {
        x + tile.width <= self.width && y + tile.height <= self.height
    }

    /// A tile put with its top-left corner at `(x, y)` covers pixel
    /// `(px, py)`.
    pub open spec fn covered_by(tile: Image, x: int, y: int, px: int, py: int) -> bool {
        x <= px < x + tile.width && y <= py < y + tile.height
    }

    /// In every channel of every pixel, `self` is `base` with `tile` copied
    /// over it at `(x, y)`.
    pub open spec fn is_overlay(self, base: Image, tile: Image, x: int, y: int) -> bool {
        &&& self.wf()
        &&& self.width == base.width
        &&& self.height == base.height
        &&& forall|px: int, py: int, c: int|
            base.contains(px, py) && 0 <= c < 4 ==> #[trigger] self.channel(px, py, c) == (
            if Image::covered_by(tile, x, y, px, py) {
                tile.channel(px - x, py - y, c)
            } else {
                base.channel(px, py, c)
            })
    }

    /// The `w` by `h` rectangle of the image whose top-left corner is
    /// `(x, y)`, as an image of its own: its pixel `(px, py)` is the pixel
    /// `(x + px, y + py)` of `self`.
    pub open spec fn cropped(self, x: int, y: int, w: nat, h: nat) -> Image {
        Image {
            width: w,
            height: h,
            data: Seq::new(
                w * h * 4,
                |i: int| self.channel(x + (i / 4) % (w as int), y + (i / 4) / (w as int), i % 4),
            ),
        }
    }
}

/// Byte `i` of the data of an image `w` pixels wide and `h` pixels high is
/// channel `i % 4` of the pixel in column `(i / 4) % w` of row `(i / 4) / w`.
pub proof fn lemma_byte_position(w: nat, h: nat, i: int)
    requires
        0 <= i < w * h * 4,
    ensures
        0 <= (i / 4) % (w as int) < w,
        0 <= (i / 4) / (w as int) < h,
        (((i / 4) / (w as int)) * w + (i / 4) % (w as int)) * 4 + i % 4 == i,
{
    let wi = w as int;
    let hi = h as int;
    let p = i / 4;
    assert(wi * hi * 4 == (wi * hi) * 4) by (nonlinear_arith);
    assert(0 <= p < wi * hi);
    assert(wi > 0) by (nonlinear_arith)
        requires
            0 <= p < wi * hi,
            wi >= 0,
            hi >= 0,
    ;
    lemma_fundamental_div_mod(p, wi);
    lemma_mod_bound(p, wi);
    lemma_div_pos_is_pos(p, wi);
    let q = p / wi;
    assert(q < hi) by (nonlinear_arith)
        requires
            p == wi * q + p % wi,
            0 <= p % wi,
            p < wi * hi,
            wi > 0,
            q >= 0,
    ;
    assert(wi * q == q * wi) by (nonlinear_arith);
}

/// The pixels of a tile at `(x, y)` that the copy has reached when it is at
/// column `i` of tile row `j`: the rows above `j`, and row `j` left of `i`.
pub open spec fn reached(tile: Image, x: int, y: int, j: int, i: int, px: int, py: int) -> bool {
    Image::covered_by(tile, x, y, px, py) && (py - y < j || (py - y == j && px - x < i))
}

impl Raster {
    /// Copies `other` into this image, its top-left corner going to `(x, y)`.
    /// Where `other` would reach beyond the right or the bottom edge nothing
    /// is copied and the result is `false`.
    pub fn copy_from(&mut self, other: &Raster, x: u32, y: u32) -> (ok: bool)
        requires
            old(self).wf(),
            other.wf(),
        ensures
            final(self).wf(),
            ok == old(self)@.fits(other@, x as int, y as int),
            ok ==> final(self)@.is_overlay(old(self)@, other@, x as int, y as int),
            !ok ==> final(self)@ == old(self)@,
    {
        let tile_w: u32 = other.width();
        let tile_h: u32 = other.height();
        if tile_w > self.width() || x > self.width() - tile_w || tile_h > self.height() || y
            > self.height() - tile_h {
            return false;
        }
        let ghost before = self@;
        let mut j: u32 = 0;
        while j < tile_h
            invariant
                self.wf(),
                other.wf(),
                before.wf(),
                tile_w == other@.width,
                tile_h == other@.height,
                self@.width == before.width,
                self@.height == before.height,
                before.fits(other@, x as int, y as int),
                j <= tile_h,
                forall|px: int, py: int, c: int|
                    before.contains(px, py) && 0 <= c < 4 ==> #[trigger] self@.channel(px, py, c)
                        == (if reached(other@, x as int, y as int, j as int, 0, px, py) {
                        other@.channel(px - x, py - y, c)
                    } else {
                        before.channel(px, py, c)
                    }),
            decreases tile_h - j,
        {
            let mut i: u32 = 0;
            while i < tile_w
                invariant
                    self.wf(),
                    other.wf(),
                    before.wf(),
                    tile_w == other@.width,
                    tile_h == other@.height,
                    self@.width == before.width,
                    self@.height == before.height,
                    before.fits(other@, x as int, y as int),
                    j < tile_h,
                    i <= tile_w,
                    forall|px: int, py: int, c: int|
                        before.contains(px, py) && 0 <= c < 4 ==> #[trigger] self@.channel(
                            px,
                            py,
                            c,
                        ) == (if reached(other@, x as int, y as int, j as int, i as int, px, py) {
                            other@.channel(px - x, py - y, c)
                        } else {
                            before.channel(px, py, c)
                        }),
                decreases tile_w - i,
            {
                proof {
                    self.lemma_dimensions_fit();
                }
                let p: [u8; 4] = other.get_pixel(i, j);
                self.put_pixel(x + i, y + j, p);
                i = i + 1;
            }
            j = j + 1;
        }
        true
    }

    /// A copy of the `w` by `h` rectangle whose top-left corner is `(x, y)`.
    pub fn crop(&self, x: u32, y: u32, w: u32, h: u32) -> (part: Raster)
        requires
            self.wf(),
            self@.contains_rect(x as int, y as int, w as int, h as int),
        ensures
            part.wf(),
            part@ == self@.cropped(x as int, y as int, w as nat, h as nat),
    {
        proof {
            self.lemma_dimensions_fit();
            assert((w as int) * (h as int) * 4 <= self@.width * self@.height * 4)
                by (nonlinear_arith)
                requires
                    0 <= w <= self@.width,
                    0 <= h <= self@.height,
            ;
        }
        let mut part: Raster = Raster::new(w, h).unwrap();
        let mut j: u32 = 0;
        while j < h
            invariant
                self.wf(),
                part.wf(),
                self@.contains_rect(x as int, y as int, w as int, h as int),
                part@.width == w,
                part@.height == h,
                j <= h,
                forall|px: int, py: int, c: int|
                    0 <= px < w && 0 <= py < j && 0 <= c < 4 ==> #[trigger] part@.channel(
                        px,
                        py,
                        c,
                    ) == self@.channel(x + px, y + py, c),
            decreases h - j,
        {
            let mut i: u32 = 0;
            while i < w
                invariant
                    self.wf(),
                    part.wf(),
                    self@.contains_rect(x as int, y as int, w as int, h as int),
                    part@.width == w,
                    part@.height == h,
                    j < h,
                    i <= w,
                    forall|px: int, py: int, c: int|
                        0 <= px < w && 0 <= c < 4 && (0 <= py < j || (py == j && px < i))
                            ==> #[trigger] part@.channel(px, py, c) == self@.channel(
                            x + px,
                            y + py,
                            c,
                        ),
                decreases w - i,
            {
                proof {
                    self.lemma_dimensions_fit();
                }
                let p: [u8; 4] = self.get_pixel(x + i, y + j);
                part.put_pixel(i, j, p);
                i = i + 1;
            }
            j = j + 1;
        }
        proof {
            let expected = self@.cropped(x as int, y as int, w as nat, h as nat);
            assert forall|i: int| 0 <= i < expected.data.len() implies part@.data[i]
                == expected.data[i] by {
                lemma_byte_position(w as nat, h as nat, i);
                let px = (i / 4) % (w as int);
                let py = (i / 4) / (w as int);
                assert(part@.channel(px, py, i % 4) == self@.channel(x + px, y + py, i % 4));
            }
            assert(part@.data =~= expected.data);
        }
        part
    }
}

} // verus!
