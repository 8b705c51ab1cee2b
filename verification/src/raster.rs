//! An RGBA pixel buffer with 8 bits per channel, stored row by row from the
//! top-left corner, four bytes per pixel.

use vstd::prelude::*;

verus! {

/// The mathematical content of a pixel buffer: its size and its bytes.
pub struct Image {
    pub width: nat,
    pub height: nat,
    pub data: Seq<u8>,
}

impl Image {
    /// There are exactly four bytes for every pixel.
    pub open spec fn wf(self) -> bool {
        self.data.len() == self.width * self.height * 4
    }

    /// The pixel `(x, y)` lies inside the image.
    pub open spec fn contains(self, x: int, y: int) -> bool {
        0 <= x < self.width && 0 <= y < self.height
    }

    /// The rectangle with top-left corner `(x, y)` and the given size lies
    /// inside the image.
    pub open spec fn contains_rect(self, x: int, y: int, w: int, h: int) -> bool {
        0 <= x && 0 <= y && 0 <= w && 0 <= h && x + w <= self.width && y + h <= self.height
    }

    /// Where the first byte of pixel `(x, y)` stands in `data`.
    pub open spec fn offset(self, x: int, y: int) -> int {
        (y * self.width + x) * 4
    }

    /// Channel `c` (0 red, 1 green, 2 blue, 3 alpha) of pixel `(x, y)`.
    pub open spec fn channel(self, x: int, y: int, c: int) -> u8 {
        self.data[self.offset(x, y) + c]
    }

    /// The sum of channel `c` over the `n` pixels of row `y` that start at
    /// column `x`.
    pub open spec fn row_sum(self, c: int, x: int, y: int, n: nat) -> int
        decreases n,
    {
        if n == 0 {
            0
        } else {
            self.row_sum(c, x, y, (n - 1) as nat) + self.channel(x + n - 1, y, c)
        }
    }

    /// The sum of channel `c` over the rectangle with top-left corner
    /// `(x, y)`, `w` pixels wide and `h` pixels high.
    pub open spec fn region_sum(self, c: int, x: int, y: int, w: nat, h: nat) -> int
        decreases h,
    {
        if h == 0 {
            0
        } else {
            self.region_sum(c, x, y, w, (h - 1) as nat) + self.row_sum(c, x, y + h - 1, w)
        }
    }

    /// The mean of channel `c` over a rectangle, rounded down.
    pub open spec fn region_mean(self, c: int, x: int, y: int, w: nat, h: nat) -> int {
        self.region_sum(c, x, y, w, h) / ((w * h) as int)
    }

    /// The mean colour of a rectangle: the rounded-down means of its red,
    /// green and blue channels. Alpha plays no part.
    pub open spec fn region_color(self, x: int, y: int, w: nat, h: nat) -> [u8; 3] {
        [
            self.region_mean(0, x, y, w, h) as u8,
            self.region_mean(1, x, y, w, h) as u8,
            self.region_mean(2, x, y, w, h) as u8,
        ]
    }

    /// The mean colour of the whole image.
    pub open spec fn main_color(self) -> [u8; 3] {
        self.region_color(0, 0, self.width, self.height)
    }
}

/// Every byte of a pixel inside a well-formed image lies inside its data.
pub proof fn lemma_offset_in_bounds(img: Image, x: int, y: int)
    requires
        img.wf(),
        img.contains(x, y),
    ensures
        0 <= img.offset(x, y),
        img.offset(x, y) + 4 <= img.data.len(),
{
    let w = img.width as int;
    let h = img.height as int;
    assert(0 <= y * w + x && (y * w + x) + 1 <= w * h) by (nonlinear_arith)
        requires
            0 <= x < w,
            0 <= y < h,
    ;
    assert(w * h * 4 == (w * h) * 4) by (nonlinear_arith);
}

/// Two different channels of pixels inside an image stand at different places
/// in its data.
pub proof fn lemma_offset_injective(img: Image, x1: int, y1: int, c1: int, x2: int, y2: int, c2: int)
    requires
        img.contains(x1, y1),
        img.contains(x2, y2),
        0 <= c1 < 4,
        0 <= c2 < 4,
        img.offset(x1, y1) + c1 == img.offset(x2, y2) + c2,
    ensures
        x1 == x2,
        y1 == y2,
        c1 == c2,
{
    let w = img.width as int;
    assert(y1 == y2 && x1 == x2) by (nonlinear_arith)
        requires
            0 <= x1 < w,
            0 <= x2 < w,
            0 <= y1,
            0 <= y2,
            y1 * w + x1 == y2 * w + x2,
    ;
}

/// An image held in memory.
#[derive(Debug, Clone, PartialEq, Eq)]
pub struct Raster {
    pub(crate) width: u32,
    pub(crate) height: u32,
    pub(crate) pixels: Vec<u8>,
}

impl View for Raster {
    type V = Image;

    closed spec fn view(&self) -> Image {
        Image { width: self.width as nat, height: self.height as nat, data: self.pixels@ }
    }
}

impl Raster {
    /// The buffer holds four bytes for every pixel, and no more bytes than
    /// one allocation can hold. Every constructor establishes this and every
    /// method keeps it.
    pub open spec fn wf(&self) -> bool {
        self@.wf() && self@.data.len() <= isize::MAX
    }

    /// The number of bytes that a `width` by `height` image takes.
    pub open spec fn byte_len(width: u32, height: u32) -> int {
        (width as int) * (height as int) * 4
    }

    /// An image is never wider or higher than a `u32` can say.
    pub proof fn lemma_dimensions_fit(&self)
        ensures
            self@.width <= u32::MAX,
            self@.height <= u32::MAX,
    {
    }

    fn checked_byte_len(width: u32, height: u32) -> (n: Option<usize>)
        ensures
            match n {
                Some(n) => n == Self::byte_len(width, height) && n <= isize::MAX,
                None => Self::byte_len(width, height) > isize::MAX,
            },
    {
        assert((width as int) * (height as int) <= 0xFFFF_FFFF * 0xFFFF_FFFF) by (nonlinear_arith)
            requires
                0 <= width <= 0xFFFF_FFFF,
                0 <= height <= 0xFFFF_FFFF,
        ;
        let n: u128 = (width as u128) * (height as u128) * 4;
        if n <= isize::MAX as u128 {
            Some(n as usize)
        } else {
            None
        }
    }

    /// A `width` by `height` image with every byte 0: transparent black.
    /// `None` where the buffer would be larger than one allocation can be,
    /// which is `isize::MAX` bytes.
    pub fn new(width: u32, height: u32) -> (r: Option<Raster>)
        ensures
            r is Some <==> Self::byte_len(width, height) <= isize::MAX,
            r matches Some(img) ==> {
                &&& img.wf()
                &&& img@.width == width
                &&& img@.height == height
                &&& forall|i: int| 0 <= i < img@.data.len() ==> img@.data[i] == 0
            },
    {
        match Self::checked_byte_len(width, height) {
            Some(n) => {
                let pixels: Vec<u8> = vec![0u8; n];
                Some(Raster { width, height, pixels })
            },
            None => None,
        }
    }

    /// Wraps a buffer of RGBA bytes. `None` unless the buffer holds exactly
    /// four bytes for each of the `width * height` pixels (and no more than
    /// `isize::MAX` bytes, as every buffer does).
    pub fn from_raw(width: u32, height: u32, pixels: Vec<u8>) -> (r: Option<Raster>)
        ensures
            r is Some <==> pixels@.len() == Self::byte_len(width, height) && pixels@.len()
                <= isize::MAX,
            r matches Some(img) ==> {
                &&& img.wf()
                &&& img@.width == width
                &&& img@.height == height
                &&& img@.data == pixels@
            },
    {
        let len: usize = pixels.len();
        match Self::checked_byte_len(width, height) {
            Some(n) => {
                if len == n {
                    Some(Raster { width, height, pixels })
                } else {
                    None
                }
            },
            None => None,
        }
    }

    /// The number of pixels in a row.
    pub fn width(&self) -> (w: u32)
        ensures
            w == self@.width,
    {
        self.width
    }

    /// The number of rows.
    pub fn height(&self) -> (h: u32)
        ensures
            h == self@.height,
    {
        self.height
    }

    /// The bytes of the image, four per pixel, row by row.
    pub fn as_raw(&self) -> (bytes: &Vec<u8>)
        ensures
            bytes@ == self@.data,
    {
        &self.pixels
    }

    /// Gives up the image for its bytes.
    pub fn into_raw(self) -> (bytes: Vec<u8>)
        ensures
            bytes@ == self@.data,
    {
        self.pixels
    }

    fn offset(&self, x: u32, y: u32) -> (i: usize)
        requires
            self.wf(),
            self@.contains(x as int, y as int),
        ensures
            i == self@.offset(x as int, y as int),
            i + 4 <= self.pixels@.len(),
    {
        proof {
            lemma_offset_in_bounds(self@, x as int, y as int);
            let row: int = (y as int) * (self.width as int);
            assert(0 <= row) by (nonlinear_arith)
                requires
                    row == (y as int) * (self.width as int),
                    y >= 0,
                    self.width >= 0,
            ;
            assert(self@.offset(x as int, y as int) == (row + x) * 4);
        }
        ((y as usize) * (self.width as usize) + (x as usize)) * 4
    }

    /// The red, green, blue and alpha bytes of pixel `(x, y)`.
    pub fn get_pixel(&self, x: u32, y: u32) -> (p: [u8; 4])
        requires
            self.wf(),
            self@.contains(x as int, y as int),
        ensures
            p[0] == self@.channel(x as int, y as int, 0),
            p[1] == self@.channel(x as int, y as int, 1),
            p[2] == self@.channel(x as int, y as int, 2),
            p[3] == self@.channel(x as int, y as int, 3),
    {
        let i: usize = self.offset(x, y);
        [self.pixels[i], self.pixels[i + 1], self.pixels[i + 2], self.pixels[i + 3]]
    }

    /// Sets the red, green, blue and alpha bytes of pixel `(x, y)`. No other
    /// pixel changes.
    pub fn put_pixel(&mut self, x: u32, y: u32, p: [u8; 4])
        requires
            old(self).wf(),
            old(self)@.contains(x as int, y as int),
        ensures
            final(self).wf(),
            final(self)@.width == old(self)@.width,
            final(self)@.height == old(self)@.height,
            forall|px: int, py: int, c: int|
                old(self)@.contains(px, py) && 0 <= c < 4 ==> #[trigger] final(self)@.channel(
                    px,
                    py,
                    c,
                ) == (if px == x && py == y {
                    p[c]
                } else {
                    old(self)@.channel(px, py, c)
                }),
    {
        let i: usize = self.offset(x, y);
        let ghost before = self@;
        self.pixels.set(i, p[0]);
        self.pixels.set(i + 1, p[1]);
        self.pixels.set(i + 2, p[2]);
        self.pixels.set(i + 3, p[3]);
        proof {
            assert forall|px: int, py: int, c: int|
                before.contains(px, py) && 0 <= c < 4 implies #[trigger] self@.channel(px, py, c)
                == (if px == x && py == y {
                p[c]
            } else {
                before.channel(px, py, c)
            }) by {
                lemma_offset_in_bounds(before, px, py);
                if !(px == x && py == y) {
                    let at = before.offset(px, py) + c;
                    if i <= at < i + 4 {
                        lemma_offset_injective(before, px, py, c, x as int, y as int, at - i);
                    }
                }
            }
        }
    }
}

} // verus!
