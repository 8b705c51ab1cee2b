//! Shrinking or stretching an image to a thumbnail of a given size. The
//! resampling itself is the work of the `image` crate.

use crate::raster::{Image, Raster};
use crate::THUMBNAIL_SIZE;
use vstd::prelude::*;

verus! {

/// The bytes of the thumbnail that `image::imageops::thumbnail` makes of the
/// image with the bytes `data`, `width` pixels wide and `height` pixels high,
/// when asked for `new_width` by `new_height` pixels.
pub uninterp spec fn thumbnail_pixels(
    data: Seq<u8>,
    width: nat,
    height: nat,
    new_width: u32,
    new_height: u32,
) -> Seq<u8>;

/// The side of the largest square that fits into a `w` by `h` rectangle.
pub open spec fn square_side(w: nat, h: nat) -> nat {
    if w <= h {
        w
    } else {
        h
    }
}

/// The largest square in the middle of a `w` by `h` rectangle: the column and
/// the row of its top-left corner, rounded down, and its side.
pub open spec fn square_view(w: nat, h: nat) -> (nat, nat, nat) {
    let side = square_side(w, h);
    (((w - side) / 2) as nat, ((h - side) / 2) as nat, side)
}

impl Image {
    /// The largest square in the middle of the image, as an image of its own.
    pub open spec fn middle_square(self) -> Image {
        let (x, y, side) = square_view(self.width, self.height);
        self.cropped(x as int, y as int, side, side)
    }

    /// The resampler can take this image and give one of the new size: both
    /// sides are below 2^16, the new sides are not 0, and a block of source
    /// pixels that goes into one new pixel holds fewer than 2^24 pixels.
    pub open spec fn can_resample(self, new_width: u32, new_height: u32) -> bool {
        &&& self.width <= 0xFFFF
        &&& self.height <= 0xFFFF
        &&& new_width > 0
        &&& new_height > 0
        &&& (self.width / (new_width as nat) + 3) * (self.height / (new_height as nat) + 3)
            <= 0x100_0000
        &&& Raster::byte_len(new_width, new_height) <= isize::MAX
    }
}

/// Calls `image::imageops::thumbnail` on the image, seen as an `ImageBuffer`
/// of RGBA pixels over the same bytes.
///
/// The call returns a new buffer of exactly `new_width` by `new_height` RGBA
/// pixels, whose bytes depend on nothing but the source bytes and the four
/// sizes; the contract says no more of them than that. Each new pixel is the
/// mean of a block of source pixels, summed in 32 bits; `can_resample` keeps
/// every block so small that no sum overflows, and the new buffer so small
/// that its length can be computed.
#[verifier::external_body]
fn resample(img: &Raster, new_width: u32, new_height: u32) -> (out: Raster)
    requires
        img.wf(),
        img@.can_resample(new_width, new_height),
    ensures
        out.wf(),
        out@.width == new_width,
        out@.height == new_height,
        out@.data == thumbnail_pixels(
            img@.data,
            img@.width,
            img@.height,
            new_width,
            new_height,
        ),
{
    let source: image::ImageBuffer<image::Rgba<u8>, &[u8]> = image::ImageBuffer::from_raw(
        img.width,
        img.height,
        img.pixels.as_slice(),
    ).unwrap();
    let thumb = image::imageops::thumbnail(&source, new_width, new_height);
    Raster { width: new_width, height: new_height, pixels: thumb.into_raw() }
}

/// The top-left corner and the side of the largest square in the middle of an
/// image.
pub fn image_square_view(img: &Raster) -> (view: (u32, u32, u32))
    ensures
        (view.0 as nat, view.1 as nat, view.2 as nat) == square_view(img@.width, img@.height),
        img@.contains_rect(view.0 as int, view.1 as int, view.2 as int, view.2 as int),
{
    let w: u32 = img.width();
    let h: u32 = img.height();
    let side: u32 = if w <= h {
        w
    } else {
        h
    };
    ((w - side) / 2, (h - side) / 2, side)
}

/// The thumbnail of an image: the largest square in its middle, resampled to
/// `THUMBNAIL_SIZE` by `THUMBNAIL_SIZE` pixels.
///
/// `None` where the shorter side of the image is 2^16 pixels or more, which
/// the resampler is not trusted with.
pub fn make_thumbnail(img: &Raster) -> (thumb: Option<Raster>)
    requires
        img.wf(),
    ensures
        thumb is Some <==> square_side(img@.width, img@.height) <= 0xFFFF,
        thumb matches Some(t) ==> {
            &&& t.wf()
            &&& t@.width == THUMBNAIL_SIZE
            &&& t@.height == THUMBNAIL_SIZE
            &&& t@.data == thumbnail_pixels(
                img@.middle_square().data,
                square_side(img@.width, img@.height),
                square_side(img@.width, img@.height),
                THUMBNAIL_SIZE,
                THUMBNAIL_SIZE,
            )
        },
{
    let (x, y, side) = image_square_view(img);
    if side > 0xFFFF {
        return None;
    }
    let square: Raster = img.crop(x, y, side, side);
    proof {
        let blocks = (side as nat) / (THUMBNAIL_SIZE as nat) + 3;
        assert(blocks * blocks <= 0x100_0000) by (nonlinear_arith)
            requires
                0 <= blocks <= 1026,
        ;
    }
    Some(resample(&square, THUMBNAIL_SIZE, THUMBNAIL_SIZE))
}

} // verus!
