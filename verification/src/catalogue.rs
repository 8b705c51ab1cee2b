//! The catalogue of preprocessed pictures: one entry for every picture that
//! has a thumbnail, with its representative colour and its aspect ratio.

use crate::ratio::gcd;
use vstd::prelude::*;

verus! {

/// One preprocessed picture.
#[derive(Debug, Clone, PartialEq, Eq)]
pub struct ProcessedPicture {
    /// The file name of the thumbnail inside the folder of processed pictures.
    pub path: String,
    /// The representative colour of the picture: red, green, blue.
    pub color_rgb: [u8; 3],
    /// The width side of the picture's aspect ratio, in lowest terms.
    pub ratio_width: u32,
    /// The height side of the picture's aspect ratio, in lowest terms.
    pub ratio_height: u32,
}

/// The catalogue as it is stored: the entries in the order in which the
/// pictures were processed.
#[derive(Debug, Clone, PartialEq, Eq)]
pub struct ProcessedPictureMetadata {
    pub pictures: Vec<ProcessedPicture>,
}

impl ProcessedPicture {
    /// The aspect ratio of the entry is in lowest terms: its two sides have no
    /// common factor above 1. Only then do two pictures of the same shape have
    /// the same ratio, number for number.
    pub open spec fn in_lowest_terms(self) -> bool {
        gcd(self.ratio_width as nat, self.ratio_height as nat) == 1
    }

    /// The picture has exactly this aspect ratio.
    pub open spec fn has_ratio(self, ratio: (u32, u32)) -> bool {
        self.ratio_width == ratio.0 && self.ratio_height == ratio.1
    }
}

/// The test that an entry has the given aspect ratio.
pub open spec fn ratio_is(ratio: (u32, u32)) -> spec_fn(ProcessedPicture) -> bool {
    |p: ProcessedPicture| p.has_ratio(ratio)
}

/// The entries of a catalogue that have the given aspect ratio, in catalogue
/// order.
pub open spec fn with_ratio(pictures: Seq<ProcessedPicture>, ratio: (u32, u32)) -> Seq<
    ProcessedPicture,
> {
    pictures.filter(ratio_is(ratio))
}

/// Keeps the entries whose aspect ratio is `ratio`, in their order, and drops
/// the others.
pub fn pictures_with_ratio(pictures: Vec<ProcessedPicture>, ratio: (u32, u32)) -> (kept: Vec<
    ProcessedPicture,
>)
    ensures
        kept@ == with_ratio(pictures@, ratio),
{
    let mut kept: Vec<ProcessedPicture> = Vec::new();
    assert(pictures@.take(0).filter(ratio_is(ratio)) == Seq::<ProcessedPicture>::empty()) by {
        reveal(Seq::filter);
    }
    for pic in it: pictures
        invariant
            it.seq() == pictures@,
            kept@ == pictures@.take(it.index() as int).filter(ratio_is(ratio)),
    {
        proof {
            let seen = pictures@.take(it.index() as int);
            assert(pic == pictures@[it.index() as int]);
            pictures@.lemma_take_succ_push(it.index() as int);
            seen.lemma_filter_push(pic, ratio_is(ratio));
        }
        if pic.ratio_width == ratio.0 && pic.ratio_height == ratio.1 {
            kept.push(pic);
        }
    }
    assert(pictures@.take(pictures@.len() as int) == pictures@);
    kept
}

} // verus!
