//! Preprocessing a gallery: every picture that can be read gets a thumbnail
//! and an entry in the catalogue; a picture that cannot be read, or whose
//! thumbnail cannot be stored, is skipped and the batch goes on.
//!
//! Reading and storing are the caller's part. For every file the caller hands
//! over what it read, takes the thumbnail to store, and reports how that went.

use crate::catalogue::{ProcessedPicture, ProcessedPictureMetadata};
use crate::extract::{compute_main_color, is_filled_with, lemma_solid_region_color};
use crate::raster::{Image, Raster};
use crate::ratio::{compute_ratio, lemma_reduce_square, reduce};
use crate::resample::{make_thumbnail, square_side, thumbnail_pixels};
use crate::THUMBNAIL_SIZE;
use vstd::prelude::*;

verus! {

/// Why a file of the gallery got no entry in the catalogue.
#[derive(Debug, Clone, Copy, PartialEq, Eq, Structural)]
pub enum SkipReason {
    /// The file could not be read as an image.
    Unreadable,
    /// The image has no pixel, and so no colour.
    NoPixels,
    /// The shorter side of the image is 2^16 pixels or more.
    TooLarge,
    /// The thumbnail could not be stored.
    NotSaved,
}

/// A file that was skipped.
#[derive(Debug, Clone, PartialEq, Eq)]
pub struct Skipped {
    pub path: String,
    pub reason: SkipReason,
}

/// A picture whose thumbnail waits to be stored.
#[derive(Debug, Clone, PartialEq, Eq)]
pub struct Prepared {
    /// The entry that the picture gets once the thumbnail is stored.
    pub picture: ProcessedPicture,
    /// The thumbnail to store under `picture.path`.
    pub thumbnail: Raster,
}

/// What became of one file of the gallery.
#[derive(Debug, Clone, PartialEq, Eq)]
pub enum PictureOutcome {
    Processed(ProcessedPicture),
    Skipped(Skipped),
}

/// The result of a batch: the catalogue entries of the files that were
/// processed and the files that were skipped, each in the order of the batch.
#[derive(Debug, Clone, PartialEq, Eq)]
pub struct PreprocessReport {
    pub pictures: Vec<ProcessedPicture>,
    pub skipped: Vec<Skipped>,
}

/// The catalogue entry of an image stored under `path`: its mean colour, taken
/// over the whole image, and its aspect ratio in lowest terms.
pub open spec fn picture_entry(path: String, img: Image) -> ProcessedPicture {
    let ratio = reduce(img.width, img.height);
    ProcessedPicture {
        path,
        color_rgb: img.main_color(),
        ratio_width: ratio.0 as u32,
        ratio_height: ratio.1 as u32,
    }
}

/// Why an image that was read gets no entry, if it gets none.
pub open spec fn unusable(img: Image) -> Option<SkipReason> {
    if img.width == 0 || img.height == 0 {
        Some(SkipReason::NoPixels)
    } else if square_side(img.width, img.height) > 0xFFFF {
        Some(SkipReason::TooLarge)
    } else {
        None
    }
}

/// `thumb` is the thumbnail of `img`: the largest square in its middle,
/// resampled to `THUMBNAIL_SIZE` by `THUMBNAIL_SIZE` pixels.
pub open spec fn is_thumbnail_of(thumb: Image, img: Image) -> bool {
    &&& thumb.wf()
    &&& thumb.width == THUMBNAIL_SIZE
    &&& thumb.height == THUMBNAIL_SIZE
    &&& thumb.data == thumbnail_pixels(
        img.middle_square().data,
        square_side(img.width, img.height),
        square_side(img.width, img.height),
        THUMBNAIL_SIZE,
        THUMBNAIL_SIZE,
    )
}

/// The first step for one file: from what was read of it, the catalogue entry
/// and the thumbnail to store, or the reason to skip the file.
///
/// `decoded` is the image read from the file, and `None` where the file could
/// not be read as an image. `name` is the file's base name, under which the
/// thumbnail is to be stored.
pub fn prepare_picture(name: String, decoded: Option<&Raster>) -> (r: Result<Prepared, Skipped>)
    requires
        decoded matches Some(img) ==> img.wf(),
    ensures
        match r {
            Ok(prepared) => {
                &&& decoded matches Some(img)
                &&& unusable(img@) is None
                &&& prepared.picture == picture_entry(name, img@)
                &&& prepared.picture.in_lowest_terms()
                &&& prepared.thumbnail.wf()
                &&& is_thumbnail_of(prepared.thumbnail@, img@)
            },
            Err(skipped) => {
                &&& skipped.path == name
                &&& skipped.reason == match decoded {
                    Some(img) => unusable(img@).unwrap(),
                    None => SkipReason::Unreadable,
                }
                &&& decoded matches Some(img) ==> unusable(img@) is Some
            },
        },
{
    let img: &Raster = match decoded {
        Some(img) => img,
        None => {
            return Err(Skipped { path: name, reason: SkipReason::Unreadable });
        },
    };
    if img.width() == 0 || img.height() == 0 {
        return Err(Skipped { path: name, reason: SkipReason::NoPixels });
    }
    let thumbnail: Raster = match make_thumbnail(img) {
        Some(thumbnail) => thumbnail,
        None => {
            return Err(Skipped { path: name, reason: SkipReason::TooLarge });
        },
    };
    let ratio: (u32, u32) = compute_ratio(img.width(), img.height());
    let picture = ProcessedPicture {
        path: name,
        color_rgb: compute_main_color(img),
        ratio_width: ratio.0,
        ratio_height: ratio.1,
    };
    Ok(Prepared { picture, thumbnail })
}

/// The second step for one file: the picture gets its entry if its thumbnail
/// was stored, and is skipped if it was not.
pub fn conclude_picture(prepared: Prepared, saved: bool) -> (outcome: PictureOutcome)
    ensures
        saved ==> outcome == PictureOutcome::Processed(prepared.picture),
        !saved ==> outcome == PictureOutcome::Skipped(
            Skipped { path: prepared.picture.path, reason: SkipReason::NotSaved },
        ),
{
    if saved {
        PictureOutcome::Processed(prepared.picture)
    } else {
        PictureOutcome::Skipped(Skipped { path: prepared.picture.path, reason: SkipReason::NotSaved })
    }
}

/// The entries of the files that were processed, in the order of the batch.
pub open spec fn processed(outcomes: Seq<PictureOutcome>) -> Seq<ProcessedPicture>
    decreases outcomes.len(),
{
    if outcomes.len() == 0 {
        Seq::empty()
    } else {
        let before = processed(outcomes.drop_last());
        match outcomes.last() {
            PictureOutcome::Processed(picture) => before.push(picture),
            PictureOutcome::Skipped(_) => before,
        }
    }
}

/// The files that were skipped, in the order of the batch.
pub open spec fn skipped(outcomes: Seq<PictureOutcome>) -> Seq<Skipped>
    decreases outcomes.len(),
{
    if outcomes.len() == 0 {
        Seq::empty()
    } else {
        let before = skipped(outcomes.drop_last());
        match outcomes.last() {
            PictureOutcome::Processed(_) => before,
            PictureOutcome::Skipped(file) => before.push(file),
        }
    }
}

/// The entry of a square picture filled with one colour has that colour and
/// the ratio 1:1.
pub proof fn lemma_entry_of_solid_square(path: String, img: Image, color: [u8; 3])
    requires
        img.width == img.height,
        img.width > 0,
        is_filled_with(img, 0, 0, img.width, img.height, color),
    ensures
        picture_entry(path, img) == (ProcessedPicture {
            path,
            color_rgb: color,
            ratio_width: 1,
            ratio_height: 1,
        }),
{
    lemma_solid_region_color(img, 0, 0, img.width, img.height, color);
    lemma_reduce_square(img.width);
}

/// One more file at the end of a batch adds its entry to the catalogue if it
/// was processed, and is added to the skipped files if it was not; what came
/// before stays as it is.
pub proof fn lemma_batch_step(outcomes: Seq<PictureOutcome>, outcome: PictureOutcome)
    ensures
        outcome matches PictureOutcome::Processed(picture) ==> processed(outcomes.push(outcome))
            == processed(outcomes).push(picture) && skipped(outcomes.push(outcome)) == skipped(
            outcomes,
        ),
        outcome matches PictureOutcome::Skipped(file) ==> processed(outcomes.push(outcome))
            == processed(outcomes) && skipped(outcomes.push(outcome)) == skipped(outcomes).push(
            file,
        ),
{
    assert(outcomes.push(outcome).drop_last() == outcomes);
    assert(outcomes.push(outcome).last() == outcome);
}

/// Every file of a batch is either in the catalogue or among the skipped
/// files.
pub proof fn lemma_batch_accounts_for_every_file(outcomes: Seq<PictureOutcome>)
    ensures
        processed(outcomes).len() + skipped(outcomes).len() == outcomes.len(),
    decreases outcomes.len(),
{
    if outcomes.len() > 0 {
        lemma_batch_accounts_for_every_file(outcomes.drop_last());
    }
}

/// Where every file of a batch is processed, the catalogue holds their
/// entries, one for one and in the order of the files.
pub proof fn lemma_all_processed(outcomes: Seq<PictureOutcome>, pictures: Seq<ProcessedPicture>)
    requires
        outcomes.len() == pictures.len(),
        forall|i: int|
            0 <= i < outcomes.len() ==> #[trigger] outcomes[i] == PictureOutcome::Processed(
                pictures[i],
            ),
    ensures
        processed(outcomes) == pictures,
        skipped(outcomes).len() == 0,
    decreases outcomes.len(),
{
    if outcomes.len() > 0 {
        let before = outcomes.drop_last();
        assert forall|i: int| 0 <= i < before.len() implies #[trigger] before[i]
            == PictureOutcome::Processed(pictures.drop_last()[i]) by {
            assert(before[i] == outcomes[i]);
        }
        lemma_all_processed(before, pictures.drop_last());
        assert(outcomes.last() == PictureOutcome::Processed(pictures.last()));
        assert(pictures.drop_last().push(pictures.last()) =~= pictures);
    } else {
        assert(pictures =~= Seq::empty());
    }
}

/// Where one file of a batch is processed and every other file is skipped,
/// the catalogue holds exactly one entry, that of the processed file, wherever
/// in the batch it stands.
pub proof fn lemma_single_processed_file(
    outcomes: Seq<PictureOutcome>,
    i: int,
    picture: ProcessedPicture,
)
    requires
        0 <= i < outcomes.len(),
        outcomes[i] == PictureOutcome::Processed(picture),
        forall|j: int| 0 <= j < outcomes.len() && j != i ==> #[trigger] outcomes[j] is Skipped,
    ensures
        processed(outcomes) == seq![picture],
        skipped(outcomes).len() == outcomes.len() - 1,
    decreases outcomes.len(),
{
    let before = outcomes.drop_last();
    if i == outcomes.len() - 1 {
        lemma_none_processed(before);
        assert(Seq::<ProcessedPicture>::empty().push(picture) =~= seq![picture]);
    } else {
        assert(before[i] == outcomes[i]);
        assert forall|j: int| 0 <= j < before.len() && j != i implies #[trigger] before[j]
            is Skipped by {
            assert(before[j] == outcomes[j]);
        }
        lemma_single_processed_file(before, i, picture);
        assert(outcomes[outcomes.len() - 1] is Skipped);
    }
    lemma_batch_accounts_for_every_file(outcomes);
}

/// Where every file of a batch is skipped, the catalogue is empty.
pub proof fn lemma_none_processed(outcomes: Seq<PictureOutcome>)
    requires
        forall|j: int| 0 <= j < outcomes.len() ==> #[trigger] outcomes[j] is Skipped,
    ensures
        processed(outcomes) == Seq::<ProcessedPicture>::empty(),
    decreases outcomes.len(),
{
    if outcomes.len() > 0 {
        let before = outcomes.drop_last();
        assert forall|j: int| 0 <= j < before.len() implies #[trigger] before[j] is Skipped by {
            assert(before[j] == outcomes[j]);
        }
        lemma_none_processed(before);
        assert(outcomes[outcomes.len() - 1] is Skipped);
    }
}

/// Gathers the outcomes of a batch: the catalogue gets the entry of every file
/// that was processed, in the order of the batch, and the skipped files are
/// listed beside it. A skipped file never stops the batch.
pub fn process_pictures(outcomes: Vec<PictureOutcome>) -> (report: PreprocessReport)
    ensures
        report.pictures@ == processed(outcomes@),
        report.skipped@ == skipped(outcomes@),
{
    let mut pictures: Vec<ProcessedPicture> = Vec::new();
    let mut skipped_files: Vec<Skipped> = Vec::new();
    for outcome in it: outcomes
        invariant
            it.seq() == outcomes@,
            pictures@ == processed(outcomes@.take(it.index() as int)),
            skipped_files@ == skipped(outcomes@.take(it.index() as int)),
    {
        proof {
            let next = outcomes@.take(it.index() + 1);
            assert(next.drop_last() == outcomes@.take(it.index() as int));
            assert(next.last() == outcome);
        }
        match outcome {
            PictureOutcome::Processed(picture) => {
                pictures.push(picture);
            },
            PictureOutcome::Skipped(file) => {
                skipped_files.push(file);
            },
        }
    }
    proof {
        assert(outcomes@.take(outcomes@.len() as int) == outcomes@);
    }
    PreprocessReport { pictures, skipped: skipped_files }
}

/// What preprocessing a gallery comes to: the catalogue to store, with the
/// entries of the processed files in the order of the batch, and the skipped
/// files to report.
pub fn cmd_preprocess(outcomes: Vec<PictureOutcome>) -> (r: (ProcessedPictureMetadata, Vec<Skipped>))
    ensures
        r.0.pictures@ == processed(outcomes@),
        r.1@ == skipped(outcomes@),
{
    let report: PreprocessReport = process_pictures(outcomes);
    (ProcessedPictureMetadata { pictures: report.pictures }, report.skipped)
}

} // verus!
