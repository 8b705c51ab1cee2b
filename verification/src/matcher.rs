//! Picking, for a colour, the catalogue entry whose colour is closest to it.
//!
//! Closeness is the distance between the colours. Entries are compared by the
//! sum of squared channel differences, which orders them as the distance does
//! and, being a whole number, without any rounding.

use crate::catalogue::ProcessedPicture;
use crate::color::{
    lemma_squared_distance_bounds, lemma_squared_distance_zero_iff_equal, squared_color_distance,
    squared_distance,
};
use vstd::prelude::*;

verus! {

/// Entry `k` is the closest to `color`: no entry is nearer, and every entry
/// before it is strictly farther. Of several entries at the smallest distance
/// this holds of the first one only.
pub open spec fn is_closest(pics: Seq<ProcessedPicture>, color: [u8; 3], k: int) -> bool {
    &&& 0 <= k < pics.len()
    &&& forall|j: int|
        0 <= j < pics.len() ==> squared_distance(pics[k].color_rgb, color) <= squared_distance(
            #[trigger] pics[j].color_rgb,
            color,
        )
    &&& forall|j: int|
        0 <= j < k ==> squared_distance(pics[k].color_rgb, color) < squared_distance(
            #[trigger] pics[j].color_rgb,
            color,
        )
}

/// The index of the entry closest to `color`.
pub open spec fn closest_index(pics: Seq<ProcessedPicture>, color: [u8; 3]) -> int {
    choose|k: int| is_closest(pics, color, k)
}

/// The choice is determined by the catalogue and the colour: two entries that
/// both are the closest are one and the same entry.
pub proof fn lemma_closest_unique(pics: Seq<ProcessedPicture>, color: [u8; 3], a: int, b: int)
    requires
        is_closest(pics, color, a),
        is_closest(pics, color, b),
    ensures
        a == b,
{
    if a < b {
        assert(squared_distance(pics[b].color_rgb, color) < squared_distance(
            pics[a].color_rgb,
            color,
        ));
        assert(squared_distance(pics[a].color_rgb, color) <= squared_distance(
            pics[b].color_rgb,
            color,
        ));
    } else if b < a {
        assert(squared_distance(pics[a].color_rgb, color) < squared_distance(
            pics[b].color_rgb,
            color,
        ));
        assert(squared_distance(pics[b].color_rgb, color) <= squared_distance(
            pics[a].color_rgb,
            color,
        ));
    }
}

/// No entry of the catalogue is strictly closer to the colour than the entry
/// that is chosen, and of the entries as close as it none comes before it.
pub proof fn lemma_none_is_closer(pics: Seq<ProcessedPicture>, color: [u8; 3], k: int, j: int)
    requires
        is_closest(pics, color, k),
        0 <= j < pics.len(),
    ensures
        squared_distance(pics[k].color_rgb, color) <= squared_distance(pics[j].color_rgb, color),
        squared_distance(pics[j].color_rgb, color) == squared_distance(pics[k].color_rgb, color)
            ==> k <= j,
        closest_index(pics, color) == k,
{
    lemma_closest_unique(pics, color, k, closest_index(pics, color));
    if j < k {
        assert(squared_distance(pics[k].color_rgb, color) < squared_distance(
            pics[j].color_rgb,
            color,
        ));
    }
}

/// An entry whose colour is exactly the colour asked for is the closest one,
/// whatever the other entries hold, provided no earlier entry has that colour
/// too.
pub proof fn lemma_exact_match_is_closest(pics: Seq<ProcessedPicture>, color: [u8; 3], i: int)
    requires
        0 <= i < pics.len(),
        pics[i].color_rgb == color,
        forall|j: int| 0 <= j < i ==> (#[trigger] pics[j]).color_rgb != color,
    ensures
        is_closest(pics, color, i),
        closest_index(pics, color) == i,
{
    lemma_squared_distance_zero_iff_equal(pics[i].color_rgb, color);
    assert forall|j: int| 0 <= j < pics.len() implies squared_distance(pics[i].color_rgb, color)
        <= squared_distance(#[trigger] pics[j].color_rgb, color) by {
        lemma_squared_distance_bounds(pics[j].color_rgb, color);
    }
    assert forall|j: int| 0 <= j < i implies squared_distance(pics[i].color_rgb, color)
        < squared_distance(#[trigger] pics[j].color_rgb, color) by {
        lemma_squared_distance_bounds(pics[j].color_rgb, color);
        lemma_squared_distance_zero_iff_equal(pics[j].color_rgb, color);
    }
    lemma_closest_unique(pics, color, i, closest_index(pics, color));
}

/// The index of the catalogue entry whose colour is closest to `color`; of
/// several at the same smallest distance, the first. The scan stops as soon as
/// an entry of exactly that colour is the best one seen.
pub fn find_closest_index(pics: &[ProcessedPicture], color: [u8; 3]) -> (k: usize)
    requires
        pics@.len() > 0,
    ensures
        is_closest(pics@, color, k as int),
        k == closest_index(pics@, color),
{
    let mut best: usize = 0;
    let mut best_dist: u32 = squared_color_distance(pics[0].color_rgb, color);
    let mut i: usize = 1;
    while i < pics.len() && best_dist > 0
        invariant
            0 <= best < i <= pics@.len(),
            best_dist == squared_distance(pics@[best as int].color_rgb, color),
            forall|j: int|
                0 <= j < i ==> best_dist <= squared_distance(#[trigger] pics@[j].color_rgb, color),
            forall|j: int|
                0 <= j < best ==> best_dist < squared_distance(
                    #[trigger] pics@[j].color_rgb,
                    color,
                ),
        decreases pics@.len() - i,
    {
        let dist: u32 = squared_color_distance(pics[i].color_rgb, color);
        if dist < best_dist {
            best = i;
            best_dist = dist;
        }
        i = i + 1;
    }
    proof {
        assert forall|j: int| 0 <= j < pics@.len() implies best_dist <= squared_distance(
            #[trigger] pics@[j].color_rgb,
            color,
        ) by {
            lemma_squared_distance_bounds(pics@[j].color_rgb, color);
        }
        lemma_closest_unique(pics@, color, best as int, closest_index(pics@, color));
    }
    best
}

/// The catalogue entry whose colour is closest to `color`; of several at the
/// same smallest distance, the first in catalogue order.
pub fn find_closest_pic_by_color<'a>(pics: &'a [ProcessedPicture], color: [u8; 3]) -> (pic:
    &'a ProcessedPicture)
    requires
        pics@.len() > 0,
    ensures
        *pic == pics@[closest_index(pics@, color)],
        is_closest(pics@, color, closest_index(pics@, color)),
{
    let k: usize = find_closest_index(pics, color);
    &pics[k]
}

} // verus!
