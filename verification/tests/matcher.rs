use mosaic::catalogue::{pictures_with_ratio, ProcessedPicture};
use mosaic::color::squared_color_distance;
use mosaic::matcher::{find_closest_index, find_closest_pic_by_color};

fn pic(path: &str, color: [u8; 3]) -> ProcessedPicture {
    ProcessedPicture { path: path.to_string(), color_rgb: color, ratio_width: 1, ratio_height: 1 }
}

fn pic_with_ratio(path: &str, ratio: (u32, u32)) -> ProcessedPicture {
    ProcessedPicture {
        path: path.to_string(),
        color_rgb: [0, 0, 0],
        ratio_width: ratio.0,
        ratio_height: ratio.1,
    }
}

#[test]
fn closest_picture_is_the_nearest_color() {
    let pics = vec![pic("red", [255, 0, 0]), pic("green", [0, 255, 0]), pic("blue", [0, 0, 255])];
    assert_eq!(find_closest_pic_by_color(&pics, [200, 30, 30]).path, "red");
    assert_eq!(find_closest_pic_by_color(&pics, [30, 200, 30]).path, "green");
    assert_eq!(find_closest_pic_by_color(&pics, [30, 30, 200]).path, "blue");
    assert_eq!(find_closest_index(&pics, [30, 30, 200]), 2);
}

#[test]
fn single_picture_is_always_chosen() {
    let pics = vec![pic("only", [1, 2, 3])];
    assert_eq!(find_closest_pic_by_color(&pics, [250, 250, 250]).path, "only");
    assert_eq!(find_closest_index(&pics, [1, 2, 3]), 0);
}

#[test]
fn tie_goes_to_the_first_picture() {
    let pics = vec![pic("far", [0, 0, 0]), pic("left", [90, 100, 100]), pic("right", [110, 100, 100])];
    assert_eq!(find_closest_pic_by_color(&pics, [100, 100, 100]).path, "left");
    let swapped =
        vec![pic("far", [0, 0, 0]), pic("right", [110, 100, 100]), pic("left", [90, 100, 100])];
    assert_eq!(find_closest_pic_by_color(&swapped, [100, 100, 100]).path, "right");
}

#[test]
fn distances_that_round_to_the_same_number_are_no_tie() {
    // Sums of squares 14 and 10: both square roots round down to 3, and the
    // second entry is the closer one all the same.
    let pics = vec![pic("fourteen", [3, 2, 1]), pic("ten", [3, 1, 0])];
    assert_eq!(find_closest_pic_by_color(&pics, [0, 0, 0]).path, "ten");
    assert_eq!(find_closest_index(&pics, [0, 0, 0]), 1);
}

#[test]
fn closer_by_less_than_one_is_closer() {
    // Distances of the square root of 2 and of 1 from black.
    let pics = vec![pic("a.png", [1, 1, 0]), pic("b.png", [1, 0, 0])];
    assert_eq!(find_closest_pic_by_color(&pics, [0, 0, 0]).path, "b.png");
    let swapped = vec![pic("b.png", [1, 0, 0]), pic("a.png", [1, 1, 0])];
    assert_eq!(find_closest_pic_by_color(&swapped, [0, 0, 0]).path, "b.png");
}

#[test]
fn no_picture_is_closer_than_the_one_chosen() {
    let pics = vec![
        pic("a", [12, 200, 7]),
        pic("b", [13, 199, 7]),
        pic("c", [90, 90, 90]),
        pic("d", [12, 200, 8]),
        pic("e", [0, 0, 0]),
        pic("f", [255, 255, 255]),
        pic("g", [13, 199, 7]),
    ];
    let queries: Vec<[u8; 3]> =
        vec![[12, 199, 8], [0, 0, 1], [91, 89, 90], [254, 255, 255], [13, 199, 7], [128, 128, 128]];
    for color in queries {
        let k = find_closest_index(&pics, color);
        let chosen = squared_color_distance(pics[k].color_rgb, color);
        for (j, other) in pics.iter().enumerate() {
            let d = squared_color_distance(other.color_rgb, color);
            assert!(chosen <= d);
            if j < k {
                assert!(chosen < d);
            }
        }
    }
}

#[test]
fn exact_match_is_chosen_whatever_else_is_there() {
    let pics = vec![
        pic("near", [100, 100, 101]),
        pic("far", [0, 0, 0]),
        pic("exact", [100, 100, 100]),
        pic("nearer", [100, 100, 100 + 1]),
    ];
    assert_eq!(find_closest_index(&pics, [100, 100, 100]), 2);
    assert_eq!(find_closest_pic_by_color(&pics, [100, 100, 100]).path, "exact");
}

#[test]
fn first_of_several_exact_matches_is_chosen() {
    let pics = vec![
        pic("first", [9, 9, 9]),
        pic("other", [200, 0, 0]),
        pic("second", [9, 9, 9]),
        pic("third", [9, 9, 9]),
    ];
    assert_eq!(find_closest_index(&pics, [9, 9, 9]), 0);
    let later = vec![pic("other", [200, 0, 0]), pic("second", [9, 9, 9]), pic("third", [9, 9, 9])];
    assert_eq!(find_closest_pic_by_color(&later, [9, 9, 9]).path, "second");
}

#[test]
fn choice_is_the_same_every_time() {
    let pics = vec![
        pic("a", [12, 200, 7]),
        pic("b", [13, 199, 7]),
        pic("c", [90, 90, 90]),
        pic("d", [12, 200, 8]),
    ];
    let first = find_closest_index(&pics, [12, 199, 8]);
    for _ in 0..10 {
        assert_eq!(find_closest_index(&pics, [12, 199, 8]), first);
    }
}

#[test]
fn pictures_are_filtered_by_ratio_in_order() {
    let pics = vec![
        pic_with_ratio("a", (4, 3)),
        pic_with_ratio("b", (16, 9)),
        pic_with_ratio("c", (4, 3)),
        pic_with_ratio("d", (3, 4)),
        pic_with_ratio("e", (4, 3)),
    ];
    let kept = pictures_with_ratio(pics.clone(), (4, 3));
    let names: Vec<&str> = kept.iter().map(|p| p.path.as_str()).collect();
    assert_eq!(names, vec!["a", "c", "e"]);
    assert_eq!(pictures_with_ratio(pics.clone(), (1, 1)), vec![]);
    assert_eq!(pictures_with_ratio(vec![], (4, 3)), vec![]);
    assert_eq!(pictures_with_ratio(pics.clone(), (3, 4)), vec![pic_with_ratio("d", (3, 4))]);
}
