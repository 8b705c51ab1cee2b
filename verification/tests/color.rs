use mosaic::color::{color_distance, isqrt, squared_color_distance};

#[test]
fn distance_between_black_and_white() {
    assert_eq!(color_distance([0, 0, 0], [255, 255, 255]), 441);
}

#[test]
fn distance_of_a_three_four_five_triangle() {
    assert_eq!(color_distance([10, 20, 30], [13, 24, 30]), 5);
    assert_eq!(color_distance([13, 24, 30], [10, 20, 30]), 5);
}

#[test]
fn distance_is_rounded_down() {
    assert_eq!(color_distance([0, 0, 0], [1, 1, 0]), 1);
    assert_eq!(color_distance([0, 0, 0], [1, 1, 1]), 1);
    assert_eq!(color_distance([0, 0, 0], [2, 2, 1]), 3);
    assert_eq!(color_distance([0, 0, 0], [2, 2, 0]), 2);
    assert_eq!(color_distance([255, 0, 0], [0, 255, 0]), 360);
}

#[test]
fn distance_is_symmetric() {
    let colors: Vec<[u8; 3]> =
        vec![[0, 0, 0], [255, 255, 255], [1, 2, 3], [200, 100, 50], [17, 0, 255], [128, 128, 128]];
    for a in &colors {
        for b in &colors {
            assert_eq!(color_distance(*a, *b), color_distance(*b, *a));
        }
    }
}

#[test]
fn distance_is_zero_only_between_equal_colors() {
    let colors: Vec<[u8; 3]> =
        vec![[0, 0, 0], [0, 0, 1], [0, 1, 0], [1, 0, 0], [255, 255, 255], [255, 255, 254]];
    for a in &colors {
        for b in &colors {
            assert_eq!(color_distance(*a, *b) == 0, a == b);
        }
    }
}

#[test]
fn square_roots_are_rounded_down() {
    assert_eq!(isqrt(0), 0);
    assert_eq!(isqrt(1), 1);
    assert_eq!(isqrt(2), 1);
    assert_eq!(isqrt(3), 1);
    assert_eq!(isqrt(4), 2);
    assert_eq!(isqrt(8), 2);
    assert_eq!(isqrt(9), 3);
    assert_eq!(isqrt(195075), 441);
    assert_eq!(isqrt(u32::MAX), 65535);
}

#[test]
fn square_root_brackets_its_argument() {
    for n in 0..5000u32 {
        let r = isqrt(n);
        assert!(r * r <= n);
        assert!((r + 1) * (r + 1) > n);
    }
}

#[test]
fn squared_distance_is_the_sum_of_the_squared_differences() {
    assert_eq!(squared_color_distance([0, 0, 0], [0, 0, 0]), 0);
    assert_eq!(squared_color_distance([0, 0, 0], [1, 1, 0]), 2);
    assert_eq!(squared_color_distance([1, 0, 0], [0, 0, 0]), 1);
    assert_eq!(squared_color_distance([10, 20, 30], [13, 24, 30]), 25);
    assert_eq!(squared_color_distance([3, 2, 1], [0, 0, 0]), 14);
    assert_eq!(squared_color_distance([0, 0, 0], [255, 255, 255]), 195075);
    assert_eq!(squared_color_distance([255, 0, 255], [0, 255, 0]), 195075);
}

#[test]
fn squared_distance_is_symmetric_and_zero_only_between_equal_colors() {
    let colors: Vec<[u8; 3]> =
        vec![[0, 0, 0], [0, 0, 1], [255, 255, 255], [1, 2, 3], [200, 100, 50], [1, 2, 3]];
    for a in &colors {
        for b in &colors {
            assert_eq!(squared_color_distance(*a, *b), squared_color_distance(*b, *a));
            assert_eq!(squared_color_distance(*a, *b) == 0, a == b);
        }
    }
}
