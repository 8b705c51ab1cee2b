use mosaic::chunks::compute_main_color_by_chunk;
use mosaic::extract::{compute_main_color, region_color};
use mosaic::raster::Raster;

fn from_pixels(width: u32, height: u32, pixels: &[[u8; 4]]) -> Raster {
    let mut bytes: Vec<u8> = Vec::new();
    for p in pixels {
        bytes.extend_from_slice(p);
    }
    Raster::from_raw(width, height, bytes).unwrap()
}

fn solid(width: u32, height: u32, color: [u8; 4]) -> Raster {
    let pixels = vec![color; (width * height) as usize];
    from_pixels(width, height, &pixels)
}

fn quadrants(side: u32, colors: [[u8; 4]; 4]) -> Raster {
    let mut pixels: Vec<[u8; 4]> = Vec::new();
    for y in 0..side {
        for x in 0..side {
            let q = (if y < side / 2 { 0 } else { 2 }) + (if x < side / 2 { 0 } else { 1 });
            pixels.push(colors[q]);
        }
    }
    from_pixels(side, side, &pixels)
}

#[test]
fn main_color_of_a_solid_image_is_its_color() {
    assert_eq!(compute_main_color(&solid(7, 5, [12, 200, 99, 255])), [12, 200, 99]);
    assert_eq!(compute_main_color(&solid(1, 1, [255, 255, 255, 0])), [255, 255, 255]);
}

#[test]
fn main_color_is_the_mean_rounded_down() {
    let img = from_pixels(2, 1, &[[0, 0, 0, 255], [255, 1, 3, 255]]);
    assert_eq!(compute_main_color(&img), [127, 0, 1]);
    let three = from_pixels(1, 3, &[[1, 0, 10, 255], [1, 0, 10, 255], [2, 2, 11, 255]]);
    assert_eq!(compute_main_color(&three), [1, 0, 10]);
}

#[test]
fn main_color_ignores_alpha() {
    let img = from_pixels(2, 1, &[[100, 100, 100, 0], [200, 200, 200, 255]]);
    assert_eq!(compute_main_color(&img), [150, 150, 150]);
}

#[test]
fn main_color_of_a_large_white_image_does_not_overflow() {
    assert_eq!(compute_main_color(&solid(3000, 2000, [255, 255, 255, 255])), [255, 255, 255]);
}

#[test]
fn region_color_looks_at_the_region_only() {
    let img = quadrants(
        4,
        [[255, 0, 0, 255], [0, 255, 0, 255], [0, 0, 255, 255], [255, 255, 255, 255]],
    );
    assert_eq!(region_color(&img, 0, 0, 2, 2), [255, 0, 0]);
    assert_eq!(region_color(&img, 2, 0, 2, 2), [0, 255, 0]);
    assert_eq!(region_color(&img, 0, 2, 2, 2), [0, 0, 255]);
    assert_eq!(region_color(&img, 2, 2, 2, 2), [255, 255, 255]);
    assert_eq!(region_color(&img, 1, 0, 2, 2), [127, 127, 0]);
    assert_eq!(region_color(&img, 3, 3, 1, 1), [255, 255, 255]);
    assert_eq!(region_color(&img, 0, 0, 4, 4), compute_main_color(&img));
    assert_eq!(region_color(&img, 0, 0, 4, 4), [127, 127, 127]);
}

#[test]
fn chunks_are_counted_by_whole_chunks_only() {
    let img = solid(17, 9, [1, 2, 3, 255]);
    assert_eq!(compute_main_color_by_chunk(&img, 8, 4).len(), 4);
    assert_eq!(compute_main_color_by_chunk(&img, 17, 9).len(), 1);
    assert_eq!(compute_main_color_by_chunk(&img, 18, 9).len(), 0);
    assert_eq!(compute_main_color_by_chunk(&img, 17, 10).len(), 0);
    assert_eq!(compute_main_color_by_chunk(&img, 1, 1).len(), 17 * 9);
    assert_eq!(compute_main_color_by_chunk(&img, 5, 2).len(), 3 * 4);
    assert_eq!(compute_main_color_by_chunk(&img, u32::MAX, u32::MAX).len(), 0);
}

#[test]
fn chunks_come_row_by_row() {
    let img = quadrants(
        16,
        [[255, 0, 0, 255], [0, 255, 0, 255], [0, 0, 255, 255], [255, 255, 255, 255]],
    );
    assert_eq!(
        compute_main_color_by_chunk(&img, 8, 8),
        vec![[255, 0, 0], [0, 255, 0], [0, 0, 255], [255, 255, 255]]
    );
    let halves = compute_main_color_by_chunk(&img, 16, 8);
    assert_eq!(halves, vec![[127, 127, 0], [127, 127, 255]]);
    let columns = compute_main_color_by_chunk(&img, 8, 16);
    assert_eq!(columns, vec![[127, 0, 127], [127, 255, 127]]);
}

#[test]
fn chunks_leave_out_the_strips_at_the_right_and_at_the_bottom() {
    let mut pixels: Vec<[u8; 4]> = Vec::new();
    for y in 0..5u32 {
        for x in 0..7u32 {
            pixels.push(if x >= 6 || y >= 4 { [255, 255, 255, 255] } else { [10, 20, 30, 255] });
        }
    }
    let img = from_pixels(7, 5, &pixels);
    let colors = compute_main_color_by_chunk(&img, 3, 2);
    assert_eq!(colors, vec![[10, 20, 30]; 4]);
}

#[test]
fn chunk_colors_are_the_region_colors_at_the_grid_positions() {
    let mut pixels: Vec<[u8; 4]> = Vec::new();
    for y in 0..9u32 {
        for x in 0..10u32 {
            pixels.push([(x * 25) as u8, (y * 28) as u8, (x * y) as u8, 255]);
        }
    }
    let img = from_pixels(10, 9, &pixels);
    let colors = compute_main_color_by_chunk(&img, 3, 4);
    assert_eq!(colors.len(), 3 * 2);
    for (k, color) in colors.iter().enumerate() {
        let x = (k as u32 % 3) * 3;
        let y = (k as u32 / 3) * 4;
        assert!(x + 3 <= 10 && y + 4 <= 9);
        assert_eq!(*color, region_color(&img, x, y, 3, 4));
    }
}
