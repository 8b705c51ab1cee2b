use mosaic::catalogue::{ProcessedPicture, ProcessedPictureMetadata};
use mosaic::error::MosaicError;
use mosaic::layout::{plan_layout, MosaicLayout};
use mosaic::compose::compose;
use mosaic::mosaic::{choose_tiles, create_mosaic, select_pictures};
use mosaic::preprocess::{cmd_preprocess, conclude_picture, prepare_picture, PictureOutcome};
use mosaic::raster::Raster;
use mosaic::ratio::compute_ratio;

const RED: [u8; 4] = [255, 0, 0, 255];
const GREEN: [u8; 4] = [0, 255, 0, 255];
const BLUE: [u8; 4] = [0, 0, 255, 255];
const WHITE: [u8; 4] = [255, 255, 255, 255];

fn solid_tile(width: u32, height: u32, color: [u8; 4]) -> Raster {
    let mut bytes: Vec<u8> = Vec::new();
    for _ in 0..(width * height) {
        bytes.extend_from_slice(&color);
    }
    Raster::from_raw(width, height, bytes).unwrap()
}

fn quadrant_model(width: u32, height: u32, colors: [[u8; 4]; 4]) -> Raster {
    let mut bytes: Vec<u8> = Vec::new();
    for y in 0..height {
        for x in 0..width {
            let q = (if y < height / 2 { 0 } else { 2 }) + (if x < width / 2 { 0 } else { 1 });
            bytes.extend_from_slice(&colors[q]);
        }
    }
    Raster::from_raw(width, height, bytes).unwrap()
}

fn flat_entry(path: &str, color: [u8; 3], ratio: (u32, u32)) -> ProcessedPicture {
    ProcessedPicture {
        path: path.to_string(),
        color_rgb: color,
        ratio_width: ratio.0,
        ratio_height: ratio.1,
    }
}

fn assert_tile(canvas: &Raster, col: u32, row: u32, tile_w: u32, tile_h: u32, color: [u8; 4]) {
    for y in 0..tile_h {
        for x in 0..tile_w {
            assert_eq!(canvas.get_pixel(col * tile_w + x, row * tile_h + y), color);
        }
    }
}

#[test]
fn mosaic_of_four_quadrants_picks_the_four_pictures() {
    // The gallery: four solid square pictures, preprocessed.
    let gallery: Vec<(&str, [u8; 4])> =
        vec![("red.png", RED), ("green.png", GREEN), ("blue.png", BLUE), ("white.png", WHITE)];
    let mut outcomes: Vec<PictureOutcome> = Vec::new();
    let mut stored: Vec<Option<Raster>> = Vec::new();
    for (name, color) in gallery {
        let picture = solid_tile(100, 100, color);
        let prepared = prepare_picture(name.to_string(), Some(&picture)).unwrap();
        stored.push(Some(prepared.thumbnail.clone()));
        outcomes.push(conclude_picture(prepared, true));
    }
    let (metadata, skipped) = cmd_preprocess(outcomes);
    assert!(skipped.is_empty());
    assert_eq!(
        metadata.pictures,
        vec![
            flat_entry("red.png", [255, 0, 0], (1, 1)),
            flat_entry("green.png", [0, 255, 0], (1, 1)),
            flat_entry("blue.png", [0, 0, 255], (1, 1)),
            flat_entry("white.png", [255, 255, 255], (1, 1)),
        ]
    );

    // The model: red | green over blue | white, two chunks by two.
    let model = quadrant_model(16, 16, [RED, GREEN, BLUE, WHITE]);
    let ratio = compute_ratio(model.width(), model.height());
    assert_eq!(ratio, (1, 1));
    let pics = select_pictures(metadata, ratio).unwrap();
    assert_eq!(pics.len(), 4);
    assert_eq!(choose_tiles(&model, &pics, 8, 8), vec![0, 1, 2, 3]);

    let canvas = create_mosaic(&model, &pics, &stored, ratio).unwrap();
    assert_eq!(canvas.width(), 128);
    assert_eq!(canvas.height(), 128);
    assert_tile(&canvas, 0, 0, 64, 64, RED);
    assert_tile(&canvas, 1, 0, 64, 64, GREEN);
    assert_tile(&canvas, 0, 1, 64, 64, BLUE);
    assert_tile(&canvas, 1, 1, 64, 64, WHITE);
}

#[test]
fn mosaic_shows_the_thumbnail_pixels_at_the_same_place_in_the_tile() {
    let mut bytes: Vec<u8> = Vec::new();
    for y in 0..64u32 {
        for x in 0..64u32 {
            bytes.extend_from_slice(&[x as u8, y as u8, 7, 255]);
        }
    }
    let thumb = Raster::from_raw(64, 64, bytes).unwrap();
    let pics = vec![flat_entry("only", [0, 0, 0], (1, 1))];
    let model = solid_tile(24, 17, [9, 9, 9, 255]);
    let canvas = create_mosaic(&model, &pics, &[Some(thumb.clone())], (1, 1)).unwrap();
    assert_eq!(canvas.width(), 3 * 64);
    assert_eq!(canvas.height(), 2 * 64);
    for y in 0..canvas.height() {
        for x in 0..canvas.width() {
            assert_eq!(canvas.get_pixel(x, y), thumb.get_pixel(x % 64, y % 64));
        }
    }
}

#[test]
fn mosaic_reuses_a_picture_for_many_chunks() {
    let pics = vec![flat_entry("dark", [10, 10, 10], (1, 1)), flat_entry("light", [240, 240, 240], (1, 1))];
    let thumbs = vec![Some(solid_tile(64, 64, [1, 1, 1, 255])), Some(solid_tile(64, 64, [2, 2, 2, 255]))];
    let model = quadrant_model(16, 16, [[0, 0, 0, 255], WHITE, WHITE, [30, 30, 30, 255]]);
    assert_eq!(choose_tiles(&model, &pics, 8, 8), vec![0, 1, 1, 0]);
    let canvas = create_mosaic(&model, &pics, &thumbs, (1, 1)).unwrap();
    assert_tile(&canvas, 0, 0, 64, 64, [1, 1, 1, 255]);
    assert_tile(&canvas, 1, 0, 64, 64, [2, 2, 2, 255]);
    assert_tile(&canvas, 0, 1, 64, 64, [2, 2, 2, 255]);
    assert_tile(&canvas, 1, 1, 64, 64, [1, 1, 1, 255]);
}

#[test]
fn model_smaller_than_a_chunk_gives_an_empty_mosaic() {
    let pics = vec![flat_entry("p", [0, 0, 0], (1, 1))];
    let model = solid_tile(7, 7, RED);
    let canvas = create_mosaic(&model, &pics, &[None], (1, 1)).unwrap();
    assert_eq!(canvas.width(), 0);
    assert_eq!(canvas.height(), 0);
    let strip = solid_tile(40, 7, RED);
    let canvas = create_mosaic(&strip, &pics, &[None], (1, 1)).unwrap();
    assert_eq!((canvas.width(), canvas.height()), (5 * 64, 0));
}

#[test]
fn mosaic_of_a_landscape_model_with_tiles_of_its_ratio() {
    let pics = vec![flat_entry("a", [255, 0, 0], (4, 3)), flat_entry("b", [0, 0, 255], (4, 3))];
    let thumbs = vec![Some(solid_tile(64, 48, RED)), Some(solid_tile(64, 48, BLUE))];
    let model = quadrant_model(16, 12, [RED, BLUE, BLUE, RED]);
    let canvas = create_mosaic(&model, &pics, &thumbs, (4, 3)).unwrap();
    assert_eq!((canvas.width(), canvas.height()), (128, 96));
    assert_tile(&canvas, 0, 0, 64, 48, RED);
    assert_tile(&canvas, 1, 0, 64, 48, BLUE);
    assert_tile(&canvas, 0, 1, 64, 48, BLUE);
    assert_tile(&canvas, 1, 1, 64, 48, RED);
}

#[test]
fn square_thumbnail_does_not_fit_the_last_row_of_a_landscape_mosaic() {
    let pics = vec![flat_entry("a", [255, 0, 0], (4, 3))];
    let thumbs = vec![Some(solid_tile(64, 64, RED))];
    let model = solid_tile(16, 12, RED);
    assert_eq!(
        create_mosaic(&model, &pics, &thumbs, (4, 3)),
        Err(MosaicError::TileOutOfCanvas { tile: 2 })
    );
}

#[test]
fn square_thumbnail_does_not_fit_the_last_column_of_a_portrait_mosaic() {
    let pics = vec![flat_entry("a", [255, 0, 0], (3, 4))];
    let thumbs = vec![Some(solid_tile(64, 64, RED))];
    let model = solid_tile(12, 16, RED);
    assert_eq!(
        create_mosaic(&model, &pics, &thumbs, (3, 4)),
        Err(MosaicError::TileOutOfCanvas { tile: 1 })
    );
}

#[test]
fn small_thumbnail_leaves_the_rest_of_its_tile_empty() {
    let pics = vec![flat_entry("a", [255, 0, 0], (1, 1))];
    let thumbs = vec![Some(solid_tile(10, 20, RED))];
    let model = solid_tile(16, 8, RED);
    let canvas = create_mosaic(&model, &pics, &thumbs, (1, 1)).unwrap();
    assert_eq!((canvas.width(), canvas.height()), (128, 64));
    for y in 0..64u32 {
        for x in 0..128u32 {
            let expected = if x % 64 < 10 && y < 20 { RED } else { [0, 0, 0, 0] };
            assert_eq!(canvas.get_pixel(x, y), expected);
        }
    }
}

#[test]
fn later_tile_is_copied_over_an_earlier_one_that_reaches_into_it() {
    let layout = MosaicLayout { chunk_w: 8, chunk_h: 8, tile_w: 4, tile_h: 4, cols: 2, rows: 1 };
    let thumbs = vec![Some(solid_tile(6, 4, RED)), Some(solid_tile(4, 4, BLUE))];
    let canvas = compose(&layout, &[0, 1], &thumbs).unwrap();
    assert_eq!((canvas.width(), canvas.height()), (8, 4));
    for y in 0..4u32 {
        for x in 0..8u32 {
            assert_eq!(canvas.get_pixel(x, y), if x < 4 { RED } else { BLUE });
        }
    }
    let canvas = compose(&layout, &[1, 0], &thumbs);
    assert_eq!(canvas, Err(MosaicError::TileOutOfCanvas { tile: 1 }));
}

#[test]
fn missing_thumbnail_of_a_chosen_picture_stops_the_build() {
    let pics = vec![flat_entry("dark", [0, 0, 0], (1, 1)), flat_entry("light", [255, 255, 255], (1, 1))];
    let model = quadrant_model(16, 16, [[0, 0, 0, 255], [0, 0, 0, 255], WHITE, [0, 0, 0, 255]]);
    let thumbs = vec![Some(solid_tile(64, 64, RED)), None];
    assert_eq!(
        create_mosaic(&model, &pics, &thumbs, (1, 1)),
        Err(MosaicError::MissingThumbnail { index: 1 })
    );
}

#[test]
fn missing_thumbnail_of_a_picture_that_is_not_chosen_does_not_matter() {
    let pics = vec![flat_entry("dark", [0, 0, 0], (1, 1)), flat_entry("light", [255, 255, 255], (1, 1))];
    let model = solid_tile(16, 16, [20, 20, 20, 255]);
    let thumbs = vec![Some(solid_tile(64, 64, RED)), None];
    let canvas = create_mosaic(&model, &pics, &thumbs, (1, 1)).unwrap();
    assert_tile(&canvas, 1, 1, 64, 64, RED);
}

#[test]
fn first_tile_that_fails_is_reported() {
    let layout = MosaicLayout { chunk_w: 8, chunk_h: 8, tile_w: 4, tile_h: 4, cols: 3, rows: 1 };
    let thumbs = vec![Some(solid_tile(4, 4, RED)), Some(solid_tile(4, 5, BLUE)), None];
    assert_eq!(compose(&layout, &[0, 1, 2], &thumbs), Err(MosaicError::TileOutOfCanvas { tile: 1 }));
    assert_eq!(compose(&layout, &[0, 2, 1], &thumbs), Err(MosaicError::MissingThumbnail { index: 2 }));
    assert_eq!(compose(&layout, &[1, 0, 0], &thumbs), Err(MosaicError::TileOutOfCanvas { tile: 0 }));
    assert!(compose(&layout, &[0, 0, 0], &thumbs).is_ok());
}

#[test]
fn layout_for_a_square_model() {
    assert_eq!(
        plan_layout(100, 50, (1, 1)),
        Ok(MosaicLayout { chunk_w: 8, chunk_h: 8, tile_w: 64, tile_h: 64, cols: 12, rows: 6 })
    );
    assert_eq!(mosaic::CHUNK_SIZE, 8);
}

#[test]
fn layout_for_landscape_and_portrait_models() {
    assert_eq!(
        plan_layout(1600, 1200, (4, 3)),
        Ok(MosaicLayout { chunk_w: 8, chunk_h: 6, tile_w: 64, tile_h: 48, cols: 200, rows: 200 })
    );
    assert_eq!(
        plan_layout(900, 1600, (9, 16)),
        Ok(MosaicLayout { chunk_w: 4, chunk_h: 8, tile_w: 36, tile_h: 64, cols: 225, rows: 200 })
    );
}

#[test]
fn ratio_too_thin_for_a_chunk_is_refused() {
    assert_eq!(
        plan_layout(1600, 100, (16, 1)),
        Err(MosaicError::RatioTooThin { ratio_width: 16, ratio_height: 1 })
    );
    assert_eq!(
        plan_layout(100, 900, (1, 9)),
        Err(MosaicError::RatioTooThin { ratio_width: 1, ratio_height: 9 })
    );
    assert!(plan_layout(800, 100, (8, 1)).is_ok());
    let pics = vec![flat_entry("a", [0, 0, 0], (16, 1))];
    let model = solid_tile(32, 2, RED);
    assert_eq!(
        create_mosaic(&model, &pics, &[None], (16, 1)),
        Err(MosaicError::RatioTooThin { ratio_width: 16, ratio_height: 1 })
    );
}

#[test]
fn canvas_wider_than_u32_is_refused() {
    assert_eq!(plan_layout(u32::MAX, 8, (1, 1)), Err(MosaicError::CanvasTooLarge));
    assert_eq!(plan_layout(8, u32::MAX, (1, 1)), Err(MosaicError::CanvasTooLarge));
    assert!(plan_layout(u32::MAX / 8, 8, (1, 1)).is_ok());
}

#[test]
fn pictures_of_the_model_ratio_are_selected() {
    let metadata = ProcessedPictureMetadata {
        pictures: vec![
            flat_entry("a", [1, 1, 1], (16, 9)),
            flat_entry("b", [2, 2, 2], (4, 3)),
            flat_entry("c", [3, 3, 3], (16, 9)),
        ],
    };
    assert_eq!(
        select_pictures(metadata.clone(), (16, 9)),
        Ok(vec![flat_entry("a", [1, 1, 1], (16, 9)), flat_entry("c", [3, 3, 3], (16, 9))])
    );
    assert_eq!(select_pictures(metadata, (4, 3)), Ok(vec![flat_entry("b", [2, 2, 2], (4, 3))]));
}

#[test]
fn catalogue_without_the_model_ratio_fails_and_names_the_ratio() {
    let metadata = ProcessedPictureMetadata {
        pictures: vec![flat_entry("a", [1, 1, 1], (16, 9)), flat_entry("b", [2, 2, 2], (16, 9))],
    };
    let ratio = compute_ratio(800, 600);
    assert_eq!(ratio, (4, 3));
    let error = select_pictures(metadata.clone(), ratio).unwrap_err();
    assert_eq!(error, MosaicError::NoMatchingPicture { ratio_width: 4, ratio_height: 3 });
    assert!(error.message().contains("4/3"));
    assert_eq!(error.message(), "No processed pictures found with the same ratio (4/3)");
    // The same catalogue and the same model fail in the same way every time.
    assert_eq!(select_pictures(metadata, ratio).unwrap_err(), error);
}

#[test]
fn empty_catalogue_fails_for_every_ratio() {
    let metadata = ProcessedPictureMetadata { pictures: vec![] };
    assert_eq!(
        select_pictures(metadata, (1, 1)),
        Err(MosaicError::NoMatchingPicture { ratio_width: 1, ratio_height: 1 })
    );
}
