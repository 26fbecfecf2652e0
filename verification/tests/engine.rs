use mosaic::color::{average_color, dist_sq, Color};
use mosaic::compose::compose;
use mosaic::img::Img;
use mosaic::pipeline::{run, MosaicError};
use mosaic::tiles::TileLibrary;

fn solid_img(width: u32, height: u32, p: (u8, u8, u8)) -> Img {
    let pixels = vec![p; (width * height) as usize];
    Img { width, height, pixels }
}

fn png_bytes(width: u32, height: u32, rgb: (u8, u8, u8)) -> Vec<u8> {
    let mut img = image::RgbImage::new(width, height);
    for p in img.pixels_mut() {
        *p = image::Rgb([rgb.0, rgb.1, rgb.2]);
    }
    let mut bytes: Vec<u8> = Vec::new();
    let mut cur = std::io::Cursor::new(&mut bytes);
    image::DynamicImage::ImageRgb8(img)
        .write_to(&mut cur, image::ImageFormat::Png)
        .unwrap();
    bytes
}

#[test]
fn average_of_uniform_region_is_exact() {
    let img = solid_img(3, 3, (10, 20, 30));
    let c = average_color(&img, 0, 0, 3, 3);
    assert_eq!(c, Color { r: 10 * 256, g: 20 * 256, b: 30 * 256 });
}

#[test]
fn average_of_single_pixel() {
    let img = solid_img(1, 1, (255, 0, 7));
    let c = average_color(&img, 0, 0, 1, 1);
    assert_eq!(c, Color { r: 255 * 256, g: 0, b: 7 * 256 });
}

#[test]
fn average_of_mixed_region_rounds_down() {
    let img = Img { width: 2, height: 1, pixels: vec![(255, 0, 1), (0, 0, 0)] };
    let c = average_color(&img, 0, 0, 2, 1);
    assert_eq!(c, Color { r: 255 * 256 / 2, g: 0, b: 256 / 2 });
}

#[test]
fn average_of_subregion() {
    // 2x2 image: left column red, right column black; the right column
    // region averages to black.
    let img = Img {
        width: 2,
        height: 2,
        pixels: vec![(255, 0, 0), (0, 0, 0), (255, 0, 0), (0, 0, 0)],
    };
    let c = average_color(&img, 1, 0, 1, 2);
    assert_eq!(c, Color { r: 0, g: 0, b: 0 });
}

#[test]
fn distance_is_squared_euclidean() {
    let a = Color { r: 0, g: 0, b: 0 };
    let b = Color { r: 3, g: 4, b: 12 };
    assert_eq!(dist_sq(&a, &b), 9 + 16 + 144);
    assert_eq!(dist_sq(&a, &a), 0);
}

#[test]
fn nearest_returns_exact_match() {
    let blue = solid_img(1, 1, (0, 0, 255));
    let red = solid_img(1, 1, (255, 0, 0));
    let lib = TileLibrary::from_images(vec![blue, red], 1, 1).unwrap();
    let red_avg = Color { r: 255 * 256, g: 0, b: 0 };
    let blue_avg = Color { r: 0, g: 0, b: 255 * 256 };
    assert_eq!(lib.nearest(&red_avg), 1);
    assert_eq!(lib.nearest(&blue_avg), 0);
}

#[test]
fn nearest_tie_keeps_lower_index() {
    let a = solid_img(1, 1, (9, 9, 9));
    let b = solid_img(1, 1, (9, 9, 9));
    let lib = TileLibrary::from_images(vec![a, b], 1, 1).unwrap();
    // Both tiles have the identical average color: any query must pick
    // index 0, never index 1.
    assert_eq!(lib.nearest(&Color { r: 9 * 256, g: 9 * 256, b: 9 * 256 }), 0);
    assert_eq!(lib.nearest(&Color { r: 65280, g: 0, b: 65280 }), 0);
}

#[test]
fn empty_input_yields_empty_library() {
    let files: Vec<Vec<u8>> = vec![];
    let r = TileLibrary::build_from_bytes(&files, 50, 50);
    assert!(matches!(r, Err(MosaicError::EmptyLibrary)));
}

#[test]
fn undecodable_inputs_yield_empty_library() {
    let files: Vec<Vec<u8>> = vec![b"not an image".to_vec(), vec![0xFF, 0xD8, 0x00]];
    let r = TileLibrary::build_from_bytes(&files, 50, 50);
    assert!(matches!(r, Err(MosaicError::EmptyLibrary)));
}

#[test]
fn corrupted_file_is_skipped_not_fatal() {
    // One valid PNG and one corrupted byte stream: the build succeeds
    // with exactly one tile, and that tile keeps the PNG's color.
    let good = png_bytes(4, 4, (200, 10, 10));
    let mut bad = png_bytes(4, 4, (200, 10, 10));
    bad.truncate(20);
    let files = vec![good, bad];
    let lib = TileLibrary::build_from_bytes(&files, 2, 2).unwrap();
    assert_eq!(lib.tiles.len(), 1);
    assert_eq!(lib.tiles[0].avg, Color { r: 200 * 256, g: 10 * 256, b: 10 * 256 });
    assert_eq!(lib.tiles[0].img.width, 2);
    assert_eq!(lib.tiles[0].img.height, 2);
}

#[test]
fn canvas_dimensions_follow_floor_division() {
    let tile = solid_img(3, 2, (1, 2, 3));
    let lib = TileLibrary::from_images(vec![tile], 3, 2).unwrap();
    let source = solid_img(11, 7, (50, 50, 50));
    let canvas = compose(&source, &lib, 5);
    // floor(11/5) = 2 columns, floor(7/5) = 1 row.
    assert_eq!(canvas.width, 2 * 3);
    assert_eq!(canvas.height, 1 * 2);
}

#[test]
fn seven_by_seven_gives_one_tile_block() {
    // 7x7 source with stride 5: only the top-left 5x5 cell is processed,
    // and the canvas is exactly one tile-sized block.
    let tile = solid_img(2, 2, (7, 7, 7));
    let lib = TileLibrary::from_images(vec![tile], 2, 2).unwrap();
    let source = solid_img(7, 7, (100, 0, 0));
    let canvas = compose(&source, &lib, 5);
    assert_eq!(canvas.width, 2);
    assert_eq!(canvas.height, 2);
    assert_eq!(canvas.pixels, vec![(7, 7, 7); 4]);
}

#[test]
fn solid_red_source_paints_red_tile_everywhere() {
    // 10x10 solid red source, stride 5, a red and a blue 2x2 tile: the
    // canvas is a 2x2 grid of the red tile, 4x4 pixels of pure red.
    let red_tile = solid_img(2, 2, (255, 0, 0));
    let blue_tile = solid_img(2, 2, (0, 0, 255));
    let lib = TileLibrary::from_images(vec![red_tile, blue_tile], 2, 2).unwrap();
    let source = solid_img(10, 10, (255, 0, 0));
    let canvas = compose(&source, &lib, 5);
    assert_eq!(canvas.width, 4);
    assert_eq!(canvas.height, 4);
    assert_eq!(canvas.pixels, vec![(255, 0, 0); 16]);
}

#[test]
fn full_run_matches_scenario() {
    let tiles = vec![png_bytes(2, 2, (255, 0, 0)), png_bytes(2, 2, (0, 0, 255))];
    let source = png_bytes(10, 10, (255, 0, 0));
    let canvas = run(&tiles, &source, 5, 2, 2).unwrap();
    assert_eq!(canvas.width, 4);
    assert_eq!(canvas.height, 4);
    assert_eq!(canvas.pixels, vec![(255, 0, 0); 16]);
}

#[test]
fn full_run_is_deterministic() {
    let tiles = vec![
        png_bytes(3, 5, (12, 200, 9)),
        png_bytes(8, 2, (0, 77, 130)),
        png_bytes(4, 4, (250, 250, 3)),
    ];
    let source = png_bytes(23, 17, (40, 90, 140));
    let first = run(&tiles, &source, 5, 4, 4).unwrap();
    let second = run(&tiles, &source, 5, 4, 4).unwrap();
    assert_eq!(first, second);
}

#[test]
fn undecodable_source_is_reported() {
    let tiles = vec![png_bytes(2, 2, (1, 1, 1))];
    let source = b"definitely not a raster".to_vec();
    let r = run(&tiles, &source, 5, 2, 2);
    assert!(matches!(r, Err(MosaicError::SourceImageUndecodable)));
}

#[test]
fn empty_library_is_reported_by_run() {
    let tiles: Vec<Vec<u8>> = vec![];
    let source = png_bytes(10, 10, (1, 1, 1));
    let r = run(&tiles, &source, 5, 2, 2);
    assert!(matches!(r, Err(MosaicError::EmptyLibrary)));
}

#[test]
fn large_source_is_bounded_before_composing() {
    // A 600x600 source is downscaled to 500x500 before the grid is cut:
    // with stride 5 and 2x2 tiles the canvas is 200x200.
    let tiles = vec![png_bytes(2, 2, (128, 128, 128))];
    let source = png_bytes(600, 600, (128, 128, 128));
    let canvas = run(&tiles, &source, 5, 2, 2).unwrap();
    assert_eq!(canvas.width, 200);
    assert_eq!(canvas.height, 200);
}

#[test]
fn small_source_is_not_upscaled() {
    // A 10x10 source stays 10x10: the grid has 2x2 cells, not more.
    let tiles = vec![png_bytes(2, 2, (9, 9, 9))];
    let source = png_bytes(10, 10, (9, 9, 9));
    let canvas = run(&tiles, &source, 5, 2, 2).unwrap();
    assert_eq!(canvas.width, 4);
    assert_eq!(canvas.height, 4);
}

#[test]
fn args_hold_the_run_settings() {
    let args = mosaic::args::MosaicArgs {
        input: String::from("in.png"),
        output: String::from("out.png"),
        tiles: String::from("tiles"),
    };
    assert_eq!(args.input, "in.png");
    assert_eq!(args.output, "out.png");
    assert_eq!(args.tiles, "tiles");
}
