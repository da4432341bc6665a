use photomosaic::color::Color;
use photomosaic::errors::AppError;
use photomosaic::fixed::ONE;
use photomosaic::generate::{check_loaded, finish, MosaicConfig, Target};
use photomosaic::library::{needs_rebuild, TileLibrary};
use photomosaic::mask::WeightingMask;
use photomosaic::raster::Raster;
use photomosaic::source::{
    is_supported_extension, load_library, tile_of, tile_of_prepared, tiles_of_prepared, SourceFile,
};
use photomosaic::tile::Tile;

fn solid(width: u32, height: u32, rgba: [u8; 4]) -> Raster {
    let mut pixels = Vec::new();
    for _ in 0..(width * height) {
        pixels.extend_from_slice(&rgba);
    }
    Raster::from_raw(width, height, pixels).unwrap()
}

fn solid_png(width: u32, height: u32, rgba: [u8; 4]) -> Vec<u8> {
    solid(width, height, rgba).encode_png().unwrap()
}

fn file(path: &str, bytes: Vec<u8>) -> SourceFile {
    let extension = std::path::Path::new(path).extension().map(|e| e.to_string_lossy().into_owned());
    SourceFile { path: path.to_string(), extension, bytes }
}

fn four_color_files() -> Vec<SourceFile> {
    vec![
        file("tiles/red.png", solid_png(8, 8, [255, 0, 0, 255])),
        file("tiles/green.png", solid_png(8, 8, [0, 255, 0, 255])),
        file("tiles/blue.png", solid_png(8, 8, [0, 0, 255, 255])),
        file("tiles/white.png", solid_png(8, 8, [255, 255, 255, 255])),
    ]
}

fn four_color_library(tile_size: u32) -> TileLibrary {
    let mask = WeightingMask::uniform(tile_size).unwrap();
    TileLibrary::build("tiles".to_string(), 0, mask, four_color_files()).unwrap()
}

fn decode_data_uri(uri: &str) -> Raster {
    let payload = uri.strip_prefix("data:image/png;base64,").unwrap();
    let table = b"ABCDEFGHIJKLMNOPQRSTUVWXYZabcdefghijklmnopqrstuvwxyz0123456789+/";
    let mut bytes = Vec::new();
    for group in payload.as_bytes().chunks(4) {
        let mut n: u32 = 0;
        let mut pad = 0;
        for c in group {
            n <<= 6;
            if *c == b'=' {
                pad += 1;
            } else {
                n |= table.iter().position(|t| t == c).unwrap() as u32;
            }
        }
        bytes.push((n >> 16) as u8);
        if pad < 2 {
            bytes.push((n >> 8) as u8);
        }
        if pad < 1 {
            bytes.push(n as u8);
        }
    }
    Raster::decode(&bytes).unwrap()
}

#[test]
fn extensions_are_matched_in_any_case() {
    for ext in ["jpg", "JPG", "Jpg", "jpeg", "JPEG", "JpEg", "png", "PNG", "pNg"] {
        assert!(is_supported_extension(ext), "{}", ext);
    }
    for ext in ["", "gif", "jp", "jpgg", "pngx", "txt", "jpe", "bmp", "j\u{0070}\u{0261}", "\u{212a}pg"] {
        assert!(!is_supported_extension(ext), "{}", ext);
    }
}

#[test]
fn files_are_judged_by_their_extension() {
    assert!(file("a/b/c.png", Vec::new()).is_supported());
    assert!(file("photo.JPEG", Vec::new()).is_supported());
    assert!(file("archive.tar.jpg", Vec::new()).is_supported());
    assert!(!file("a/b/c.gif", Vec::new()).is_supported());
    assert!(!file("png", Vec::new()).is_supported());
    assert!(!file("dir.png/readme", Vec::new()).is_supported());
    let bare = SourceFile { path: "x.png".to_string(), extension: None, bytes: Vec::new() };
    assert!(!bare.is_supported());
}

#[test]
fn tile_of_skips_other_kinds_and_broken_images() {
    let mask = WeightingMask::uniform(4).unwrap();
    let tile = tile_of(file("a.png", solid_png(8, 8, [9, 9, 9, 255])), &mask).unwrap();
    assert_eq!(tile.path(), "a.png");
    assert_eq!(tile.color(), Color::from_rgb8(9, 9, 9));
    assert!(tile_of(file("a.txt", solid_png(8, 8, [9, 9, 9, 255])), &mask).is_none());
    assert!(tile_of(file("a.png", b"junk".to_vec()), &mask).is_none());
}

#[test]
fn tile_of_prepared_needs_extension_and_picture() {
    let mask = WeightingMask::uniform(4).unwrap();
    let png = Some("PNG".to_string());
    let txt = Some("txt".to_string());
    let tile = tile_of_prepared("a.PNG".to_string(), &png, Ok(solid(4, 4, [1, 2, 3, 255])), &mask).unwrap();
    assert_eq!(tile.color(), Color::from_rgb8(1, 2, 3));
    assert!(tile_of_prepared("a".to_string(), &txt, Ok(solid(4, 4, [1, 2, 3, 255])), &mask).is_none());
    assert!(tile_of_prepared("a".to_string(), &None, Ok(solid(4, 4, [1, 2, 3, 255])), &mask).is_none());
    assert!(tile_of_prepared("a".to_string(), &png, Ok(solid(4, 3, [1, 2, 3, 255])), &mask).is_none());
    assert!(tile_of_prepared("a".to_string(), &png, Err(AppError::Image("x".to_string())), &mask).is_none());
}

#[test]
fn library_takes_supported_images_only() {
    let mut files = four_color_files();
    files.insert(1, file("notes.txt", b"hello".to_vec()));
    files.insert(3, file("tiles/picture.gif", solid_png(8, 8, [1, 2, 3, 255])));
    files.push(file("tiles/broken.png", b"not a png".to_vec()));
    files.push(file("tiles/noext", solid_png(8, 8, [1, 2, 3, 255])));
    let mask = WeightingMask::uniform(4).unwrap();
    let tiles = load_library(files, &mask);
    let paths: Vec<&str> = tiles.iter().map(|t| t.path().as_str()).collect();
    assert_eq!(paths, vec!["tiles/red.png", "tiles/green.png", "tiles/blue.png", "tiles/white.png"]);
    assert_eq!(tiles[0].color(), Color::from_rgb8(255, 0, 0));
    assert_eq!(tiles[3].color(), Color::from_rgb8(255, 255, 255));
    assert!(tiles.iter().all(|t| t.tile_size() == 4 && !t.is_loaded()));
}

#[test]
fn library_size_does_not_depend_on_other_files() {
    let mask = WeightingMask::uniform(4).unwrap();
    for extra in [0usize, 1, 5] {
        let mut files = four_color_files();
        for i in 0..extra {
            files.push(file(&format!("junk{}.txt", i), vec![i as u8; 10]));
        }
        assert_eq!(load_library(files, &mask).len(), 4);
    }
}

#[test]
fn tiles_of_prepared_keeps_every_prepared_picture_of_a_supported_file() {
    let mask = WeightingMask::uniform(4).unwrap();
    let files = vec![
        file("a.JPG", Vec::new()),
        file("notes.txt", Vec::new()),
        file("b.Jpeg", Vec::new()),
        file("broken.png", Vec::new()),
        file("c.PNG", Vec::new()),
        file("wrong_size.png", Vec::new()),
        file("png", Vec::new()),
        file("d.png", Vec::new()),
    ];
    let prepared = vec![
        Ok(solid(4, 4, [10, 0, 0, 255])),
        Ok(solid(4, 4, [20, 0, 0, 255])),
        Ok(solid(4, 4, [30, 0, 0, 255])),
        Err(AppError::Image("broken".to_string())),
        Ok(solid(4, 4, [50, 0, 0, 255])),
        Ok(solid(4, 5, [60, 0, 0, 255])),
        Ok(solid(4, 4, [70, 0, 0, 255])),
        Ok(solid(4, 4, [80, 0, 0, 255])),
    ];
    let tiles = tiles_of_prepared(files, prepared, &mask);
    let found: Vec<(String, Color)> = tiles.iter().map(|t| (t.path().clone(), t.color())).collect();
    assert_eq!(
        found,
        vec![
            ("a.JPG".to_string(), Color::from_rgb8(10, 0, 0)),
            ("b.Jpeg".to_string(), Color::from_rgb8(30, 0, 0)),
            ("c.PNG".to_string(), Color::from_rgb8(50, 0, 0)),
            ("d.png".to_string(), Color::from_rgb8(80, 0, 0)),
        ]
    );
    assert!(tiles_of_prepared(Vec::new(), Vec::new(), &mask).is_empty());
}

#[test]
fn library_of_prepared_pictures_needs_a_tile() {
    let mask = WeightingMask::uniform(4).unwrap();
    let files = vec![file("a.png", Vec::new()), file("b.txt", Vec::new())];
    let prepared = vec![Ok(solid(4, 4, [9, 8, 7, 255])), Ok(solid(4, 4, [1, 1, 1, 255]))];
    let library = TileLibrary::build_of_prepared("dir".to_string(), 0, mask, files, prepared).unwrap();
    assert_eq!(library.len(), 1);
    assert_eq!(library.tile(0).path(), "a.png");
    assert_eq!(library.tile(0).color(), Color::from_rgb8(9, 8, 7));
    let mask = WeightingMask::uniform(4).unwrap();
    let files = vec![file("a.png", Vec::new()), file("b.txt", Vec::new())];
    let prepared = vec![Err(AppError::Image("x".to_string())), Ok(solid(4, 4, [1, 1, 1, 255]))];
    let res = TileLibrary::build_of_prepared("dir".to_string(), 0, mask, files, prepared);
    assert!(matches!(res, Err(AppError::Config(_))));
}

#[test]
fn library_keeps_the_tiles_when_files_fail_or_are_of_other_kinds() {
    let mask = WeightingMask::uniform(4).unwrap();
    let plain: Vec<(String, Color)> =
        load_library(four_color_files(), &mask).iter().map(|t| (t.path().clone(), t.color())).collect();
    let mut files = four_color_files();
    files.insert(0, file("tiles/notes.txt", b"hello".to_vec()));
    files.insert(2, file("tiles/broken.jpg", b"not a jpeg".to_vec()));
    files.push(file("tiles/cut.png", solid_png(8, 8, [1, 2, 3, 255])[..20].to_vec()));
    let mixed: Vec<(String, Color)> =
        load_library(files, &mask).iter().map(|t| (t.path().clone(), t.color())).collect();
    assert_eq!(mixed, plain);
}

#[test]
fn library_without_tiles_is_a_configuration_error() {
    let mask = WeightingMask::uniform(4).unwrap();
    let files = vec![file("a.txt", vec![1, 2, 3]), file("b.png", vec![1, 2, 3])];
    let res = TileLibrary::build("dir".to_string(), 0, mask, files);
    assert!(matches!(res, Err(AppError::Config(_))));
    let mask = WeightingMask::uniform(4).unwrap();
    let res = TileLibrary::new("dir".to_string(), 4, 0, mask, Vec::new());
    assert!(matches!(res, Err(AppError::Config(_))));
}

#[test]
fn library_refuses_mismatched_sizes() {
    let mask = WeightingMask::uniform(4).unwrap();
    let tiles = load_library(four_color_files(), &mask);
    let res = TileLibrary::new("dir".to_string(), 8, 0, mask, tiles);
    assert!(matches!(res, Err(AppError::Config(_))));
    let mask = WeightingMask::uniform(4).unwrap();
    let other = WeightingMask::uniform(8).unwrap();
    let tiles = load_library(four_color_files(), &other);
    let res = TileLibrary::new("dir".to_string(), 4, 0, mask, tiles);
    assert!(matches!(res, Err(AppError::Config(_))));
}

#[test]
fn library_keeps_tiles_in_index_order() {
    let library = four_color_library(4);
    assert_eq!(library.len(), 4);
    assert_eq!(library.tile_size(), 4);
    assert_eq!(library.mask().size(), 4);
    for i in 0..4 {
        assert_eq!(library.index().point(i), library.tile(i).color());
    }
    assert_eq!(library.tiles().len(), 4);
}

#[test]
fn matches_config_compares_all_three_fields() {
    let mask = WeightingMask::uniform(32).unwrap();
    let tiles = vec![Tile::new("dir/a.png".to_string(), Color::from_rgb8(1, 2, 3), 32).unwrap()];
    let four = 4 * ONE as i64;
    let eight = 8 * ONE as i64;
    let library = TileLibrary::new("dir".to_string(), 32, four, mask, tiles).unwrap();
    assert!(library.matches_config("dir", 32, four));
    assert!(!library.matches_config("dir", 32, eight));
    assert!(!library.matches_config("dir", 64, four));
    assert!(!library.matches_config("other", 32, four));
    assert!(!library.matches_config("Dir", 32, four));
    assert!(!library.matches_config("dir/", 32, four));
    assert!(!library.matches_config("dir", 32, -four));
}

#[test]
fn rebuild_is_needed_without_a_matching_library() {
    let four = 4 * ONE as i64;
    assert!(needs_rebuild(&None, "dir", 32, four));
    let mask = WeightingMask::from_weights(1, vec![9]).unwrap();
    let tiles = vec![Tile::new("dir/a.png".to_string(), Color::from_rgb8(1, 2, 3), 1).unwrap()];
    let current = Some(TileLibrary::new("dir".to_string(), 1, four, mask, tiles).unwrap());
    assert!(!needs_rebuild(&current, "dir", 1, four));
    assert!(needs_rebuild(&current, "dir", 1, 8 * ONE as i64));
    assert!(needs_rebuild(&current, "dir", 2, four));
    assert!(needs_rebuild(&current, "dir2", 1, four));
}

#[test]
fn tile_new_checks_its_arguments() {
    assert!(Tile::new("a".to_string(), Color::from_rgb8(0, 0, 0), 1).is_some());
    assert!(Tile::new("a".to_string(), Color::from_rgb8(0, 0, 0), 0).is_none());
    assert!(Tile::new("a".to_string(), Color { r: 255 * ONE + 1, g: 0, b: 0 }, 1).is_none());
    let tile = Tile::new("p".to_string(), Color::from_rgb8(1, 2, 3), 9).unwrap();
    assert_eq!(tile.path(), "p");
    assert_eq!(tile.color(), Color::from_rgb8(1, 2, 3));
    assert_eq!(tile.tile_size(), 9);
    assert!(tile.image().is_none());
    let copy = Tile::stand_in(&tile);
    assert_eq!(copy.path(), "p");
    assert_eq!(copy.tile_size(), 9);
}

#[test]
fn tile_from_prepared_needs_a_picture_of_the_mask_size() {
    let mask = WeightingMask::uniform(4).unwrap();
    let tile = Tile::from_prepared("a".to_string(), Ok(solid(4, 4, [5, 6, 7, 255])), &mask).unwrap();
    assert_eq!(tile.color(), Color::from_rgb8(5, 6, 7));
    assert_eq!(tile.tile_size(), 4);
    assert!(!tile.is_loaded());
    assert!(Tile::from_prepared("a".to_string(), Ok(solid(4, 5, [5, 6, 7, 255])), &mask).is_none());
    assert!(Tile::from_prepared("a".to_string(), Err(AppError::Image("x".to_string())), &mask).is_none());
}

#[test]
fn tile_of_scales_the_picture() {
    let mask = WeightingMask::uniform(4).unwrap();
    let tile = tile_of(file("a.png", solid_png(20, 10, [50, 60, 70, 255])), &mask).unwrap();
    assert_eq!(tile.color(), Color::from_rgb8(50, 60, 70));
    assert_eq!(tile.tile_size(), 4);
    let prepared = Tile::prepare(&solid_png(20, 10, [50, 60, 70, 255]), 4).unwrap();
    assert_eq!((prepared.width(), prepared.height()), (4, 4));
    assert!(matches!(Tile::prepare(&b"junk".to_vec(), 4), Err(AppError::Image(_))));
}

#[test]
fn tile_loads_its_picture_once() {
    let mut tile = Tile::new("a.png".to_string(), Color::from_rgb8(1, 1, 1), 4).unwrap();
    tile.load_image(&solid_png(9, 9, [10, 20, 30, 255])).unwrap();
    assert!(tile.is_loaded());
    let first = tile.image().unwrap().as_bytes().clone();
    assert_eq!(first.len(), 4 * 4 * 4);
    assert_eq!(&first[..4], &[10, 20, 30, 255]);
    // A second load, even of another picture or of garbage, leaves the cache alone.
    tile.load_image(&solid_png(9, 9, [200, 200, 200, 255])).unwrap();
    assert_eq!(tile.image().unwrap().as_bytes(), &first);
    tile.load_image(&b"junk".to_vec()).unwrap();
    assert_eq!(tile.image().unwrap().as_bytes(), &first);
}

#[test]
fn tile_load_failure_names_the_path() {
    let mut tile = Tile::new("dir/a.png".to_string(), Color::from_rgb8(1, 1, 1), 4).unwrap();
    match tile.load_image(&b"junk".to_vec()) {
        Err(AppError::Image(text)) => assert!(text.starts_with("dir/a.png: ")),
        other => panic!("unexpected {:?}", other),
    }
    assert!(!tile.is_loaded());
    match tile.store_prepared(Ok(solid(5, 4, [0, 0, 0, 255]))) {
        Err(AppError::Image(text)) => assert!(text.starts_with("dir/a.png: ")),
        other => panic!("unexpected {:?}", other),
    }
    match tile.store_prepared(Err(AppError::Io("gone".to_string()))) {
        Err(AppError::Image(text)) => assert_eq!(text, "dir/a.png: gone"),
        other => panic!("unexpected {:?}", other),
    }
    assert!(tile.store_prepared(Ok(solid(4, 4, [0, 0, 0, 255]))).is_ok());
    assert!(tile.is_loaded());
}

#[test]
fn library_stores_pictures_by_tile() {
    let mut library = four_color_library(4);
    let files = four_color_files();
    assert_eq!(library.missing_images(&vec![2, 0, 2, 2]), vec![0, 2]);
    library.store_image(2, &files[2].bytes).unwrap();
    assert!(library.tile(2).is_loaded());
    assert!(!library.tile(0).is_loaded());
    assert_eq!(library.missing_images(&vec![2, 0, 2, 2]), vec![0]);
    assert_eq!(library.missing_images(&vec![2, 2]), Vec::<usize>::new());
    assert_eq!(library.missing_images(&vec![3, 1, 9]), vec![1, 3]);
    match library.store_image(1, &b"junk".to_vec()) {
        Err(AppError::Image(text)) => assert!(text.starts_with("tiles/green.png: ")),
        other => panic!("unexpected {:?}", other),
    }
    assert!(!library.tile(1).is_loaded());
    assert!(library.store_prepared(1, Ok(solid(4, 4, [0, 255, 0, 255]))).is_ok());
    assert!(library.tile(1).is_loaded());
    assert_eq!(library.index().point(1), Color::from_rgb8(0, 255, 0));
}

#[test]
fn check_loaded_wants_every_chosen_tile() {
    let mut library = four_color_library(4);
    let files = four_color_files();
    assert!(check_loaded(library.tiles(), &Vec::new()));
    assert!(!check_loaded(library.tiles(), &vec![0]));
    library.store_image(0, &files[0].bytes).unwrap();
    assert!(check_loaded(library.tiles(), &vec![0, 0]));
    assert!(!check_loaded(library.tiles(), &vec![0, 1]));
    assert!(!check_loaded(library.tiles(), &vec![0, 4]));
}

#[test]
fn aligned_target_is_taken_as_it_is() {
    let mut pixels = Vec::new();
    for i in 0..(8 * 4) {
        pixels.extend_from_slice(&[i as u8, (i * 3) as u8, (i * 5) as u8, 255]);
    }
    let picture = Raster::from_raw(8, 4, pixels.clone()).unwrap();
    let target = Target::pad(picture, 4).unwrap();
    assert_eq!(target.image().as_bytes(), &pixels);
    assert_eq!((target.width(), target.height()), (8, 4));
    assert_eq!(target.grid().columns, 2);
    assert_eq!(target.grid().rows, 1);
}

#[test]
fn unaligned_target_is_stretched_to_whole_cells() {
    let target = Target::pad(solid(9, 5, [10, 20, 30, 255]), 4).unwrap();
    assert_eq!((target.width(), target.height()), (9, 5));
    assert_eq!((target.image().width(), target.image().height()), (12, 8));
    assert_eq!(target.grid().columns, 3);
    assert_eq!(target.grid().rows, 2);
    assert_eq!(target.image().channel(11, 7, 1), 20);
}

#[test]
fn target_padding_refuses_empty_input() {
    assert!(matches!(Target::pad(solid(9, 5, [0, 0, 0, 0]), 0), Err(AppError::Image(_))));
    let empty = Raster::from_raw(0, 0, Vec::new()).unwrap();
    assert!(matches!(Target::pad(empty, 4), Err(AppError::Image(_))));
}

#[test]
fn finish_wraps_the_png_or_hands_on_the_error() {
    assert_eq!(finish(Ok(b"foo".to_vec())), Ok("data:image/png;base64,Zm9v".to_string()));
    assert_eq!(finish(Err(AppError::Image("x".to_string()))), Err(AppError::Image("x".to_string())));
}

#[test]
fn mosaic_of_four_quadrants_picks_the_matching_tiles() {
    let size = 4;
    let mut library = four_color_library(size);
    let files = four_color_files();
    let colors = [[0u8, 0, 255, 255], [255, 255, 255, 255], [0, 255, 0, 255], [255, 0, 0, 255]];
    let mut pixels = Vec::new();
    for y in 0..(2 * size) {
        for x in 0..(2 * size) {
            let quadrant = (y / size) * 2 + x / size;
            pixels.extend_from_slice(&colors[quadrant as usize]);
        }
    }
    let picture = Raster::from_raw(2 * size, 2 * size, pixels.clone()).unwrap();
    let target = Target::pad(picture, size).unwrap();
    let config = MosaicConfig { penalty_factor: 0 };
    let choices = library.plan(&target, &config).unwrap();
    assert_eq!(choices, vec![2, 3, 1, 0]);
    for t in library.missing_images(&choices) {
        library.store_image(t, &files[t].bytes).unwrap();
    }
    let uri = library.render(&target, &choices).unwrap();
    let mosaic = decode_data_uri(&uri);
    assert_eq!((mosaic.width(), mosaic.height()), (2 * size, 2 * size));
    assert_eq!(mosaic.as_bytes(), &pixels);
}

#[test]
fn mosaic_is_cut_back_to_the_target_size() {
    let mut library = four_color_library(4);
    let files = four_color_files();
    for t in 0..4 {
        library.store_image(t, &files[t].bytes).unwrap();
    }
    let png = solid_png(10, 6, [250, 5, 5, 255]);
    let uri = library.generate_mosaic(&png, &MosaicConfig { penalty_factor: 0 }).unwrap();
    let mosaic = decode_data_uri(&uri);
    assert_eq!((mosaic.width(), mosaic.height()), (10, 6));
    for y in 0..6 {
        for x in 0..10 {
            assert_eq!(mosaic.channel(x, y, 0), 255);
            assert_eq!(mosaic.channel(x, y, 1), 0);
            assert_eq!(mosaic.channel(x, y, 3), 255);
        }
    }
}

#[test]
fn mosaic_with_penalty_varies_the_tiles() {
    let mut library = four_color_library(4);
    let files = four_color_files();
    for t in 0..4 {
        library.store_image(t, &files[t].bytes).unwrap();
    }
    let target = Target::pad(solid(20, 4, [255, 0, 0, 255]), 4).unwrap();
    let free = library.plan(&target, &MosaicConfig { penalty_factor: 0 }).unwrap();
    assert_eq!(free, vec![0, 0, 0, 0, 0]);
    // Green, blue and white are each 2 * 255^2 = 130050 away from red; at a factor of
    // 3000 one use costs 150000, so every tile is used once before red returns.
    let dear = library.plan(&target, &MosaicConfig { penalty_factor: 3000 * ONE }).unwrap();
    assert_eq!(dear, vec![0, 1, 2, 3, 0]);
    // At a factor of 2000 one use costs 100000: red is used twice before the others.
    let mild = library.plan(&target, &MosaicConfig { penalty_factor: 2000 * ONE }).unwrap();
    assert_eq!(mild, vec![0, 0, 1, 2, 3]);
}

#[test]
fn render_without_pictures_is_an_image_error() {
    let library = four_color_library(4);
    let target = Target::pad(solid(8, 8, [255, 0, 0, 255]), 4).unwrap();
    let choices = library.plan(&target, &MosaicConfig { penalty_factor: 0 }).unwrap();
    assert!(matches!(library.render(&target, &choices), Err(AppError::Image(_))));
}

#[test]
fn mosaic_of_a_decoded_picture_matches_generate_mosaic() {
    let mut library = four_color_library(4);
    let files = four_color_files();
    for t in 0..4 {
        library.store_image(t, &files[t].bytes).unwrap();
    }
    let config = MosaicConfig { penalty_factor: ONE };
    let picture = solid(8, 4, [0, 250, 0, 255]);
    let png = picture.encode_png().unwrap();
    let direct = library.mosaic_of(picture, &config).unwrap();
    assert_eq!(library.generate_mosaic(&png, &config).unwrap(), direct);
    assert!(direct.starts_with("data:image/png;base64,iVBORw0KGgo"));
}

#[test]
fn plan_and_paint_refuse_a_target_of_another_tile_size() {
    let mut library = four_color_library(4);
    let files = four_color_files();
    for t in 0..4 {
        library.store_image(t, &files[t].bytes).unwrap();
    }
    let config = MosaicConfig { penalty_factor: 0 };
    let other = Target::pad(solid(16, 16, [255, 0, 0, 255]), 8).unwrap();
    assert!(matches!(library.plan(&other, &config), Err(AppError::Config(_))));
    assert!(matches!(library.paint(&other, &vec![0, 0, 0, 0]), Err(AppError::Image(_))));
    let target = Target::pad(solid(8, 8, [255, 0, 0, 255]), 4).unwrap();
    assert!(matches!(library.paint(&target, &vec![0, 0, 0]), Err(AppError::Image(_))));
    assert!(matches!(library.paint(&target, &vec![0, 0, 0, 4]), Err(AppError::Image(_))));
    let picture = library.paint(&target, &vec![0, 1, 2, 3]).unwrap();
    assert_eq!((picture.width(), picture.height()), (8, 8));
    assert_eq!(picture.channel(0, 0, 0), 255);
    assert_eq!(picture.channel(4, 0, 1), 255);
    assert_eq!(picture.channel(0, 4, 2), 255);
    assert_eq!(picture.channel(7, 7, 0), 255);
    assert_eq!(picture.channel(7, 7, 1), 255);
}

#[test]
fn mask_by_divisor_is_plain_or_bell() {
    let plain = WeightingMask::new(2, 0, Vec::new()).unwrap();
    assert!(plain.is_uniform());
    assert_eq!(plain.total_weight(), 4 * ONE as u128);
    let plain = WeightingMask::new(2, -5, vec![1, 2, 3]).unwrap();
    assert!(plain.is_uniform());
    let bell = WeightingMask::new(2, 4 * ONE as i64, vec![10, 20, 30, ONE]).unwrap();
    assert!(!bell.is_uniform());
    assert_eq!(bell.weights(), &vec![10, 20, 30, ONE]);
    assert!(WeightingMask::new(2, 1, vec![10, 20, 30]).is_none());
    assert!(WeightingMask::new(0, 0, Vec::new()).is_none());
}

#[test]
fn library_refuses_a_bell_mask_for_a_plain_divisor() {
    let mask = WeightingMask::from_weights(1, vec![7]).unwrap();
    let tiles = vec![Tile::new("a".to_string(), Color::from_rgb8(1, 2, 3), 1).unwrap()];
    assert!(matches!(TileLibrary::new("d".to_string(), 1, 0, mask, tiles), Err(AppError::Config(_))));
    let mask = WeightingMask::from_weights(1, vec![7]).unwrap();
    let tiles = vec![Tile::new("a".to_string(), Color::from_rgb8(1, 2, 3), 1).unwrap()];
    assert!(TileLibrary::new("d".to_string(), 1, 1, mask, tiles).is_ok());
}

#[test]
fn mosaic_of_decoded_hands_on_the_error_of_decoding() {
    let library = four_color_library(4);
    let config = MosaicConfig { penalty_factor: 0 };
    let failed = Err(AppError::Image("no picture".to_string()));
    assert_eq!(library.mosaic_of_decoded(failed, &config), Err(AppError::Image("no picture".to_string())));
    let empty = Raster::from_raw(0, 0, Vec::new()).unwrap();
    assert!(matches!(library.mosaic_of_decoded(Ok(empty), &config), Err(AppError::Image(_))));
}

#[test]
fn generate_mosaic_refuses_a_broken_target() {
    let library = four_color_library(4);
    let res = library.generate_mosaic(&b"junk".to_vec(), &MosaicConfig { penalty_factor: 0 });
    assert!(matches!(res, Err(AppError::Image(_))));
}
