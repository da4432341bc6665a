use photomosaic::errors::{or_image_error, AppError};
use photomosaic::raster::Raster;

fn solid(width: u32, height: u32, rgba: [u8; 4]) -> Raster {
    let mut pixels = Vec::new();
    for _ in 0..(width * height) {
        pixels.extend_from_slice(&rgba);
    }
    Raster::from_raw(width, height, pixels).unwrap()
}

fn gradient(width: u32, height: u32) -> Raster {
    let mut pixels = Vec::new();
    for y in 0..height {
        for x in 0..width {
            pixels.extend_from_slice(&[(x * 7) as u8, (y * 11) as u8, (x + y) as u8, 255]);
        }
    }
    Raster::from_raw(width, height, pixels).unwrap()
}

#[test]
fn raster_from_raw_checks_length() {
    assert!(Raster::from_raw(2, 3, vec![0; 24]).is_some());
    assert!(Raster::from_raw(2, 3, vec![0; 23]).is_none());
    assert!(Raster::from_raw(2, 3, vec![0; 25]).is_none());
    assert!(Raster::from_raw(0, 3, vec![]).is_some());
}

#[test]
fn raster_reads_channels() {
    let image = gradient(5, 4);
    assert_eq!(image.width(), 5);
    assert_eq!(image.height(), 4);
    assert_eq!(image.channel(3, 2, 0), 21);
    assert_eq!(image.channel(3, 2, 1), 22);
    assert_eq!(image.channel(3, 2, 2), 5);
    assert_eq!(image.channel(3, 2, 3), 255);
    assert_eq!(image.as_bytes().len(), 80);
}

#[test]
fn transparent_raster_is_all_zero() {
    let image = Raster::transparent(3, 2).unwrap();
    assert_eq!(image.width(), 3);
    assert_eq!(image.height(), 2);
    assert_eq!(image.into_raw(), vec![0u8; 24]);
}

#[test]
fn region_copies_the_window() {
    let image = gradient(6, 5);
    let part = image.region(2, 1, 3, 2).unwrap();
    assert_eq!(part.width(), 3);
    assert_eq!(part.height(), 2);
    for j in 0..2 {
        for i in 0..3 {
            for c in 0..4 {
                assert_eq!(part.channel(i, j, c), image.channel(2 + i, 1 + j, c));
            }
        }
    }
    let whole = image.region(0, 0, 6, 5).unwrap();
    assert_eq!(whole.as_bytes(), image.as_bytes());
}

#[test]
fn region_outside_the_image_is_refused() {
    let image = gradient(6, 5);
    assert!(image.region(4, 0, 3, 1).is_none());
    assert!(image.region(0, 4, 1, 2).is_none());
    assert!(image.region(u32::MAX, 0, 2, 1).is_none());
    assert!(image.region(6, 5, 0, 0).is_some());
}

#[test]
fn png_round_trip_keeps_pixels() {
    let image = gradient(7, 3);
    let png = image.encode_png().unwrap();
    assert_eq!(&png[..8], &[0x89, b'P', b'N', b'G', 0x0d, 0x0a, 0x1a, 0x0a]);
    let back = Raster::decode(&png).unwrap();
    assert_eq!(back.width(), 7);
    assert_eq!(back.height(), 3);
    assert_eq!(back.as_bytes(), image.as_bytes());
}

#[test]
fn png_encoding_is_repeatable() {
    let image = gradient(9, 9);
    assert_eq!(image.encode_png().unwrap(), image.encode_png().unwrap());
}

#[test]
fn decode_refuses_garbage() {
    let res = Raster::decode(&b"this is not an image".to_vec());
    assert!(matches!(res, Err(AppError::Image(_))));
    let res = Raster::decode(&Vec::new());
    assert!(matches!(res, Err(AppError::Image(_))));
}

#[test]
fn decode_refuses_truncated_png() {
    let png = gradient(8, 8).encode_png().unwrap();
    let cut = png[..png.len() / 2].to_vec();
    assert!(matches!(Raster::decode(&cut), Err(AppError::Image(_))));
}

#[test]
fn decode_reads_jpeg() {
    let image = solid(16, 8, [200, 100, 50, 255]);
    let mut jpeg = Vec::new();
    let rgb: Vec<u8> = image.as_bytes().chunks(4).flat_map(|p| [p[0], p[1], p[2]]).collect();
    let encoder = image::codecs::jpeg::JpegEncoder::new_with_quality(&mut jpeg, 100);
    image::ImageEncoder::write_image(encoder, &rgb, 16, 8, image::ExtendedColorType::Rgb8).unwrap();
    let back = Raster::decode(&jpeg).unwrap();
    assert_eq!(back.width(), 16);
    assert_eq!(back.height(), 8);
    let r = back.channel(5, 5, 0) as i32;
    let g = back.channel(5, 5, 1) as i32;
    let b = back.channel(5, 5, 2) as i32;
    assert!((r - 200).abs() <= 3 && (g - 100).abs() <= 3 && (b - 50).abs() <= 3);
    assert_eq!(back.channel(5, 5, 3), 255);
}

fn png_with_orientation(picture: &Raster, orientation: u8) -> Vec<u8> {
    // A little-endian Exif block with one entry: tag 0x0112, a short, one value.
    let exif = vec![
        0x49, 0x49, 42, 0, 8, 0, 0, 0, 1, 0, 0x12, 0x01, 3, 0, 1, 0, 0, 0, orientation, 0, 0, 0, 0, 0, 0, 0,
    ];
    let mut png = Vec::new();
    let mut encoder = image::codecs::png::PngEncoder::new(&mut png);
    image::ImageEncoder::set_exif_metadata(&mut encoder, exif).unwrap();
    image::ImageEncoder::write_image(
        encoder,
        picture.as_bytes(),
        picture.width(),
        picture.height(),
        image::ExtendedColorType::Rgba8,
    )
    .unwrap();
    png
}

#[test]
fn decode_turns_the_picture_upright() {
    let picture = Raster::from_raw(2, 1, vec![255, 0, 0, 255, 0, 255, 0, 255]).unwrap();
    let plain = Raster::decode(&png_with_orientation(&picture, 1)).unwrap();
    assert_eq!((plain.width(), plain.height()), (2, 1));
    assert_eq!(plain.as_bytes(), picture.as_bytes());
    let turned = Raster::decode(&png_with_orientation(&picture, 6)).unwrap();
    assert_eq!((turned.width(), turned.height()), (1, 2));
    assert_eq!(turned.as_bytes(), &vec![255, 0, 0, 255, 0, 255, 0, 255]);
    let upside_down = Raster::decode(&png_with_orientation(&picture, 3)).unwrap();
    assert_eq!((upside_down.width(), upside_down.height()), (2, 1));
    assert_eq!(upside_down.as_bytes(), &vec![0, 255, 0, 255, 255, 0, 0, 255]);
}

#[test]
fn from_decoded_checks_the_buffer() {
    let ok = Raster::from_decoded(Ok((2, 1, vec![1, 2, 3, 4, 5, 6, 7, 8]))).unwrap();
    assert_eq!(ok.width(), 2);
    assert_eq!(ok.as_bytes(), &vec![1, 2, 3, 4, 5, 6, 7, 8]);
    assert!(matches!(Raster::from_decoded(Ok((2, 1, vec![1, 2, 3]))), Err(AppError::Image(_))));
    let broken = image::ImageError::IoError(std::io::Error::other("broken"));
    assert!(matches!(Raster::from_decoded(Err(broken)), Err(AppError::Image(_))));
}

#[test]
fn from_filled_checks_the_size() {
    assert!(Raster::from_filled((2, 1, vec![0; 8]), 2, 1).is_ok());
    assert!(matches!(Raster::from_filled((2, 1, vec![0; 8]), 1, 2), Err(AppError::Image(_))));
    assert!(matches!(Raster::from_filled((2, 1, vec![0; 7]), 2, 1), Err(AppError::Image(_))));
}

#[test]
fn resize_exact_gives_the_size_asked_for() {
    let image = gradient(10, 6);
    let big = image.resize_exact(32, 16).unwrap();
    assert_eq!((big.width(), big.height()), (32, 16));
    assert_eq!(big.as_bytes().len(), 32 * 16 * 4);
    let small = image.resize_exact(3, 5).unwrap();
    assert_eq!((small.width(), small.height()), (3, 5));
    let same = image.resize_exact(10, 6).unwrap();
    assert_eq!(same.as_bytes(), image.as_bytes());
}

#[test]
fn resize_exact_keeps_a_solid_color() {
    let image = solid(5, 5, [10, 200, 30, 255]);
    let big = image.resize_exact(8, 12).unwrap();
    for y in 0..12 {
        for x in 0..8 {
            assert_eq!(big.channel(x, y, 0), 10);
            assert_eq!(big.channel(x, y, 1), 200);
            assert_eq!(big.channel(x, y, 2), 30);
            assert_eq!(big.channel(x, y, 3), 255);
        }
    }
}

#[test]
fn resize_exact_refuses_empty_sizes() {
    let image = gradient(4, 4);
    assert!(matches!(image.resize_exact(0, 4), Err(AppError::Image(_))));
    assert!(matches!(image.resize_exact(4, 0), Err(AppError::Image(_))));
    let empty = Raster::from_raw(0, 0, Vec::new()).unwrap();
    assert!(matches!(empty.resize_exact(4, 4), Err(AppError::Image(_))));
}

#[test]
fn resize_to_fill_gives_a_square_from_any_shape() {
    let wide = gradient(30, 10);
    let tile = wide.resize_to_fill(8, 8).unwrap();
    assert_eq!((tile.width(), tile.height()), (8, 8));
    let high = gradient(10, 30);
    let tile = high.resize_to_fill(8, 8).unwrap();
    assert_eq!((tile.width(), tile.height()), (8, 8));
    let tiny = gradient(2, 3);
    let tile = tiny.resize_to_fill(16, 16).unwrap();
    assert_eq!((tile.width(), tile.height()), (16, 16));
}

#[test]
fn resize_to_fill_crops_the_middle() {
    // Left third red, middle third green, right third blue: a square cut keeps the middle.
    let mut pixels = Vec::new();
    for _ in 0..10 {
        for x in 0..30 {
            let color = if x < 10 { [255, 0, 0, 255] } else if x < 20 { [0, 255, 0, 255] } else { [0, 0, 255, 255] };
            pixels.extend_from_slice(&color);
        }
    }
    let image = Raster::from_raw(30, 10, pixels).unwrap();
    let tile = image.resize_to_fill(10, 10).unwrap();
    assert_eq!(tile.channel(5, 5, 0), 0);
    assert_eq!(tile.channel(5, 5, 1), 255);
    assert_eq!(tile.channel(5, 5, 2), 0);
}

#[test]
fn resize_to_fill_refuses_sizes_out_of_range() {
    let image = gradient(4, 4);
    assert!(matches!(image.resize_to_fill(0, 4), Err(AppError::Image(_))));
    assert!(matches!(image.resize_to_fill(4, 0), Err(AppError::Image(_))));
    // Filling a square of the largest side from a 4 by 4 picture would need an image
    // whose sides do not fit in 32 bits.
    let flat = gradient(4, 1);
    assert!(matches!(flat.resize_to_fill(u32::MAX, u32::MAX), Err(AppError::Image(_))));
    let empty = Raster::from_raw(0, 5, Vec::new()).unwrap();
    assert!(matches!(empty.resize_to_fill(4, 4), Err(AppError::Image(_))));
}

#[test]
fn overlay_with_opaque_tile_replaces_pixels() {
    let canvas = Raster::transparent(4, 4).unwrap();
    let tile = solid(2, 2, [9, 8, 7, 255]);
    let out = canvas.overlay(&tile, 1, 2);
    for y in 0..4 {
        for x in 0..4 {
            let inside = (1..3).contains(&x) && (2..4).contains(&y);
            let expected = if inside { [9, 8, 7, 255] } else { [0, 0, 0, 0] };
            for c in 0..4 {
                assert_eq!(out.channel(x, y, c), expected[c]);
            }
        }
    }
}

#[test]
fn overlay_with_transparent_tile_changes_nothing() {
    let canvas = gradient(4, 4);
    let before = canvas.as_bytes().clone();
    let tile = solid(2, 2, [9, 8, 7, 0]);
    let out = canvas.overlay(&tile, 0, 0);
    assert_eq!(out.as_bytes(), &before);
}

#[test]
fn overlay_blends_half_transparent_pixels() {
    let canvas = solid(1, 1, [0, 0, 0, 255]);
    let tile = solid(1, 1, [255, 255, 255, 128]);
    let out = canvas.overlay(&tile, 0, 0);
    let r = out.channel(0, 0, 0);
    assert!((127..=129).contains(&r));
    assert_eq!(out.channel(0, 0, 1), r);
    assert!(out.channel(0, 0, 3) >= 254);
}

#[test]
fn overlay_of_or_onto_an_empty_image_changes_nothing() {
    let canvas = gradient(4, 4);
    let before = canvas.as_bytes().clone();
    let nothing = Raster::from_raw(0, 3, Vec::new()).unwrap();
    let out = canvas.overlay(&nothing, 1, 1);
    assert_eq!(out.as_bytes(), &before);
    let flat = Raster::from_raw(1073741824, 0, Vec::new()).unwrap();
    let out = flat.overlay(&nothing, 0, 0);
    assert_eq!((out.width(), out.height()), (1073741824, 0));
    let empty = Raster::from_raw(0, 0, Vec::new()).unwrap();
    let out = empty.overlay(&Raster::from_raw(0, 0, Vec::new()).unwrap(), 0, 0);
    assert_eq!(out.as_bytes().len(), 0);
}

#[test]
fn png_encoder_refuses_an_empty_image() {
    let empty = Raster::from_raw(0, 0, Vec::new()).unwrap();
    assert!(matches!(empty.encode_png(), Err(AppError::Image(_))));
    let flat = Raster::from_raw(5, 0, Vec::new()).unwrap();
    assert!(matches!(flat.encode_png(), Err(AppError::Image(_))));
}

#[test]
fn overlay_that_does_not_fit_changes_nothing() {
    let canvas = gradient(4, 4);
    let before = canvas.as_bytes().clone();
    let tile = solid(2, 2, [9, 8, 7, 255]);
    let out = canvas.overlay(&tile, 3, 0);
    assert_eq!(out.as_bytes(), &before);
    let canvas = gradient(4, 4);
    let out = canvas.overlay(&tile, 0, u32::MAX);
    assert_eq!(out.as_bytes(), &before);
}

#[test]
fn or_image_error_keeps_success_and_converts_failure() {
    let ok: Result<u8, image::ImageError> = Ok(7);
    assert_eq!(or_image_error(ok), Ok(7));
    let broken = image::ImageError::IoError(std::io::Error::other("disk on fire"));
    let failed: Result<u8, image::ImageError> = Err(broken);
    match or_image_error(failed) {
        Err(AppError::Image(text)) => assert!(text.contains("disk on fire")),
        other => panic!("unexpected {:?}", other),
    }
}

#[test]
fn error_messages_carry_heading_and_detail() {
    assert_eq!(AppError::Io("gone".to_string()).message(), "IO Error: gone");
    assert_eq!(AppError::Image("bad".to_string()).message(), "Image Processing Error: bad");
    assert_eq!(AppError::Config("empty".to_string()).message(), "Configuration Error: empty");
}

#[test]
fn error_constructors_format_their_text() {
    assert_eq!(AppError::from_io("not found", "no such file"), AppError::Io("not found: no such file".to_string()));
    assert_eq!(AppError::image_at("a/b.png", "broken"), AppError::Image("a/b.png: broken".to_string()));
    let broken = image::ImageError::IoError(std::io::Error::other("short read"));
    match AppError::from_image(&broken) {
        AppError::Image(text) => assert!(text.contains("short read")),
        other => panic!("unexpected {:?}", other),
    }
    assert_eq!(AppError::Config("x".to_string()).at_path("dir"), AppError::Config("dir: x".to_string()));
    assert_eq!(AppError::Io("x".to_string()).at_path("dir"), AppError::Io("dir: x".to_string()));
    assert_eq!(AppError::Image("x".to_string()).into_detail(), "x");
}
