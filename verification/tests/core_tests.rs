use photomosaic::average::tiles_avg_rgb;
use photomosaic::base64::{data_uri, encode};
use photomosaic::color::Color;
use photomosaic::fixed::{CHANNEL_LIMIT, ONE};
use photomosaic::grid::{padded_dimension, Grid};
use photomosaic::index::ColorIndex;
use photomosaic::mask::WeightingMask;
use photomosaic::mosaic::{sample_cells, select_tiles};
use photomosaic::raster::Raster;
use photomosaic::select::{best_tile, candidate_limit, pick_best, tile_score, PENALTY_SCALE};

fn solid(width: u32, height: u32, rgba: [u8; 4]) -> Raster {
    let mut pixels = Vec::new();
    for _ in 0..(width * height) {
        pixels.extend_from_slice(&rgba);
    }
    Raster::from_raw(width, height, pixels).unwrap()
}

#[test]
fn fixed_point_constants_agree() {
    assert_eq!(ONE, 1 << 16);
    assert_eq!(CHANNEL_LIMIT, 255 * ONE);
}

#[test]
fn color_from_rgb8_scales_channels() {
    let c = Color::from_rgb8(1, 2, 255);
    assert_eq!(c, Color { r: 65536, g: 131072, b: 16711680 });
}

#[test]
fn distance_is_sum_of_squared_gaps() {
    let a = Color { r: 10, g: 20, b: 30 };
    let b = Color { r: 13, g: 16, b: 30 };
    assert_eq!(a.distance_sq(&b), 9 + 16);
    assert_eq!(b.distance_sq(&a), 25);
    assert_eq!(a.distance_sq(&a), 0);
}

#[test]
fn distance_of_extreme_colors_does_not_overflow() {
    let a = Color { r: u32::MAX, g: u32::MAX, b: u32::MAX };
    let b = Color { r: 0, g: 0, b: 0 };
    let gap = u32::MAX as u128;
    assert_eq!(a.distance_sq(&b), 3 * gap * gap);
}

#[test]
fn uniform_mask_has_unit_weights() {
    let mask = WeightingMask::uniform(4).unwrap();
    assert_eq!(mask.size(), 4);
    assert_eq!(mask.weights().len(), 16);
    assert!(mask.weights().iter().all(|w| *w == ONE));
    assert_eq!(mask.total_weight(), 16 * ONE as u128);
}

#[test]
fn uniform_mask_of_side_zero_is_refused() {
    assert!(WeightingMask::uniform(0).is_none());
}

#[test]
fn mask_from_weights_sums_them() {
    let mask = WeightingMask::from_weights(2, vec![1, 2, 3, ONE]).unwrap();
    assert_eq!(mask.size(), 2);
    assert_eq!(mask.weights(), &vec![1, 2, 3, ONE]);
    assert_eq!(mask.total_weight(), 6 + ONE as u128);
}

#[test]
fn mask_from_weights_refuses_bad_input() {
    assert!(WeightingMask::from_weights(0, vec![]).is_none());
    assert!(WeightingMask::from_weights(2, vec![1, 2, 3]).is_none());
    assert!(WeightingMask::from_weights(2, vec![1, 2, 3, 0]).is_none());
    assert!(WeightingMask::from_weights(2, vec![1, 2, 3, ONE + 1]).is_none());
    assert!(WeightingMask::from_weights(1, vec![ONE]).is_some());
}

#[test]
fn average_of_uniform_image_is_its_color() {
    let image = solid(3, 3, [200, 17, 0, 255]);
    let plain = WeightingMask::uniform(3).unwrap();
    assert_eq!(tiles_avg_rgb(&image, &plain), Color::from_rgb8(200, 17, 0));
    let uneven = WeightingMask::from_weights(3, vec![1, 7, 900, 65536, 2, 3, 40000, 5, 11]).unwrap();
    assert_eq!(tiles_avg_rgb(&image, &uneven), Color::from_rgb8(200, 17, 0));
}

#[test]
fn weighted_average_follows_the_weights() {
    // Two pixels side by side would not be square, so use a 2 by 2 picture.
    let pixels = vec![
        100, 0, 0, 255, 200, 0, 0, 255, //
        0, 10, 0, 255, 0, 0, 30, 255,
    ];
    let image = Raster::from_raw(2, 2, pixels).unwrap();
    let mask = WeightingMask::from_weights(2, vec![1, 3, 2, 2]).unwrap();
    // red: (100*1 + 200*3) / 8 = 87.5; green: 10*2/8 = 2.5; blue: 30*2/8 = 7.5
    let color = tiles_avg_rgb(&image, &mask);
    assert_eq!(color, Color { r: 87 * ONE + ONE / 2, g: 2 * ONE + ONE / 2, b: 7 * ONE + ONE / 2 });
}

#[test]
fn plain_average_rounds_down() {
    let pixels = vec![1, 0, 0, 255, 0, 0, 0, 255, 0, 0, 0, 255, 0, 0, 0, 255];
    let image = Raster::from_raw(2, 2, pixels).unwrap();
    let mask = WeightingMask::uniform(2).unwrap();
    assert_eq!(tiles_avg_rgb(&image, &mask).r, ONE / 4);
    let pixels = vec![1, 0, 0, 255, 0, 0, 0, 255, 0, 0, 0, 255];
    assert!(Raster::from_raw(2, 2, pixels).is_none());
}

#[test]
fn padded_dimension_is_next_multiple() {
    assert_eq!(padded_dimension(100, 32), Some(128));
    assert_eq!(padded_dimension(128, 32), Some(128));
    assert_eq!(padded_dimension(1, 32), Some(32));
    assert_eq!(padded_dimension(0, 32), Some(0));
    assert_eq!(padded_dimension(129, 32), Some(160));
    assert_eq!(padded_dimension(7, 1), Some(7));
}

#[test]
fn padded_dimension_refuses_zero_tile_and_overflow() {
    assert_eq!(padded_dimension(100, 0), None);
    assert_eq!(padded_dimension(u32::MAX, 2), None);
    assert_eq!(padded_dimension(u32::MAX, 1), Some(u32::MAX));
    assert_eq!(padded_dimension(u32::MAX - 1, 2), Some(u32::MAX - 1));
}

#[test]
fn grid_covering_counts_cells() {
    let grid = Grid::covering(96, 64, 32).unwrap();
    assert_eq!(grid, Grid { tile_size: 32, columns: 3, rows: 2 });
    assert!(Grid::covering(100, 64, 32).is_none());
    assert!(Grid::covering(96, 0, 32).is_none());
    assert!(Grid::covering(96, 64, 0).is_none());
}

#[test]
fn candidate_limit_is_clamped_tenth() {
    assert_eq!(candidate_limit(0), 0);
    assert_eq!(candidate_limit(1), 1);
    assert_eq!(candidate_limit(5), 5);
    assert_eq!(candidate_limit(10), 10);
    assert_eq!(candidate_limit(50), 10);
    assert_eq!(candidate_limit(109), 10);
    assert_eq!(candidate_limit(110), 11);
    assert_eq!(candidate_limit(500), 50);
    assert_eq!(candidate_limit(1000), 100);
    assert_eq!(candidate_limit(1009), 100);
    assert_eq!(candidate_limit(5000), 100);
}

#[test]
fn tile_score_adds_penalty_per_use() {
    let tile = Color::from_rgb8(10, 0, 0);
    let target = Color::from_rgb8(12, 0, 0);
    let gap = 2 * ONE as u128;
    assert_eq!(tile_score(&tile, &target, 0, ONE), gap * gap);
    // One use at a factor of 1.0 costs fifty in squared colour units.
    assert_eq!(tile_score(&tile, &target, 1, ONE), gap * gap + 50 * (ONE as u128) * (ONE as u128));
    assert_eq!(PENALTY_SCALE, 50 * ONE as u128);
    assert_eq!(tile_score(&tile, &target, 3, 2 * ONE), gap * gap + 3 * 2 * 50 * (ONE as u128) * (ONE as u128));
    assert_eq!(tile_score(&tile, &target, 7, 0), gap * gap);
}

#[test]
fn tile_score_of_extreme_values_does_not_overflow() {
    let a = Color { r: u32::MAX, g: u32::MAX, b: u32::MAX };
    let b = Color { r: 0, g: 0, b: 0 };
    let gap = u32::MAX as u128;
    let expected = 3 * gap * gap + (u64::MAX as u128) * (u32::MAX as u128) * PENALTY_SCALE;
    assert_eq!(tile_score(&a, &b, u64::MAX, u32::MAX), expected);
}

#[test]
fn nearest_lists_points_by_distance_then_position() {
    let points = vec![
        Color::from_rgb8(50, 0, 0),
        Color::from_rgb8(10, 0, 0),
        Color::from_rgb8(30, 0, 0),
        Color::from_rgb8(10, 0, 0),
        Color::from_rgb8(0, 0, 0),
    ];
    let index = ColorIndex::build(points);
    assert_eq!(index.len(), 5);
    let target = Color::from_rgb8(10, 0, 0);
    assert_eq!(index.nearest(&target, 0), Vec::<usize>::new());
    assert_eq!(index.nearest(&target, 1), vec![1]);
    assert_eq!(index.nearest(&target, 2), vec![1, 3]);
    assert_eq!(index.nearest(&target, 3), vec![1, 3, 4]);
    assert_eq!(index.nearest(&target, 4), vec![1, 3, 4, 2]);
    assert_eq!(index.nearest(&target, 5), vec![1, 3, 4, 2, 0]);
    assert_eq!(index.nearest(&target, 9), vec![1, 3, 4, 2, 0]);
    assert_eq!(index.point(2), Color::from_rgb8(30, 0, 0));
}

#[test]
fn nearest_agrees_with_sorting() {
    let mut points = Vec::new();
    let mut seed: u32 = 12345;
    for _ in 0..200 {
        seed = seed.wrapping_mul(1103515245).wrapping_add(12345);
        let r = (seed >> 8) as u8;
        seed = seed.wrapping_mul(1103515245).wrapping_add(12345);
        let g = (seed >> 8) as u8 % 4;
        points.push(Color::from_rgb8(r % 16, g, 0));
    }
    let target = Color::from_rgb8(7, 1, 0);
    let mut order: Vec<usize> = (0..points.len()).collect();
    order.sort_by_key(|i| (points[*i].distance_sq(&target), *i));
    let index = ColorIndex::build(points);
    for k in [1usize, 7, 20, 199, 200, 300] {
        let expected: Vec<usize> = order.iter().copied().take(k).collect();
        assert_eq!(index.nearest(&target, k), expected);
    }
}

#[test]
fn unused_tiles_are_chosen_by_distance_alone() {
    let points = vec![
        Color::from_rgb8(200, 0, 0),
        Color::from_rgb8(0, 200, 0),
        Color::from_rgb8(0, 0, 200),
        Color::from_rgb8(90, 90, 90),
    ];
    let index = ColorIndex::build(points);
    let usage = vec![0u64; 4];
    assert_eq!(best_tile(&index, &Color::from_rgb8(180, 10, 10), &usage, 5 * ONE), 0);
    assert_eq!(best_tile(&index, &Color::from_rgb8(10, 10, 190), &usage, 5 * ONE), 2);
    assert_eq!(best_tile(&index, &Color::from_rgb8(100, 100, 100), &usage, 0), 3);
}

#[test]
fn penalty_prefers_the_less_used_twin() {
    let points = vec![Color::from_rgb8(40, 40, 40), Color::from_rgb8(40, 40, 40)];
    let index = ColorIndex::build(points);
    let target = Color::from_rgb8(40, 40, 40);
    let mut usage = vec![0u64, 0u64];
    let first = best_tile(&index, &target, &usage, ONE);
    assert_eq!(first, 0);
    usage[first] += 1;
    assert_eq!(best_tile(&index, &target, &usage, ONE), 1);
    usage[1] += 1;
    assert_eq!(best_tile(&index, &target, &usage, ONE), 0);
    // Without a penalty the first twin keeps winning.
    assert_eq!(best_tile(&index, &target, &vec![5, 0], 0), 0);
}

#[test]
fn penalty_can_outweigh_distance() {
    let points = vec![Color::from_rgb8(10, 0, 0), Color::from_rgb8(14, 0, 0)];
    let index = ColorIndex::build(points);
    let target = Color::from_rgb8(10, 0, 0);
    // Tile 1 is 16 away in squared units; one use of tile 0 at factor 1.0 costs 50.
    assert_eq!(best_tile(&index, &target, &vec![1, 0], ONE), 1);
    // At a factor of 0.25 one use costs 12.5, less than 16.
    assert_eq!(best_tile(&index, &target, &vec![1, 0], ONE / 4), 0);
}

#[test]
fn pick_best_keeps_the_earliest_of_equal_scores() {
    let points = vec![
        Color::from_rgb8(10, 0, 0),
        Color::from_rgb8(12, 0, 0),
        Color::from_rgb8(8, 0, 0),
    ];
    let index = ColorIndex::build(points);
    let target = Color::from_rgb8(10, 0, 0);
    let usage = vec![9u64, 0, 0];
    assert_eq!(pick_best(&index, &target, &usage, ONE, &vec![0, 1, 2]), 1);
    assert_eq!(pick_best(&index, &target, &usage, ONE, &vec![0, 2, 1]), 2);
    assert_eq!(pick_best(&index, &target, &usage, ONE, &vec![0]), 0);
}

#[test]
fn selection_spreads_uses_under_penalty() {
    let points = vec![Color::from_rgb8(100, 0, 0), Color::from_rgb8(102, 0, 0)];
    let index = ColorIndex::build(points);
    let colors = vec![Color::from_rgb8(100, 0, 0); 4];
    // Tile 1 is 4 away; one use at factor 1.0 costs 50.
    assert_eq!(select_tiles(&index, &colors, ONE), vec![0, 1, 0, 1]);
    assert_eq!(select_tiles(&index, &colors, 0), vec![0, 0, 0, 0]);
    assert_eq!(select_tiles(&index, &Vec::new(), ONE), Vec::<usize>::new());
}

#[test]
fn sample_cells_reads_cells_row_after_row() {
    let mut pixels = Vec::new();
    for y in 0..4u32 {
        for x in 0..6u32 {
            let cell = (y / 2) * 3 + x / 2;
            pixels.extend_from_slice(&[cell as u8 * 10, 0, 0, 255]);
        }
    }
    let target = Raster::from_raw(6, 4, pixels).unwrap();
    let mask = WeightingMask::uniform(2).unwrap();
    let grid = Grid::covering(6, 4, 2).unwrap();
    let colors = sample_cells(&target, &mask, grid);
    let expected: Vec<Color> = (0..6u8).map(|cell| Color::from_rgb8(cell * 10, 0, 0)).collect();
    assert_eq!(colors, expected);
}

#[test]
fn base64_matches_known_vectors() {
    assert_eq!(encode(&Vec::new()), "");
    assert_eq!(encode(&b"f".to_vec()), "Zg==");
    assert_eq!(encode(&b"fo".to_vec()), "Zm8=");
    assert_eq!(encode(&b"foo".to_vec()), "Zm9v");
    assert_eq!(encode(&b"foob".to_vec()), "Zm9vYg==");
    assert_eq!(encode(&b"fooba".to_vec()), "Zm9vYmE=");
    assert_eq!(encode(&b"foobar".to_vec()), "Zm9vYmFy");
    assert_eq!(encode(&vec![0xfb, 0xff, 0xfe]), "+//+");
    assert_eq!(encode(&vec![0, 0, 0]), "AAAA");
    assert_eq!(encode(&vec![255]), "/w==");
}

#[test]
fn data_uri_has_png_prefix() {
    assert_eq!(data_uri(&b"foo".to_vec()), "data:image/png;base64,Zm9v");
    assert_eq!(data_uri(&Vec::new()), "data:image/png;base64,");
}
