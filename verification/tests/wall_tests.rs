use furnace::wall::{FillResult, Wall};

fn expect_points(wall: &Wall, expected_points: u32) {
    assert_eq!(wall.count_points(), expected_points);
}

#[test]
fn test_counting_score_sums_row_link() {
    let wall = Wall::from_string("12300\n00000\n00000\n00000\n00000");
    expect_points(&wall, 6);
}

#[test]
fn test_counting_score_sums_separate_tiles_in_a_row() {
    let wall = Wall::from_string("10203\n00000\n00000\n00000\n00000");
    expect_points(&wall, 3);
}

#[test]
fn test_counting_score_sums_vertical_and_horizontal_link() {
    let wall = Wall::from_string("01300\n00200\n00000\n00000\n00000");
    expect_points(&wall, 6);
}

#[test]
fn test_counting_score_sums_longer_vertical_and_horizontal_link() {
    let wall = Wall::from_string("13500\n00200\n00400\n00000\n00000");
    expect_points(&wall, 12);
}

#[test]
fn test_counting_score_sums_cross_link() {
    let wall = Wall::from_string("00100\n00200\n04756\n00300\n00000");
    expect_points(&wall, 16);
}

#[test]
fn test_counting_score_sums_whole_column() {
    let wall = Wall::from_string("10000\n20000\n30000\n40000\n50000");
    expect_points(&wall, 22);
}

#[test]
fn test_counting_score_sums_whole_row() {
    let wall = Wall::from_string("12345\n00000\n00000\n00000\n00000");
    expect_points(&wall, 17);
}

#[test]
fn test_counting_score_sums_diagonal() {
    let wall = Wall::from_string("10000\n02000\n00300\n00040\n00005");
    expect_points(&wall, 15);
}

#[test]
fn test_row_ends_game() {
    let input = "
12340
00000
00000
00000
00000
"
    .trim();
    let mut wall = Wall::from_string(input);
    let tile = wall.find_tile_for(0, 4);
    let result = wall.fill_slot(0, tile);
    assert_eq!(result, FillResult::PointsGainedAndGameOver(7));
}

#[test]
fn test_fresh_wall_has_no_points() {
    let wall = Wall::default();
    expect_points(&wall, 0);
    for row in 0..5 {
        for col in 0..5 {
            assert!(!wall.is_filled(row, col));
        }
    }
}

#[test]
fn test_isolated_tile_scores_one() {
    let mut wall = Wall::default();
    let tile = wall.find_tile_for(2, 2);
    let result = wall.fill_slot(2, tile);
    assert_eq!(result, FillResult::PointsGained(1));
    expect_points(&wall, 1);
}

#[test]
fn test_floorline_penalty_is_deducted_and_floored_at_zero() {
    let mut wall = Wall::default();
    let tile = wall.find_tile_for(0, 0);
    let _ = wall.fill_slot(0, tile);
    assert_eq!(wall.count_points(), 1);
    let mut fl = furnace::floorline::FloorLine::default();
    let _ = fl.add_tiles(&vec![furnace::tile::Tile::Blue; 7]);
    wall.reset_floorline(&mut fl);
    // 1 point cannot pay a 14 point penalty: the total floors at zero
    assert_eq!(wall.count_points(), 0);
    assert_eq!(fl.get_tiles().len(), 0);
}
