use furnace::floorline::FloorLine;
use furnace::tile::Tile;

#[test]
fn test_calculate_minus_points() {
    let mut fl = FloorLine::default();
    let _ = fl.add_tiles(&vec![Tile::Yellow; 7]);
    assert_eq!(fl.calculate_minus_points(), 14);
}

#[test]
fn test_correct_tiles_are_returned() {
    let mut fl = FloorLine::default();
    let _ = fl.add_tiles(&vec![Tile::Yellow; 6]);
    let remaining = fl.add_tiles(&vec![Tile::Red, Tile::Blue, Tile::Green]);
    assert_eq!(remaining, vec![Tile::Blue, Tile::Green]);
}

#[test]
fn test_adding_tiles_to_empty() {
    let mut fl = FloorLine::default();
    let remaining = fl.add_tiles(&vec![Tile::Yellow; 7]);
    assert_eq!(remaining, vec![]);
}

#[test]
fn test_adding_too_much() {
    let mut fl = FloorLine::default();
    let remaining = fl.add_tiles(&vec![Tile::Yellow; 9]);
    assert_eq!(remaining, vec![Tile::Yellow, Tile::Yellow]);
}

#[test]
fn test_penalty_weights_by_slot() {
    // the positional weight table: 1, 1, 2, 2, 2, 3, 3
    assert_eq!(FloorLine::points_for_slot(0), 1);
    assert_eq!(FloorLine::points_for_slot(1), 1);
    assert_eq!(FloorLine::points_for_slot(2), 2);
    assert_eq!(FloorLine::points_for_slot(3), 2);
    assert_eq!(FloorLine::points_for_slot(4), 2);
    assert_eq!(FloorLine::points_for_slot(5), 3);
    assert_eq!(FloorLine::points_for_slot(6), 3);
}

#[test]
fn test_partial_penalty() {
    let mut fl = FloorLine::default();
    let _ = fl.add_tiles(&vec![Tile::Blue; 3]);
    assert_eq!(fl.calculate_minus_points(), 4);
}

#[test]
fn test_reset_clears_the_track() {
    let mut fl = FloorLine::default();
    let _ = fl.add_tiles(&vec![Tile::Blue; 3]);
    fl.reset();
    assert_eq!(fl.calculate_minus_points(), 0);
    assert_eq!(fl.get_tiles().len(), 0);
}

#[test]
fn test_first_player_token_lands_on_the_track() {
    let mut fl = FloorLine::default();
    assert!(!fl.has_first_player_token());
    let _ = fl.add_tiles(&vec![Tile::Red, Tile::FirstPlayer]);
    assert!(fl.has_first_player_token());
}
