use furnace::bag::Bag;
use furnace::buildingarea::BuildingArea;
use furnace::common_area::CommonArea;
use furnace::factory::Factory;
use furnace::patternline::PatternLine;
use furnace::tile::{Direction, Tile};

fn eq_lists(a: &[Tile], b: &[Tile]) {
    let mut a: Vec<Tile> = a.to_vec();
    let mut b: Vec<Tile> = b.to_vec();
    a.sort_by_key(|t| t.code());
    b.sort_by_key(|t| t.code());
    assert_eq!(a, b);
}

#[test]
fn test_picking_tiles_from_factory() {
    let mut factory = Factory::new(vec![Tile::Yellow, Tile::Yellow, Tile::Green, Tile::Red]);
    let mut area = BuildingArea::new();
    let mut common = CommonArea::default();
    let mut bag = Bag::new(vec![], vec![]);
    area.pick_factory(&mut factory, &mut common, &mut bag, 3, Tile::Yellow)
        .unwrap();

    assert!(factory.is_empty());
    eq_lists(
        common.inspect(),
        &[Tile::FirstPlayer, Tile::Green, Tile::Red],
    );
}

#[test]
fn test_count_tile() {
    let factory = Factory::new(vec![Tile::Yellow, Tile::Yellow, Tile::Green, Tile::Red]);
    assert_eq!(factory.count_tile(Tile::Yellow), 2);
}

#[test]
fn test_factory_sorts_its_tiles() {
    let factory = Factory::new(vec![Tile::Yellow, Tile::Blue, Tile::White, Tile::Green]);
    let tiles = factory.get_tiles().unwrap();
    assert_eq!(
        tiles,
        &vec![Tile::Blue, Tile::Green, Tile::White, Tile::Yellow]
    );
    assert_eq!(factory.find_first_tile(), Some(Tile::Blue));
    assert_eq!(factory.find_last_tile(), Some(Tile::Yellow));
}

#[test]
fn test_adjacent_tile_cycles_through_distinct_colors() {
    let factory = Factory::new(vec![Tile::Yellow, Tile::Yellow, Tile::Green, Tile::Red]);
    // sorted display: G R Y Y, distinct colors G R Y
    assert_eq!(
        factory.find_adjacent_tile(Tile::Green, Direction::Next),
        Tile::Red
    );
    assert_eq!(
        factory.find_adjacent_tile(Tile::Yellow, Direction::Next),
        Tile::Green
    );
    assert_eq!(
        factory.find_adjacent_tile(Tile::Green, Direction::Prev),
        Tile::Yellow
    );
}

#[test]
fn test_adjacent_tile_with_one_color_is_a_noop() {
    let factory = Factory::new(vec![Tile::Blue, Tile::Blue, Tile::Blue, Tile::Blue]);
    assert_eq!(
        factory.find_adjacent_tile(Tile::Blue, Direction::Next),
        Tile::Blue
    );
}

#[test]
fn test_common_area_pick_takes_color_and_marker() {
    let mut common = CommonArea::default();
    common.add(&vec![Tile::Blue, Tile::Red, Tile::Blue]);
    let (count, has_marker) = common.pick_tile(Tile::Blue);
    assert_eq!(count, 2);
    assert!(has_marker);
    assert_eq!(common.inspect(), &vec![Tile::Red]);
    // the marker is gone for the round: a second pick cannot claim it
    let (count2, has_marker2) = common.pick_tile(Tile::Red);
    assert_eq!(count2, 1);
    assert!(!has_marker2);
    assert!(common.is_empty());
}

#[test]
fn test_factory_pick_of_mismatched_row_moves_nothing() {
    let mut factory = Factory::new(vec![Tile::Yellow, Tile::Yellow, Tile::Green, Tile::Red]);
    let mut area = BuildingArea::new();
    let mut common = CommonArea::default();
    let mut bag = Bag::new(vec![], vec![]);
    area.pick_factory(&mut factory, &mut common, &mut bag, 2, Tile::Green)
        .unwrap();
    // row 2 is now taken by green; yellow must be rejected without moving tiles
    let mut factory2 = Factory::new(vec![Tile::Yellow, Tile::Yellow, Tile::Green, Tile::Red]);
    let result = area.pick_factory(&mut factory2, &mut common, &mut bag, 2, Tile::Yellow);
    assert!(result.is_err());
    assert!(!factory2.is_empty());
}

#[test]
fn test_overflow_runs_to_the_floorline() {
    // row 0 holds one tile: a draft of two yellows overflows one
    let mut factory = Factory::new(vec![Tile::Yellow, Tile::Yellow, Tile::Green, Tile::Red]);
    let mut area = BuildingArea::new();
    let mut common = CommonArea::default();
    let mut bag = Bag::new(vec![], vec![]);
    area.pick_factory(&mut factory, &mut common, &mut bag, 0, Tile::Yellow)
        .unwrap();
    assert_eq!(area.get_floorline().get_tiles(), &vec![Tile::Yellow]);
}

#[test]
fn test_picking_from_an_empty_common_area_finds_nothing() {
    let mut common = CommonArea::default();
    let _ = common.pick_tile(Tile::Blue);
    assert!(common.is_empty());
    let (count, has_marker) = common.pick_tile(Tile::Red);
    assert_eq!(count, 0);
    assert!(!has_marker);
}

#[test]
fn test_accepting_zero_tiles_claims_the_row() {
    let mut area = BuildingArea::new();
    let mut bag = Bag::new(vec![], vec![]);
    area.pick_from_common_area(&mut bag, 1, Tile::White, 0, false)
        .unwrap();
    assert_eq!(
        *area.get_row(1),
        PatternLine::Taken {
            tile: Tile::White,
            length: 2,
            taken: 0
        }
    );
}
