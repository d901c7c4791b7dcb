use furnace::bag::Bag;
use furnace::factory::Factory;
use furnace::tile::Tile;

fn eq_lists(a: &[Tile], b: &[Tile]) {
    let mut a: Vec<Tile> = a.to_vec();
    let mut b: Vec<Tile> = b.to_vec();
    a.sort_by_key(|t| t.code());
    b.sort_by_key(|t| t.code());
    assert_eq!(a, b);
}

#[test]
pub fn test_drawing_reshuffles_if_not_enough_tiles_are_in_bag() {
    let mut bag = Bag::new(vec![Tile::Yellow, Tile::Red, Tile::Red], vec![Tile::Blue]);
    let mut factory = Factory::new_empty();
    bag.fill_factory(&mut factory);
    let tiles = factory.get_tiles().unwrap();
    eq_lists(tiles, &[Tile::Yellow, Tile::Red, Tile::Red, Tile::Blue]);
}

#[test]
fn test_default_bag_holds_twenty_of_each_color() {
    let bag = Bag::default();
    assert_eq!(bag.drawable_len(), 100);
    assert_eq!(bag.discarded_len(), 0);
}

#[test]
fn test_fill_factory_shortage_reshuffles_exactly_once() {
    // one drawable tile, four discarded: the fill must reshuffle once
    // and still deliver exactly four tiles
    let mut bag = Bag::new(
        vec![Tile::Yellow],
        vec![Tile::Blue, Tile::Blue, Tile::Green, Tile::White],
    );
    let mut factory = Factory::new_empty();
    bag.fill_factory(&mut factory);
    let tiles = factory.get_tiles().unwrap();
    assert_eq!(tiles.len(), 4);
    // the whole old drawing pile went onto the factory
    assert!(tiles.contains(&Tile::Yellow));
    // the reshuffle emptied the discard pile; one tile stayed drawable
    assert_eq!(bag.discarded_len(), 0);
    assert_eq!(bag.drawable_len(), 1);
}

#[test]
fn test_fill_factory_draws_the_first_four_and_sorts_them() {
    let mut bag = Bag::new(
        vec![
            Tile::Yellow,
            Tile::Blue,
            Tile::Yellow,
            Tile::Green,
            Tile::Red,
        ],
        vec![],
    );
    let mut factory = Factory::new_empty();
    bag.fill_factory(&mut factory);
    let tiles = factory.get_tiles().unwrap();
    assert_eq!(
        tiles,
        &vec![Tile::Blue, Tile::Green, Tile::Yellow, Tile::Yellow]
    );
    assert_eq!(bag.drawable_len(), 1);
    assert_eq!(bag.discarded_len(), 0);
}

#[test]
fn test_discard_piles_up() {
    let mut bag = Bag::new(vec![], vec![]);
    bag.discard(&vec![Tile::Blue, Tile::Red]);
    bag.discard(&vec![Tile::Green]);
    assert_eq!(bag.discarded_len(), 3);
    assert_eq!(bag.drawable_len(), 0);
}
