use furnace::tile::Tile;

#[test]
fn test_letters_round_trip() {
    let tiles = [
        Tile::Yellow,
        Tile::Red,
        Tile::Blue,
        Tile::Green,
        Tile::White,
        Tile::FirstPlayer,
    ];
    for t in tiles {
        let letter = t.letter().chars().next().unwrap();
        assert_eq!(Tile::from_letter(letter), Ok(t));
    }
}

#[test]
fn test_invalid_letter_is_rejected() {
    assert!(Tile::from_letter('x').is_err());
    assert!(Tile::from_letter('y').is_err());
}

#[test]
fn test_codes_order_the_canonical_sort() {
    assert_eq!(Tile::FirstPlayer.code(), 0);
    assert_eq!(Tile::Blue.code(), 1);
    assert_eq!(Tile::Green.code(), 2);
    assert_eq!(Tile::Red.code(), 3);
    assert_eq!(Tile::White.code(), 4);
    assert_eq!(Tile::Yellow.code(), 5);
    assert_eq!(Tile::from_code(3), Tile::Red);
}
