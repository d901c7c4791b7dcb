use furnace::patternline::PatternLine;
use furnace::tile::Tile;

#[test]
fn patternline_test_patternline_accept_if_free() {
    let mut pline = PatternLine::new_free(4);
    let remainder = pline.accept(Tile::Yellow, 2);
    assert_eq!(remainder, Ok(0));
    assert_eq!(
        pline,
        PatternLine::Taken {
            tile: Tile::Yellow,
            length: 4,
            taken: 2
        }
    );
}

#[test]
fn patternline_test_patternline_accept_more() {
    let mut pline = PatternLine::new_taken(Tile::Yellow, 4, 2);
    assert_eq!(
        pline,
        PatternLine::Taken {
            tile: Tile::Yellow,
            length: 4,
            taken: 2
        }
    );
    let remainder = pline.accept(Tile::Yellow, 1);
    assert_eq!(remainder, Ok(0));
    assert_eq!(
        pline,
        PatternLine::Taken {
            tile: Tile::Yellow,
            length: 4,
            taken: 3
        }
    );
}

#[test]
fn player_test_patternline_accept_if_free() {
    let mut pline = PatternLine::new_free(4);
    let remainder = pline.accept(Tile::Yellow, 2);
    assert_eq!(remainder, Ok(0));
    assert_eq!(
        pline,
        PatternLine::Taken {
            tile: Tile::Yellow,
            length: 4,
            taken: 2
        }
    );
}

#[test]
fn player_test_patternline_accept_more() {
    let mut pline = PatternLine::new_taken(Tile::Yellow, 4, 2);
    let remainder = pline.accept(Tile::Yellow, 1);
    assert_eq!(remainder, Ok(0));
    assert_eq!(
        pline,
        PatternLine::Taken {
            tile: Tile::Yellow,
            length: 4,
            taken: 3
        }
    );
}

#[test]
fn test_patternline_accept_too_many() {
    // the overflow law: capacity 4, 2 taken, 3 offered: one overflows
    let mut pline = PatternLine::new_taken(Tile::Yellow, 4, 2);
    let remainder = pline.accept(Tile::Yellow, 3);
    assert_eq!(remainder, Ok(1));
    assert_eq!(
        pline,
        PatternLine::Taken {
            tile: Tile::Yellow,
            length: 4,
            taken: 4
        }
    );
}

#[test]
fn test_patternline_can_accept_partial_row() {
    let pline = PatternLine::new_taken(Tile::Yellow, 4, 2);
    assert!(pline.can_accept(Tile::Yellow));
    assert!(!pline.can_accept(Tile::Red));
}

#[test]
fn test_patternline_cannot_accept_if_full() {
    let pline = PatternLine::new_taken(Tile::Yellow, 4, 4);
    assert!(!pline.can_accept(Tile::Yellow));
}

#[test]
fn test_patternline_free_accepts_any_color() {
    let pline = PatternLine::new_free(3);
    assert!(pline.can_accept(Tile::Blue));
    assert!(pline.can_accept(Tile::White));
}

#[test]
fn test_patternline_rejects_mismatched_color() {
    let mut pline = PatternLine::new_taken(Tile::Yellow, 4, 2);
    let result = pline.accept(Tile::Red, 1);
    assert!(result.is_err());
    assert_eq!(
        pline,
        PatternLine::Taken {
            tile: Tile::Yellow,
            length: 4,
            taken: 2
        }
    );
}
