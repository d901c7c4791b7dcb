use furnace::bag::Bag;
use furnace::common_area::CommonArea;
use furnace::factory::Factory;
use furnace::game::{AppEvent, FactoryId, Game, GameState, TileSource, UserEventHandled, UserInput};
use furnace::patternline::PatternLine;
use furnace::player::Player;
use furnace::tile::{Direction, Tile};

fn two_players() -> Vec<Player> {
    vec![
        Player::default_with_name(String::from("Alice")),
        Player::default_with_name(String::from("Bob")),
    ]
}

#[test]
fn test_drafting_from_a_factory_passes_the_turn() {
    // player A drafts both blues of factory 0 into row 2 (capacity 3)
    let factories = vec![Factory::new(vec![
        Tile::Blue,
        Tile::Blue,
        Tile::Green,
        Tile::Green,
    ])];
    let mut game = Game::with_setup(
        two_players(),
        factories,
        Bag::new(vec![], vec![]),
        CommonArea::default(),
    );
    game.handle(AppEvent::PlaceTiles {
        player_id: 0,
        source: TileSource::Factory(FactoryId(0)),
        tile: Tile::Blue,
        row_id: 2,
    });

    let area = game.get_players()[0].get_buildingarea();
    assert_eq!(
        *area.get_row(2),
        PatternLine::Taken {
            tile: Tile::Blue,
            length: 3,
            taken: 2
        }
    );
    // no overflow: the floor line stays empty
    assert_eq!(area.get_floorline().get_tiles().len(), 0);
    // the remainder joined the common area next to the marker
    assert_eq!(
        game.get_common_area().inspect(),
        &vec![Tile::FirstPlayer, Tile::Green, Tile::Green]
    );
    // the factory emptied and the turn passed to player B
    assert!(game.get_factories()[0].is_empty());
    assert_eq!(
        *game.get_state(),
        GameState::PickSource {
            player_id: 1,
            current_source: TileSource::CommonArea
        }
    );
}

#[test]
fn test_round_advance_hands_first_turn_to_the_marker_holder() {
    // player 0 claimed the marker earlier this round
    let mut players = two_players();
    {
        let mut bag = Bag::new(vec![], vec![]);
        let area = players[0].get_buildingarea_mut();
        area.dump_to_floorline(&mut bag, Tile::Blue, 0, true);
    }
    assert!(players[0].has_first_player_token());
    // the common area is already empty; one full factory remains
    let mut empty_common = CommonArea::default();
    let _ = empty_common.pick_tile(Tile::Blue);
    assert!(empty_common.is_empty());
    let factories = vec![Factory::new(vec![
        Tile::Blue,
        Tile::Blue,
        Tile::Blue,
        Tile::Blue,
    ])];
    let mut game = Game::with_setup(
        players,
        factories,
        Bag::new(vec![Tile::Green; 5], vec![]),
        empty_common,
    );

    // player B drafts the last tiles: the round ends
    game.handle(AppEvent::PlaceTiles {
        player_id: 1,
        source: TileSource::Factory(FactoryId(0)),
        tile: Tile::Blue,
        row_id: 3,
    });

    // the marker holder starts the next round
    assert_eq!(
        *game.get_state(),
        GameState::PickSource {
            player_id: 0,
            current_source: TileSource::Factory(FactoryId(0))
        }
    );
    // player B's full row flushed onto the wall for one point
    assert_eq!(
        game.get_players()[1].get_buildingarea().get_wall().count_points(),
        1
    );
    // floor lines cleared, the marker is back in the common area alone
    assert!(!game.get_players()[0].has_first_player_token());
    assert_eq!(game.get_common_area().inspect(), &vec![Tile::FirstPlayer]);
    // the factory was refilled from the bag
    assert_eq!(game.get_factories()[0].get_tiles().unwrap().len(), 4);
    assert!(!game.is_over());
}

#[test]
fn test_pick_from_an_empty_factory_is_rejected() {
    let factories = vec![Factory::new_empty()];
    let mut game = Game::with_setup(
        two_players(),
        factories,
        Bag::new(vec![], vec![]),
        CommonArea::default(),
    );
    let result = game.pick(TileSource::Factory(FactoryId(0)), Tile::Blue, 0, 0);
    assert!(result.is_err());
}

#[test]
fn test_pick_of_an_absent_color_is_rejected() {
    let factories = vec![Factory::new(vec![
        Tile::Blue,
        Tile::Blue,
        Tile::Green,
        Tile::Green,
    ])];
    let mut game = Game::with_setup(
        two_players(),
        factories,
        Bag::new(vec![], vec![]),
        CommonArea::default(),
    );
    let result = game.pick(TileSource::Factory(FactoryId(0)), Tile::Red, 0, 0);
    assert!(result.is_err());
    assert!(!game.get_factories()[0].is_empty());
    let result2 = game.pick(TileSource::CommonArea, Tile::Red, 0, 0);
    assert!(result2.is_err());
}

#[test]
fn test_selection_cycles_through_pickable_sources() {
    let factories = vec![
        Factory::new(vec![Tile::Blue, Tile::Blue, Tile::Blue, Tile::Blue]),
        Factory::new(vec![Tile::Red, Tile::Red, Tile::Red, Tile::Red]),
    ];
    let mut game = Game::with_setup(
        two_players(),
        factories,
        Bag::new(vec![], vec![]),
        CommonArea::default(),
    );
    game.handle(AppEvent::Select(Direction::Next));
    assert_eq!(
        *game.get_state(),
        GameState::PickSource {
            player_id: 0,
            current_source: TileSource::Factory(FactoryId(1))
        }
    );
    game.handle(AppEvent::Select(Direction::Next));
    assert_eq!(
        *game.get_state(),
        GameState::PickSource {
            player_id: 0,
            current_source: TileSource::CommonArea
        }
    );
    game.handle(AppEvent::Select(Direction::Next));
    assert_eq!(
        *game.get_state(),
        GameState::PickSource {
            player_id: 0,
            current_source: TileSource::Factory(FactoryId(0))
        }
    );
}

#[test]
fn test_confirm_walks_the_turn_protocol() {
    let factories = vec![Factory::new(vec![
        Tile::Blue,
        Tile::Blue,
        Tile::Green,
        Tile::Green,
    ])];
    let mut game = Game::with_setup(
        two_players(),
        factories,
        Bag::new(vec![], vec![]),
        CommonArea::default(),
    );
    // confirm the source: the first color of the factory is selected
    let handled = game.handle_user_input(&UserInput::Confirm);
    match handled {
        UserEventHandled::AppEvent(e) => {
            assert!(matches!(
                e,
                AppEvent::TransitionToPickTileFromFactory {
                    source: TileSource::Factory(FactoryId(0)),
                    tile: Tile::Blue
                }
            ));
            game.handle(e);
        }
        _ => panic!("confirm on a source must produce an event"),
    }
    assert_eq!(
        *game.get_state(),
        GameState::PickTileFromSource {
            player_id: 0,
            current_source: TileSource::Factory(FactoryId(0)),
            selected_tile: Tile::Blue
        }
    );
    // cycle the color selection
    game.handle(AppEvent::Select(Direction::Next));
    assert_eq!(
        *game.get_state(),
        GameState::PickTileFromSource {
            player_id: 0,
            current_source: TileSource::Factory(FactoryId(0)),
            selected_tile: Tile::Green
        }
    );
    // confirm the color: the first eligible row is offered
    let handled = game.handle_user_input(&UserInput::Confirm);
    match handled {
        UserEventHandled::AppEvent(e) => game.handle(e),
        _ => panic!("confirm on a color must produce an event"),
    }
    assert_eq!(
        *game.get_state(),
        GameState::PickRowToPutTiles {
            player_id: 0,
            source: TileSource::Factory(FactoryId(0)),
            tile: Tile::Green,
            selected_row_id: 0
        }
    );
    // step back to the color selection
    game.handle(AppEvent::GoBack);
    assert_eq!(
        *game.get_state(),
        GameState::PickTileFromSource {
            player_id: 0,
            current_source: TileSource::Factory(FactoryId(0)),
            selected_tile: Tile::Green
        }
    );
}

#[test]
fn test_character_keys_map_to_selection_events() {
    let factories = vec![Factory::new(vec![
        Tile::Blue,
        Tile::Blue,
        Tile::Blue,
        Tile::Blue,
    ])];
    let game = Game::with_setup(
        two_players(),
        factories,
        Bag::new(vec![], vec![]),
        CommonArea::default(),
    );
    assert!(matches!(
        game.handle_user_input(&UserInput::Character('j')),
        UserEventHandled::AppEvent(AppEvent::Select(Direction::Next))
    ));
    assert!(matches!(
        game.handle_user_input(&UserInput::Character('k')),
        UserEventHandled::AppEvent(AppEvent::Select(Direction::Prev))
    ));
    assert!(matches!(
        game.handle_user_input(&UserInput::Character('x')),
        UserEventHandled::Noop
    ));
}

#[test]
fn test_draft_with_no_eligible_row_goes_to_the_floorline() {
    // every row of player A's board is already taken by blue, so a red
    // draft can land nowhere and the whole draft goes to the floor line
    let mut players = two_players();
    {
        let area = players[0].get_buildingarea_mut();
        for row in 0..5 {
            *area.get_row_mut(row) = PatternLine::new_taken(Tile::Blue, row + 1, 1);
        }
    }
    let factories = vec![
        Factory::new(vec![Tile::Red, Tile::Red, Tile::Red, Tile::Green]),
        Factory::new(vec![Tile::White, Tile::White, Tile::White, Tile::White]),
    ];
    let mut game = Game::with_setup(
        players,
        factories,
        Bag::new(vec![], vec![]),
        CommonArea::default(),
    );
    game.handle(AppEvent::TransitionToPickRow {
        player_id: 0,
        source: TileSource::Factory(FactoryId(0)),
        tile: Tile::Red,
    });
    // the three reds went to the floor line; nothing changed on the rows
    assert_eq!(
        game.get_players()[0].get_buildingarea().get_floorline().get_tiles(),
        &vec![Tile::Red, Tile::Red, Tile::Red]
    );
    // the remainder joined the common area and the turn passed on
    assert_eq!(
        game.get_common_area().inspect(),
        &vec![Tile::FirstPlayer, Tile::Green]
    );
    assert_eq!(
        *game.get_state(),
        GameState::PickSource {
            player_id: 1,
            current_source: TileSource::Factory(FactoryId(1))
        }
    );
}

#[test]
fn test_new_match_setup() {
    let game = Game::for_players(two_players());
    assert_eq!(game.get_factories().len(), 4);
    for f in game.get_factories().iter() {
        assert_eq!(f.get_tiles().unwrap().len(), 4);
    }
    assert_eq!(game.get_bag().drawable_len(), 84);
    assert_eq!(game.get_bag().discarded_len(), 0);
    assert_eq!(game.get_common_area().inspect(), &vec![Tile::FirstPlayer]);
    assert_eq!(
        *game.get_state(),
        GameState::PickSource {
            player_id: 0,
            current_source: TileSource::Factory(FactoryId(0))
        }
    );
    assert!(!game.is_over());
}

#[test]
fn test_back_at_pick_source_is_a_noop() {
    let factories = vec![Factory::new(vec![
        Tile::Blue,
        Tile::Blue,
        Tile::Blue,
        Tile::Blue,
    ])];
    let mut game = Game::with_setup(
        two_players(),
        factories,
        Bag::new(vec![], vec![]),
        CommonArea::default(),
    );
    game.handle(AppEvent::GoBack);
    assert_eq!(
        *game.get_state(),
        GameState::PickSource {
            player_id: 0,
            current_source: TileSource::Factory(FactoryId(0))
        }
    );
}
