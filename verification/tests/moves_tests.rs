use coinblast::board::TileGrid;
use coinblast::grid::GridCoordinates;
use coinblast::moves::{
    ExplosionEvent, MergeTilesEvent, MoveDirection, MoveTileEvent, ValidEvent, ValidatedEventQueue,
};
use coinblast::tile::{CoinValue, TileType};

#[test]
fn should_move_tile() {
    let mut tile_grid = TileGrid::default();
    tile_grid.insert(GridCoordinates { x: 0, y: 0 }, TileType::Coin(CoinValue::One));

    let move_events = vec![MoveTileEvent {
        source: GridCoordinates { x: 0, y: 0 },
        target: GridCoordinates { x: 1, y: 0 },
    }];
    tile_grid.handle_move_tile_events(&move_events);

    assert!(!tile_grid.get(&GridCoordinates { x: 0, y: 0 }).is_some());
    assert!(tile_grid.get(&GridCoordinates { x: 1, y: 0 }).is_some());
}

#[test]
fn should_move_many_tiles() {
    let mut tile_grid = TileGrid::default();
    tile_grid.insert(GridCoordinates { x: 0, y: 0 }, TileType::Coin(CoinValue::One));
    tile_grid.insert(GridCoordinates { x: 1, y: 0 }, TileType::Coin(CoinValue::Two));

    let move_events = vec![
        MoveTileEvent {
            source: GridCoordinates { x: 0, y: 0 },
            target: GridCoordinates { x: 1, y: 0 },
        },
        MoveTileEvent {
            source: GridCoordinates { x: 1, y: 0 },
            target: GridCoordinates { x: 2, y: 0 },
        },
    ];
    tile_grid.handle_move_tile_events(&move_events);

    assert!(!tile_grid.get(&GridCoordinates { x: 0, y: 0 }).is_some());
    assert_eq!(
        tile_grid.get(&GridCoordinates { x: 1, y: 0 }),
        Some(TileType::Coin(CoinValue::One))
    );
    assert_eq!(
        tile_grid.get(&GridCoordinates { x: 2, y: 0 }),
        Some(TileType::Coin(CoinValue::Two))
    );
}

#[test]
fn should_validate_moves() {
    let mut tile_grid = TileGrid::default();
    tile_grid.insert(GridCoordinates { x: 0, y: 0 }, TileType::Coin(CoinValue::One));
    tile_grid.insert(GridCoordinates { x: 1, y: 0 }, TileType::Coin(CoinValue::Two));

    let validated_event_queue = ValidatedEventQueue::validate_move(
        &tile_grid,
        vec![
            GridCoordinates { x: 0, y: 0 },
            GridCoordinates { x: 1, y: 0 },
            GridCoordinates { x: 2, y: 0 },
            GridCoordinates { x: 3, y: 0 },
        ],
        MoveDirection::Right,
    );
    assert_eq!(
        &validated_event_queue,
        &ValidatedEventQueue::ValidMove(vec![
            ValidEvent::Move(MoveTileEvent {
                source: GridCoordinates { x: 1, y: 0 },
                target: GridCoordinates { x: 2, y: 0 },
            }),
            ValidEvent::Move(MoveTileEvent {
                source: GridCoordinates { x: 0, y: 0 },
                target: GridCoordinates { x: 1, y: 0 },
            }),
        ])
    );
}

#[test]
fn should_return_that_move_is_invalid() {
    let mut tile_grid = TileGrid::default();
    tile_grid.insert(GridCoordinates { x: -1, y: 0 }, TileType::Wall);
    tile_grid.insert(GridCoordinates { x: 0, y: 0 }, TileType::Bomb);
    tile_grid.insert(GridCoordinates { x: 1, y: 0 }, TileType::Coin(CoinValue::One));
    let coords = GridCoordinates { x: 1, y: 0 }.candidate_coords_for_dir(MoveDirection::Left);
    let invalid_move = ValidatedEventQueue::validate_move(&tile_grid, coords, MoveDirection::Left);
    assert_eq!(invalid_move, ValidatedEventQueue::InvalidMove);
}

#[test]
fn should_push_to_explode_tiles() {
    let mut tile_grid = TileGrid::default();
    tile_grid.insert(GridCoordinates { x: 0, y: 0 }, TileType::Bomb);
    tile_grid.insert(GridCoordinates { x: 1, y: 0 }, TileType::Bomb);
    tile_grid.insert(GridCoordinates { x: 2, y: 0 }, TileType::Coin(CoinValue::One));

    let coords = GridCoordinates { x: 2, y: 0 }.candidate_coords_for_dir(MoveDirection::Left);
    let validated_event_queue =
        ValidatedEventQueue::validate_move(&tile_grid, coords, MoveDirection::Left);
    assert_eq!(
        validated_event_queue,
        ValidatedEventQueue::ValidMove(vec![
            ValidEvent::Explosions(ExplosionEvent { target: GridCoordinates { x: 0, y: 0 } }),
            ValidEvent::Explosions(ExplosionEvent { target: GridCoordinates { x: 1, y: 0 } }),
            ValidEvent::Move(MoveTileEvent {
                source: GridCoordinates { x: 2, y: 0 },
                target: GridCoordinates { x: 1, y: 0 },
            }),
        ])
    );
}

#[test]
fn should_push_to_merge_tiles_right() {
    let mut tile_grid = TileGrid::default();
    tile_grid.insert(GridCoordinates { x: 0, y: 0 }, TileType::Bomb);
    tile_grid.insert(GridCoordinates { x: 1, y: 0 }, TileType::Coin(CoinValue::One));
    tile_grid.insert(GridCoordinates { x: 2, y: 0 }, TileType::Coin(CoinValue::One));

    let coords = GridCoordinates { x: 0, y: 0 }.candidate_coords_for_dir(MoveDirection::Right);
    let validated_event_queue =
        ValidatedEventQueue::validate_move(&tile_grid, coords, MoveDirection::Right);
    assert_eq!(
        validated_event_queue,
        ValidatedEventQueue::ValidMove(vec![
            ValidEvent::Merge(MergeTilesEvent {
                source: GridCoordinates { x: 1, y: 0 },
                target: GridCoordinates { x: 2, y: 0 },
                resulting_type: Some(TileType::Coin(CoinValue::Two)),
            }),
            ValidEvent::Move(MoveTileEvent {
                source: GridCoordinates { x: 0, y: 0 },
                target: GridCoordinates { x: 1, y: 0 },
            }),
        ])
    );
}

#[test]
fn should_push_to_merge_tiles_left() {
    let mut tile_grid = TileGrid::default();
    tile_grid.insert(GridCoordinates { x: 2, y: 0 }, TileType::Bomb);
    tile_grid.insert(GridCoordinates { x: 1, y: 0 }, TileType::Coin(CoinValue::One));
    tile_grid.insert(GridCoordinates { x: 0, y: 0 }, TileType::Coin(CoinValue::One));

    let coords = GridCoordinates { x: 2, y: 0 }.candidate_coords_for_dir(MoveDirection::Left);
    let validated_event_queue =
        ValidatedEventQueue::validate_move(&tile_grid, coords, MoveDirection::Left);
    assert_eq!(
        validated_event_queue,
        ValidatedEventQueue::ValidMove(vec![
            ValidEvent::Merge(MergeTilesEvent {
                source: GridCoordinates { x: 1, y: 0 },
                target: GridCoordinates { x: 0, y: 0 },
                resulting_type: Some(TileType::Coin(CoinValue::Two)),
            }),
            ValidEvent::Move(MoveTileEvent {
                source: GridCoordinates { x: 2, y: 0 },
                target: GridCoordinates { x: 1, y: 0 },
            }),
        ])
    );
}

#[test]
fn lone_coin_slides_one_cell() {
    let mut tile_grid = TileGrid::default();
    tile_grid.insert(GridCoordinates { x: 0, y: 0 }, TileType::Coin(CoinValue::One));

    let coords = GridCoordinates { x: 0, y: 0 }.candidate_coords_for_dir(MoveDirection::Right);
    let validated_event_queue =
        ValidatedEventQueue::validate_move(&tile_grid, coords, MoveDirection::Right);
    assert_eq!(
        validated_event_queue,
        ValidatedEventQueue::ValidMove(vec![ValidEvent::Move(MoveTileEvent {
            source: GridCoordinates { x: 0, y: 0 },
            target: GridCoordinates { x: 1, y: 0 },
        })])
    );
}

#[test]
fn adjacent_equal_coins_merge() {
    let mut tile_grid = TileGrid::default();
    tile_grid.insert(GridCoordinates { x: 0, y: 0 }, TileType::Coin(CoinValue::One));
    tile_grid.insert(GridCoordinates { x: 1, y: 0 }, TileType::Coin(CoinValue::One));

    let coords = GridCoordinates { x: 0, y: 0 }.candidate_coords_for_dir(MoveDirection::Right);
    let validated_event_queue =
        ValidatedEventQueue::validate_move(&tile_grid, coords, MoveDirection::Right);
    assert_eq!(
        validated_event_queue,
        ValidatedEventQueue::ValidMove(vec![ValidEvent::Merge(MergeTilesEvent {
            source: GridCoordinates { x: 0, y: 0 },
            target: GridCoordinates { x: 1, y: 0 },
            resulting_type: Some(TileType::Coin(CoinValue::Two)),
        })])
    );
}

#[test]
fn eights_never_merge() {
    let mut tile_grid = TileGrid::default();
    tile_grid.insert(GridCoordinates { x: 0, y: 0 }, TileType::Coin(CoinValue::Eight));
    tile_grid.insert(GridCoordinates { x: 1, y: 0 }, TileType::Coin(CoinValue::Eight));
    tile_grid.insert(GridCoordinates { x: 2, y: 0 }, TileType::Wall);

    let coords = GridCoordinates { x: 0, y: 0 }.candidate_coords_for_dir(MoveDirection::Right);
    let validated_event_queue =
        ValidatedEventQueue::validate_move(&tile_grid, coords, MoveDirection::Right);
    assert_eq!(validated_event_queue, ValidatedEventQueue::InvalidMove);
}

#[test]
fn adjacent_bombs_detonate_both_cells() {
    let mut tile_grid = TileGrid::default();
    tile_grid.insert(GridCoordinates { x: 0, y: 0 }, TileType::Bomb);
    tile_grid.insert(GridCoordinates { x: 1, y: 0 }, TileType::Bomb);

    let coords = GridCoordinates { x: 0, y: 0 }.candidate_coords_for_dir(MoveDirection::Right);
    let validated_event_queue =
        ValidatedEventQueue::validate_move(&tile_grid, coords, MoveDirection::Right);
    assert_eq!(
        validated_event_queue,
        ValidatedEventQueue::ValidMove(vec![
            ValidEvent::Explosions(ExplosionEvent { target: GridCoordinates { x: 1, y: 0 } }),
            ValidEvent::Explosions(ExplosionEvent { target: GridCoordinates { x: 0, y: 0 } }),
        ])
    );
}

#[test]
fn validation_is_idempotent() {
    let mut tile_grid = TileGrid::default();
    tile_grid.insert(GridCoordinates { x: 0, y: 0 }, TileType::Coin(CoinValue::One));
    tile_grid.insert(GridCoordinates { x: 1, y: 0 }, TileType::Coin(CoinValue::Four));
    tile_grid.insert(GridCoordinates { x: 3, y: 0 }, TileType::Wall);

    let coords = GridCoordinates { x: 0, y: 0 }.candidate_coords_for_dir(MoveDirection::Right);
    let first = ValidatedEventQueue::validate_move(&tile_grid, coords.clone(), MoveDirection::Right);
    let second = ValidatedEventQueue::validate_move(&tile_grid, coords, MoveDirection::Right);
    assert_eq!(first, second);

    let wall_start = GridCoordinates { x: 3, y: 0 }.candidate_coords_for_dir(MoveDirection::Right);
    let first_invalid =
        ValidatedEventQueue::validate_move(&tile_grid, wall_start.clone(), MoveDirection::Right);
    let second_invalid =
        ValidatedEventQueue::validate_move(&tile_grid, wall_start, MoveDirection::Right);
    assert_eq!(first_invalid, ValidatedEventQueue::InvalidMove);
    assert_eq!(first_invalid, second_invalid);
}

#[test]
fn applied_slides_conserve_the_tiles() {
    let mut tile_grid = TileGrid::default();
    tile_grid.insert(GridCoordinates { x: 0, y: 0 }, TileType::Coin(CoinValue::One));
    tile_grid.insert(GridCoordinates { x: 1, y: 0 }, TileType::Coin(CoinValue::Four));

    let coords = GridCoordinates { x: 0, y: 0 }.candidate_coords_for_dir(MoveDirection::Right);
    let events = match ValidatedEventQueue::validate_move(&tile_grid, coords, MoveDirection::Right)
    {
        ValidatedEventQueue::ValidMove(events) => events,
        ValidatedEventQueue::InvalidMove => panic!("a chain slide into empty cells is legal"),
    };
    tile_grid.apply_events(&events);

    // the same two tiles, each one cell ahead; the origin vacated
    assert_eq!(tile_grid.get(&GridCoordinates { x: 0, y: 0 }), None);
    assert_eq!(
        tile_grid.get(&GridCoordinates { x: 1, y: 0 }),
        Some(TileType::Coin(CoinValue::One))
    );
    assert_eq!(
        tile_grid.get(&GridCoordinates { x: 2, y: 0 }),
        Some(TileType::Coin(CoinValue::Four))
    );
}

#[test]
fn applied_merges_conserve_total_coin_value() {
    let mut tile_grid = TileGrid::default();
    tile_grid.insert(GridCoordinates { x: 0, y: 0 }, TileType::Coin(CoinValue::Two));
    tile_grid.insert(GridCoordinates { x: 1, y: 0 }, TileType::Coin(CoinValue::Two));

    let coords = GridCoordinates { x: 0, y: 0 }.candidate_coords_for_dir(MoveDirection::Right);
    let events = match ValidatedEventQueue::validate_move(&tile_grid, coords, MoveDirection::Right)
    {
        ValidatedEventQueue::ValidMove(events) => events,
        ValidatedEventQueue::InvalidMove => panic!("equal coins merge"),
    };
    tile_grid.apply_events(&events);

    // two value-2 coins became one value-4 coin
    assert_eq!(tile_grid.get(&GridCoordinates { x: 0, y: 0 }), None);
    assert_eq!(
        tile_grid.get(&GridCoordinates { x: 1, y: 0 }),
        Some(TileType::Coin(CoinValue::Four))
    );
}

#[test]
fn walls_survive_applied_moves() {
    let mut tile_grid = TileGrid::default();
    tile_grid.setup_default_grid();
    tile_grid.insert(GridCoordinates { x: 2, y: 1 }, TileType::Wall);
    tile_grid.insert(GridCoordinates { x: 0, y: 1 }, TileType::Coin(CoinValue::One));

    let coords = GridCoordinates { x: 0, y: 1 }.candidate_coords_for_dir(MoveDirection::Right);
    let events = match ValidatedEventQueue::validate_move(&tile_grid, coords, MoveDirection::Right)
    {
        ValidatedEventQueue::ValidMove(events) => events,
        ValidatedEventQueue::InvalidMove => panic!("sliding toward a distant wall is legal"),
    };
    tile_grid.apply_events(&events);

    // the interior wall and the whole ring are exactly where they were
    assert_eq!(tile_grid.get(&GridCoordinates { x: 2, y: 1 }), Some(TileType::Wall));
    for x in -1..=coinblast::grid::GRID_SIZE {
        assert_eq!(tile_grid.get(&GridCoordinates { x, y: -1 }), Some(TileType::Wall));
    }
    assert_eq!(
        tile_grid.get(&GridCoordinates { x: 1, y: 1 }),
        Some(TileType::Coin(CoinValue::One))
    );
    assert_eq!(tile_grid.get(&GridCoordinates { x: 0, y: 1 }), None);
}
