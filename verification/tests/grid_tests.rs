use coinblast::board::TileGrid;
use coinblast::grid::{GridCoordinates, GRID_SIZE};
use coinblast::moves::{CanMoveResult, ExplosionEvent, MergeTilesEvent, MoveDirection, MoveTileEvent};
use coinblast::tile::{CoinValue, TileType};

#[test]
fn can_move_tile_when_empty() {
    let mut tile_grid = TileGrid::default();
    tile_grid.insert(GridCoordinates { x: 0, y: 0 }, TileType::Coin(CoinValue::One));

    assert_eq!(
        tile_grid.can_move_tile(&GridCoordinates { x: 0, y: 0 }, MoveDirection::Right),
        CanMoveResult::Yes
    );
    assert_eq!(
        tile_grid.can_move_tile(&GridCoordinates { x: 0, y: 0 }, MoveDirection::Left),
        CanMoveResult::Yes
    );
    assert_eq!(
        tile_grid.can_move_tile(&GridCoordinates { x: 0, y: 0 }, MoveDirection::Up),
        CanMoveResult::Yes
    );
    assert_eq!(
        tile_grid.can_move_tile(&GridCoordinates { x: 0, y: 0 }, MoveDirection::Down),
        CanMoveResult::Yes
    );
}

#[test]
fn can_not_move_when_next_to_wall() {
    let mut tile_grid = TileGrid::default();
    tile_grid.insert(GridCoordinates { x: 0, y: 0 }, TileType::Coin(CoinValue::One));
    tile_grid.insert(GridCoordinates { x: 1, y: 0 }, TileType::Wall);

    assert_eq!(
        tile_grid.can_move_tile(&GridCoordinates { x: 0, y: 0 }, MoveDirection::Right),
        CanMoveResult::No
    );
    assert_eq!(
        tile_grid.can_move_tile(&GridCoordinates { x: 0, y: 0 }, MoveDirection::Left),
        CanMoveResult::Yes
    );
    assert_eq!(
        tile_grid.can_move_tile(&GridCoordinates { x: 0, y: 0 }, MoveDirection::Up),
        CanMoveResult::Yes
    );
    assert_eq!(
        tile_grid.can_move_tile(&GridCoordinates { x: 0, y: 0 }, MoveDirection::Down),
        CanMoveResult::Yes
    );
}

#[test]
fn can_move_when_next_to_coin() {
    let mut tile_grid = TileGrid::default();
    tile_grid.insert(GridCoordinates { x: 0, y: 0 }, TileType::Coin(CoinValue::One));
    tile_grid.insert(GridCoordinates { x: 1, y: 0 }, TileType::Coin(CoinValue::One));

    assert_eq!(
        tile_grid.can_move_tile(&GridCoordinates { x: 0, y: 0 }, MoveDirection::Right),
        CanMoveResult::YesIfNextCanMove
    );
    assert_eq!(
        tile_grid.can_move_tile(&GridCoordinates { x: 0, y: 0 }, MoveDirection::Left),
        CanMoveResult::Yes
    );
    assert_eq!(
        tile_grid.can_move_tile(&GridCoordinates { x: 0, y: 0 }, MoveDirection::Up),
        CanMoveResult::Yes
    );
    assert_eq!(
        tile_grid.can_move_tile(&GridCoordinates { x: 0, y: 0 }, MoveDirection::Down),
        CanMoveResult::Yes
    );
}

#[test]
fn should_maybe_insert_tile() {
    let mut tile_grid = TileGrid::default();
    tile_grid.insert(GridCoordinates { x: 0, y: 0 }, TileType::Wall);

    tile_grid.maybe_insert(GridCoordinates { x: 1, y: 0 }, Some(TileType::Wall));
    assert_eq!(tile_grid.get(&GridCoordinates { x: 1, y: 0 }), Some(TileType::Wall));

    tile_grid.maybe_insert(GridCoordinates { x: 1, y: 0 }, None);
    assert_eq!(tile_grid.get(&GridCoordinates { x: 1, y: 0 }), None);
}

#[test]
fn should_combine_coin_tiles() {
    let mut tile_grid = TileGrid::default();
    tile_grid.insert(GridCoordinates { x: 0, y: 0 }, TileType::Coin(CoinValue::One));
    tile_grid.insert(GridCoordinates { x: 1, y: 0 }, TileType::Coin(CoinValue::One));

    let events = vec![MergeTilesEvent {
        source: GridCoordinates { x: 0, y: 0 },
        target: GridCoordinates { x: 1, y: 0 },
        resulting_type: Some(TileType::Coin(CoinValue::Two)),
    }];
    tile_grid.handle_combine_events(&events);

    assert_eq!(tile_grid.get(&GridCoordinates { x: 0, y: 0 }), None);
    assert_eq!(
        tile_grid.get(&GridCoordinates { x: 1, y: 0 }),
        Some(TileType::Coin(CoinValue::Two))
    );
}

#[test]
fn should_explode_tiles() {
    let mut tile_grid = TileGrid::default();
    tile_grid.insert(GridCoordinates { x: -1, y: 0 }, TileType::Wall);
    tile_grid.insert(GridCoordinates { x: 0, y: 0 }, TileType::Coin(CoinValue::One));
    tile_grid.insert(GridCoordinates { x: 1, y: 0 }, TileType::Coin(CoinValue::One));
    tile_grid.insert(GridCoordinates { x: 3, y: 0 }, TileType::Coin(CoinValue::Two));

    tile_grid.handle_explosion_event(&ExplosionEvent { target: GridCoordinates { x: 0, y: 0 } });

    assert_eq!(tile_grid.get(&GridCoordinates { x: -1, y: 0 }), Some(TileType::Wall));
    assert_eq!(tile_grid.get(&GridCoordinates { x: 0, y: 0 }), None);
    assert_eq!(tile_grid.get(&GridCoordinates { x: 1, y: 0 }), None);
    assert_eq!(
        tile_grid.get(&GridCoordinates { x: 3, y: 0 }),
        Some(TileType::Coin(CoinValue::Two))
    );
}

#[test]
fn should_update_unused_coordinates() {
    let mut tile_grid = TileGrid::default();
    tile_grid.insert(GridCoordinates { x: 0, y: 0 }, TileType::Wall);

    assert!(!tile_grid.contains_unused(&GridCoordinates { x: 0, y: 0 }));
    assert!(tile_grid.contains_unused(&GridCoordinates { x: 1, y: 0 }));

    tile_grid.maybe_insert(GridCoordinates { x: 0, y: 0 }, None);
    assert!(tile_grid.contains_unused(&GridCoordinates { x: 0, y: 0 }));

    tile_grid.maybe_insert(GridCoordinates { x: 1, y: 0 }, Some(TileType::Bomb));
    assert!(!tile_grid.contains_unused(&GridCoordinates { x: 1, y: 0 }));
}

#[test]
fn unused_coordinates_sync_after_move_event() {
    let mut tile_grid = TileGrid::default();
    tile_grid.insert(GridCoordinates { x: 1, y: 0 }, TileType::Bomb);
    tile_grid.insert(GridCoordinates { x: 2, y: 0 }, TileType::Coin(CoinValue::One));

    let events = vec![
        MoveTileEvent {
            source: GridCoordinates { x: 1, y: 0 },
            target: GridCoordinates { x: 2, y: 0 },
        },
        MoveTileEvent {
            source: GridCoordinates { x: 2, y: 0 },
            target: GridCoordinates { x: 3, y: 0 },
        },
    ];
    tile_grid.handle_move_tile_events(&events);
    assert!(tile_grid.contains_unused(&GridCoordinates { x: 1, y: 0 }));
    assert!(!tile_grid.contains_unused(&GridCoordinates { x: 2, y: 0 }));
    assert!(!tile_grid.contains_unused(&GridCoordinates { x: 3, y: 0 }));
}

#[test]
fn unused_coordinates_sync_after_combine_event() {
    let mut tile_grid = TileGrid::default();
    tile_grid.insert(GridCoordinates { x: 1, y: 0 }, TileType::Coin(CoinValue::One));
    tile_grid.insert(GridCoordinates { x: 2, y: 0 }, TileType::Coin(CoinValue::One));

    tile_grid.handle_combine_event(&MergeTilesEvent {
        source: GridCoordinates { x: 1, y: 0 },
        target: GridCoordinates { x: 2, y: 0 },
        resulting_type: Some(TileType::Coin(CoinValue::Two)),
    });
    assert!(tile_grid.contains_unused(&GridCoordinates { x: 1, y: 0 }));
    assert!(!tile_grid.contains_unused(&GridCoordinates { x: 2, y: 0 }));
}

#[test]
fn unused_coordinates_sync_after_explosion_event() {
    let mut tile_grid = TileGrid::default();
    tile_grid.insert(GridCoordinates { x: 1, y: 0 }, TileType::Coin(CoinValue::One));
    tile_grid.insert(GridCoordinates { x: 2, y: 0 }, TileType::Coin(CoinValue::One));
    tile_grid.insert(GridCoordinates { x: 3, y: 0 }, TileType::Coin(CoinValue::One));
    tile_grid.insert(GridCoordinates { x: 4, y: 0 }, TileType::Coin(CoinValue::One));

    tile_grid.handle_explosion_event(&ExplosionEvent { target: GridCoordinates { x: 2, y: 0 } });
    assert!(tile_grid.contains_unused(&GridCoordinates { x: 1, y: 0 }));
    assert!(tile_grid.contains_unused(&GridCoordinates { x: 2, y: 0 }));
    assert!(tile_grid.contains_unused(&GridCoordinates { x: 3, y: 0 }));
    assert!(!tile_grid.contains_unused(&GridCoordinates { x: 4, y: 0 }));
}

#[test]
fn has_any_possible_moves_should_work() {
    let mut tile_grid = TileGrid::default();
    tile_grid.insert(GridCoordinates { x: 0, y: 0 }, TileType::Bomb);

    assert!(tile_grid.has_any_possible_moves());

    for coord in
        (-1..=GRID_SIZE).flat_map(move |x| (-1..GRID_SIZE).map(move |y| GridCoordinates { x, y }))
    {
        tile_grid.insert(coord, TileType::Wall);
    }
    tile_grid.insert(GridCoordinates { x: 0, y: 0 }, TileType::Bomb);

    assert!(!tile_grid.has_any_possible_moves());
}

#[test]
fn explosion_removes_exactly_the_destructible_radius() {
    let mut tile_grid = TileGrid::default();
    tile_grid.insert(GridCoordinates { x: 1, y: 0 }, TileType::Coin(CoinValue::One));
    tile_grid.insert(GridCoordinates { x: 2, y: 0 }, TileType::Coin(CoinValue::One));
    tile_grid.insert(GridCoordinates { x: 3, y: 0 }, TileType::Coin(CoinValue::One));
    tile_grid.insert(GridCoordinates { x: 5, y: 0 }, TileType::Wall);

    tile_grid.handle_explosion_event(&ExplosionEvent { target: GridCoordinates { x: 2, y: 0 } });

    assert_eq!(tile_grid.get(&GridCoordinates { x: 1, y: 0 }), None);
    assert_eq!(tile_grid.get(&GridCoordinates { x: 2, y: 0 }), None);
    assert_eq!(tile_grid.get(&GridCoordinates { x: 3, y: 0 }), None);
    assert_eq!(tile_grid.get(&GridCoordinates { x: 5, y: 0 }), Some(TileType::Wall));
    // just past the radius: still empty, and the interior cell is still free
    assert_eq!(tile_grid.get(&GridCoordinates { x: 4, y: 0 }), None);
    assert!(tile_grid.contains_unused(&GridCoordinates { x: 3, y: 1 }));
}

#[test]
fn fresh_board_frees_the_whole_interior() {
    let mut tile_grid = TileGrid::default();
    assert_eq!(tile_grid.unused_count(), (GRID_SIZE * GRID_SIZE) as usize);

    tile_grid.setup_default_grid();
    assert_eq!(tile_grid.unused_count(), (GRID_SIZE * GRID_SIZE) as usize);

    let seeded = tile_grid.spawn_first_tile();
    assert!(seeded.is_some());
    assert_eq!(tile_grid.unused_count(), (GRID_SIZE * GRID_SIZE) as usize - 1);
}

#[test]
fn wall_ring_covers_the_boundary() {
    let mut tile_grid = TileGrid::default();
    let events = tile_grid.setup_default_grid();

    for x in -1..=GRID_SIZE {
        assert_eq!(tile_grid.get(&GridCoordinates { x, y: -1 }), Some(TileType::Wall));
        assert_eq!(tile_grid.get(&GridCoordinates { x, y: GRID_SIZE }), Some(TileType::Wall));
    }
    for y in -1..=GRID_SIZE {
        assert_eq!(tile_grid.get(&GridCoordinates { x: -1, y }), Some(TileType::Wall));
        assert_eq!(tile_grid.get(&GridCoordinates { x: GRID_SIZE, y }), Some(TileType::Wall));
    }
    assert_eq!(tile_grid.get(&GridCoordinates { x: 0, y: 0 }), None);
    for ev in &events {
        assert_eq!(ev.tile_type, TileType::Wall);
    }
}

#[test]
fn spawn_lands_on_the_only_free_cell() {
    let mut tile_grid = TileGrid::default();
    for x in 0..GRID_SIZE {
        for y in 0..GRID_SIZE {
            if !(x == 2 && y == 2) {
                tile_grid.insert(GridCoordinates { x, y }, TileType::Wall);
            }
        }
    }
    assert_eq!(tile_grid.unused_count(), 1);

    let spawned = tile_grid.try_spawn_new_tile().unwrap();
    assert_eq!(spawned.coords, GridCoordinates { x: 2, y: 2 });
    assert!(matches!(
        spawned.tile_type,
        TileType::Coin(CoinValue::One)
            | TileType::Coin(CoinValue::Two)
            | TileType::Bomb
            | TileType::Wall
    ));
    assert_eq!(tile_grid.get(&GridCoordinates { x: 2, y: 2 }), Some(spawned.tile_type));
    assert_eq!(tile_grid.unused_count(), 0);
    assert!(tile_grid.try_spawn_new_tile().is_none());
}

#[test]
fn explosion_points_sum_the_radius() {
    let mut tile_grid = TileGrid::default();
    tile_grid.insert(GridCoordinates { x: 2, y: 2 }, TileType::Bomb);
    tile_grid.insert(GridCoordinates { x: 1, y: 2 }, TileType::Coin(CoinValue::Four));
    tile_grid.insert(GridCoordinates { x: 3, y: 2 }, TileType::Wall);
    tile_grid.insert(GridCoordinates { x: 2, y: 3 }, TileType::Coin(CoinValue::Eight));
    tile_grid.insert(GridCoordinates { x: 3, y: 3 }, TileType::Coin(CoinValue::One));

    assert_eq!(tile_grid.explosion_points(&GridCoordinates { x: 2, y: 2 }), 1 + 4 + 8);
}
