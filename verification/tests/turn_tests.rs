use coinblast::grid::{GridCoordinates, GRID_SIZE};
use coinblast::score::GameScore;
use coinblast::tile::{CoinValue, TileType};
use coinblast::turn::{GameState, TurnController};

#[test]
fn score_adds_and_resets() {
    let mut score = GameScore::default();
    assert_eq!(score.get(), 0);
    score.add(5);
    assert_eq!(score.get(), 5);
    score.add(11);
    assert_eq!(score.get(), 16);
    score.reset();
    assert_eq!(score.get(), 0);
}

#[test]
fn new_session_has_ring_seed_and_zero_score() {
    let controller = TurnController::new();
    assert_eq!(controller.state(), GameState::Playing);
    assert_eq!(controller.score(), 0);

    for x in -1..=GRID_SIZE {
        assert_eq!(
            controller.grid().get(&GridCoordinates { x, y: -1 }),
            Some(TileType::Wall)
        );
        assert_eq!(
            controller.grid().get(&GridCoordinates { x, y: GRID_SIZE }),
            Some(TileType::Wall)
        );
    }
    for y in -1..=GRID_SIZE {
        assert_eq!(
            controller.grid().get(&GridCoordinates { x: -1, y }),
            Some(TileType::Wall)
        );
        assert_eq!(
            controller.grid().get(&GridCoordinates { x: GRID_SIZE, y }),
            Some(TileType::Wall)
        );
    }

    let mut seeds = 0;
    for x in 0..GRID_SIZE {
        for y in 0..GRID_SIZE {
            match controller.grid().get(&GridCoordinates { x, y }) {
                Some(tile) => {
                    assert_eq!(tile, TileType::Coin(CoinValue::One));
                    seeds += 1;
                }
                None => {}
            }
        }
    }
    assert_eq!(seeds, 1);
    assert_eq!(controller.grid().unused_count(), (GRID_SIZE * GRID_SIZE) as usize - 1);
}

#[test]
fn invalid_request_changes_nothing() {
    let mut controller = TurnController::new();
    // the ring cell at the corner holds a wall, so a move from it is illegal
    let report = controller.handle_move_request(GridCoordinates { x: -1, y: -1 }, coinblast::moves::MoveDirection::Right);
    assert!(report.events.is_empty());
    assert!(report.spawns.is_empty());
    assert_eq!(report.points_gained, 0);
    assert!(report.game_over.is_none());
    assert_eq!(controller.score(), 0);
    assert_eq!(controller.state(), GameState::Playing);
}

#[test]
fn productive_turn_moves_the_seed_and_spawns() {
    let mut controller = TurnController::new();
    let mut seed = None;
    for x in 0..GRID_SIZE {
        for y in 0..GRID_SIZE {
            if controller.grid().get(&GridCoordinates { x, y }).is_some() {
                seed = Some(GridCoordinates { x, y });
            }
        }
    }
    let seed = seed.expect("a fresh session holds one seed tile");

    // pick a direction with an empty neighbor, so the slide is legal
    let neighbors = [
        (coinblast::moves::MoveDirection::Right, GridCoordinates { x: seed.x + 1, y: seed.y }),
        (coinblast::moves::MoveDirection::Left, GridCoordinates { x: seed.x - 1, y: seed.y }),
        (coinblast::moves::MoveDirection::Up, GridCoordinates { x: seed.x, y: seed.y + 1 }),
        (coinblast::moves::MoveDirection::Down, GridCoordinates { x: seed.x, y: seed.y - 1 }),
    ];
    let (dir, target) = neighbors
        .iter()
        .find(|(_, n)| controller.grid().get(n).is_none())
        .copied()
        .expect("a lone seed always has an empty neighbor");

    let report = controller.handle_move_request(seed, dir);
    assert_eq!(report.events.len(), 1);
    assert!(report.game_over.is_none());
    assert_eq!(report.points_gained, 0);
    assert_eq!(controller.score(), 0);
    assert!(!report.spawns.is_empty());
    assert_eq!(controller.grid().get(&seed).is_some(), report.spawns.iter().any(|s| s.coords == seed));
    assert_eq!(controller.grid().get(&target), Some(TileType::Coin(CoinValue::One)));
}

#[test]
fn restarting_resets_the_session() {
    let mut controller = TurnController::new();
    controller.start_new_game();
    assert_eq!(controller.state(), GameState::Playing);
    assert_eq!(controller.score(), 0);
    assert_eq!(controller.grid().unused_count(), (GRID_SIZE * GRID_SIZE) as usize - 1);
}
