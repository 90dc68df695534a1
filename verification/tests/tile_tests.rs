use coinblast::tile::{CoinValue, CombinationResult, ExplosionResult, TileType};

#[test]
fn movability_follows_tile_kind() {
    assert!(TileType::Coin(CoinValue::One).is_movable());
    assert!(TileType::Coin(CoinValue::Eight).is_movable());
    assert!(TileType::Bomb.is_movable());
    assert!(!TileType::Wall.is_movable());
}

#[test]
fn equal_coins_merge_into_double() {
    assert_eq!(
        TileType::Coin(CoinValue::One).try_combine_with(&TileType::Coin(CoinValue::One)),
        Some(CombinationResult::MergeTilesInto(TileType::Coin(CoinValue::Two)))
    );
    assert_eq!(
        TileType::Coin(CoinValue::Two).try_combine_with(&TileType::Coin(CoinValue::Two)),
        Some(CombinationResult::MergeTilesInto(TileType::Coin(CoinValue::Four)))
    );
    assert_eq!(
        TileType::Coin(CoinValue::Four).try_combine_with(&TileType::Coin(CoinValue::Four)),
        Some(CombinationResult::MergeTilesInto(TileType::Coin(CoinValue::Eight)))
    );
}

#[test]
fn eights_and_mixed_pairs_do_not_combine() {
    assert_eq!(
        TileType::Coin(CoinValue::Eight).try_combine_with(&TileType::Coin(CoinValue::Eight)),
        None
    );
    assert_eq!(
        TileType::Coin(CoinValue::One).try_combine_with(&TileType::Coin(CoinValue::Two)),
        None
    );
    assert_eq!(TileType::Coin(CoinValue::One).try_combine_with(&TileType::Bomb), None);
    assert_eq!(TileType::Bomb.try_combine_with(&TileType::Coin(CoinValue::Four)), None);
    assert_eq!(TileType::Wall.try_combine_with(&TileType::Wall), None);
    assert_eq!(TileType::Bomb.try_combine_with(&TileType::Wall), None);
}

#[test]
fn bomb_pairs_detonate() {
    assert_eq!(
        TileType::Bomb.try_combine_with(&TileType::Bomb),
        Some(CombinationResult::Explosion)
    );
}

#[test]
fn explosion_results_score_by_value() {
    assert_eq!(
        TileType::Coin(CoinValue::One).explosion_result(),
        ExplosionResult::ScorePoints(1)
    );
    assert_eq!(
        TileType::Coin(CoinValue::Two).explosion_result(),
        ExplosionResult::ScorePoints(2)
    );
    assert_eq!(
        TileType::Coin(CoinValue::Four).explosion_result(),
        ExplosionResult::ScorePoints(4)
    );
    assert_eq!(
        TileType::Coin(CoinValue::Eight).explosion_result(),
        ExplosionResult::ScorePoints(8)
    );
    assert_eq!(TileType::Bomb.explosion_result(), ExplosionResult::ScorePoints(1));
    assert_eq!(TileType::Wall.explosion_result(), ExplosionResult::NoExplosion);
}

#[test]
fn spawn_distribution_maps_draws_to_tiles() {
    for draw in 0..=4usize {
        assert_eq!(TileType::from_draw(draw), TileType::Coin(CoinValue::One));
    }
    for draw in 5..=6usize {
        assert_eq!(TileType::from_draw(draw), TileType::Coin(CoinValue::Two));
    }
    for draw in 7..=9usize {
        assert_eq!(TileType::from_draw(draw), TileType::Bomb);
    }
    assert_eq!(TileType::from_draw(10), TileType::Wall);
}

#[test]
fn random_tiles_come_from_the_distribution() {
    for _ in 0..50 {
        let t = TileType::gen_random();
        assert!(matches!(
            t,
            TileType::Coin(CoinValue::One)
                | TileType::Coin(CoinValue::Two)
                | TileType::Bomb
                | TileType::Wall
        ));
    }
}
