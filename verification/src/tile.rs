//! Tile values and their combination rules: coins of doubling values, walls
//! and bombs.

use vstd::prelude::*;

verus! {

/// The value carried by a coin tile. Coins double on merge; `Eight` is the
/// largest value and merges no further.
#[derive(Debug, PartialEq, Eq, Clone, Copy, Structural)]
pub enum CoinValue {
    One,
    Two,
    Four,
    Eight,
}

/// A tile occupying one grid cell.
#[derive(Debug, Clone, Copy, PartialEq, Eq, Structural)]
pub enum TileType {
    Coin(CoinValue),
    Wall,
    Bomb,
}

/// What combining two tiles produces: a merged tile, or a detonation.
#[derive(Debug, PartialEq, Eq, Clone, Copy, Structural)]
pub enum CombinationResult {
    MergeTilesInto(TileType),
    Explosion,
}

/// What an explosion does to a tile: destroys it for points, or nothing.
#[derive(Debug, PartialEq, Eq, Clone, Copy, Structural)]
pub enum ExplosionResult {
    ScorePoints(i32),
    NoExplosion,
}

impl TileType {
    /// A tile can slide unless it is a wall.
    pub open spec fn spec_movable(self) -> bool {
        match self {
            TileType::Wall => false,
            TileType::Coin(_) => true,
            TileType::Bomb => true,
        }
    }

    /// What an explosion reaching this tile does.
    pub open spec fn spec_explosion_result(self) -> ExplosionResult {
        match self {
            TileType::Wall => ExplosionResult::NoExplosion,
            TileType::Coin(value) => match value {
                CoinValue::One => ExplosionResult::ScorePoints(1),
                CoinValue::Two => ExplosionResult::ScorePoints(2),
                CoinValue::Four => ExplosionResult::ScorePoints(4),
                CoinValue::Eight => ExplosionResult::ScorePoints(8),
            },
            TileType::Bomb => ExplosionResult::ScorePoints(1),
        }
    }

    /// The numeric value a coin carries; walls and bombs carry none.
    pub open spec fn spec_coin_value(self) -> int {
        match self {
            TileType::Coin(v) => match v {
                CoinValue::One => 1,
                CoinValue::Two => 2,
                CoinValue::Four => 4,
                CoinValue::Eight => 8,
            },
            TileType::Wall => 0,
            TileType::Bomb => 0,
        }
    }

    /// An explosion destroys this tile (walls alone withstand one).
    pub open spec fn spec_destructible(self) -> bool {
        match self.spec_explosion_result() {
            ExplosionResult::ScorePoints(_) => true,
            ExplosionResult::NoExplosion => false,
        }
    }

    /// The combination rule: equal coins below `Eight` merge into the doubled
    /// coin, two bombs detonate, everything else refuses.
    pub open spec fn spec_combine(self, other: TileType) -> Option<CombinationResult> {
        match (self, other) {
            (TileType::Coin(CoinValue::One), TileType::Coin(CoinValue::One)) => Some(
                CombinationResult::MergeTilesInto(TileType::Coin(CoinValue::Two)),
            ),
            (TileType::Coin(CoinValue::Two), TileType::Coin(CoinValue::Two)) => Some(
                CombinationResult::MergeTilesInto(TileType::Coin(CoinValue::Four)),
            ),
            (TileType::Coin(CoinValue::Four), TileType::Coin(CoinValue::Four)) => Some(
                CombinationResult::MergeTilesInto(TileType::Coin(CoinValue::Eight)),
            ),
            (TileType::Bomb, TileType::Bomb) => Some(CombinationResult::Explosion),
            _ => None,
        }
    }

    pub fn is_movable(&self) -> (r: bool)
        ensures
            r == self.spec_movable(),
    {
        match self {
            TileType::Wall => false,
            TileType::Coin(_) | TileType::Bomb => true,
        }
    }

    pub fn explosion_result(&self) -> (r: ExplosionResult)
        ensures
            r == self.spec_explosion_result(),
    {
        match self {
            TileType::Wall => ExplosionResult::NoExplosion,
            TileType::Coin(value) => match value {
                CoinValue::One => ExplosionResult::ScorePoints(1),
                CoinValue::Two => ExplosionResult::ScorePoints(2),
                CoinValue::Four => ExplosionResult::ScorePoints(4),
                CoinValue::Eight => ExplosionResult::ScorePoints(8),
            },
            TileType::Bomb => ExplosionResult::ScorePoints(1),
        }
    }

    pub fn try_combine_with(&self, other: &TileType) -> (r: Option<CombinationResult>)
        ensures
            r == self.spec_combine(*other),
    {
        match (self, other) {
            (TileType::Coin(CoinValue::One), TileType::Coin(CoinValue::One)) => Some(
                CombinationResult::MergeTilesInto(TileType::Coin(CoinValue::Two)),
            ),
            (TileType::Coin(CoinValue::Two), TileType::Coin(CoinValue::Two)) => Some(
                CombinationResult::MergeTilesInto(TileType::Coin(CoinValue::Four)),
            ),
            (TileType::Coin(CoinValue::Four), TileType::Coin(CoinValue::Four)) => Some(
                CombinationResult::MergeTilesInto(TileType::Coin(CoinValue::Eight)),
            ),
            (TileType::Bomb, TileType::Bomb) => Some(CombinationResult::Explosion),
            _ => None,
        }
    }

    /// The spawn distribution over an eleven-way draw: five ways to a one
    /// coin, two to a two coin, three to a bomb, one to a wall.
    pub open spec fn spec_from_draw(draw: int) -> TileType {
        if draw <= 4 {
            TileType::Coin(CoinValue::One)
        } else if draw <= 6 {
            TileType::Coin(CoinValue::Two)
        } else if draw <= 9 {
            TileType::Bomb
        } else {
            TileType::Wall
        }
    }

    /// Maps one draw of the spawn distribution to the tile it stands for.
    pub fn from_draw(draw: usize) -> (t: TileType)
        requires
            draw < 11,
        ensures
            t == TileType::spec_from_draw(draw as int),
    {
        if draw <= 4 {
            TileType::Coin(CoinValue::One)
        } else if draw <= 6 {
            TileType::Coin(CoinValue::Two)
        } else if draw <= 9 {
            TileType::Bomb
        } else {
            TileType::Wall
        }
    }

    /// Draws a random tile from the spawn distribution.
    pub fn gen_random() -> (t: TileType)
        ensures
            exists|draw: int| 0 <= draw < 11 && t == TileType::spec_from_draw(draw),
    {
        let draw = crate::rng::random_below(11);
        let t = TileType::from_draw(draw);
        assert(t == TileType::spec_from_draw(draw as int));
        t
    }
}

} // verus!
