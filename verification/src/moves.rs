//! Move requests, the effects a validated move produces, and the resolver
//! that walks a line of cells and turns a request into an effect batch.

use crate::board::{spec_can_combine, spec_can_move, TileGrid};
use crate::grid::{GridCoordinates, GRID_SIZE};
use crate::tile::{CombinationResult, TileType};
use vstd::prelude::*;

verus! {

/// The four swipe directions.
#[derive(Debug, PartialEq, Eq, Clone, Copy, Structural)]
pub enum MoveDirection {
    Up,
    Down,
    Left,
    Right,
}

/// A move request that was found valid, kept for notification purposes.
#[derive(Debug, PartialEq, Eq, Clone, Copy, Structural)]
pub struct ValidMoveEvent {
    pub coords: GridCoordinates,
    pub move_direction: MoveDirection,
}

/// One tile sliding from `source` to `target`.
#[derive(Debug, PartialEq, Eq, Clone, Copy, Structural)]
pub struct MoveTileEvent {
    pub source: GridCoordinates,
    pub target: GridCoordinates,
}

/// Two tiles combining: both cells are vacated, then `target` is re-occupied
/// by `resulting_type` when one is present.
#[derive(Debug, PartialEq, Eq, Clone, Copy, Structural)]
pub struct MergeTilesEvent {
    pub source: GridCoordinates,
    pub target: GridCoordinates,
    pub resulting_type: Option<TileType>,
}

/// A detonation centered at `target`.
#[derive(Debug, PartialEq, Eq, Clone, Copy, Structural)]
pub struct ExplosionEvent {
    pub target: GridCoordinates,
}

/// One atomic effect of a validated move.
#[derive(Debug, PartialEq, Eq, Clone, Copy, Structural)]
pub enum ValidEvent {
    Move(MoveTileEvent),
    Merge(MergeTilesEvent),
    Explosions(ExplosionEvent),
}

/// The resolver's outcome: an ordered effect batch, or an illegal move.
#[derive(Debug, PartialEq, Eq)]
pub enum ValidatedEventQueue {
    InvalidMove,
    ValidMove(Vec<ValidEvent>),
}

/// Whether a tile may slide one cell in a direction.
#[derive(Debug, PartialEq, Eq, Clone, Copy, Structural)]
pub enum CanMoveResult {
    /// The next cell is empty.
    Yes,
    /// The next cell holds a movable tile, which must move in turn.
    YesIfNextCanMove,
    /// The next cell holds an immovable tile.
    No,
}

/// Whether a tile combines with the next cell's tile in a direction.
#[derive(Debug, PartialEq, Eq, Structural)]
pub enum CanCombineResult {
    Yes(crate::tile::CombinationResult),
    No,
}

/// The resolver's walk over the remaining candidate cells, carrying the
/// slide effects queued so far. At each cell: a combination wins and ends the
/// walk; a slide into an empty cell ends it; a wall, an empty source, or the
/// boundary makes the move illegal; a movable neighbor queues a provisional
/// slide and walks on. A valid outcome reverses the queue, so the effect
/// nearest the stopping point applies first.
pub open spec fn spec_validate_from(
    m: Map<GridCoordinates, TileType>,
    cands: Seq<GridCoordinates>,
    dir: MoveDirection,
    acc: Seq<ValidEvent>,
) -> Option<Seq<ValidEvent>>
    decreases cands.len(),
{
    if cands.len() == 0 {
        None
    } else {
        let coords = cands[0];
        if !m.contains_key(coords) {
            None
        } else if !m[coords].spec_movable() {
            None
        } else {
            let target = coords.spec_after_move(dir);
            match spec_can_combine(m, coords, dir) {
                CanCombineResult::Yes(result) => match result {
                    CombinationResult::MergeTilesInto(resulting_type) => Some(
                        acc.push(
                            ValidEvent::Merge(
                                MergeTilesEvent {
                                    source: coords,
                                    target,
                                    resulting_type: Some(resulting_type),
                                },
                            ),
                        ).reverse(),
                    ),
                    CombinationResult::Explosion => Some(
                        acc.push(ValidEvent::Explosions(ExplosionEvent { target: coords })).push(
                            ValidEvent::Explosions(ExplosionEvent { target }),
                        ).reverse(),
                    ),
                },
                CanCombineResult::No => match spec_can_move(m, coords, dir) {
                    CanMoveResult::Yes => Some(
                        acc.push(ValidEvent::Move(MoveTileEvent { source: coords, target })).reverse(),
                    ),
                    CanMoveResult::No => None,
                    CanMoveResult::YesIfNextCanMove => spec_validate_from(
                        m,
                        cands.skip(1),
                        dir,
                        acc.push(ValidEvent::Move(MoveTileEvent { source: coords, target })),
                    ),
                },
            }
        }
    }
}

/// The resolved outcome of a move request along `cands`: the ordered effect
/// batch of a legal move, or nothing for an illegal one.
pub open spec fn spec_validate(
    m: Map<GridCoordinates, TileType>,
    cands: Seq<GridCoordinates>,
    dir: MoveDirection,
) -> Option<Seq<ValidEvent>> {
    spec_validate_from(m, cands, dir, Seq::empty())
}

impl ValidatedEventQueue {
    /// Wraps queued effects as a valid outcome, reversed into application
    /// order.
    pub fn valid_move_set(events: Vec<ValidEvent>) -> (r: Self)
        ensures
            match r {
                ValidatedEventQueue::ValidMove(v) => v@ == events@.reverse(),
                ValidatedEventQueue::InvalidMove => false,
            },
    {
        let mut reversed: Vec<ValidEvent> = Vec::new();
        let mut i: usize = events.len();
        while i > 0
            invariant
                i <= events@.len(),
                reversed@.len() == events@.len() - i,
                forall|j: int|
                    0 <= j < reversed@.len() ==> #[trigger] reversed@[j] == events@[events@.len() - 1
                        - j],
            decreases i,
        {
            i = i - 1;
            reversed.push(events[i]);
        }
        proof {
            assert(reversed@ =~= events@.reverse());
        }
        ValidatedEventQueue::ValidMove(reversed)
    }

    /// Walks the candidate cells and resolves the requested move into an
    /// ordered effect batch, or finds it illegal.
    pub fn validate_move(
        tile_grid: &TileGrid,
        candidate_coords: Vec<GridCoordinates>,
        move_direction: MoveDirection,
    ) -> (r: Self)
        requires
            tile_grid.wf(),
            forall|i: int|
                0 <= i < candidate_coords@.len() ==> (#[trigger] candidate_coords@[i]).step_in_bounds(
                    move_direction,
                ),
        ensures
            match r {
                ValidatedEventQueue::InvalidMove => spec_validate(
                    tile_grid.board(),
                    candidate_coords@,
                    move_direction,
                ) is None,
                ValidatedEventQueue::ValidMove(v) => spec_validate(
                    tile_grid.board(),
                    candidate_coords@,
                    move_direction,
                ) == Some(v@),
            },
    {
        let ghost m = tile_grid.board();
        let ghost cands = candidate_coords@;
        let mut valid_events: Vec<ValidEvent> = Vec::new();
        let mut idx: usize = 0;
        proof {
            assert(cands.skip(0) =~= cands);
            assert(valid_events@ =~= Seq::<ValidEvent>::empty());
        }
        while idx < candidate_coords.len()
            invariant
                tile_grid.wf(),
                m == tile_grid.board(),
                cands == candidate_coords@,
                idx <= cands.len(),
                forall|i: int|
                    0 <= i < cands.len() ==> (#[trigger] cands[i]).step_in_bounds(move_direction),
                spec_validate(m, cands, move_direction) == spec_validate_from(
                    m,
                    cands.skip(idx as int),
                    move_direction,
                    valid_events@,
                ),
            decreases cands.len() - idx,
        {
            let coords = candidate_coords[idx];
            proof {
                assert(cands.skip(idx as int).len() > 0);
                assert(cands.skip(idx as int)[0] == coords);
                assert(cands.skip(idx as int).skip(1) =~= cands.skip(idx as int + 1));
            }
            match tile_grid.get(&coords) {
                Some(tile_type) => {
                    match tile_type {
                        TileType::Wall => {
                            return ValidatedEventQueue::InvalidMove;
                        }
                        TileType::Bomb | TileType::Coin(_) => {}
                    }
                }
                None => {
                    return ValidatedEventQueue::InvalidMove;
                }
            }
            let can_combine_result = tile_grid.can_combine_tile(&coords, move_direction);
            match can_combine_result {
                CanCombineResult::Yes(result) => {
                    let target = coords.coords_after_move(move_direction);
                    match result {
                        CombinationResult::MergeTilesInto(resulting_type) => {
                            valid_events.push(
                                ValidEvent::Merge(
                                    MergeTilesEvent {
                                        source: coords,
                                        target,
                                        resulting_type: Some(resulting_type),
                                    },
                                ),
                            );
                        }
                        CombinationResult::Explosion => {
                            valid_events.push(
                                ValidEvent::Explosions(ExplosionEvent { target: coords }),
                            );
                            valid_events.push(ValidEvent::Explosions(ExplosionEvent { target }));
                        }
                    }
                    return ValidatedEventQueue::valid_move_set(valid_events);
                }
                CanCombineResult::No => {
                    let can_move_result = tile_grid.can_move_tile(&coords, move_direction);
                    match can_move_result {
                        CanMoveResult::Yes => {
                            let target = coords.coords_after_move(move_direction);
                            valid_events.push(
                                ValidEvent::Move(MoveTileEvent { source: coords, target }),
                            );
                            return ValidatedEventQueue::valid_move_set(valid_events);
                        }
                        CanMoveResult::No => {
                            return ValidatedEventQueue::InvalidMove;
                        }
                        CanMoveResult::YesIfNextCanMove => {
                            let target = coords.coords_after_move(move_direction);
                            valid_events.push(
                                ValidEvent::Move(MoveTileEvent { source: coords, target }),
                            );
                        }
                    }
                }
            }
            idx = idx + 1;
        }
        proof {
            assert(cands.skip(idx as int).len() == 0);
        }
        ValidatedEventQueue::InvalidMove
    }
}

/// An effect's coordinates admit the direction arithmetic its application
/// needs.
pub open spec fn event_in_bounds(e: ValidEvent) -> bool {
    match e {
        ValidEvent::Explosions(ev) => ev.target.radius_in_bounds(),
        ValidEvent::Move(_) => true,
        ValidEvent::Merge(_) => true,
    }
}

proof fn lemma_validate_from_events_bounds(
    m: Map<GridCoordinates, TileType>,
    cands: Seq<GridCoordinates>,
    dir: MoveDirection,
    acc: Seq<ValidEvent>,
)
    requires
        forall|i: int| 0 <= i < cands.len() ==> (#[trigger] cands[i]).in_extent(),
        forall|j: int| 0 <= j < acc.len() ==> event_in_bounds(#[trigger] acc[j]),
        spec_validate_from(m, cands, dir, acc) is Some,
    ensures
        forall|j: int|
            0 <= j < spec_validate_from(m, cands, dir, acc).unwrap().len() ==> event_in_bounds(
                #[trigger] spec_validate_from(m, cands, dir, acc).unwrap()[j],
            ),
    decreases cands.len(),
{
    assert(cands.len() > 0);
    let coords = cands[0];
    let target = coords.spec_after_move(dir);
    let out = spec_validate_from(m, cands, dir, acc).unwrap();
    assert(m.contains_key(coords) && m[coords].spec_movable());
    match spec_can_combine(m, coords, dir) {
        CanCombineResult::Yes(result) => {
            let pushed = match result {
                CombinationResult::MergeTilesInto(resulting_type) => acc.push(
                    ValidEvent::Merge(
                        MergeTilesEvent {
                            source: coords,
                            target,
                            resulting_type: Some(resulting_type),
                        },
                    ),
                ),
                CombinationResult::Explosion => acc.push(
                    ValidEvent::Explosions(ExplosionEvent { target: coords }),
                ).push(ValidEvent::Explosions(ExplosionEvent { target })),
            };
            assert(out == pushed.reverse());
            assert(forall|j: int| 0 <= j < pushed.len() ==> event_in_bounds(#[trigger] pushed[j]));
            assert forall|j: int| 0 <= j < out.len() implies event_in_bounds(#[trigger] out[j]) by {
                assert(out[j] == pushed[pushed.len() - 1 - j]);
            }
        }
        CanCombineResult::No => {
            match spec_can_move(m, coords, dir) {
                CanMoveResult::Yes => {
                    let pushed = acc.push(ValidEvent::Move(MoveTileEvent { source: coords, target }));
                    assert(out == pushed.reverse());
                    assert(forall|j: int|
                        0 <= j < pushed.len() ==> event_in_bounds(#[trigger] pushed[j]));
                    assert forall|j: int| 0 <= j < out.len() implies event_in_bounds(
                        #[trigger] out[j],
                    ) by {
                        assert(out[j] == pushed[pushed.len() - 1 - j]);
                    }
                }
                CanMoveResult::No => {}
                CanMoveResult::YesIfNextCanMove => {
                    let acc2 = acc.push(ValidEvent::Move(MoveTileEvent { source: coords, target }));
                    assert(forall|i: int|
                        0 <= i < cands.skip(1).len() ==> (#[trigger] cands.skip(1)[i]).in_extent());
                    lemma_validate_from_events_bounds(m, cands.skip(1), dir, acc2);
                }
            }
        }
    }
}

/// Every effect a legal move resolves to, along candidates of the full
/// extent, admits the direction arithmetic its application needs.
pub proof fn lemma_validate_events_bounds(
    m: Map<GridCoordinates, TileType>,
    cands: Seq<GridCoordinates>,
    dir: MoveDirection,
    evs: Seq<ValidEvent>,
)
    requires
        forall|i: int| 0 <= i < cands.len() ==> (#[trigger] cands[i]).in_extent(),
        spec_validate(m, cands, dir) == Some(evs),
    ensures
        forall|j: int| 0 <= j < evs.len() ==> event_in_bounds(#[trigger] evs[j]),
{
    lemma_validate_from_events_bounds(m, cands, dir, Seq::empty());
    assert(spec_validate_from(m, cands, dir, Seq::empty()).unwrap() == evs);
}

proof fn lemma_validate_from_events_len(
    m: Map<GridCoordinates, TileType>,
    cands: Seq<GridCoordinates>,
    dir: MoveDirection,
    acc: Seq<ValidEvent>,
)
    requires
        spec_validate_from(m, cands, dir, acc) is Some,
    ensures
        spec_validate_from(m, cands, dir, acc).unwrap().len() <= acc.len() + cands.len() + 1,
    decreases cands.len(),
{
    assert(cands.len() > 0);
    let coords = cands[0];
    match spec_can_combine(m, coords, dir) {
        CanCombineResult::Yes(_) => {}
        CanCombineResult::No => {
            match spec_can_move(m, coords, dir) {
                CanMoveResult::Yes => {}
                CanMoveResult::No => {}
                CanMoveResult::YesIfNextCanMove => {
                    let target = coords.spec_after_move(dir);
                    lemma_validate_from_events_len(
                        m,
                        cands.skip(1),
                        dir,
                        acc.push(ValidEvent::Move(MoveTileEvent { source: coords, target })),
                    );
                }
            }
        }
    }
}

/// A legal move resolves to at most one effect per candidate cell, plus one.
pub proof fn lemma_validate_events_len(
    m: Map<GridCoordinates, TileType>,
    cands: Seq<GridCoordinates>,
    dir: MoveDirection,
    evs: Seq<ValidEvent>,
)
    requires
        spec_validate(m, cands, dir) == Some(evs),
    ensures
        evs.len() <= cands.len() + 1,
{
    lemma_validate_from_events_len(m, cands, dir, Seq::empty());
    assert(spec_validate_from(m, cands, dir, Seq::empty()).unwrap() == evs);
}

/// Some coordinate of the full extent has a legal move in some direction.
pub open spec fn spec_any_move(m: Map<GridCoordinates, TileType>) -> bool {
    exists|c: GridCoordinates, d: MoveDirection|
        c.in_extent() && (#[trigger] spec_validate(m, c.spec_candidates(d), d)) is Some
}

impl TileGrid {
    /// Whether a move starting at `coords` in `move_direction` is legal.
    fn has_possible_moves_for_direction(
        &self,
        coords: &GridCoordinates,
        move_direction: MoveDirection,
    ) -> (r: bool)
        requires
            self.wf(),
            coords.in_extent(),
        ensures
            r == (spec_validate(
                self.board(),
                coords.spec_candidates(move_direction),
                move_direction,
            ) is Some),
    {
        let candidate_coords = coords.candidate_coords_for_dir(move_direction);
        proof {
            assert forall|i: int|
                0 <= i < candidate_coords@.len() implies (#[trigger] candidate_coords@[i]).step_in_bounds(
                move_direction,
            ) by {
                assert(candidate_coords@[i].in_extent());
            }
        }
        match ValidatedEventQueue::validate_move(self, candidate_coords, move_direction) {
            ValidatedEventQueue::ValidMove(_) => true,
            ValidatedEventQueue::InvalidMove => false,
        }
    }

    /// Terminal detection: true exactly when some coordinate of the full
    /// extent still has a legal move in some direction.
    pub fn has_any_possible_moves(&self) -> (r: bool)
        requires
            self.wf(),
        ensures
            r == spec_any_move(self.board()),
    {
        let mut x: i32 = -1;
        while x <= GRID_SIZE
            invariant
                self.wf(),
                -1 <= x <= GRID_SIZE + 1,
                forall|c: GridCoordinates, d: MoveDirection|
                    (c.in_extent() && c.x < x) ==> !((#[trigger] spec_validate(
                        self.board(),
                        c.spec_candidates(d),
                        d,
                    )) is Some),
            decreases GRID_SIZE + 1 - x,
        {
            let mut y: i32 = -1;
            while y <= GRID_SIZE
                invariant
                    self.wf(),
                    -1 <= x <= GRID_SIZE,
                    -1 <= y <= GRID_SIZE + 1,
                    forall|c: GridCoordinates, d: MoveDirection|
                        (c.in_extent() && (c.x < x || (c.x == x && c.y < y))) ==> !((
                        #[trigger] spec_validate(self.board(), c.spec_candidates(d), d)) is Some),
                decreases GRID_SIZE + 1 - y,
            {
                let coords = GridCoordinates { x, y };
                if self.has_possible_moves_for_direction(&coords, MoveDirection::Left)
                    || self.has_possible_moves_for_direction(&coords, MoveDirection::Right)
                    || self.has_possible_moves_for_direction(&coords, MoveDirection::Up)
                    || self.has_possible_moves_for_direction(&coords, MoveDirection::Down) {
                    return true;
                }
                proof {
                    assert forall|c: GridCoordinates, d: MoveDirection|
                        (c.in_extent() && (c.x < x || (c.x == x && c.y < y + 1))) implies !((
                    #[trigger] spec_validate(self.board(), c.spec_candidates(d), d)) is Some) by {
                        if c == coords {
                            match d {
                                MoveDirection::Left => {}
                                MoveDirection::Right => {}
                                MoveDirection::Up => {}
                                MoveDirection::Down => {}
                            }
                        }
                    }
                }
                y = y + 1;
            }
            x = x + 1;
        }
        false
    }
}

} // verus!
