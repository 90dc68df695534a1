//! The turn controller: validates a requested move, applies its effects,
//! accumulates explosion points, spawns replacement tiles, and detects the
//! terminal state.

use crate::board::{
    ring_walls, spec_apply_events, spec_events_points, SpawnEvent, TileGrid,
};
use crate::grid::GridCoordinates;
use crate::moves::{
    spec_any_move, spec_validate, MoveDirection, ValidatedEventQueue, ValidEvent,
};
use crate::score::GameScore;
use crate::tile::{CoinValue, TileType};
use vstd::prelude::*;

verus! {

/// The phases of a play session, as the presentation layer sees them.
#[derive(Debug, Clone, Copy, PartialEq, Eq, Hash, Structural)]
pub enum GameState {
    Loading,
    TitleScreen,
    Playing,
    GameOver,
}

impl Default for GameState {
    fn default() -> (r: Self)
        ensures
            r == GameState::Loading,
    {
        GameState::Loading
    }
}

/// Everything one processed move request produced: the resolved effects, the
/// spawns that followed, the points gained, and the final score when the
/// session ended.
pub struct TurnReport {
    pub events: Vec<ValidEvent>,
    pub spawns: Vec<SpawnEvent>,
    pub points_gained: i32,
    pub game_over: Option<i32>,
}

/// A list of spawns placed on a board, in order.
pub open spec fn spawns_apply(
    m: Map<GridCoordinates, TileType>,
    sp: Seq<SpawnEvent>,
) -> Map<GridCoordinates, TileType>
    decreases sp.len(),
{
    if sp.len() == 0 {
        m
    } else {
        spawns_apply(m, sp.drop_last()).insert(sp.last().coords, sp.last().tile_type)
    }
}

/// Each spawn landed on an interior cell that was empty when it was placed,
/// with a tile drawn from the spawn distribution.
pub open spec fn spawns_ok(m: Map<GridCoordinates, TileType>, sp: Seq<SpawnEvent>) -> bool
    decreases sp.len(),
{
    if sp.len() == 0 {
        true
    } else {
        &&& spawns_ok(m, sp.drop_last())
        &&& sp.last().coords.is_interior()
        &&& !spawns_apply(m, sp.drop_last()).contains_key(sp.last().coords)
        &&& exists|d: int| 0 <= d < 11 && sp.last().tile_type == TileType::spec_from_draw(d)
    }
}

/// Addition on the score, saturating at the largest representable value.
pub open spec fn saturated_add(a: int, b: int) -> int {
    if a + b <= i32::MAX {
        a + b
    } else {
        i32::MAX as int
    }
}

/// Owns the board and the score, and runs one full turn at a time.
pub struct TurnController {
    grid: TileGrid,
    score: GameScore,
    state: GameState,
}

impl TurnController {
    /// The board the controller plays on.
    pub closed spec fn spec_grid(self) -> TileGrid {
        self.grid
    }

    /// The occupied cells of the controller's board.
    pub open spec fn board(self) -> Map<GridCoordinates, TileType> {
        self.spec_grid().board()
    }

    /// The free interior cells of the controller's board.
    pub open spec fn free(self) -> Set<GridCoordinates> {
        self.spec_grid().free()
    }

    /// The current score.
    pub closed spec fn points(self) -> int {
        self.score.spec_points()
    }

    /// The current phase.
    pub closed spec fn spec_state(self) -> GameState {
        self.state
    }

    /// The controller invariant: a well-formed board and a score that never
    /// went negative.
    pub closed spec fn wf(self) -> bool {
        &&& self.grid.wf()
        &&& self.score.spec_points() >= 0
    }

    /// A new controller at the start of a session: walled ring, one seed
    /// coin on an interior cell, zero score, awaiting input.
    pub fn new() -> (r: Self)
        ensures
            r.wf(),
            r.spec_state() == GameState::Playing,
            r.points() == 0,
            exists|seed: GridCoordinates|
                seed.is_interior() && r.board() == ring_walls().insert(
                    seed,
                    TileType::Coin(CoinValue::One),
                ),
    {
        let mut controller = TurnController {
            grid: TileGrid::default(),
            score: GameScore::default(),
            state: GameState::Loading,
        };
        controller.start_new_game();
        controller
    }

    /// Resets board and score and starts the next session: walled ring, one
    /// seed coin, zero score, awaiting input.
    pub fn start_new_game(&mut self)
        ensures
            final(self).wf(),
            final(self).spec_state() == GameState::Playing,
            final(self).points() == 0,
            exists|seed: GridCoordinates|
                seed.is_interior() && final(self).board() == ring_walls().insert(
                    seed,
                    TileType::Coin(CoinValue::One),
                ),
    {
        self.score.reset();
        self.grid = TileGrid::default();
        self.grid.setup_default_grid();
        proof {
            assert(self.grid.board() =~= ring_walls());
            let origin = GridCoordinates { x: 0, y: 0 };
            assert(origin.is_interior());
            assert(!self.grid.board().contains_key(origin));
            self.grid.lemma_free_set_consistent();
            assert(self.grid.free().contains(origin));
        }
        let seeded = self.grid.spawn_first_tile();
        match seeded {
            Some(ev) => {
                proof {
                    assert(ev.coords.is_interior());
                }
            }
            None => {
                proof {
                    assert(false);
                }
            }
        }
        self.state = GameState::Playing;
    }

    /// The current score.
    pub fn score(&self) -> (r: i32)
        ensures
            r == self.points(),
    {
        self.score.get()
    }

    /// The current phase.
    pub fn state(&self) -> (r: GameState)
        ensures
            r == self.spec_state(),
    {
        self.state
    }

    /// Read access to the board.
    pub fn grid(&self) -> (r: &TileGrid)
        ensures
            *r == self.spec_grid(),
    {
        &self.grid
    }

    /// Runs one full turn for a requested move: validates it, and when it is
    /// legal applies its effects, scores its explosions, spawns a new tile
    /// (re-spawning while the board is stuck but not full), and ends the
    /// session when neither a move nor a free cell remains. An illegal
    /// request changes nothing.
    pub fn handle_move_request(
        &mut self,
        source_coords: GridCoordinates,
        move_direction: MoveDirection,
    ) -> (r: TurnReport)
        requires
            old(self).wf(),
            old(self).spec_state() == GameState::Playing,
            source_coords.in_extent(),
        ensures
            final(self).wf(),
            match spec_validate(
                old(self).board(),
                source_coords.spec_candidates(move_direction),
                move_direction,
            ) {
                None => {
                    &&& final(self).board() == old(self).board()
                    &&& final(self).points() == old(self).points()
                    &&& final(self).spec_state() == GameState::Playing
                    &&& r.events@.len() == 0
                    &&& r.spawns@.len() == 0
                    &&& r.points_gained == 0
                    &&& r.game_over is None
                },
                Some(evs) => {
                    &&& r.events@ == evs
                    &&& r.points_gained == spec_events_points(old(self).board(), evs)
                    &&& spawns_ok(spec_apply_events(old(self).board(), evs), r.spawns@)
                    &&& match r.game_over {
                        None => {
                            &&& final(self).spec_state() == GameState::Playing
                            &&& final(self).points() == saturated_add(
                                old(self).points(),
                                r.points_gained as int,
                            )
                            &&& final(self).board() == spawns_apply(
                                spec_apply_events(old(self).board(), evs),
                                r.spawns@,
                            )
                            &&& spec_any_move(final(self).board())
                        },
                        Some(s) => {
                            &&& s == saturated_add(old(self).points(), r.points_gained as int)
                            &&& final(self).spec_state() == GameState::GameOver
                            &&& final(self).points() == 0
                            &&& final(self).board() == Map::<GridCoordinates, TileType>::empty()
                        },
                    }
                },
            },
    {
        let ghost m0 = self.grid.board();
        let ghost start_points = self.score.spec_points();
        let candidate_coords = source_coords.candidate_coords_for_dir(move_direction);
        proof {
            assert forall|i: int|
                0 <= i < candidate_coords@.len() implies (#[trigger] candidate_coords@[i]).step_in_bounds(
                move_direction,
            ) by {
                assert(candidate_coords@[i].in_extent());
            }
        }
        let validated = ValidatedEventQueue::validate_move(
            &self.grid,
            candidate_coords,
            move_direction,
        );
        let events: Vec<ValidEvent> = match validated {
            ValidatedEventQueue::InvalidMove => {
                return TurnReport {
                    events: Vec::new(),
                    spawns: Vec::new(),
                    points_gained: 0,
                    game_over: None,
                };
            }
            ValidatedEventQueue::ValidMove(events) => events,
        };
        let ghost evs = events@;
        proof {
            assert(spec_validate(
                m0,
                source_coords.spec_candidates(move_direction),
                move_direction,
            ) == Some(evs));
            assert forall|i: int|
                0 <= i < source_coords.spec_candidates(move_direction).len() implies (
            #[trigger] source_coords.spec_candidates(move_direction)[i]).in_extent() by {}
            crate::moves::lemma_validate_events_bounds(
                m0,
                source_coords.spec_candidates(move_direction),
                move_direction,
                evs,
            );
            crate::moves::lemma_validate_events_len(
                m0,
                source_coords.spec_candidates(move_direction),
                move_direction,
                evs,
            );
            crate::board::lemma_events_points_bounds(m0, evs);
        }
        let mut pts: i32 = 0;
        let mut i: usize = 0;
        proof {
            assert(evs.take(0) =~= Seq::<ValidEvent>::empty());
        }
        while i < events.len()
            invariant
                self.grid.wf(),
                self.score.spec_points() == start_points,
                0 <= start_points,
                self.state == GameState::Playing,
                i <= evs.len(),
                evs == events@,
                evs.len() <= 7,
                forall|j: int|
                    0 <= j < evs.len() ==> crate::moves::event_in_bounds(#[trigger] evs[j]),
                self.grid.board() == spec_apply_events(m0, evs.take(i as int)),
                pts == spec_events_points(m0, evs.take(i as int)),
                0 <= pts <= 40 * i,
                m0 == old(self).board(),
                spec_validate(
                    m0,
                    source_coords.spec_candidates(move_direction),
                    move_direction,
                ) == Some(evs),
            decreases evs.len() - i,
        {
            proof {
                assert(evs.take(i as int + 1).drop_last() =~= evs.take(i as int));
                assert(evs.take(i as int + 1).last() == evs[i as int]);
            }
            match &events[i] {
                ValidEvent::Move(e) => {
                    self.grid.handle_move_tile_event(e);
                }
                ValidEvent::Merge(e) => {
                    self.grid.handle_combine_event(e);
                }
                ValidEvent::Explosions(e) => {
                    let p = self.grid.explosion_points(&e.target);
                    pts = pts + p;
                    self.grid.handle_explosion_event(e);
                }
            }
            i = i + 1;
        }
        proof {
            assert(evs.take(evs.len() as int) =~= evs);
        }
        let ghost applied = spec_apply_events(m0, evs);
        let cur = self.score.get();
        if pts <= i32::MAX - cur {
            self.score.add(pts);
        } else {
            self.score.add(i32::MAX - cur);
        }
        let ghost scored = self.score.spec_points();
        proof {
            assert(scored == saturated_add(start_points, pts as int));
        }
        let mut spawns: Vec<SpawnEvent> = Vec::new();
        proof {
            assert(spawns_apply(applied, spawns@) =~= applied);
        }
        match self.grid.try_spawn_new_tile() {
            Some(ev) => {
                let ghost pre = spawns@;
                spawns.push(ev);
                proof {
                    assert(spawns@.drop_last() =~= pre);
                    assert(spawns@.last() == ev);
                    assert(spawns_ok(applied, pre));
                    assert(spawns_apply(applied, pre) == applied);
                    assert(!spawns_apply(applied, pre).contains_key(ev.coords));
                    assert(spawns_ok(applied, spawns@));
                    assert(self.grid.board() == spawns_apply(applied, spawns@));
                }
            }
            None => {}
        }
        let mut moves_exist = self.grid.has_any_possible_moves();
        while !moves_exist
            invariant
                self.grid.wf(),
                self.score.spec_points() == scored,
                0 <= scored,
                self.state == GameState::Playing,
                spawns_ok(applied, spawns@),
                self.grid.board() == spawns_apply(applied, spawns@),
                moves_exist == spec_any_move(self.grid.board()),
                m0 == old(self).board(),
                applied == spec_apply_events(m0, evs),
                evs == events@,
                pts == spec_events_points(m0, evs),
                scored == saturated_add(old(self).points(), pts as int),
                spec_validate(
                    m0,
                    source_coords.spec_candidates(move_direction),
                    move_direction,
                ) == Some(evs),
            decreases self.grid.free().len(),
        {
            proof {
                self.grid.lemma_free_finite();
            }
            let has_free = self.grid.has_unused_coordinates();
            if has_free {
                let ghost fl = self.grid.free().len();
                match self.grid.try_spawn_new_tile() {
                    Some(ev) => {
                        let ghost pre = spawns@;
                        spawns.push(ev);
                        proof {
                            assert(spawns@.drop_last() =~= pre);
                            assert(spawns@.last() == ev);
                            assert(spawns_ok(applied, pre));
                            assert(!spawns_apply(applied, pre).contains_key(ev.coords));
                            assert(spawns_ok(applied, spawns@));
                            assert(self.grid.board() == spawns_apply(applied, spawns@));
                            assert(self.grid.free().len() < fl);
                        }
                    }
                    None => {
                        proof {
                            assert(false);
                        }
                    }
                }
                moves_exist = self.grid.has_any_possible_moves();
            } else {
                let final_score = self.score.get();
                self.score.reset();
                self.grid = TileGrid::default();
                self.state = GameState::GameOver;
                proof {
                    assert(self.grid.board() =~= Map::<GridCoordinates, TileType>::empty());
                }
                return TurnReport {
                    events,
                    spawns,
                    points_gained: pts,
                    game_over: Some(final_score),
                };
            }
        }
        TurnReport { events, spawns, points_gained: pts, game_over: None }
    }
}

} // verus!
