//! The authoritative board: a coordinate-keyed tile store plus the set of
//! currently free interior coordinates, kept consistent on every mutation.

use crate::grid::{GridCoordinates, GRID_SIZE};
use crate::moves::{
    CanCombineResult, CanMoveResult, ExplosionEvent, MergeTilesEvent, MoveDirection, MoveTileEvent,
    ValidEvent,
};
use crate::tile::{CoinValue, ExplosionResult, TileType};
use vstd::prelude::*;

verus! {

/// The coordinate-to-tile mapping held by an entry list.
pub open spec fn tiles_map(s: Seq<(GridCoordinates, TileType)>) -> Map<GridCoordinates, TileType>
    decreases s.len(),
{
    if s.len() == 0 {
        Map::empty()
    } else {
        tiles_map(s.drop_last()).insert(s.last().0, s.last().1)
    }
}

/// No coordinate occurs twice among the entries.
pub open spec fn unique_keys(s: Seq<(GridCoordinates, TileType)>) -> bool {
    forall|i: int, j: int| 0 <= i < j < s.len() ==> s[i].0 != s[j].0
}

/// The set of coordinates held by a coordinate list.
pub open spec fn coords_set(s: Seq<GridCoordinates>) -> Set<GridCoordinates>
    decreases s.len(),
{
    if s.len() == 0 {
        Set::empty()
    } else {
        coords_set(s.drop_last()).insert(s.last())
    }
}

/// No coordinate occurs twice in the list.
pub open spec fn unique_coords(s: Seq<GridCoordinates>) -> bool {
    forall|i: int, j: int| 0 <= i < j < s.len() ==> s[i] != s[j]
}

/// Every interior coordinate of the grid.
pub open spec fn interior_set() -> Set<GridCoordinates> {
    Set::new(|c: GridCoordinates| c.is_interior())
}

proof fn lemma_tiles_map_contains(s: Seq<(GridCoordinates, TileType)>, k: GridCoordinates)
    ensures
        tiles_map(s).contains_key(k) <==> exists|i: int| 0 <= i < s.len() && s[i].0 == k,
    decreases s.len(),
{
    if s.len() == 0 {
    } else {
        let dl = s.drop_last();
        lemma_tiles_map_contains(dl, k);
        if s.last().0 == k {
            assert(s[s.len() - 1].0 == k);
        } else {
            if exists|i: int| 0 <= i < s.len() && s[i].0 == k {
                let i = choose|i: int| 0 <= i < s.len() && s[i].0 == k;
                assert(dl[i].0 == k);
            }
        }
    }
}

proof fn lemma_tiles_map_index(s: Seq<(GridCoordinates, TileType)>, i: int)
    requires
        unique_keys(s),
        0 <= i < s.len(),
    ensures
        tiles_map(s).contains_key(s[i].0),
        tiles_map(s)[s[i].0] == s[i].1,
    decreases s.len(),
{
    if i == s.len() - 1 {
    } else {
        let dl = s.drop_last();
        assert(unique_keys(dl));
        lemma_tiles_map_index(dl, i);
        assert(s[i].0 != s.last().0);
    }
}

proof fn lemma_tiles_map_finite(s: Seq<(GridCoordinates, TileType)>)
    ensures
        tiles_map(s).dom().finite(),
    decreases s.len(),
{
    if s.len() == 0 {
    } else {
        lemma_tiles_map_finite(s.drop_last());
    }
}

proof fn lemma_tiles_map_push(s: Seq<(GridCoordinates, TileType)>, k: GridCoordinates, v: TileType)
    ensures
        tiles_map(s.push((k, v))) == tiles_map(s).insert(k, v),
{
    assert(s.push((k, v)).drop_last() =~= s);
}

proof fn lemma_tiles_map_remove(s: Seq<(GridCoordinates, TileType)>, i: int)
    requires
        unique_keys(s),
        0 <= i < s.len(),
    ensures
        tiles_map(s.remove(i)) == tiles_map(s).remove(s[i].0),
        unique_keys(s.remove(i)),
    decreases s.len(),
{
    let k = s[i].0;
    assert forall|p: int, q: int| 0 <= p < q < s.remove(i).len() implies s.remove(i)[p].0
        != s.remove(i)[q].0 by {
        assert(s.remove(i)[p] == if p < i { s[p] } else { s[p + 1] });
        assert(s.remove(i)[q] == if q < i { s[q] } else { s[q + 1] });
    }
    if i == s.len() - 1 {
        let dl = s.drop_last();
        assert(s.remove(i) =~= dl);
        lemma_tiles_map_contains(dl, k);
        assert(forall|j: int| 0 <= j < dl.len() ==> dl[j] == s[j]);
        assert(!tiles_map(dl).contains_key(k));
        assert(tiles_map(dl).insert(k, s[i].1).remove(k) =~= tiles_map(dl));
    } else {
        let dl = s.drop_last();
        assert(unique_keys(dl));
        lemma_tiles_map_remove(dl, i);
        assert(s.remove(i).drop_last() =~= dl.remove(i));
        assert(s.remove(i).last() == s.last());
        assert(s.remove(i).len() > 0);
        assert(s.last().0 != k);
        assert(tiles_map(dl).remove(k).insert(s.last().0, s.last().1) =~= tiles_map(dl).insert(
            s.last().0,
            s.last().1,
        ).remove(k));
    }
}

proof fn lemma_coords_set_contains(s: Seq<GridCoordinates>, c: GridCoordinates)
    ensures
        coords_set(s).contains(c) <==> exists|i: int| 0 <= i < s.len() && s[i] == c,
    decreases s.len(),
{
    if s.len() == 0 {
    } else {
        let dl = s.drop_last();
        lemma_coords_set_contains(dl, c);
        if s.last() == c {
            assert(s[s.len() - 1] == c);
        } else {
            if exists|i: int| 0 <= i < s.len() && s[i] == c {
                let i = choose|i: int| 0 <= i < s.len() && s[i] == c;
                assert(dl[i] == c);
            }
        }
    }
}

proof fn lemma_coords_set_push(s: Seq<GridCoordinates>, c: GridCoordinates)
    ensures
        coords_set(s.push(c)) == coords_set(s).insert(c),
{
    assert(s.push(c).drop_last() =~= s);
}

proof fn lemma_coords_set_remove(s: Seq<GridCoordinates>, i: int)
    requires
        unique_coords(s),
        0 <= i < s.len(),
    ensures
        coords_set(s.remove(i)) == coords_set(s).remove(s[i]),
        unique_coords(s.remove(i)),
    decreases s.len(),
{
    let c = s[i];
    assert forall|p: int, q: int| 0 <= p < q < s.remove(i).len() implies s.remove(i)[p]
        != s.remove(i)[q] by {
        assert(s.remove(i)[p] == if p < i { s[p] } else { s[p + 1] });
        assert(s.remove(i)[q] == if q < i { s[q] } else { s[q + 1] });
    }
    if i == s.len() - 1 {
        let dl = s.drop_last();
        assert(s.remove(i) =~= dl);
        lemma_coords_set_contains(dl, c);
        assert(forall|j: int| 0 <= j < dl.len() ==> dl[j] == s[j]);
        assert(!coords_set(dl).contains(c));
        assert(coords_set(dl).insert(c).remove(c) =~= coords_set(dl));
    } else {
        let dl = s.drop_last();
        assert(unique_coords(dl));
        lemma_coords_set_remove(dl, i);
        assert(s.remove(i).drop_last() =~= dl.remove(i));
        assert(s.remove(i).last() == s.last());
        assert(s.remove(i).len() > 0);
        assert(s.last() != c);
        assert(coords_set(dl).remove(c).insert(s.last()) =~= coords_set(dl).insert(
            s.last(),
        ).remove(c));
    }
}

proof fn lemma_coords_set_len(s: Seq<GridCoordinates>)
    requires
        unique_coords(s),
    ensures
        coords_set(s).finite(),
        coords_set(s).len() == s.len(),
    decreases s.len(),
{
    if s.len() == 0 {
    } else {
        let dl = s.drop_last();
        assert(unique_coords(dl));
        lemma_coords_set_len(dl);
        lemma_coords_set_contains(dl, s.last());
        assert(forall|j: int| 0 <= j < dl.len() ==> dl[j] == s[j]);
        assert(!coords_set(dl).contains(s.last()));
    }
}

/// The authoritative mapping from coordinate to tile, together with the pool
/// of free interior coordinates used for spawning.
pub struct TileGrid {
    tiles: Vec<(GridCoordinates, TileType)>,
    unused_coordinates: Vec<GridCoordinates>,
}

impl TileGrid {
    /// The occupied cells, as a map; absence means the cell is empty.
    pub closed spec fn board(self) -> Map<GridCoordinates, TileType> {
        tiles_map(self.tiles@)
    }

    /// The free interior coordinates.
    pub closed spec fn free(self) -> Set<GridCoordinates> {
        coords_set(self.unused_coordinates@)
    }

    /// The board invariant: entries are keyed uniquely, and a coordinate is
    /// free exactly when it is interior and unoccupied.
    pub closed spec fn wf(self) -> bool {
        &&& unique_keys(self.tiles@)
        &&& unique_coords(self.unused_coordinates@)
        &&& forall|c: GridCoordinates| #[trigger]
            self.free().contains(c) <==> c.is_interior() && !self.board().contains_key(c)
    }

    /// Free-set consistency: on a well-formed board, a coordinate is free
    /// exactly when it is interior and holds no tile. Every board operation
    /// preserves well-formedness, so this holds in every reachable state.
    pub proof fn lemma_free_set_consistent(self)
        requires
            self.wf(),
        ensures
            forall|c: GridCoordinates| #[trigger]
                self.free().contains(c) <==> c.is_interior() && !self.board().contains_key(c),
    {
    }

    /// The free pool is finite.
    pub proof fn lemma_free_finite(self)
        requires
            self.wf(),
        ensures
            self.free().finite(),
    {
        lemma_coords_set_len(self.unused_coordinates@);
    }

    /// The occupied-cell set is finite.
    pub proof fn lemma_board_finite(self)
        ensures
            self.board().dom().finite(),
    {
        lemma_tiles_map_finite(self.tiles@);
    }

    fn find_tile_index(&self, coords: &GridCoordinates) -> (r: Option<usize>)
        ensures
            match r {
                Some(i) => i < self.tiles@.len() && self.tiles@[i as int].0 == *coords,
                None => forall|j: int| 0 <= j < self.tiles@.len() ==> self.tiles@[j].0 != *coords,
            },
    {
        let mut i: usize = 0;
        while i < self.tiles.len()
            invariant
                i <= self.tiles@.len(),
                forall|j: int| 0 <= j < i ==> self.tiles@[j].0 != *coords,
            decreases self.tiles@.len() - i,
        {
            if self.tiles[i].0 == *coords {
                return Some(i);
            }
            i = i + 1;
        }
        None
    }

    fn find_free_index(&self, coords: &GridCoordinates) -> (r: Option<usize>)
        ensures
            match r {
                Some(i) => i < self.unused_coordinates@.len() && self.unused_coordinates@[i as int]
                    == *coords,
                None => forall|j: int|
                    0 <= j < self.unused_coordinates@.len() ==> self.unused_coordinates@[j]
                        != *coords,
            },
    {
        let mut i: usize = 0;
        while i < self.unused_coordinates.len()
            invariant
                i <= self.unused_coordinates@.len(),
                forall|j: int| 0 <= j < i ==> self.unused_coordinates@[j] != *coords,
            decreases self.unused_coordinates@.len() - i,
        {
            if self.unused_coordinates[i] == *coords {
                return Some(i);
            }
            i = i + 1;
        }
        None
    }

    /// Takes `coords` out of the free pool, if it is there.
    fn free_drop(&mut self, coords: &GridCoordinates)
        requires
            unique_coords(old(self).unused_coordinates@),
        ensures
            final(self).tiles@ == old(self).tiles@,
            unique_coords(final(self).unused_coordinates@),
            final(self).free() == old(self).free().remove(*coords),
    {
        let found = self.find_free_index(coords);
        match found {
            Some(i) => {
                proof {
                    lemma_coords_set_remove(self.unused_coordinates@, i as int);
                }
                self.unused_coordinates.remove(i);
            }
            None => {
                proof {
                    lemma_coords_set_contains(self.unused_coordinates@, *coords);
                    assert(self.free().remove(*coords) =~= self.free());
                }
            }
        }
    }

    /// Puts `coords` into the free pool, if it is not already there.
    fn free_mark(&mut self, coords: GridCoordinates)
        requires
            unique_coords(old(self).unused_coordinates@),
        ensures
            final(self).tiles@ == old(self).tiles@,
            unique_coords(final(self).unused_coordinates@),
            final(self).free() == old(self).free().insert(coords),
    {
        let found = self.find_free_index(&coords);
        match found {
            Some(i) => {
                proof {
                    lemma_coords_set_contains(self.unused_coordinates@, coords);
                    assert(self.free().insert(coords) =~= self.free());
                }
            }
            None => {
                proof {
                    lemma_coords_set_push(self.unused_coordinates@, coords);
                    let s = self.unused_coordinates@;
                    assert forall|p: int, q: int| 0 <= p < q < s.push(coords).len() implies s.push(
                        coords,
                    )[p] != s.push(coords)[q] by {
                        if q < s.len() {
                            assert(s.push(coords)[p] == s[p]);
                            assert(s.push(coords)[q] == s[q]);
                        } else {
                            assert(s.push(coords)[q] == coords);
                            assert(s.push(coords)[p] == s[p]);
                        }
                    }
                }
                self.unused_coordinates.push(coords);
            }
        }
    }

    /// Read-only lookup; `None` means the cell is empty.
    pub fn get(&self, coords: &GridCoordinates) -> (r: Option<TileType>)
        requires
            self.wf(),
        ensures
            r == if self.board().contains_key(*coords) {
                Some(self.board()[*coords])
            } else {
                None::<TileType>
            },
    {
        let found = self.find_tile_index(coords);
        match found {
            Some(i) => {
                proof {
                    lemma_tiles_map_index(self.tiles@, i as int);
                }
                Some(self.tiles[i].1)
            }
            None => {
                proof {
                    lemma_tiles_map_contains(self.tiles@, *coords);
                }
                None
            }
        }
    }

    /// Occupies `coords` with `tile_type`, returning the previous occupant.
    /// The coordinate leaves the free pool.
    pub fn insert(&mut self, coords: GridCoordinates, tile_type: TileType) -> (prev: Option<
        TileType,
    >)
        requires
            old(self).wf(),
        ensures
            final(self).wf(),
            final(self).board() == old(self).board().insert(coords, tile_type),
            final(self).free() == old(self).free().remove(coords),
            prev == if old(self).board().contains_key(coords) {
                Some(old(self).board()[coords])
            } else {
                None::<TileType>
            },
    {
        let ghost m0 = self.board();
        let ghost f0 = self.free();
        let found = self.find_tile_index(&coords);
        let prev: Option<TileType> = match found {
            Some(i) => {
                proof {
                    lemma_tiles_map_index(self.tiles@, i as int);
                    lemma_tiles_map_remove(self.tiles@, i as int);
                }
                let pair = self.tiles.remove(i);
                Some(pair.1)
            }
            None => {
                proof {
                    lemma_tiles_map_contains(self.tiles@, coords);
                    assert(self.board().remove(coords) =~= self.board());
                }
                None
            }
        };
        proof {
            assert(self.board() == m0.remove(coords));
            lemma_tiles_map_contains(self.tiles@, coords);
            assert(!self.board().contains_key(coords));
            lemma_tiles_map_push(self.tiles@, coords, tile_type);
            let s = self.tiles@;
            assert forall|p: int, q: int|
                0 <= p < q < s.push((coords, tile_type)).len() implies s.push(
                (coords, tile_type),
            )[p].0 != s.push((coords, tile_type))[q].0 by {
                if q < s.len() {
                    assert(s.push((coords, tile_type))[p] == s[p]);
                    assert(s.push((coords, tile_type))[q] == s[q]);
                } else {
                    assert(s.push((coords, tile_type))[q] == (coords, tile_type));
                    assert(s.push((coords, tile_type))[p] == s[p]);
                }
            }
        }
        self.tiles.push((coords, tile_type));
        proof {
            assert(self.board() =~= m0.insert(coords, tile_type));
        }
        self.free_drop(&coords);
        proof {
            assert forall|c: GridCoordinates| #[trigger] self.free().contains(c) <==> c.is_interior()
                && !self.board().contains_key(c) by {
                if c == coords {
                    assert(!self.free().contains(c));
                    assert(self.board().contains_key(c));
                } else {
                    assert(self.free().contains(c) == f0.contains(c));
                    assert(self.board().contains_key(c) == m0.contains_key(c));
                }
            }
        }
        prev
    }

    /// Vacates `coords`, returning the previous occupant. The coordinate
    /// re-enters the free pool when it is interior.
    fn take(&mut self, coords: &GridCoordinates) -> (prev: Option<TileType>)
        requires
            old(self).wf(),
        ensures
            final(self).wf(),
            final(self).board() == old(self).board().remove(*coords),
            final(self).free() == if coords.is_interior() {
                old(self).free().insert(*coords)
            } else {
                old(self).free()
            },
            prev == if old(self).board().contains_key(*coords) {
                Some(old(self).board()[*coords])
            } else {
                None::<TileType>
            },
    {
        let ghost m0 = self.board();
        let ghost f0 = self.free();
        let found = self.find_tile_index(coords);
        let prev: Option<TileType> = match found {
            Some(i) => {
                proof {
                    lemma_tiles_map_index(self.tiles@, i as int);
                    lemma_tiles_map_remove(self.tiles@, i as int);
                }
                let pair = self.tiles.remove(i);
                Some(pair.1)
            }
            None => {
                proof {
                    lemma_tiles_map_contains(self.tiles@, *coords);
                    assert(self.board().remove(*coords) =~= self.board());
                }
                None
            }
        };
        if coords.x >= 0 && coords.x < GRID_SIZE && coords.y >= 0 && coords.y < GRID_SIZE {
            self.free_mark(*coords);
        } else {
            proof {
                assert(!coords.is_interior());
            }
        }
        proof {
            assert(self.board() == m0.remove(*coords));
            assert forall|c: GridCoordinates| #[trigger] self.free().contains(c) <==> c.is_interior()
                && !self.board().contains_key(c) by {
                if c == *coords {
                } else {
                    assert(self.free().contains(c) == f0.contains(c));
                    assert(self.board().contains_key(c) == m0.contains_key(c));
                }
            }
        }
        prev
    }

    /// Occupies `coords` when a tile is given; vacates it when none is.
    pub fn maybe_insert(&mut self, coords: GridCoordinates, maybe_tile_type: Option<TileType>) -> (
        prev: Option<TileType>)
        requires
            old(self).wf(),
        ensures
            final(self).wf(),
            final(self).board() == match maybe_tile_type {
                Some(t) => old(self).board().insert(coords, t),
                None => old(self).board().remove(coords),
            },
            final(self).free() == match maybe_tile_type {
                Some(t) => old(self).free().remove(coords),
                None => if coords.is_interior() {
                    old(self).free().insert(coords)
                } else {
                    old(self).free()
                },
            },
            prev == if old(self).board().contains_key(coords) {
                Some(old(self).board()[coords])
            } else {
                None::<TileType>
            },
    {
        match maybe_tile_type {
            Some(tile_type) => self.insert(coords, tile_type),
            None => self.take(&coords),
        }
    }

    /// Whether any free coordinate remains.
    pub fn has_unused_coordinates(&self) -> (r: bool)
        requires
            self.wf(),
        ensures
            r <==> exists|c: GridCoordinates| self.free().contains(c),
    {
        proof {
            if self.unused_coordinates@.len() == 0 {
                assert forall|c: GridCoordinates| !self.free().contains(c) by {
                    lemma_coords_set_contains(self.unused_coordinates@, c);
                }
            } else {
                lemma_coords_set_contains(self.unused_coordinates@, self.unused_coordinates@[0]);
                assert(self.free().contains(self.unused_coordinates@[0]));
            }
        }
        self.unused_coordinates.len() > 0
    }

    /// Whether `coords` is currently in the free pool.
    pub fn contains_unused(&self, coords: &GridCoordinates) -> (r: bool)
        requires
            self.wf(),
        ensures
            r == self.free().contains(*coords),
    {
        proof {
            lemma_coords_set_contains(self.unused_coordinates@, *coords);
        }
        match self.find_free_index(coords) {
            Some(_) => true,
            None => false,
        }
    }

    /// How many free coordinates remain.
    pub fn unused_count(&self) -> (r: usize)
        requires
            self.wf(),
        ensures
            r == self.free().len(),
            self.free().finite(),
    {
        proof {
            lemma_coords_set_len(self.unused_coordinates@);
        }
        self.unused_coordinates.len()
    }

    /// Whether the tile at `at_coords` may slide one cell in `dir`.
    pub fn can_move_tile(&self, at_coords: &GridCoordinates, dir: MoveDirection) -> (r:
        CanMoveResult)
        requires
            self.wf(),
            at_coords.step_in_bounds(dir),
        ensures
            r == spec_can_move(self.board(), *at_coords, dir),
    {
        let target_coords = at_coords.coords_after_move(dir);
        match self.get(&target_coords) {
            Some(tile_type) => {
                if !tile_type.is_movable() {
                    CanMoveResult::No
                } else {
                    CanMoveResult::YesIfNextCanMove
                }
            }
            None => CanMoveResult::Yes,
        }
    }

    /// Whether the tile at `at_coords` combines with the next cell's tile.
    pub fn can_combine_tile(&self, at_coords: &GridCoordinates, dir: MoveDirection) -> (r:
        CanCombineResult)
        requires
            self.wf(),
            self.board().contains_key(*at_coords),
            at_coords.step_in_bounds(dir),
        ensures
            r == spec_can_combine(self.board(), *at_coords, dir),
    {
        let src_type = self.get(at_coords).unwrap();
        let target_coords = at_coords.coords_after_move(dir);
        match self.get(&target_coords) {
            Some(tile_type) => {
                match src_type.try_combine_with(&tile_type) {
                    Some(result) => CanCombineResult::Yes(result),
                    None => CanCombineResult::No,
                }
            }
            None => CanCombineResult::No,
        }
    }
}

/// Whether the tile at `at` may slide one cell in `dir`: yes into an empty
/// cell, conditionally behind a movable tile, never into an immovable one.
pub open spec fn spec_can_move(
    m: Map<GridCoordinates, TileType>,
    at: GridCoordinates,
    dir: MoveDirection,
) -> CanMoveResult {
    let target = at.spec_after_move(dir);
    if m.contains_key(target) {
        if m[target].spec_movable() {
            CanMoveResult::YesIfNextCanMove
        } else {
            CanMoveResult::No
        }
    } else {
        CanMoveResult::Yes
    }
}

/// Whether the tile at `at` combines with the tile one cell ahead in `dir`.
pub open spec fn spec_can_combine(
    m: Map<GridCoordinates, TileType>,
    at: GridCoordinates,
    dir: MoveDirection,
) -> CanCombineResult {
    let target = at.spec_after_move(dir);
    if m.contains_key(target) {
        match m[at].spec_combine(m[target]) {
            Some(result) => CanCombineResult::Yes(result),
            None => CanCombineResult::No,
        }
    } else {
        CanCombineResult::No
    }
}

/// A newly spawned tile and where it landed.
pub struct SpawnEvent {
    pub coords: GridCoordinates,
    pub tile_type: TileType,
}

/// The coordinates a list of spawns covered.
pub open spec fn spawn_coords(s: Seq<SpawnEvent>) -> Set<GridCoordinates>
    decreases s.len(),
{
    if s.len() == 0 {
        Set::empty()
    } else {
        spawn_coords(s.drop_last()).insert(s.last().coords)
    }
}

proof fn lemma_spawn_coords_push(s: Seq<SpawnEvent>, e: SpawnEvent)
    ensures
        spawn_coords(s.push(e)) == spawn_coords(s).insert(e.coords),
{
    assert(s.push(e).drop_last() =~= s);
}

/// The boundary ring, walled.
pub open spec fn ring_walls() -> Map<GridCoordinates, TileType> {
    Map::new(|c: GridCoordinates| c.on_ring(), |c: GridCoordinates| TileType::Wall)
}

/// The boundary ring's coordinates.
pub open spec fn ring_set() -> Set<GridCoordinates> {
    Set::new(|c: GridCoordinates| c.on_ring())
}

/// The bottom and top ring rows up to column `bound`, walled.
spec fn row_walls(bound: int) -> Map<GridCoordinates, TileType> {
    Map::new(
        |c: GridCoordinates| (c.y == -1 || c.y == GRID_SIZE) && -1 <= c.x < bound,
        |c: GridCoordinates| TileType::Wall,
    )
}

/// The coordinates of `row_walls(bound)`.
spec fn row_set(bound: int) -> Set<GridCoordinates> {
    Set::new(|c: GridCoordinates| (c.y == -1 || c.y == GRID_SIZE) && -1 <= c.x < bound)
}

/// The full ring rows plus the side columns up to row `bound`, walled.
spec fn part_walls(bound: int) -> Map<GridCoordinates, TileType> {
    Map::new(
        |c: GridCoordinates|
            ((c.y == -1 || c.y == GRID_SIZE) && -1 <= c.x <= GRID_SIZE) || ((c.x == -1 || c.x
                == GRID_SIZE) && -1 <= c.y < bound),
        |c: GridCoordinates| TileType::Wall,
    )
}

/// The coordinates of `part_walls(bound)`.
spec fn part_set(bound: int) -> Set<GridCoordinates> {
    Set::new(
        |c: GridCoordinates|
            ((c.y == -1 || c.y == GRID_SIZE) && -1 <= c.x <= GRID_SIZE) || ((c.x == -1 || c.x
                == GRID_SIZE) && -1 <= c.y < bound),
    )
}

/// A `Move` effect relocates the source tile, when one is there.
pub open spec fn spec_apply_move(
    m: Map<GridCoordinates, TileType>,
    e: MoveTileEvent,
) -> Map<GridCoordinates, TileType> {
    if m.contains_key(e.source) {
        m.remove(e.source).insert(e.target, m[e.source])
    } else {
        m
    }
}

/// A `Merge` effect vacates both cells, then re-occupies the target when a
/// resulting tile is given.
pub open spec fn spec_apply_merge(
    m: Map<GridCoordinates, TileType>,
    e: MergeTilesEvent,
) -> Map<GridCoordinates, TileType> {
    let cleared = m.remove(e.source).remove(e.target);
    match e.resulting_type {
        Some(t) => cleared.insert(e.target, t),
        None => cleared,
    }
}

/// The cells an explosion centered at `center` destroys: the occupied cells
/// of the radius whose tiles are destructible.
pub open spec fn spec_exploded(
    m: Map<GridCoordinates, TileType>,
    center: GridCoordinates,
) -> Set<GridCoordinates> {
    Set::new(
        |k: GridCoordinates| center.in_radius(k) && m.contains_key(k) && m[k].spec_destructible(),
    )
}

/// An `Explosion` effect removes exactly the destructible tiles in radius.
pub open spec fn spec_apply_explosion(
    m: Map<GridCoordinates, TileType>,
    e: ExplosionEvent,
) -> Map<GridCoordinates, TileType> {
    m.remove_keys(spec_exploded(m, e.target))
}

/// One effect applied to the board mapping.
pub open spec fn spec_apply_event(
    m: Map<GridCoordinates, TileType>,
    e: ValidEvent,
) -> Map<GridCoordinates, TileType> {
    match e {
        ValidEvent::Move(ev) => spec_apply_move(m, ev),
        ValidEvent::Merge(ev) => spec_apply_merge(m, ev),
        ValidEvent::Explosions(ev) => spec_apply_explosion(m, ev),
    }
}

/// An effect batch applied in sequence order.
pub open spec fn spec_apply_events(
    m: Map<GridCoordinates, TileType>,
    evs: Seq<ValidEvent>,
) -> Map<GridCoordinates, TileType>
    decreases evs.len(),
{
    if evs.len() == 0 {
        m
    } else {
        spec_apply_event(spec_apply_events(m, evs.drop_last()), evs.last())
    }
}

/// A batch of explosions applied in sequence order.
pub open spec fn spec_apply_explosions(
    m: Map<GridCoordinates, TileType>,
    evs: Seq<ExplosionEvent>,
) -> Map<GridCoordinates, TileType>
    decreases evs.len(),
{
    if evs.len() == 0 {
        m
    } else {
        spec_apply_explosion(spec_apply_explosions(m, evs.drop_last()), evs.last())
    }
}

/// All the batch's source cells vacated.
pub open spec fn spec_remove_sources(
    m: Map<GridCoordinates, TileType>,
    evs: Seq<MoveTileEvent>,
) -> Map<GridCoordinates, TileType>
    decreases evs.len(),
{
    if evs.len() == 0 {
        m
    } else {
        spec_remove_sources(m, evs.drop_last()).remove(evs.last().source)
    }
}

/// The batch's tiles, as they stood in `orig`, placed at their targets.
pub open spec fn spec_insert_moved(
    m: Map<GridCoordinates, TileType>,
    evs: Seq<MoveTileEvent>,
    orig: Map<GridCoordinates, TileType>,
) -> Map<GridCoordinates, TileType>
    decreases evs.len(),
{
    if evs.len() == 0 {
        m
    } else {
        spec_insert_moved(m, evs.drop_last(), orig).insert(
            evs.last().target,
            orig[evs.last().source],
        )
    }
}

/// A batch of moves applied all at once: every source vacated first, then
/// every moved tile placed at its target.
pub open spec fn spec_batch_moves(
    m: Map<GridCoordinates, TileType>,
    evs: Seq<MoveTileEvent>,
) -> Map<GridCoordinates, TileType> {
    spec_insert_moved(spec_remove_sources(m, evs), evs, m)
}

/// All the batch's source and target cells vacated.
pub open spec fn spec_remove_merged(
    m: Map<GridCoordinates, TileType>,
    evs: Seq<MergeTilesEvent>,
) -> Map<GridCoordinates, TileType>
    decreases evs.len(),
{
    if evs.len() == 0 {
        m
    } else {
        spec_remove_merged(m, evs.drop_last()).remove(evs.last().source).remove(evs.last().target)
    }
}

/// The batch's merge results placed (or their targets vacated) in order.
pub open spec fn spec_insert_merged(
    m: Map<GridCoordinates, TileType>,
    evs: Seq<MergeTilesEvent>,
) -> Map<GridCoordinates, TileType>
    decreases evs.len(),
{
    if evs.len() == 0 {
        m
    } else {
        let cleared = spec_insert_merged(m, evs.drop_last());
        match evs.last().resulting_type {
            Some(t) => cleared.insert(evs.last().target, t),
            None => cleared.remove(evs.last().target),
        }
    }
}

/// A batch of merges applied all at once.
pub open spec fn spec_batch_merges(
    m: Map<GridCoordinates, TileType>,
    evs: Seq<MergeTilesEvent>,
) -> Map<GridCoordinates, TileType> {
    spec_insert_merged(spec_remove_merged(m, evs), evs)
}

/// The points the tile at `c` yields when destroyed, or zero.
pub open spec fn spec_cell_points(m: Map<GridCoordinates, TileType>, c: GridCoordinates) -> int {
    if m.contains_key(c) {
        match m[c].spec_explosion_result() {
            ExplosionResult::ScorePoints(p) => p as int,
            ExplosionResult::NoExplosion => 0,
        }
    } else {
        0
    }
}

/// The points an explosion at `center` yields: the sum over its five cells.
pub open spec fn spec_explosion_points(
    m: Map<GridCoordinates, TileType>,
    center: GridCoordinates,
) -> int {
    spec_cell_points(m, center) + spec_cell_points(m, center.spec_after_move(MoveDirection::Up))
        + spec_cell_points(m, center.spec_after_move(MoveDirection::Down)) + spec_cell_points(
        m,
        center.spec_after_move(MoveDirection::Left),
    ) + spec_cell_points(m, center.spec_after_move(MoveDirection::Right))
}

/// The points an effect yields when applied to board `m`.
pub open spec fn spec_event_points(m: Map<GridCoordinates, TileType>, e: ValidEvent) -> int {
    match e {
        ValidEvent::Explosions(ev) => spec_explosion_points(m, ev.target),
        ValidEvent::Move(_) => 0,
        ValidEvent::Merge(_) => 0,
    }
}

/// The points an effect batch yields, each effect scored against the board
/// it is applied to.
pub open spec fn spec_events_points(
    m: Map<GridCoordinates, TileType>,
    evs: Seq<ValidEvent>,
) -> int
    decreases evs.len(),
{
    if evs.len() == 0 {
        0
    } else {
        spec_events_points(m, evs.drop_last()) + spec_event_points(
            spec_apply_events(m, evs.drop_last()),
            evs.last(),
        )
    }
}

/// Cell points lie between zero and eight.
pub proof fn lemma_cell_points_bounds(m: Map<GridCoordinates, TileType>, c: GridCoordinates)
    ensures
        0 <= spec_cell_points(m, c) <= 8,
{
    if m.contains_key(c) {
        match m[c] {
            TileType::Coin(v) => {
                match v {
                    CoinValue::One => {}
                    CoinValue::Two => {}
                    CoinValue::Four => {}
                    CoinValue::Eight => {}
                }
            }
            TileType::Wall => {}
            TileType::Bomb => {}
        }
    }
}

/// Explosion points lie between zero and forty.
pub proof fn lemma_explosion_points_bounds(
    m: Map<GridCoordinates, TileType>,
    center: GridCoordinates,
)
    ensures
        0 <= spec_explosion_points(m, center) <= 40,
{
    lemma_cell_points_bounds(m, center);
    lemma_cell_points_bounds(m, center.spec_after_move(MoveDirection::Up));
    lemma_cell_points_bounds(m, center.spec_after_move(MoveDirection::Down));
    lemma_cell_points_bounds(m, center.spec_after_move(MoveDirection::Left));
    lemma_cell_points_bounds(m, center.spec_after_move(MoveDirection::Right));
}

/// Event-batch points lie between zero and forty per effect.
pub proof fn lemma_events_points_bounds(m: Map<GridCoordinates, TileType>, evs: Seq<ValidEvent>)
    ensures
        0 <= spec_events_points(m, evs) <= 40 * evs.len(),
    decreases evs.len(),
{
    if evs.len() == 0 {
    } else {
        lemma_events_points_bounds(m, evs.drop_last());
        match evs.last() {
            ValidEvent::Explosions(ev) => {
                lemma_explosion_points_bounds(spec_apply_events(m, evs.drop_last()), ev.target);
            }
            ValidEvent::Move(_) => {}
            ValidEvent::Merge(_) => {}
        }
    }
}

impl TileGrid {
    /// Relocates the tile at the event's source, when one is there; the
    /// vacated source re-enters the free pool when interior.
    pub fn handle_move_tile_event(&mut self, event: &MoveTileEvent)
        requires
            old(self).wf(),
        ensures
            final(self).wf(),
            final(self).board() == spec_apply_move(old(self).board(), *event),
    {
        let ghost m0 = self.board();
        let taken = self.take(&event.source);
        match taken {
            Some(tile_type) => {
                self.insert(event.target, tile_type);
            }
            None => {
                proof {
                    assert(m0.remove(event.source) =~= m0);
                }
            }
        }
    }

    /// Vacates both merge cells, then re-occupies the target when a
    /// resulting tile is given.
    pub fn handle_combine_event(&mut self, event: &MergeTilesEvent)
        requires
            old(self).wf(),
        ensures
            final(self).wf(),
            final(self).board() == spec_apply_merge(old(self).board(), *event),
    {
        self.take(&event.source);
        self.take(&event.target);
        self.maybe_insert(event.target, event.resulting_type);
    }

    /// Destroys the tile at `c` when an explosion reaches it and it is
    /// destructible.
    fn explode_cell(&mut self, c: &GridCoordinates)
        requires
            old(self).wf(),
        ensures
            final(self).wf(),
            final(self).board() == if old(self).board().contains_key(*c) && old(self).board()[*c].spec_destructible() {
                old(self).board().remove(*c)
            } else {
                old(self).board()
            },
    {
        match self.get(c) {
            Some(tile) => {
                match tile.explosion_result() {
                    ExplosionResult::ScorePoints(_) => {
                        self.take(c);
                    }
                    ExplosionResult::NoExplosion => {}
                }
            }
            None => {}
        }
    }

    /// Destroys every destructible tile within the event's radius; walls are
    /// untouched.
    pub fn handle_explosion_event(&mut self, event: &ExplosionEvent)
        requires
            old(self).wf(),
            event.target.radius_in_bounds(),
        ensures
            final(self).wf(),
            final(self).board() == spec_apply_explosion(old(self).board(), *event),
    {
        let ghost m0 = self.board();
        let center = event.target;
        let c0 = center;
        let c1 = center.coords_after_move(MoveDirection::Up);
        let c2 = center.coords_after_move(MoveDirection::Down);
        let c3 = center.coords_after_move(MoveDirection::Left);
        let c4 = center.coords_after_move(MoveDirection::Right);
        self.explode_cell(&c0);
        let ghost m1 = self.board();
        self.explode_cell(&c1);
        let ghost m2 = self.board();
        self.explode_cell(&c2);
        let ghost m3 = self.board();
        self.explode_cell(&c3);
        let ghost m4 = self.board();
        self.explode_cell(&c4);
        proof {
            assert(c0 != c1 && c0 != c2 && c0 != c3 && c0 != c4);
            assert(c1 != c2 && c1 != c3 && c1 != c4 && c2 != c3 && c2 != c4 && c3 != c4);
            assert(center.spec_radius()[0] == c0);
            assert(center.spec_radius()[1] == c1);
            assert(center.spec_radius()[2] == c2);
            assert(center.spec_radius()[3] == c3);
            assert(center.spec_radius()[4] == c4);
            assert(center.in_radius(c0) && center.in_radius(c1) && center.in_radius(c2)
                && center.in_radius(c3) && center.in_radius(c4));
            assert forall|k: GridCoordinates| center.in_radius(k) implies (k == c0 || k == c1 || k
                == c2 || k == c3 || k == c4) by {
                let i = choose|i: int|
                    0 <= i < center.spec_radius().len() && center.spec_radius()[i] == k;
            }
            assert(self.board() =~= spec_apply_explosion(m0, *event));
        }
    }

    /// Applies a batch of explosion effects in order.
    pub fn handle_explosion_events(&mut self, events: &Vec<ExplosionEvent>)
        requires
            old(self).wf(),
            forall|i: int|
                0 <= i < events@.len() ==> (#[trigger] events@[i].target).radius_in_bounds(),
        ensures
            final(self).wf(),
            final(self).board() == spec_apply_explosions(old(self).board(), events@),
    {
        let ghost m0 = self.board();
        let mut i: usize = 0;
        while i < events.len()
            invariant
                i <= events@.len(),
                self.wf(),
                forall|j: int|
                    0 <= j < events@.len() ==> (#[trigger] events@[j].target).radius_in_bounds(),
                self.board() == spec_apply_explosions(m0, events@.take(i as int)),
            decreases events@.len() - i,
        {
            proof {
                assert(events@.take(i + 1).drop_last() =~= events@.take(i as int));
                assert(events@.take(i + 1).last() == events@[i as int]);
            }
            self.handle_explosion_event(&events[i]);
            i = i + 1;
        }
        proof {
            assert(events@.take(events@.len() as int) =~= events@);
        }
    }

    /// Applies one resolved effect batch to the board in sequence order.
    pub fn apply_events(&mut self, events: &Vec<ValidEvent>)
        requires
            old(self).wf(),
            forall|i: int|
                0 <= i < events@.len() ==> match #[trigger] events@[i] {
                    ValidEvent::Explosions(e) => e.target.radius_in_bounds(),
                    ValidEvent::Move(_) => true,
                    ValidEvent::Merge(_) => true,
                },
        ensures
            final(self).wf(),
            final(self).board() == spec_apply_events(old(self).board(), events@),
    {
        let ghost m0 = self.board();
        let mut i: usize = 0;
        while i < events.len()
            invariant
                i <= events@.len(),
                self.wf(),
                forall|j: int|
                    0 <= j < events@.len() ==> match #[trigger] events@[j] {
                        ValidEvent::Explosions(e) => e.target.radius_in_bounds(),
                        ValidEvent::Move(_) => true,
                        ValidEvent::Merge(_) => true,
                    },
                self.board() == spec_apply_events(m0, events@.take(i as int)),
            decreases events@.len() - i,
        {
            proof {
                assert(events@.take(i + 1).drop_last() =~= events@.take(i as int));
                assert(events@.take(i + 1).last() == events@[i as int]);
            }
            match &events[i] {
                ValidEvent::Move(e) => self.handle_move_tile_event(e),
                ValidEvent::Merge(e) => self.handle_combine_event(e),
                ValidEvent::Explosions(e) => self.handle_explosion_event(e),
            }
            i = i + 1;
        }
        proof {
            assert(events@.take(events@.len() as int) =~= events@);
        }
    }
}

proof fn lemma_remove_sources_other(
    m: Map<GridCoordinates, TileType>,
    evs: Seq<MoveTileEvent>,
    k: GridCoordinates,
)
    requires
        forall|j: int| 0 <= j < evs.len() ==> (#[trigger] evs[j]).source != k,
    ensures
        spec_remove_sources(m, evs).contains_key(k) == m.contains_key(k),
        m.contains_key(k) ==> spec_remove_sources(m, evs)[k] == m[k],
    decreases evs.len(),
{
    if evs.len() == 0 {
    } else {
        let dl = evs.drop_last();
        assert(forall|j: int| 0 <= j < dl.len() ==> (#[trigger] dl[j]).source != k);
        lemma_remove_sources_other(m, dl, k);
        assert(evs[evs.len() - 1].source != k);
    }
}

impl TileGrid {
    /// Applies a batch of move effects all at once: every source is vacated
    /// before any moved tile lands, so chains of slides cannot collide.
    pub fn handle_move_tile_events(&mut self, events: &Vec<MoveTileEvent>)
        requires
            old(self).wf(),
            forall|i: int|
                0 <= i < events@.len() ==> old(self).board().contains_key(
                    (#[trigger] events@[i]).source,
                ),
            forall|i: int, j: int|
                0 <= i < j < events@.len() ==> events@[i].source != events@[j].source,
        ensures
            final(self).wf(),
            final(self).board() == spec_batch_moves(old(self).board(), events@),
    {
        let ghost m0 = self.board();
        let mut moved: Vec<(GridCoordinates, TileType)> = Vec::new();
        let mut i: usize = 0;
        while i < events.len()
            invariant
                i <= events@.len(),
                self.wf(),
                forall|j: int|
                    0 <= j < events@.len() ==> m0.contains_key((#[trigger] events@[j]).source),
                forall|p: int, q: int|
                    0 <= p < q < events@.len() ==> events@[p].source != events@[q].source,
                self.board() == spec_remove_sources(m0, events@.take(i as int)),
                moved@.len() == i,
                forall|j: int|
                    0 <= j < i ==> #[trigger] moved@[j] == (
                        events@[j].target,
                        m0[events@[j].source],
                    ),
            decreases events@.len() - i,
        {
            proof {
                assert(events@.take(i + 1).drop_last() =~= events@.take(i as int));
                assert(events@.take(i + 1).last() == events@[i as int]);
                assert(forall|j: int|
                    0 <= j < events@.take(i as int).len() ==> (#[trigger] events@.take(
                        i as int,
                    )[j]).source != events@[i as int].source);
                lemma_remove_sources_other(m0, events@.take(i as int), events@[i as int].source);
            }
            let e = &events[i];
            let taken = self.take(&e.source);
            let tile_type = taken.unwrap();
            moved.push((e.target, tile_type));
            i = i + 1;
        }
        proof {
            assert(events@.take(events@.len() as int) =~= events@);
        }
        let ghost removed = self.board();
        let mut j: usize = 0;
        while j < moved.len()
            invariant
                j <= moved@.len(),
                moved@.len() == events@.len(),
                self.wf(),
                forall|p: int|
                    0 <= p < moved@.len() ==> #[trigger] moved@[p] == (
                        events@[p].target,
                        m0[events@[p].source],
                    ),
                self.board() == spec_insert_moved(removed, events@.take(j as int), m0),
            decreases moved@.len() - j,
        {
            proof {
                assert(events@.take(j + 1).drop_last() =~= events@.take(j as int));
                assert(events@.take(j + 1).last() == events@[j as int]);
            }
            let pair = moved[j];
            self.insert(pair.0, pair.1);
            j = j + 1;
        }
        proof {
            assert(events@.take(events@.len() as int) =~= events@);
        }
    }

    /// Applies a batch of merge effects all at once: every involved cell is
    /// vacated, then each surviving tile is placed.
    pub fn handle_combine_events(&mut self, events: &Vec<MergeTilesEvent>)
        requires
            old(self).wf(),
        ensures
            final(self).wf(),
            final(self).board() == spec_batch_merges(old(self).board(), events@),
    {
        let ghost m0 = self.board();
        let mut i: usize = 0;
        while i < events.len()
            invariant
                i <= events@.len(),
                self.wf(),
                self.board() == spec_remove_merged(m0, events@.take(i as int)),
            decreases events@.len() - i,
        {
            proof {
                assert(events@.take(i + 1).drop_last() =~= events@.take(i as int));
                assert(events@.take(i + 1).last() == events@[i as int]);
            }
            let e = &events[i];
            self.take(&e.source);
            self.take(&e.target);
            i = i + 1;
        }
        proof {
            assert(events@.take(events@.len() as int) =~= events@);
        }
        let ghost removed = self.board();
        let mut j: usize = 0;
        while j < events.len()
            invariant
                j <= events@.len(),
                self.wf(),
                self.board() == spec_insert_merged(removed, events@.take(j as int)),
            decreases events@.len() - j,
        {
            proof {
                assert(events@.take(j + 1).drop_last() =~= events@.take(j as int));
                assert(events@.take(j + 1).last() == events@[j as int]);
            }
            let e = &events[j];
            self.maybe_insert(e.target, e.resulting_type);
            j = j + 1;
        }
        proof {
            assert(events@.take(events@.len() as int) =~= events@);
        }
    }

    /// An arbitrarily chosen free coordinate, when one remains; chosen at
    /// random, and only ever from the free pool. Reads the board without
    /// mutating it.
    pub fn get_unused_coordinate(&self) -> (r: Option<GridCoordinates>)
        requires
            self.wf(),
        ensures
            match r {
                None => forall|c: GridCoordinates| !self.free().contains(c),
                Some(c) => self.free().contains(c),
            },
    {
        if self.unused_coordinates.len() == 0 {
            proof {
                assert forall|c: GridCoordinates| !self.free().contains(c) by {
                    lemma_coords_set_contains(self.unused_coordinates@, c);
                }
            }
            return None;
        }
        let idx = crate::rng::random_below(self.unused_coordinates.len());
        let coords = self.unused_coordinates[idx];
        proof {
            lemma_coords_set_contains(self.unused_coordinates@, coords);
        }
        Some(coords)
    }

    /// Spawns a randomly drawn tile on a randomly chosen free coordinate,
    /// or reports that the board is full.
    pub fn try_spawn_new_tile(&mut self) -> (r: Option<SpawnEvent>)
        requires
            old(self).wf(),
        ensures
            final(self).wf(),
            match r {
                None => (forall|c: GridCoordinates| !old(self).free().contains(c)) && final(self).board() == old(self).board() && final(self).free() == old(self).free(),
                Some(ev) => old(self).free().contains(ev.coords) && ev.coords.is_interior()
                    && !old(self).board().contains_key(ev.coords) && (exists|d: int|
                    0 <= d < 11 && ev.tile_type == TileType::spec_from_draw(d)) && final(self).board() == old(self).board().insert(ev.coords, ev.tile_type) && final(self).free()
                    == old(self).free().remove(ev.coords),
            },
    {
        let coords = match self.get_unused_coordinate() {
            Some(coords) => coords,
            None => {
                return None;
            }
        };
        let tile_type = TileType::gen_random();
        self.insert(coords, tile_type);
        Some(SpawnEvent { coords, tile_type })
    }

    /// Spawns the session's seed tile, a one coin, on a randomly chosen free
    /// coordinate, or reports that the board is full.
    pub fn spawn_first_tile(&mut self) -> (r: Option<SpawnEvent>)
        requires
            old(self).wf(),
        ensures
            final(self).wf(),
            match r {
                None => (forall|c: GridCoordinates| !old(self).free().contains(c)) && final(self).board() == old(self).board() && final(self).free() == old(self).free(),
                Some(ev) => old(self).free().contains(ev.coords) && ev.coords.is_interior()
                    && !old(self).board().contains_key(ev.coords) && ev.tile_type == TileType::Coin(
                    CoinValue::One,
                ) && final(self).board() == old(self).board().insert(ev.coords, ev.tile_type)
                    && final(self).free() == old(self).free().remove(ev.coords),
            },
    {
        let coords = match self.get_unused_coordinate() {
            Some(coords) => coords,
            None => {
                return None;
            }
        };
        let tile_type = TileType::Coin(CoinValue::One);
        self.insert(coords, tile_type);
        Some(SpawnEvent { coords, tile_type })
    }



    /// Builds the wall ring around the playable interior, reporting one
    /// spawn per placed wall.
    pub fn setup_default_grid(&mut self) -> (r: Vec<SpawnEvent>)
        requires
            old(self).wf(),
        ensures
            final(self).wf(),
            final(self).board() == old(self).board().union_prefer_right(ring_walls()),
            spawn_coords(r@) == ring_set(),
            forall|i: int|
                0 <= i < r@.len() ==> (#[trigger] r@[i]).tile_type == TileType::Wall
                    && r@[i].coords.on_ring(),
    {
        let ghost m0 = self.board();
        let mut spawn_events: Vec<SpawnEvent> = Vec::new();
        let mut x: i32 = -1;
        proof {
            assert(self.board() =~= m0.union_prefer_right(row_walls(-1)));
            assert(spawn_coords(spawn_events@) =~= row_set(-1));
        }
        while x <= GRID_SIZE
            invariant
                -1 <= x <= GRID_SIZE + 1,
                self.wf(),
                self.board() == m0.union_prefer_right(row_walls(x as int)),
                spawn_coords(spawn_events@) == row_set(x as int),
                forall|i: int|
                    0 <= i < spawn_events@.len() ==> (#[trigger] spawn_events@[i]).tile_type
                        == TileType::Wall && spawn_events@[i].coords.on_ring(),
            decreases GRID_SIZE + 1 - x,
        {
            let ghost mb = self.board();
            let ghost pre = spawn_events@;
            let coords_bottom = GridCoordinates { x, y: -1 };
            self.insert(coords_bottom, TileType::Wall);
            spawn_events.push(SpawnEvent { coords: coords_bottom, tile_type: TileType::Wall });
            let coords_top = GridCoordinates { x, y: GRID_SIZE };
            self.insert(coords_top, TileType::Wall);
            spawn_events.push(SpawnEvent { coords: coords_top, tile_type: TileType::Wall });
            proof {
                assert(self.board() =~= m0.union_prefer_right(row_walls(x + 1)));
                lemma_spawn_coords_push(pre, SpawnEvent { coords: coords_bottom, tile_type: TileType::Wall });
                lemma_spawn_coords_push(
                    pre.push(SpawnEvent { coords: coords_bottom, tile_type: TileType::Wall }),
                    SpawnEvent { coords: coords_top, tile_type: TileType::Wall },
                );
                assert(spawn_coords(spawn_events@) =~= row_set(x + 1));
            }
            x = x + 1;
        }
        let mut y: i32 = -1;
        proof {
            assert(self.board() =~= m0.union_prefer_right(part_walls(-1)));
            assert(spawn_coords(spawn_events@) =~= part_set(-1));
        }
        while y <= GRID_SIZE
            invariant
                -1 <= y <= GRID_SIZE + 1,
                self.wf(),
                self.board() == m0.union_prefer_right(part_walls(y as int)),
                spawn_coords(spawn_events@) == part_set(y as int),
                forall|i: int|
                    0 <= i < spawn_events@.len() ==> (#[trigger] spawn_events@[i]).tile_type
                        == TileType::Wall && spawn_events@[i].coords.on_ring(),
            decreases GRID_SIZE + 1 - y,
        {
            let ghost pre = spawn_events@;
            let coords_left = GridCoordinates { x: -1, y };
            self.insert(coords_left, TileType::Wall);
            spawn_events.push(SpawnEvent { coords: coords_left, tile_type: TileType::Wall });
            let coords_right = GridCoordinates { x: GRID_SIZE, y };
            self.insert(coords_right, TileType::Wall);
            spawn_events.push(SpawnEvent { coords: coords_right, tile_type: TileType::Wall });
            proof {
                assert(self.board() =~= m0.union_prefer_right(part_walls(y + 1)));
                lemma_spawn_coords_push(pre, SpawnEvent { coords: coords_left, tile_type: TileType::Wall });
                lemma_spawn_coords_push(
                    pre.push(SpawnEvent { coords: coords_left, tile_type: TileType::Wall }),
                    SpawnEvent { coords: coords_right, tile_type: TileType::Wall },
                );
                assert(spawn_coords(spawn_events@) =~= part_set(y + 1));
            }
            y = y + 1;
        }
        proof {
            assert(self.board() =~= m0.union_prefer_right(ring_walls()));
            assert(spawn_coords(spawn_events@) =~= ring_set());
        }
        spawn_events
    }

    /// The points an explosion at `center` would yield right now.
    pub fn explosion_points(&self, center: &GridCoordinates) -> (r: i32)
        requires
            self.wf(),
            center.radius_in_bounds(),
        ensures
            r == spec_explosion_points(self.board(), *center),
            0 <= r <= 40,
    {
        proof {
            lemma_cell_points_bounds(self.board(), *center);
            lemma_cell_points_bounds(
                self.board(),
                center.spec_after_move(MoveDirection::Up),
            );
            lemma_cell_points_bounds(
                self.board(),
                center.spec_after_move(MoveDirection::Down),
            );
            lemma_cell_points_bounds(
                self.board(),
                center.spec_after_move(MoveDirection::Left),
            );
            lemma_cell_points_bounds(
                self.board(),
                center.spec_after_move(MoveDirection::Right),
            );
        }
        let mut total: i32 = self.cell_points(center);
        let up = center.coords_after_move(MoveDirection::Up);
        total = total + self.cell_points(&up);
        let down = center.coords_after_move(MoveDirection::Down);
        total = total + self.cell_points(&down);
        let left = center.coords_after_move(MoveDirection::Left);
        total = total + self.cell_points(&left);
        let right = center.coords_after_move(MoveDirection::Right);
        total = total + self.cell_points(&right);
        total
    }

    /// The points the tile at `c` would yield to an explosion, or zero.
    fn cell_points(&self, c: &GridCoordinates) -> (r: i32)
        requires
            self.wf(),
        ensures
            r == spec_cell_points(self.board(), *c),
            0 <= r <= 8,
    {
        proof {
            lemma_cell_points_bounds(self.board(), *c);
        }
        match self.get(c) {
            Some(tile) => {
                match tile.explosion_result() {
                    ExplosionResult::ScorePoints(p) => p,
                    ExplosionResult::NoExplosion => 0,
                }
            }
            None => 0,
        }
    }
}

impl Default for TileGrid {
    /// A fresh board: no tiles, every interior coordinate free.
    fn default() -> (r: Self)
        ensures
            r.wf(),
            r.board() == Map::<GridCoordinates, TileType>::empty(),
            r.free() == interior_set(),
    {
        let mut unused: Vec<GridCoordinates> = Vec::new();
        let mut x: i32 = 0;
        while x < GRID_SIZE
            invariant
                0 <= x <= GRID_SIZE,
                unique_coords(unused@),
                forall|c: GridCoordinates| #[trigger]
                    coords_set(unused@).contains(c) <==> (0 <= c.x < x && 0 <= c.y < GRID_SIZE),
            decreases GRID_SIZE - x,
        {
            let mut y: i32 = 0;
            while y < GRID_SIZE
                invariant
                    0 <= x < GRID_SIZE,
                    0 <= y <= GRID_SIZE,
                    unique_coords(unused@),
                    forall|c: GridCoordinates| #[trigger]
                        coords_set(unused@).contains(c) <==> ((0 <= c.x < x && 0 <= c.y < GRID_SIZE)
                            || (c.x == x && 0 <= c.y < y)),
                decreases GRID_SIZE - y,
            {
                let c = GridCoordinates { x, y };
                proof {
                    lemma_coords_set_contains(unused@, c);
                    lemma_coords_set_push(unused@, c);
                    let s = unused@;
                    assert(!coords_set(s).contains(c));
                    assert forall|p: int, q: int| 0 <= p < q < s.push(c).len() implies s.push(c)[p]
                        != s.push(c)[q] by {
                        if q < s.len() {
                            assert(s.push(c)[p] == s[p]);
                            assert(s.push(c)[q] == s[q]);
                        } else {
                            assert(s.push(c)[q] == c);
                            assert(s.push(c)[p] == s[p]);
                            lemma_coords_set_contains(s, s[p]);
                        }
                    }
                }
                unused.push(c);
                y = y + 1;
            }
            x = x + 1;
        }
        let r = TileGrid { tiles: Vec::new(), unused_coordinates: unused };
        proof {
            assert(r.board() =~= Map::<GridCoordinates, TileType>::empty());
            assert(r.free() =~= interior_set());
            assert forall|c: GridCoordinates| #[trigger] r.free().contains(c) <==> c.is_interior()
                && !r.board().contains_key(c) by {}
        }
        r
    }
}

} // verus!
