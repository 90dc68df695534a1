//! The library's cross-cutting guarantees, stated and proved over the same
//! models the operations' contracts use.

use crate::board::{spec_apply_event, spec_apply_events, spec_apply_move, spec_exploded};
use crate::grid::GridCoordinates;
use crate::moves::{
    spec_validate, spec_validate_from, CanCombineResult, CanMoveResult, ExplosionEvent,
    MergeTilesEvent, MoveDirection, MoveTileEvent, ValidEvent,
};
use crate::tile::{CombinationResult, TileType};
use vstd::prelude::*;

verus! {

/// Idempotent invalid moves: the resolver's outcome is a function of the
/// board mapping, the candidate cells and the direction alone, and
/// resolution never mutates the board, so asking twice with an identical
/// board, origin and direction yields the identical outcome.
pub proof fn lemma_validate_deterministic(
    m1: Map<GridCoordinates, TileType>,
    m2: Map<GridCoordinates, TileType>,
    cands1: Seq<GridCoordinates>,
    cands2: Seq<GridCoordinates>,
    dir1: MoveDirection,
    dir2: MoveDirection,
)
    requires
        m1 == m2,
        cands1 == cands2,
        dir1 == dir2,
    ensures
        spec_validate(m1, cands1, dir1) == spec_validate(m2, cands2, dir2),
{
}

/// A walk whose first cell is empty or holds an immovable tile resolves to
/// an illegal move, so terminal detection over every coordinate of the
/// extent coincides with detection over the occupied, movable ones.
pub proof fn lemma_validate_unmovable_source_invalid(
    m: Map<GridCoordinates, TileType>,
    cands: Seq<GridCoordinates>,
    dir: MoveDirection,
)
    requires
        cands.len() == 0 || !m.contains_key(cands[0]) || !m[cands[0]].spec_movable(),
    ensures
        spec_validate(m, cands, dir) is None,
{
}

/// The cells holding walls.
pub open spec fn walls_of(m: Map<GridCoordinates, TileType>) -> Set<GridCoordinates> {
    Set::new(|c: GridCoordinates| m.contains_key(c) && m[c] == TileType::Wall)
}

/// An effect that cannot disturb a wall of board `m`: its slide or merge
/// cells hold movable tiles or are free of walls, and a merge never places a
/// wall. Explosions spare walls by definition.
pub open spec fn event_wall_safe(m: Map<GridCoordinates, TileType>, e: ValidEvent) -> bool {
    match e {
        ValidEvent::Move(ev) => m.contains_key(ev.source) && m[ev.source].spec_movable() && !(
        m.contains_key(ev.target) && m[ev.target] == TileType::Wall),
        ValidEvent::Merge(ev) => m.contains_key(ev.source) && m[ev.source].spec_movable()
            && m.contains_key(ev.target) && m[ev.target].spec_movable() && (match ev.resulting_type {
            Some(t) => t != TileType::Wall,
            None => true,
        }),
        ValidEvent::Explosions(_) => true,
    }
}

/// What a successful combination implies about the two tiles and the result:
/// a merge joins two equal coins into the coin of their summed value, and
/// only two bombs detonate.
pub proof fn lemma_combine_facts(a: TileType, b: TileType)
    ensures
        match a.spec_combine(b) {
            Some(CombinationResult::MergeTilesInto(r)) => a.spec_movable() && b.spec_movable()
                && r.spec_movable() && a.spec_coin_value() > 0 && a == b && r.spec_coin_value()
                == a.spec_coin_value() + b.spec_coin_value(),
            Some(CombinationResult::Explosion) => a == TileType::Bomb && b == TileType::Bomb,
            None => true,
        },
{
}

proof fn lemma_validate_from_wall_safe(
    m: Map<GridCoordinates, TileType>,
    cands: Seq<GridCoordinates>,
    dir: MoveDirection,
    acc: Seq<ValidEvent>,
)
    requires
        forall|j: int| 0 <= j < acc.len() ==> event_wall_safe(m, #[trigger] acc[j]),
        spec_validate_from(m, cands, dir, acc) is Some,
    ensures
        forall|j: int|
            0 <= j < spec_validate_from(m, cands, dir, acc).unwrap().len() ==> event_wall_safe(
                m,
                #[trigger] spec_validate_from(m, cands, dir, acc).unwrap()[j],
            ),
    decreases cands.len(),
{
    assert(cands.len() > 0);
    let coords = cands[0];
    let target = coords.spec_after_move(dir);
    let out = spec_validate_from(m, cands, dir, acc).unwrap();
    assert(m.contains_key(coords) && m[coords].spec_movable());
    match crate::board::spec_can_combine(m, coords, dir) {
        CanCombineResult::Yes(result) => {
            lemma_combine_facts(m[coords], m[target]);
            let pushed = match result {
                CombinationResult::MergeTilesInto(resulting_type) => acc.push(
                    ValidEvent::Merge(
                        MergeTilesEvent {
                            source: coords,
                            target,
                            resulting_type: Some(resulting_type),
                        },
                    ),
                ),
                CombinationResult::Explosion => acc.push(
                    ValidEvent::Explosions(ExplosionEvent { target: coords }),
                ).push(ValidEvent::Explosions(ExplosionEvent { target })),
            };
            assert(out == pushed.reverse());
            assert(forall|j: int| 0 <= j < pushed.len() ==> event_wall_safe(m, #[trigger] pushed[j]));
            assert forall|j: int| 0 <= j < out.len() implies event_wall_safe(m, #[trigger] out[j]) by {
                assert(out[j] == pushed[pushed.len() - 1 - j]);
            }
        }
        CanCombineResult::No => {
            match crate::board::spec_can_move(m, coords, dir) {
                CanMoveResult::Yes => {
                    let pushed = acc.push(ValidEvent::Move(MoveTileEvent { source: coords, target }));
                    assert(out == pushed.reverse());
                    assert(forall|j: int|
                        0 <= j < pushed.len() ==> event_wall_safe(m, #[trigger] pushed[j]));
                    assert forall|j: int| 0 <= j < out.len() implies event_wall_safe(
                        m,
                        #[trigger] out[j],
                    ) by {
                        assert(out[j] == pushed[pushed.len() - 1 - j]);
                    }
                }
                CanMoveResult::No => {}
                CanMoveResult::YesIfNextCanMove => {
                    let acc2 = acc.push(ValidEvent::Move(MoveTileEvent { source: coords, target }));
                    lemma_validate_from_wall_safe(m, cands.skip(1), dir, acc2);
                }
            }
        }
    }
}

/// Every effect of a legal move is wall-safe on the board it was resolved
/// against.
pub proof fn lemma_validate_events_wall_safe(
    m: Map<GridCoordinates, TileType>,
    cands: Seq<GridCoordinates>,
    dir: MoveDirection,
    evs: Seq<ValidEvent>,
)
    requires
        spec_validate(m, cands, dir) == Some(evs),
    ensures
        forall|j: int| 0 <= j < evs.len() ==> event_wall_safe(m, #[trigger] evs[j]),
{
    lemma_validate_from_wall_safe(m, cands, dir, Seq::empty());
    assert(spec_validate_from(m, cands, dir, Seq::empty()).unwrap() == evs);
}

proof fn lemma_apply_event_preserves_walls(
    m_orig: Map<GridCoordinates, TileType>,
    m: Map<GridCoordinates, TileType>,
    e: ValidEvent,
)
    requires
        walls_of(m) == walls_of(m_orig),
        event_wall_safe(m_orig, e),
    ensures
        walls_of(spec_apply_event(m, e)) == walls_of(m_orig),
{
    match e {
        ValidEvent::Move(ev) => {
            assert(!walls_of(m_orig).contains(ev.source));
            assert(!walls_of(m_orig).contains(ev.target));
            assert(!walls_of(m).contains(ev.source));
            assert(!walls_of(m).contains(ev.target));
            assert(walls_of(spec_apply_move(m, ev)) =~= walls_of(m_orig));
        }
        ValidEvent::Merge(ev) => {
            assert(!walls_of(m).contains(ev.source));
            assert(!walls_of(m).contains(ev.target));
            assert(walls_of(spec_apply_event(m, e)) =~= walls_of(m_orig));
        }
        ValidEvent::Explosions(ev) => {
            assert forall|c: GridCoordinates| #[trigger]
                spec_exploded(m, ev.target).contains(c) implies !walls_of(m).contains(c) by {
                assert(m[c].spec_destructible());
            }
            assert(walls_of(spec_apply_event(m, e)) =~= walls_of(m_orig));
        }
    }
}

proof fn lemma_apply_events_preserves_walls(
    m_orig: Map<GridCoordinates, TileType>,
    m: Map<GridCoordinates, TileType>,
    evs: Seq<ValidEvent>,
)
    requires
        walls_of(m) == walls_of(m_orig),
        forall|j: int| 0 <= j < evs.len() ==> event_wall_safe(m_orig, #[trigger] evs[j]),
    ensures
        walls_of(spec_apply_events(m, evs)) == walls_of(m_orig),
    decreases evs.len(),
{
    if evs.len() == 0 {
    } else {
        let dl = evs.drop_last();
        assert(forall|j: int| 0 <= j < dl.len() ==> event_wall_safe(m_orig, #[trigger] dl[j]));
        lemma_apply_events_preserves_walls(m_orig, m, dl);
        lemma_apply_event_preserves_walls(m_orig, spec_apply_events(m, dl), evs.last());
    }
}

/// Wall immutability: applying the effect batch of any legal move neither
/// removes, relocates nor creates a wall — the set of walled cells is
/// exactly preserved.
pub proof fn lemma_walls_immutable(
    m: Map<GridCoordinates, TileType>,
    cands: Seq<GridCoordinates>,
    dir: MoveDirection,
    evs: Seq<ValidEvent>,
)
    requires
        spec_validate(m, cands, dir) == Some(evs),
    ensures
        walls_of(spec_apply_events(m, evs)) == walls_of(m),
{
    lemma_validate_events_wall_safe(m, cands, dir, evs);
    lemma_apply_events_preserves_walls(m, m, evs);
}

proof fn lemma_validate_from_decompose(
    m: Map<GridCoordinates, TileType>,
    cands: Seq<GridCoordinates>,
    dir: MoveDirection,
    acc: Seq<ValidEvent>,
)
    ensures
        spec_validate_from(m, cands, dir, acc) == (match spec_validate(m, cands, dir) {
            Some(out) => Some(out + acc.reverse()),
            None => None::<Seq<ValidEvent>>,
        }),
    decreases cands.len(),
{
    if cands.len() == 0 {
    } else {
        let coords = cands[0];
        let target = coords.spec_after_move(dir);
        if !m.contains_key(coords) {
        } else if !m[coords].spec_movable() {
        } else {
            match crate::board::spec_can_combine(m, coords, dir) {
                CanCombineResult::Yes(result) => {
                    match result {
                        CombinationResult::MergeTilesInto(resulting_type) => {
                            let ev = ValidEvent::Merge(
                                MergeTilesEvent {
                                    source: coords,
                                    target,
                                    resulting_type: Some(resulting_type),
                                },
                            );
                            assert(acc.push(ev).reverse() =~= Seq::<ValidEvent>::empty().push(
                                ev,
                            ).reverse() + acc.reverse());
                        }
                        CombinationResult::Explosion => {
                            let e1 = ValidEvent::Explosions(ExplosionEvent { target: coords });
                            let e2 = ValidEvent::Explosions(ExplosionEvent { target });
                            assert(acc.push(e1).push(e2).reverse()
                                =~= Seq::<ValidEvent>::empty().push(e1).push(e2).reverse()
                                + acc.reverse());
                        }
                    }
                }
                CanCombineResult::No => {
                    match crate::board::spec_can_move(m, coords, dir) {
                        CanMoveResult::Yes => {
                            let ev = ValidEvent::Move(MoveTileEvent { source: coords, target });
                            assert(acc.push(ev).reverse() =~= Seq::<ValidEvent>::empty().push(
                                ev,
                            ).reverse() + acc.reverse());
                        }
                        CanMoveResult::No => {}
                        CanMoveResult::YesIfNextCanMove => {
                            let mv = ValidEvent::Move(MoveTileEvent { source: coords, target });
                            lemma_validate_from_decompose(m, cands.skip(1), dir, acc.push(mv));
                            lemma_validate_from_decompose(
                                m,
                                cands.skip(1),
                                dir,
                                Seq::<ValidEvent>::empty().push(mv),
                            );
                            match spec_validate(m, cands.skip(1), dir) {
                                Some(out) => {
                                    assert(out + acc.push(mv).reverse() =~= (out
                                        + Seq::<ValidEvent>::empty().push(mv).reverse())
                                        + acc.reverse());
                                }
                                None => {}
                            }
                        }
                    }
                }
            }
        }
    }
}

/// Candidate cells that walk one step at a time in `dir`, as
/// `candidate_coords_for_dir` produces them.
pub open spec fn chained(cands: Seq<GridCoordinates>, dir: MoveDirection) -> bool {
    forall|i: int| 1 <= i < cands.len() ==> #[trigger] cands[i] == cands[i - 1].spec_after_move(dir)
}

/// `b` lies strictly beyond `a` in direction `dir`, on the same line.
pub open spec fn ahead(a: GridCoordinates, b: GridCoordinates, dir: MoveDirection) -> bool {
    match dir {
        MoveDirection::Right => b.y == a.y && b.x > a.x,
        MoveDirection::Left => b.y == a.y && b.x < a.x,
        MoveDirection::Up => b.x == a.x && b.y > a.y,
        MoveDirection::Down => b.x == a.x && b.y < a.y,
    }
}

/// The cells an effect reads or writes (an explosion's own center; its
/// radius is handled separately).
pub open spec fn event_cells(e: ValidEvent) -> Set<GridCoordinates> {
    match e {
        ValidEvent::Move(ev) => set!{ev.source, ev.target},
        ValidEvent::Merge(ev) => set!{ev.source, ev.target},
        ValidEvent::Explosions(ev) => set!{ev.target},
    }
}

/// All cells the effects of a batch read or write.
pub open spec fn cells_of(evs: Seq<ValidEvent>) -> Set<GridCoordinates>
    decreases evs.len(),
{
    if evs.len() == 0 {
        Set::empty()
    } else {
        cells_of(evs.drop_last()).union(event_cells(evs.last()))
    }
}

/// The candidate walk of an in-extent coordinate is chained, stays in the
/// extent, and starts at the coordinate itself (when nonempty).
pub proof fn lemma_candidates_chained(c: GridCoordinates, dir: MoveDirection)
    requires
        c.in_extent(),
    ensures
        chained(c.spec_candidates(dir), dir),
        forall|i: int|
            0 <= i < c.spec_candidates(dir).len() ==> (#[trigger] c.spec_candidates(
                dir,
            )[i]).in_extent(),
        c.spec_candidates(dir).len() > 0,
        c.spec_candidates(dir)[0] == c,
{
    let cands = c.spec_candidates(dir);
    assert forall|i: int| 1 <= i < cands.len() implies #[trigger] cands[i] == cands[i
        - 1].spec_after_move(dir) by {}
    assert forall|i: int| 0 <= i < cands.len() implies (#[trigger] cands[i]).in_extent() by {}
}

/// The shape of a legal move's effect batch: a chain of slides alone; or a
/// merge followed by the chain of slides behind it; or the two detonations
/// of a bomb pair followed by the chain of slides behind them.
pub proof fn lemma_valid_move_shape(
    m: Map<GridCoordinates, TileType>,
    cands: Seq<GridCoordinates>,
    dir: MoveDirection,
    evs: Seq<ValidEvent>,
)
    requires
        spec_validate(m, cands, dir) == Some(evs),
    ensures
        evs.len() >= 1,
        evs[0] is Move ==> forall|k: int| 0 <= k < evs.len() ==> evs[k] is Move,
        evs[0] is Merge ==> forall|k: int| 1 <= k < evs.len() ==> evs[k] is Move,
        evs[0] is Explosions ==> evs.len() >= 2 && evs[1] is Explosions && (forall|k: int|
            2 <= k < evs.len() ==> evs[k] is Move),
    decreases cands.len(),
{
    assert(cands.len() > 0);
    let coords = cands[0];
    let target = coords.spec_after_move(dir);
    match crate::board::spec_can_combine(m, coords, dir) {
        CanCombineResult::Yes(result) => {
            match result {
                CombinationResult::MergeTilesInto(resulting_type) => {
                    let ev = ValidEvent::Merge(
                        MergeTilesEvent {
                            source: coords,
                            target,
                            resulting_type: Some(resulting_type),
                        },
                    );
                    assert(evs =~= Seq::<ValidEvent>::empty().push(ev).reverse());
                    assert(evs[0] == ev);
                }
                CombinationResult::Explosion => {
                    let e1 = ValidEvent::Explosions(ExplosionEvent { target: coords });
                    let e2 = ValidEvent::Explosions(ExplosionEvent { target });
                    assert(evs =~= Seq::<ValidEvent>::empty().push(e1).push(e2).reverse());
                    assert(evs[0] == e2 && evs[1] == e1);
                }
            }
        }
        CanCombineResult::No => {
            match crate::board::spec_can_move(m, coords, dir) {
                CanMoveResult::Yes => {
                    let ev = ValidEvent::Move(MoveTileEvent { source: coords, target });
                    assert(evs =~= Seq::<ValidEvent>::empty().push(ev).reverse());
                    assert(evs[0] == ev);
                }
                CanMoveResult::No => {}
                CanMoveResult::YesIfNextCanMove => {
                    let mv = ValidEvent::Move(MoveTileEvent { source: coords, target });
                    lemma_validate_from_decompose(
                        m,
                        cands.skip(1),
                        dir,
                        Seq::<ValidEvent>::empty().push(mv),
                    );
                    let inner = spec_validate(m, cands.skip(1), dir).unwrap();
                    lemma_valid_move_shape(m, cands.skip(1), dir, inner);
                    assert(evs == inner + Seq::<ValidEvent>::empty().push(mv).reverse());
                    assert(evs.len() == inner.len() + 1);
                    assert(forall|k: int| 0 <= k < inner.len() ==> evs[k] == inner[k]);
                    assert(evs[evs.len() - 1] == mv);
                }
            }
        }
    }
}

proof fn lemma_cells_of_member(evs: Seq<ValidEvent>, k: int)
    requires
        0 <= k < evs.len(),
    ensures
        forall|c: GridCoordinates|
            event_cells(evs[k]).contains(c) ==> #[trigger] cells_of(evs).contains(c),
    decreases evs.len(),
{
    if k == evs.len() - 1 {
        assert(evs[k] == evs.last());
        assert forall|c: GridCoordinates| event_cells(evs[k]).contains(c) implies #[trigger] cells_of(
            evs,
        ).contains(c) by {
            assert(cells_of(evs) == cells_of(evs.drop_last()).union(event_cells(evs.last())));
        }
    } else {
        lemma_cells_of_member(evs.drop_last(), k);
        assert(evs.drop_last()[k] == evs[k]);
        assert forall|c: GridCoordinates| event_cells(evs[k]).contains(c) implies #[trigger] cells_of(
            evs,
        ).contains(c) by {
            assert(cells_of(evs.drop_last()).contains(c));
            assert(cells_of(evs) == cells_of(evs.drop_last()).union(event_cells(evs.last())));
        }
    }
}

/// Conservation along a whole legal move that slides and possibly merges
/// (no detonation): the batch is applied in an order that never lands on an
/// occupied cell; a pure slide keeps the cell count, a merge reduces it by
/// one; every slid tile reappears unchanged at its target, a merge leaves
/// the combined coin at its target; every cell the batch does not touch is
/// untouched, and all touched cells lie on the walked line.
proof fn lemma_conservation_rec(
    m: Map<GridCoordinates, TileType>,
    cands: Seq<GridCoordinates>,
    dir: MoveDirection,
    evs: Seq<ValidEvent>,
)
    requires
        m.dom().finite(),
        forall|i: int| 0 <= i < cands.len() ==> (#[trigger] cands[i]).in_extent(),
        chained(cands, dir),
        spec_validate(m, cands, dir) == Some(evs),
        evs[0] is Move || evs[0] is Merge,
    ensures
        evs.len() >= 1,
        spec_apply_events(m, evs).dom().finite(),
        !spec_apply_events(m, evs).contains_key(cands[0]),
        evs[0] is Move ==> spec_apply_events(m, evs).dom().len() == m.dom().len(),
        evs[0] is Merge ==> spec_apply_events(m, evs).dom().len() == m.dom().len() - 1,
        forall|k: int|
            0 <= k < evs.len() ==> match #[trigger] evs[k] {
                ValidEvent::Move(ev) => m.contains_key(ev.source) && spec_apply_events(
                    m,
                    evs,
                ).contains_key(ev.target) && spec_apply_events(m, evs)[ev.target] == m[ev.source],
                ValidEvent::Merge(ev) => k == 0 && m.contains_key(ev.source) && m.contains_key(
                    ev.target,
                ) && (match ev.resulting_type {
                    Some(r) => m[ev.source].spec_combine(m[ev.target]) == Some(
                        CombinationResult::MergeTilesInto(r),
                    ) && spec_apply_events(m, evs).contains_key(ev.target) && spec_apply_events(
                        m,
                        evs,
                    )[ev.target] == r,
                    None => false,
                }),
                ValidEvent::Explosions(_) => false,
            },
        forall|c: GridCoordinates|
            !cells_of(evs).contains(c) ==> (#[trigger] spec_apply_events(m, evs).contains_key(c)
                == m.contains_key(c) && (m.contains_key(c) ==> spec_apply_events(m, evs)[c]
                == m[c])),
        forall|c: GridCoordinates| #[trigger]
            cells_of(evs).contains(c) ==> (c == cands[0] || ahead(cands[0], c, dir)),
    decreases cands.len(),
{
    assert(cands.len() > 0);
    let c0 = cands[0];
    let c1 = c0.spec_after_move(dir);
    let fin = spec_apply_events(m, evs);
    assert(m.contains_key(c0) && m[c0].spec_movable());
    assert(ahead(c0, c1, dir));
    match crate::board::spec_can_combine(m, c0, dir) {
        CanCombineResult::Yes(result) => {
            match result {
                CombinationResult::MergeTilesInto(r) => {
                    let me = MergeTilesEvent { source: c0, target: c1, resulting_type: Some(r) };
                    let ev = ValidEvent::Merge(me);
                    assert(evs =~= Seq::<ValidEvent>::empty().push(ev).reverse());
                    assert(evs.len() == 1 && evs[0] == ev);
                    assert(evs.drop_last() =~= Seq::<ValidEvent>::empty());
                    assert(evs.last() == ev);
                    assert(spec_apply_events(m, evs.drop_last()) == m);
                    assert(fin == spec_apply_event(m, ev));
                    assert(m.contains_key(c1));
                    assert(c0 != c1);
                    lemma_merge_event_conserves(m, me);
                    assert(fin[c1] == r);
                    assert(cells_of(evs.drop_last()) =~= Set::empty());
                    assert(cells_of(evs) =~= event_cells(ev));
                }
                CombinationResult::Explosion => {
                    let e1 = ValidEvent::Explosions(ExplosionEvent { target: c0 });
                    let e2 = ValidEvent::Explosions(ExplosionEvent { target: c1 });
                    assert(evs =~= Seq::<ValidEvent>::empty().push(e1).push(e2).reverse());
                    assert(evs[0] == e2);
                    assert(false);
                }
            }
        }
        CanCombineResult::No => {
            match crate::board::spec_can_move(m, c0, dir) {
                CanMoveResult::Yes => {
                    let mve = MoveTileEvent { source: c0, target: c1 };
                    let ev = ValidEvent::Move(mve);
                    assert(evs =~= Seq::<ValidEvent>::empty().push(ev).reverse());
                    assert(evs.len() == 1 && evs[0] == ev);
                    assert(evs.drop_last() =~= Seq::<ValidEvent>::empty());
                    assert(evs.last() == ev);
                    assert(spec_apply_events(m, evs.drop_last()) == m);
                    assert(fin == spec_apply_event(m, ev));
                    assert(!m.contains_key(c1));
                    lemma_move_event_conserves(m, mve);
                    assert(cells_of(evs.drop_last()) =~= Set::empty());
                    assert(cells_of(evs) =~= event_cells(ev));
                }
                CanMoveResult::No => {
                    assert(false);
                }
                CanMoveResult::YesIfNextCanMove => {
                    let mve = MoveTileEvent { source: c0, target: c1 };
                    let mv = ValidEvent::Move(mve);
                    lemma_validate_from_decompose(
                        m,
                        cands.skip(1),
                        dir,
                        Seq::<ValidEvent>::empty().push(mv),
                    );
                    let inner = spec_validate(m, cands.skip(1), dir).unwrap();
                    assert(evs == inner + Seq::<ValidEvent>::empty().push(mv).reverse());
                    assert(Seq::<ValidEvent>::empty().push(mv).reverse()
                        =~= Seq::<ValidEvent>::empty().push(mv));
                    assert(evs.len() == inner.len() + 1);
                    assert(forall|k: int| 0 <= k < inner.len() ==> evs[k] == inner[k]);
                    assert(evs[evs.len() - 1] == mv);
                    assert(evs.drop_last() =~= inner);
                    let cands1 = cands.skip(1);
                    assert(cands1.len() > 0);
                    assert(forall|i: int| 0 <= i < cands1.len() ==> (#[trigger] cands1[i]).in_extent());
                    assert forall|i: int| 1 <= i < cands1.len() implies #[trigger] cands1[i]
                        == cands1[i - 1].spec_after_move(dir) by {
                        assert(cands1[i] == cands[i + 1]);
                        assert(cands1[i - 1] == cands[i]);
                        assert(cands[i + 1] == cands[i + 1 - 1].spec_after_move(dir));
                    }
                    assert(cands1[0] == cands[1]);
                    assert(cands[1] == cands[0].spec_after_move(dir));
                    assert(cands1[0] == c1);
                    lemma_valid_move_shape(m, cands1, dir, inner);
                    assert(inner.len() >= 1);
                    assert(evs[0] == inner[0]);
                    lemma_conservation_rec(m, cands1, dir, inner);
                    let fin1 = spec_apply_events(m, inner);
                    assert(fin == spec_apply_event(fin1, mv));
                    assert(!cells_of(inner).contains(c0)) by {
                        if cells_of(inner).contains(c0) {
                            assert(c0 == c1 || ahead(c1, c0, dir));
                            assert(false);
                        }
                    };
                    assert(fin1.contains_key(c0) && fin1[c0] == m[c0]);
                    assert(!fin1.contains_key(c1));
                    lemma_move_event_conserves(fin1, mve);
                    assert(fin == spec_apply_move(fin1, mve));
                    assert(cells_of(evs) =~= cells_of(inner).union(event_cells(mv)));
                    assert forall|k: int| 0 <= k < evs.len() implies match #[trigger] evs[k] {
                        ValidEvent::Move(ev) => m.contains_key(ev.source) && fin.contains_key(
                            ev.target,
                        ) && fin[ev.target] == m[ev.source],
                        ValidEvent::Merge(ev) => k == 0 && m.contains_key(ev.source)
                            && m.contains_key(ev.target) && (match ev.resulting_type {
                            Some(r) => m[ev.source].spec_combine(m[ev.target]) == Some(
                                CombinationResult::MergeTilesInto(r),
                            ) && fin.contains_key(ev.target) && fin[ev.target] == r,
                            None => false,
                        }),
                        ValidEvent::Explosions(_) => false,
                    } by {
                        if k == evs.len() - 1 {
                            assert(evs[k] == mv);
                            assert(fin.contains_key(c1) && fin[c1] == fin1[c0]);
                        } else {
                            assert(evs[k] == inner[k]);
                            lemma_cells_of_member(inner, k);
                            match inner[k] {
                                ValidEvent::Move(ev) => {
                                    assert(event_cells(inner[k]).contains(ev.target));
                                    assert(cells_of(inner).contains(ev.target));
                                    assert(ev.target != c0);
                                    assert(fin1.contains_key(ev.target));
                                    assert(ev.target != c1);
                                    assert(fin.contains_key(ev.target) && fin[ev.target]
                                        == fin1[ev.target]);
                                }
                                ValidEvent::Merge(ev) => {
                                    assert(event_cells(inner[k]).contains(ev.target));
                                    assert(cells_of(inner).contains(ev.target));
                                    assert(ev.target != c0);
                                    assert(fin1.contains_key(ev.target));
                                    assert(ev.target != c1);
                                    assert(fin.contains_key(ev.target) && fin[ev.target]
                                        == fin1[ev.target]);
                                }
                                ValidEvent::Explosions(_) => {}
                            }
                        }
                    }
                    assert forall|c: GridCoordinates| !cells_of(evs).contains(c) implies (
                    #[trigger] fin.contains_key(c) == m.contains_key(c) && (m.contains_key(c)
                        ==> fin[c] == m[c])) by {
                        assert(!cells_of(inner).contains(c));
                        assert(c != c0 && c != c1);
                        assert(fin1.contains_key(c) == m.contains_key(c));
                    }
                    assert forall|c: GridCoordinates| #[trigger]
                        cells_of(evs).contains(c) implies (c == c0 || ahead(c0, c, dir)) by {
                        if cells_of(inner).contains(c) {
                            assert(c == c1 || ahead(c1, c, dir));
                        }
                    }
                }
            }
        }
    }
}

/// Conservation along a pure slide: when a legal move along a chained
/// candidate walk resolves to slide effects alone, applying the batch keeps
/// the number of tiles on the board exactly; every slid tile reappears, with
/// its value, one cell ahead of where it stood; the walked origin is
/// vacated; and every cell the batch does not mention is untouched. The
/// tiles of the board are thus conserved as a multiset.
pub proof fn lemma_slide_conservation(
    m: Map<GridCoordinates, TileType>,
    cands: Seq<GridCoordinates>,
    dir: MoveDirection,
    evs: Seq<ValidEvent>,
)
    requires
        m.dom().finite(),
        forall|i: int| 0 <= i < cands.len() ==> (#[trigger] cands[i]).in_extent(),
        chained(cands, dir),
        spec_validate(m, cands, dir) == Some(evs),
        evs[0] is Move,
    ensures
        spec_apply_events(m, evs).dom().finite(),
        spec_apply_events(m, evs).dom().len() == m.dom().len(),
        !spec_apply_events(m, evs).contains_key(cands[0]),
        forall|k: int|
            0 <= k < evs.len() ==> match #[trigger] evs[k] {
                ValidEvent::Move(ev) => m.contains_key(ev.source) && ev.target
                    == ev.source.spec_after_move(dir) && spec_apply_events(m, evs).contains_key(
                    ev.target,
                ) && spec_apply_events(m, evs)[ev.target] == m[ev.source],
                ValidEvent::Merge(_) => false,
                ValidEvent::Explosions(_) => false,
            },
        forall|c: GridCoordinates|
            !cells_of(evs).contains(c) ==> (#[trigger] spec_apply_events(m, evs).contains_key(c)
                == m.contains_key(c) && (m.contains_key(c) ==> spec_apply_events(m, evs)[c]
                == m[c])),
{
    lemma_valid_move_shape(m, cands, dir, evs);
    lemma_conservation_rec(m, cands, dir, evs);
    lemma_validate_events_target_step(m, cands, dir, evs);
}

/// Conservation across a merge: when a legal move along a chained candidate
/// walk resolves to a merge and its trailing slides, applying the batch
/// removes exactly one tile from the board; the two merged cells held equal
/// coins, and the coin left at the merge target carries their summed value;
/// every trailing slid tile reappears, with its value, one cell ahead; the
/// walked origin is vacated; and every cell the batch does not mention is
/// untouched.
pub proof fn lemma_merge_conservation(
    m: Map<GridCoordinates, TileType>,
    cands: Seq<GridCoordinates>,
    dir: MoveDirection,
    evs: Seq<ValidEvent>,
)
    requires
        m.dom().finite(),
        forall|i: int| 0 <= i < cands.len() ==> (#[trigger] cands[i]).in_extent(),
        chained(cands, dir),
        spec_validate(m, cands, dir) == Some(evs),
        evs[0] is Merge,
    ensures
        spec_apply_events(m, evs).dom().finite(),
        spec_apply_events(m, evs).dom().len() == m.dom().len() - 1,
        !spec_apply_events(m, evs).contains_key(cands[0]),
        ({
            let me = evs[0]->Merge_0;
            &&& m.contains_key(me.source)
            &&& m.contains_key(me.target)
            &&& m[me.source] == m[me.target]
            &&& m[me.source].spec_coin_value() > 0
            &&& me.resulting_type is Some
            &&& spec_apply_events(m, evs).contains_key(me.target)
            &&& spec_apply_events(m, evs)[me.target] == me.resulting_type.unwrap()
            &&& me.resulting_type.unwrap().spec_coin_value() == m[me.source].spec_coin_value()
                + m[me.target].spec_coin_value()
        }),
        forall|k: int|
            1 <= k < evs.len() ==> match #[trigger] evs[k] {
                ValidEvent::Move(ev) => m.contains_key(ev.source) && spec_apply_events(
                    m,
                    evs,
                ).contains_key(ev.target) && spec_apply_events(m, evs)[ev.target] == m[ev.source],
                ValidEvent::Merge(_) => false,
                ValidEvent::Explosions(_) => false,
            },
        forall|c: GridCoordinates|
            !cells_of(evs).contains(c) ==> (#[trigger] spec_apply_events(m, evs).contains_key(c)
                == m.contains_key(c) && (m.contains_key(c) ==> spec_apply_events(m, evs)[c]
                == m[c])),
{
    lemma_valid_move_shape(m, cands, dir, evs);
    lemma_conservation_rec(m, cands, dir, evs);
    let me = evs[0]->Merge_0;
    match me.resulting_type {
        Some(r) => {
            lemma_combine_facts(m[me.source], m[me.target]);
        }
        None => {}
    }
    assert forall|c: GridCoordinates|
        !cells_of(evs).contains(c) implies (#[trigger] spec_apply_events(m, evs).contains_key(c)
        == m.contains_key(c) && (m.contains_key(c) ==> spec_apply_events(m, evs)[c] == m[c])) by {
        assert(!cells_of(evs).contains(c));
    }
}

/// In a valid batch, every slide's target is one step ahead of its source.
proof fn lemma_validate_events_target_step(
    m: Map<GridCoordinates, TileType>,
    cands: Seq<GridCoordinates>,
    dir: MoveDirection,
    evs: Seq<ValidEvent>,
)
    requires
        spec_validate(m, cands, dir) == Some(evs),
    ensures
        forall|k: int|
            0 <= k < evs.len() ==> match #[trigger] evs[k] {
                ValidEvent::Move(ev) => ev.target == ev.source.spec_after_move(dir),
                ValidEvent::Merge(ev) => ev.target == ev.source.spec_after_move(dir),
                ValidEvent::Explosions(_) => true,
            },
    decreases cands.len(),
{
    assert(cands.len() > 0);
    let coords = cands[0];
    let target = coords.spec_after_move(dir);
    match crate::board::spec_can_combine(m, coords, dir) {
        CanCombineResult::Yes(result) => {
            match result {
                CombinationResult::MergeTilesInto(resulting_type) => {
                    let ev = ValidEvent::Merge(
                        MergeTilesEvent {
                            source: coords,
                            target,
                            resulting_type: Some(resulting_type),
                        },
                    );
                    assert(evs =~= Seq::<ValidEvent>::empty().push(ev).reverse());
                    assert(evs[0] == ev);
                }
                CombinationResult::Explosion => {}
            }
        }
        CanCombineResult::No => {
            match crate::board::spec_can_move(m, coords, dir) {
                CanMoveResult::Yes => {
                    let ev = ValidEvent::Move(MoveTileEvent { source: coords, target });
                    assert(evs =~= Seq::<ValidEvent>::empty().push(ev).reverse());
                    assert(evs[0] == ev);
                }
                CanMoveResult::No => {}
                CanMoveResult::YesIfNextCanMove => {
                    let mv = ValidEvent::Move(MoveTileEvent { source: coords, target });
                    lemma_validate_from_decompose(
                        m,
                        cands.skip(1),
                        dir,
                        Seq::<ValidEvent>::empty().push(mv),
                    );
                    let inner = spec_validate(m, cands.skip(1), dir).unwrap();
                    lemma_validate_events_target_step(m, cands.skip(1), dir, inner);
                    assert(evs == inner + Seq::<ValidEvent>::empty().push(mv).reverse());
                    assert(forall|k: int| 0 <= k < inner.len() ==> evs[k] == inner[k]);
                    assert(evs[evs.len() - 1] == mv);
                }
            }
        }
    }
}

/// Conservation of a pure slide: one `Move` effect whose source is occupied
/// and whose target is empty relocates the tile and nothing else — the cell
/// count is unchanged, the moved tile keeps its value, and every other cell
/// is untouched.
pub proof fn lemma_move_event_conserves(m: Map<GridCoordinates, TileType>, e: MoveTileEvent)
    requires
        m.dom().finite(),
        m.contains_key(e.source),
        !m.contains_key(e.target),
    ensures
        spec_apply_move(m, e).dom().finite(),
        spec_apply_move(m, e).dom().len() == m.dom().len(),
        spec_apply_move(m, e).contains_key(e.target),
        spec_apply_move(m, e)[e.target] == m[e.source],
        !spec_apply_move(m, e).contains_key(e.source),
        forall|c: GridCoordinates|
            c != e.source && c != e.target ==> (spec_apply_move(m, e).contains_key(c)
                == m.contains_key(c) && (m.contains_key(c) ==> spec_apply_move(m, e)[c] == m[c])),
{
    assert(e.source != e.target);
    let removed = m.remove(e.source);
    assert(removed.dom() =~= m.dom().remove(e.source));
    assert(removed.dom().len() == m.dom().len() - 1);
    let placed = removed.insert(e.target, m[e.source]);
    assert(placed.dom() =~= removed.dom().insert(e.target));
    assert(placed.dom().len() == removed.dom().len() + 1);
}

/// Conservation of a merge: one `Merge` effect of two occupied cells whose
/// tiles combine removes one cell, and the surviving coin carries the summed
/// value of the two merged coins.
pub proof fn lemma_merge_event_conserves(m: Map<GridCoordinates, TileType>, e: MergeTilesEvent)
    requires
        m.dom().finite(),
        e.source != e.target,
        m.contains_key(e.source),
        m.contains_key(e.target),
        m[e.source].spec_combine(m[e.target]) matches Some(
            CombinationResult::MergeTilesInto(r),
        ) && e.resulting_type == Some(r),
    ensures
        spec_apply_event(m, ValidEvent::Merge(e)).dom().finite(),
        spec_apply_event(m, ValidEvent::Merge(e)).dom().len() == m.dom().len() - 1,
        spec_apply_event(m, ValidEvent::Merge(e)).contains_key(e.target),
        spec_apply_event(m, ValidEvent::Merge(e))[e.target].spec_coin_value()
            == m[e.source].spec_coin_value() + m[e.target].spec_coin_value(),
        !spec_apply_event(m, ValidEvent::Merge(e)).contains_key(e.source),
        forall|c: GridCoordinates|
            c != e.source && c != e.target ==> (spec_apply_event(
                m,
                ValidEvent::Merge(e),
            ).contains_key(c) == m.contains_key(c) && (m.contains_key(c) ==> spec_apply_event(
                m,
                ValidEvent::Merge(e),
            )[c] == m[c])),
{
    lemma_combine_facts(m[e.source], m[e.target]);
    let cleared = m.remove(e.source).remove(e.target);
    assert(m.remove(e.source).dom() =~= m.dom().remove(e.source));
    assert(cleared.dom() =~= m.dom().remove(e.source).remove(e.target));
    assert(cleared.dom().len() == m.dom().len() - 2);
    let r = e.resulting_type.unwrap();
    let placed = cleared.insert(e.target, r);
    assert(placed.dom() =~= cleared.dom().insert(e.target));
    assert(placed.dom().len() == cleared.dom().len() + 1);
}

} // verus!
