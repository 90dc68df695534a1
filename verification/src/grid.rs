//! Grid coordinates and their direction arithmetic.

use crate::moves::MoveDirection;
use vstd::prelude::*;

verus! {

/// Side length of the playable interior. The full extent adds one ring of
/// boundary cells around it, at `-1` and `GRID_SIZE` on each axis.
pub const GRID_SIZE: i32 = 4;

/// A 2D grid position.
#[derive(Debug, Clone, Copy, PartialEq, Eq, Hash, Structural)]
pub struct GridCoordinates {
    pub x: i32,
    pub y: i32,
}

impl Default for GridCoordinates {
    fn default() -> (r: Self)
        ensures
            r.x == 0 && r.y == 0,
    {
        GridCoordinates { x: 0, y: 0 }
    }
}

impl GridCoordinates {
    /// A coordinate of the playable interior.
    pub open spec fn is_interior(self) -> bool {
        0 <= self.x < GRID_SIZE && 0 <= self.y < GRID_SIZE
    }

    /// A coordinate of the full extent: interior plus the boundary ring.
    pub open spec fn in_extent(self) -> bool {
        -1 <= self.x <= GRID_SIZE && -1 <= self.y <= GRID_SIZE
    }

    /// A coordinate of the boundary ring.
    pub open spec fn on_ring(self) -> bool {
        self.in_extent() && !self.is_interior()
    }

    /// This coordinate's direction arithmetic stays within `i32`.
    pub open spec fn step_in_bounds(self, dir: MoveDirection) -> bool {
        match dir {
            MoveDirection::Left => self.x > i32::MIN,
            MoveDirection::Right => self.x < i32::MAX,
            MoveDirection::Up => self.y < i32::MAX,
            MoveDirection::Down => self.y > i32::MIN,
        }
    }

    /// All four neighbors' coordinates stay within `i32`.
    pub open spec fn radius_in_bounds(self) -> bool {
        i32::MIN < self.x < i32::MAX && i32::MIN < self.y < i32::MAX
    }

    /// Translation by one unit along the direction's axis.
    pub open spec fn spec_after_move(self, dir: MoveDirection) -> GridCoordinates {
        match dir {
            MoveDirection::Left => GridCoordinates { x: (self.x - 1) as i32, y: self.y },
            MoveDirection::Right => GridCoordinates { x: (self.x + 1) as i32, y: self.y },
            MoveDirection::Up => GridCoordinates { x: self.x, y: (self.y + 1) as i32 },
            MoveDirection::Down => GridCoordinates { x: self.x, y: (self.y - 1) as i32 },
        }
    }

    pub fn coords_after_move(&self, dir: MoveDirection) -> (r: GridCoordinates)
        requires
            self.step_in_bounds(dir),
        ensures
            r == self.spec_after_move(dir),
    {
        match dir {
            MoveDirection::Left => GridCoordinates { x: self.x - 1, y: self.y },
            MoveDirection::Right => GridCoordinates { x: self.x + 1, y: self.y },
            MoveDirection::Up => GridCoordinates { x: self.x, y: self.y + 1 },
            MoveDirection::Down => GridCoordinates { x: self.x, y: self.y - 1 },
        }
    }

    /// The five cells of an explosion: the center and its four orthogonal
    /// neighbors.
    pub open spec fn spec_radius(self) -> Seq<GridCoordinates> {
        seq![
            self,
            self.spec_after_move(MoveDirection::Up),
            self.spec_after_move(MoveDirection::Down),
            self.spec_after_move(MoveDirection::Left),
            self.spec_after_move(MoveDirection::Right),
        ]
    }

    /// A cell hit by an explosion centered here.
    pub open spec fn in_radius(self, cell: GridCoordinates) -> bool {
        self.spec_radius().contains(cell)
    }

    pub fn explosion_radius(&self) -> (r: Vec<GridCoordinates>)
        requires
            self.radius_in_bounds(),
        ensures
            r@ == self.spec_radius(),
    {
        let r = vec![
            *self,
            self.coords_after_move(MoveDirection::Up),
            self.coords_after_move(MoveDirection::Down),
            self.coords_after_move(MoveDirection::Left),
            self.coords_after_move(MoveDirection::Right),
        ];
        assert(r@ =~= self.spec_radius());
        r
    }

    /// The cells from this coordinate to the grid boundary in the given
    /// direction, in walking order, including exactly one boundary cell.
    pub open spec fn spec_candidates(self, dir: MoveDirection) -> Seq<GridCoordinates> {
        match dir {
            MoveDirection::Right => if self.x > GRID_SIZE {
                Seq::empty()
            } else {
                Seq::new((GRID_SIZE + 1 - self.x) as nat, |i: int| GridCoordinates { x: (self.x + i) as i32, y: self.y })
            },
            MoveDirection::Left => if self.x < -1 {
                Seq::empty()
            } else {
                Seq::new((self.x + 2) as nat, |i: int| GridCoordinates { x: (self.x - i) as i32, y: self.y })
            },
            MoveDirection::Up => if self.y > GRID_SIZE {
                Seq::empty()
            } else {
                Seq::new((GRID_SIZE + 1 - self.y) as nat, |i: int| GridCoordinates { x: self.x, y: (self.y + i) as i32 })
            },
            MoveDirection::Down => if self.y < -1 {
                Seq::empty()
            } else {
                Seq::new((self.y + 2) as nat, |i: int| GridCoordinates { x: self.x, y: (self.y - i) as i32 })
            },
        }
    }

    pub fn candidate_coords_for_dir(&self, move_direction: MoveDirection) -> (r: Vec<GridCoordinates>)
        requires
            self.in_extent(),
        ensures
            r@ == self.spec_candidates(move_direction),
    {
        let mut v: Vec<GridCoordinates> = Vec::new();
        match move_direction {
            MoveDirection::Right => {
                let mut cx: i32 = self.x;
                while cx <= GRID_SIZE
                    invariant
                        self.in_extent(),
                        self.x <= cx <= GRID_SIZE + 1,
                        v@ =~= self.spec_candidates(MoveDirection::Right).take(cx - self.x),
                    decreases GRID_SIZE + 1 - cx,
                {
                    v.push(GridCoordinates { x: cx, y: self.y });
                    cx = cx + 1;
                }
                assert(v@ =~= self.spec_candidates(MoveDirection::Right));
            }
            MoveDirection::Left => {
                let mut cx: i32 = self.x;
                while cx >= -1
                    invariant
                        self.in_extent(),
                        -2 <= cx <= self.x,
                        v@ =~= self.spec_candidates(MoveDirection::Left).take(self.x - cx),
                    decreases cx + 2,
                {
                    v.push(GridCoordinates { x: cx, y: self.y });
                    cx = cx - 1;
                }
                assert(v@ =~= self.spec_candidates(MoveDirection::Left));
            }
            MoveDirection::Up => {
                let mut cy: i32 = self.y;
                while cy <= GRID_SIZE
                    invariant
                        self.in_extent(),
                        self.y <= cy <= GRID_SIZE + 1,
                        v@ =~= self.spec_candidates(MoveDirection::Up).take(cy - self.y),
                    decreases GRID_SIZE + 1 - cy,
                {
                    v.push(GridCoordinates { x: self.x, y: cy });
                    cy = cy + 1;
                }
                assert(v@ =~= self.spec_candidates(MoveDirection::Up));
            }
            MoveDirection::Down => {
                let mut cy: i32 = self.y;
                while cy >= -1
                    invariant
                        self.in_extent(),
                        -2 <= cy <= self.y,
                        v@ =~= self.spec_candidates(MoveDirection::Down).take(self.y - cy),
                    decreases cy + 2,
                {
                    v.push(GridCoordinates { x: self.x, y: cy });
                    cy = cy - 1;
                }
                assert(v@ =~= self.spec_candidates(MoveDirection::Down));
            }
        }
        v
    }
}

} // verus!
