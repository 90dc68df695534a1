//! The running score of a play session.

use vstd::prelude::*;

verus! {

/// A monotonically increasing score, reset only between sessions.
#[derive(Debug, PartialEq, Eq, Clone, Copy)]
pub struct GameScore(i32);

impl GameScore {
    /// The points held so far.
    pub closed spec fn spec_points(self) -> int {
        self.0 as int
    }

    pub fn add(&mut self, points: i32)
        requires
            old(self).spec_points() + points <= i32::MAX,
            i32::MIN <= old(self).spec_points() + points,
        ensures
            final(self).spec_points() == old(self).spec_points() + points,
    {
        self.0 += points;
    }

    pub fn reset(&mut self)
        ensures
            final(self).spec_points() == 0,
    {
        self.0 = 0;
    }

    pub fn get(&self) -> (r: i32)
        ensures
            r == self.spec_points(),
    {
        self.0
    }
}

impl Default for GameScore {
    fn default() -> (r: Self)
        ensures
            r.spec_points() == 0,
    {
        GameScore(0)
    }
}

} // verus!
