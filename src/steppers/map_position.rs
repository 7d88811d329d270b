use vstd::prelude::*;

verus! {

/// A signed position on the map; it may lie outside the map for a moment.
#[derive(Copy, Clone, Debug, PartialEq, Eq, Structural)]
pub struct MapPosition {
    pub x: i32,
    pub y: i32,
}

impl MapPosition {
    pub fn x_usize(&self) -> (r: usize)
        ensures
            r == self.x as usize,
    {
        self.x as usize
    }

    pub fn y_usize(&self) -> (r: usize)
        ensures
            r == self.y as usize,
    {
        self.y as usize
    }
}

} // verus!
