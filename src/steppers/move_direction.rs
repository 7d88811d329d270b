use vstd::prelude::*;

verus! {

/// A unit step on the map.
#[derive(Copy, Clone, Debug, PartialEq, Eq, Structural)]
pub struct MoveDirection {
    pub x: i32,
    pub y: i32,
}

impl MoveDirection {
    pub open spec fn opposite(self) -> MoveDirection {
        MoveDirection { x: (-(self.x as int)) as i32, y: (-(self.y as int)) as i32 }
    }

    pub fn opposite_direction(&self) -> (r: MoveDirection)
        requires
            self.x > i32::MIN,
            self.y > i32::MIN,
        ensures
            r == self.opposite(),
            r.x == -self.x,
            r.y == -self.y,
    {
        MoveDirection { x: -self.x, y: -self.y }
    }
}

} // verus!
