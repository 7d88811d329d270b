use vstd::prelude::*;

use crate::steppers::rng::gen_below;

verus! {

pub use crate::steppers::move_direction::MoveDirection;

#[derive(Copy, Clone, Debug, PartialEq, Eq, Structural)]
pub enum Direction {
    North,
    South,
    East,
    West,
    NorthWest,
    NorthEast,
    SouthWest,
    SouthEast,
}

pub open spec fn dir(x: int, y: int) -> MoveDirection {
    MoveDirection { x: x as i32, y: y as i32 }
}

/// The four cardinal steps: north, south, east, west.
pub open spec fn standard_dirs() -> Seq<MoveDirection> {
    seq![dir(0, -1), dir(0, 1), dir(1, 0), dir(-1, 0)]
}

/// The cardinal steps followed by the four diagonal ones.
pub open spec fn extended_dirs() -> Seq<MoveDirection> {
    standard_dirs() + seq![dir(-1, -1), dir(1, -1), dir(1, 1), dir(-1, 1)]
}

/// The directions of `dirs` that `excluded` does not hold, in their order.
pub open spec fn without(dirs: Seq<MoveDirection>, excluded: Seq<MoveDirection>) -> Seq<
    MoveDirection,
>
    decreases dirs.len(),
{
    if dirs.len() == 0 {
        seq![]
    } else {
        let rest = without(dirs.drop_last(), excluded);
        if excluded.contains(dirs.last()) {
            rest
        } else {
            rest.push(dirs.last())
        }
    }
}

pub proof fn lemma_without_members(dirs: Seq<MoveDirection>, excluded: Seq<MoveDirection>)
    ensures
        forall|d: MoveDirection| #[trigger]
            without(dirs, excluded).contains(d) <==> (dirs.contains(d) && !excluded.contains(d)),
    decreases dirs.len(),
{
    if dirs.len() > 0 {
        lemma_without_members(dirs.drop_last(), excluded);
        assert(dirs == dirs.drop_last().push(dirs.last()));
        assert forall|d: MoveDirection| #[trigger]
            without(dirs, excluded).contains(d) <==> (dirs.contains(d) && !excluded.contains(
                d,
            )) by {
            if dirs.contains(d) {
                let i = choose|i: int| 0 <= i < dirs.len() && dirs[i] == d;
                if i < dirs.len() - 1 {
                    assert(dirs.drop_last()[i] == d);
                }
            }
            if dirs.drop_last().contains(d) {
                let i = choose|i: int| 0 <= i < dirs.drop_last().len() && dirs.drop_last()[i] == d;
                assert(dirs[i] == d);
            }
            let rest = without(dirs.drop_last(), excluded);
            if !excluded.contains(dirs.last()) && rest.push(dirs.last()).contains(d) {
                let i = choose|i: int| 0 <= i < rest.len() + 1 && rest.push(dirs.last())[i] == d;
                if i < rest.len() {
                    assert(rest[i] == d);
                }
            }
            if !excluded.contains(dirs.last()) && rest.contains(d) {
                let i = choose|i: int| 0 <= i < rest.len() && rest[i] == d;
                assert(rest.push(dirs.last())[i] == d);
            }
            if !excluded.contains(dirs.last()) && d == dirs.last() {
                assert(rest.push(dirs.last())[rest.len() as int] == d);
            }
        }
    }
}

impl Direction {
    pub open spec fn step(self) -> MoveDirection {
        match self {
            Direction::North => dir(0, -1),
            Direction::NorthWest => dir(-1, -1),
            Direction::NorthEast => dir(1, -1),
            Direction::South => dir(0, 1),
            Direction::SouthEast => dir(1, 1),
            Direction::SouthWest => dir(-1, 1),
            Direction::East => dir(1, 0),
            Direction::West => dir(-1, 0),
        }
    }

    pub fn get_move_direction(&self) -> (r: MoveDirection)
        ensures
            r == self.step(),
    {
        match self {
            Direction::North => MoveDirection { x: 0, y: -1 },
            Direction::NorthWest => MoveDirection { x: -1, y: -1 },
            Direction::NorthEast => MoveDirection { x: 1, y: -1 },
            Direction::South => MoveDirection { x: 0, y: 1 },
            Direction::SouthEast => MoveDirection { x: 1, y: 1 },
            Direction::SouthWest => MoveDirection { x: -1, y: 1 },
            Direction::East => MoveDirection { x: 1, y: 0 },
            Direction::West => MoveDirection { x: -1, y: 0 },
        }
    }

    pub fn get_standard_directions() -> (r: Vec<MoveDirection>)
        ensures
            r@ == standard_dirs(),
    {
        let mut dirs: Vec<MoveDirection> = Vec::with_capacity(4);
        // North
        dirs.push(MoveDirection { x: 0, y: -1 });
        // South
        dirs.push(MoveDirection { x: 0, y: 1 });
        // East
        dirs.push(MoveDirection { x: 1, y: 0 });
        // West
        dirs.push(MoveDirection { x: -1, y: 0 });
        assert(dirs@ =~= standard_dirs());
        dirs
    }

    pub fn get_extended_directions() -> (r: Vec<MoveDirection>)
        ensures
            r@ == extended_dirs(),
    {
        let mut dirs = Direction::get_standard_directions();
        // NorthWest
        dirs.push(MoveDirection { x: -1, y: -1 });
        // NorthEast
        dirs.push(MoveDirection { x: 1, y: -1 });
        // SouthEast
        dirs.push(MoveDirection { x: 1, y: 1 });
        // SouthWest
        dirs.push(MoveDirection { x: -1, y: 1 });
        assert(dirs@ =~= extended_dirs());
        dirs
    }
}

/// The cardinal directions that `exclude` does not name, in their fixed order.
pub fn candidate_directions(exclude: &Vec<MoveDirection>) -> (r: Vec<MoveDirection>)
    ensures
        r@ == without(standard_dirs(), exclude@),
{
    let dirs = Direction::get_standard_directions();
    let mut out: Vec<MoveDirection> = Vec::new();
    let mut i: usize = 0;
    while i < dirs.len()
        invariant
            i <= dirs@.len(),
            dirs@ == standard_dirs(),
            out@ == without(dirs@.take(i as int), exclude@),
        decreases dirs.len() - i,
    {
        let d = dirs[i];
        let mut excluded = false;
        let mut j: usize = 0;
        while j < exclude.len()
            invariant
                j <= exclude@.len(),
                excluded == exists|k: int| 0 <= k < j && exclude@[k] == d,
            decreases exclude.len() - j,
        {
            if exclude[j] == d {
                excluded = true;
            }
            j += 1;
        }
        assert(excluded == exclude@.contains(d));
        assert(dirs@.take(i as int + 1).drop_last() == dirs@.take(i as int));
        if !excluded {
            out.push(d);
        }
        i += 1;
    }
    assert(dirs@.take(4) == dirs@);
    out
}

/// Picks one of the cardinal directions that `exclude` does not name, each
/// with the same chance.
pub fn pick_random_direction(rng: &mut rand_pcg::Pcg64, exclude: Vec<MoveDirection>) -> (r:
    MoveDirection)
    requires
        without(standard_dirs(), exclude@).len() > 0,
    ensures
        without(standard_dirs(), exclude@).contains(r),
        standard_dirs().contains(r),
        !exclude@.contains(r),
{
    let dirs = candidate_directions(&exclude);
    let x = gen_below(rng, dirs.len());
    proof {
        lemma_without_members(standard_dirs(), exclude@);
        assert(dirs@[x as int] == dirs@[x as int]);
        assert(without(standard_dirs(), exclude@).contains(dirs@[x as int]));
    }
    dirs[x]
}

} // verus!
