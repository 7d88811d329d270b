use vstd::prelude::*;

use crate::steppers::direction::pick_random_direction;
use crate::steppers::rng::gen_below;
use crate::MapData;

use self::landmass::Landmass;
use self::move_direction::MoveDirection;

pub mod direction;
pub mod landmass;
pub mod map_position;
pub mod move_direction;
pub mod rng;
pub mod seed;

pub use self::map_position::MapPosition;

verus! {

use crate::biomes::Biome;
use crate::helper::{grid_view, valid_cell, well_formed, MAX_MAP_SIZE};
use self::direction::{lemma_without_members, standard_dirs, without};
use self::landmass::{
    lemma_only_land_added_trans, lemma_stamp_adds_land, lemma_step_effect_adds_land,
    only_land_added, stamp, step_effect, FOOTPRINT_RADIUS,
};

/// The effects that a walker can have on the map.
#[derive(Clone, Copy, Debug, PartialEq, Eq, Structural)]
pub enum Generators {
    LandGenerator,
}

impl Generators {
    pub fn get_generator(&self) -> (r: Landmass) {
        match self {
            Generators::LandGenerator => Landmass::create(),
        }
    }
}

/// A step of at most one cell along each axis.
pub open spec fn is_unit(d: MoveDirection) -> bool {
    -1 <= d.x <= 1 && -1 <= d.y <= 1
}

/// Where a walker lands on one axis: one step on, or bounced back off the
/// map's edge.
pub open spec fn advanced(p: int, d: int, n: int) -> int {
    if p + d <= 0 || p + d >= n - 1 {
        p + d - 2 * d
    } else {
        p + d
    }
}

pub proof fn lemma_standard_is_unit(d: MoveDirection)
    requires
        standard_dirs().contains(d),
    ensures
        is_unit(d),
{
    let i = choose|i: int| 0 <= i < standard_dirs().len() && standard_dirs()[i] == d;
    assert(0 <= i < 4);
}

/// One step on from `p` along `d`, bouncing off the map's edge on each axis.
pub open spec fn advance(p: MapPosition, d: MoveDirection, n: int) -> MapPosition {
    MapPosition {
        x: advanced(p.x as int, d.x as int, n) as i32,
        y: advanced(p.y as int, d.y as int, n) as i32,
    }
}

/// Where a walker stands after `k` steps, where `ds[0]` is the direction it
/// starts with and `ds[i]` the direction of step `i`.
pub open spec fn walk_pos(n: int, start: MapPosition, ds: Seq<MoveDirection>, k: int) -> MapPosition
    decreases k,
{
    if k <= 0 {
        start
    } else {
        advance(walk_pos(n, start, ds, k - 1), ds[k], n)
    }
}

/// The number of steps taken in a row in the direction of step `k`.
pub open spec fn walk_runs(ds: Seq<MoveDirection>, k: int) -> int
    decreases k,
{
    if k <= 0 {
        0
    } else if k >= 2 && ds[k] == ds[k - 1] {
        walk_runs(ds, k - 1) + 1
    } else {
        1
    }
}

/// The map after the first `k` steps of a walk of `steps` steps; a step onto a
/// cell off the map changes nothing.
pub open spec fn walk_grid(
    g: Seq<Seq<Biome>>,
    n: int,
    start: MapPosition,
    steps: u32,
    ds: Seq<MoveDirection>,
    k: int,
) -> Seq<Seq<Biome>>
    decreases k,
{
    if k <= 0 {
        g
    } else {
        let h = walk_grid(g, n, start, steps, ds, k - 1);
        let p = walk_pos(n, start, ds, k);
        if valid_cell(n, p.x as int, p.y as int) {
            step_effect(h, p, (steps - (k - 1)) as u32, walk_runs(ds, k) as u32)
        } else {
            h
        }
    }
}

/// The map after a walk that took the steps of `ds`: a walk that took all of
/// its one or more steps ends with a closing footprint.
pub open spec fn walk_result(
    g: Seq<Seq<Biome>>,
    n: int,
    start: MapPosition,
    steps: u32,
    ds: Seq<MoveDirection>,
) -> Seq<Seq<Biome>> {
    let k = ds.len() - 1;
    if k == steps && k >= 1 {
        let p = walk_pos(n, start, ds, k);
        stamp(walk_grid(g, n, start, steps, ds, k), p.x as int, p.y as int, FOOTPRINT_RADIUS as int)
    } else {
        walk_grid(g, n, start, steps, ds, k)
    }
}

/// `ds` is a walk a walker can take: cardinal directions only, never straight
/// back, every step but the last on the map, and a walk cut short only by a
/// step off the map.
pub open spec fn walk_ok(ds: Seq<MoveDirection>, steps: u32, n: int, start: MapPosition) -> bool {
    &&& 1 <= ds.len() <= steps + 1
    &&& forall|i: int| 0 <= i < ds.len() ==> standard_dirs().contains(#[trigger] ds[i])
    &&& forall|i: int| 1 <= i < ds.len() ==> #[trigger] ds[i] != ds[i - 1].opposite()
    &&& forall|i: int|
        1 <= i < ds.len() - 1 ==> valid_cell(n, #[trigger] walk_pos(n, start, ds, i).x as int, walk_pos(n, start, ds, i).y as int)
    &&& ds.len() - 1 < steps ==> ds.len() >= 2 && !valid_cell(
        n,
        walk_pos(n, start, ds, ds.len() - 1).x as int,
        walk_pos(n, start, ds, ds.len() - 1).y as int,
    )
}

pub proof fn lemma_walk_prefix(
    g: Seq<Seq<Biome>>,
    n: int,
    start: MapPosition,
    steps: u32,
    ds: Seq<MoveDirection>,
    d: MoveDirection,
    k: int,
)
    requires
        0 <= k < ds.len(),
    ensures
        walk_pos(n, start, ds.push(d), k) == walk_pos(n, start, ds, k),
        walk_runs(ds.push(d), k) == walk_runs(ds, k),
        walk_grid(g, n, start, steps, ds.push(d), k) == walk_grid(g, n, start, steps, ds, k),
    decreases k,
{
    if k > 0 {
        lemma_walk_prefix(g, n, start, steps, ds, d, k - 1);
        assert(ds.push(d)[k] == ds[k]);
        assert(ds.push(d)[k - 1] == ds[k - 1]);
    }
}

pub proof fn lemma_walk_runs_bound(ds: Seq<MoveDirection>, k: int)
    requires
        k >= 0,
    ensures
        0 <= walk_runs(ds, k) <= k,
    decreases k,
{
    if k > 0 {
        lemma_walk_runs_bound(ds, k - 1);
    }
}

pub proof fn lemma_walk_adds_land(
    g: Seq<Seq<Biome>>,
    n: int,
    start: MapPosition,
    steps: u32,
    ds: Seq<MoveDirection>,
    k: int,
)
    requires
        well_formed(g, n),
    ensures
        only_land_added(g, walk_grid(g, n, start, steps, ds, k)),
        well_formed(walk_grid(g, n, start, steps, ds, k), n),
    decreases k,
{
    if k > 0 {
        lemma_walk_adds_land(g, n, start, steps, ds, k - 1);
        let h = walk_grid(g, n, start, steps, ds, k - 1);
        let p = walk_pos(n, start, ds, k);
        if valid_cell(n, p.x as int, p.y as int) {
            lemma_step_effect_adds_land(h, n, p, (steps - (k - 1)) as u32, walk_runs(ds, k) as u32);
            lemma_only_land_added_trans(g, h, walk_grid(g, n, start, steps, ds, k));
        }
    }
}

/// One random walk over the map.
pub struct Stepper {
    steps: u32,
    map_size: i32,
    rng: rand_pcg::Pcg64,
    start_pos: MapPosition,
}

impl Stepper {
    pub closed spec fn size(&self) -> int {
        self.map_size as int
    }

    pub closed spec fn steps_spec(&self) -> u32 {
        self.steps
    }

    pub closed spec fn start(&self) -> MapPosition {
        self.start_pos
    }

    pub closed spec fn wf(&self) -> bool {
        &&& 1 <= self.map_size <= MAX_MAP_SIZE
        &&& valid_cell(self.map_size as int, self.start_pos.x as int, self.start_pos.y as int)
    }

    pub fn create(rng: rand_pcg::Pcg64, map_size: u32, steps: u32, start_pos: MapPosition) -> (r:
        Self)
        requires
            1 <= map_size <= MAX_MAP_SIZE,
            valid_cell(map_size as int, start_pos.x as int, start_pos.y as int),
        ensures
            r.wf(),
            r.size() == map_size,
            r.steps_spec() == steps,
            r.start() == start_pos,
    {
        Self { map_size: map_size as i32, steps, rng, start_pos }
    }

    /// Walks `steps` steps from the start position: on each step, with even
    /// chance, turns to a random cardinal direction other than straight back,
    /// moves one cell (bouncing off the map's edge), and lets the effect act
    /// on the map. The effect stamps a closing footprint after the last step.
    /// The map that results is fixed by the directions the walker drew.
    pub fn run(&mut self, map_data: &mut MapData, generator: Generators)
        requires
            old(self).wf(),
            well_formed(grid_view(*old(map_data)), old(self).size()),
        ensures
            final(self).wf(),
            final(self).size() == old(self).size(),
            final(self).steps_spec() == old(self).steps_spec(),
            final(self).start() == old(self).start(),
            well_formed(grid_view(*final(map_data)), old(self).size()),
            only_land_added(grid_view(*old(map_data)), grid_view(*final(map_data))),
            exists|ds: Seq<MoveDirection>|
                walk_ok(ds, old(self).steps_spec(), old(self).size(), old(self).start())
                    && #[trigger] walk_result(
                    grid_view(*old(map_data)),
                    old(self).size(),
                    old(self).start(),
                    old(self).steps_spec(),
                    ds,
                ) == grid_view(*final(map_data)),
    {
        let ghost g0 = grid_view(*map_data);
        let ghost n = self.size();
        let ghost start = self.start_pos;
        let ghost steps = self.steps;
        let mut steps_left = self.steps;
        let mut last_direction: MoveDirection = pick_random_direction(&mut self.rng, Vec::new());
        proof {
            lemma_standard_is_unit(last_direction);
        }
        let ghost mut ds: Seq<MoveDirection> = seq![last_direction];
        let mut current_direction: MoveDirection = last_direction;
        let mut last_direction_steps: u32 = 0;
        let stepper_generator = generator.get_generator();
        let mut current_pos = self.start_pos;
        while steps_left > 0
            invariant_except_break
                valid_cell(n, current_pos.x as int, current_pos.y as int),
                forall|i: int| 1 <= i < ds.len() ==> valid_cell(n, #[trigger] walk_pos(n, start, ds, i).x as int, walk_pos(n, start, ds, i).y as int),
            invariant
                self.wf(),
                self.size() == n,
                self.steps_spec() == steps,
                self.start() == start,
                steps == old(self).steps_spec(),
                start == old(self).start(),
                n == old(self).size(),
                g0 == grid_view(*old(map_data)),
                well_formed(grid_view(*map_data), n),
                map_data@.len() == n,
                ds.len() == steps - steps_left + 1,
                steps_left <= steps,
                current_direction == ds.last(),
                last_direction == ds.last(),
                current_pos == walk_pos(n, start, ds, ds.len() - 1),
                last_direction_steps == walk_runs(ds, ds.len() - 1),
                grid_view(*map_data) == walk_result(g0, n, start, steps, ds),
                forall|i: int| 0 <= i < ds.len() ==> standard_dirs().contains(#[trigger] ds[i]),
                forall|i: int| 1 <= i < ds.len() ==> #[trigger] ds[i] != ds[i - 1].opposite(),
                forall|i: int| 1 <= i < ds.len() - 1 ==> valid_cell(n, #[trigger] walk_pos(n, start, ds, i).x as int, walk_pos(n, start, ds, i).y as int),
            ensures
                steps_left == 0 || (ds.len() >= 2 && !valid_cell(
                    n,
                    walk_pos(n, start, ds, ds.len() - 1).x as int,
                    walk_pos(n, start, ds, ds.len() - 1).y as int,
                )),
            decreases steps_left,
        {
            let ghost k = ds.len() - 1;
            proof {
                lemma_standard_is_unit(last_direction);
                lemma_walk_runs_bound(ds, k);
            }
            if gen_below(&mut self.rng, 2) == 1 {
                let mut excludes: Vec<MoveDirection> = Vec::new();
                excludes.push(last_direction.opposite_direction());
                proof {
                    lemma_without_members(standard_dirs(), excludes@);
                    let o = excludes@[0];
                    assert(excludes@ == seq![o]);
                    let w = if o == standard_dirs()[0] {
                        standard_dirs()[1]
                    } else {
                        standard_dirs()[0]
                    };
                    assert(standard_dirs().contains(w));
                    assert(!excludes@.contains(w));
                    assert(without(standard_dirs(), excludes@).contains(w));
                }
                current_direction = pick_random_direction(&mut self.rng, excludes);
                proof {
                    assert(excludes@[0] == last_direction.opposite());
                }
            } else {
                proof {
                    let i = choose|i: int| 0 <= i < standard_dirs().len() && standard_dirs()[i] == last_direction;
                    assert(0 <= i < 4);
                }
            }
            proof {
                lemma_standard_is_unit(current_direction);
            }
            let ghost old_ds = ds;
            proof {
                ds = ds.push(current_direction);
                lemma_walk_prefix(g0, n, start, steps, old_ds, current_direction, k);
            }
            current_pos.x = current_pos.x + current_direction.x;
            current_pos.y = current_pos.y + current_direction.y;
            if current_pos.x <= 0 || current_pos.x >= self.map_size - 1 {
                current_pos.x = current_pos.x - current_direction.x * 2;
            }
            if current_pos.y <= 0 || current_pos.y >= self.map_size - 1 {
                current_pos.y = current_pos.y - current_direction.y * 2;
            }
            if last_direction != current_direction {
                last_direction_steps = 0;
                last_direction = current_direction;
            }
            last_direction_steps += 1;
            proof {
                assert(current_pos == walk_pos(n, start, ds, k + 1));
                assert(last_direction_steps == walk_runs(ds, k + 1));
                assert(walk_grid(g0, n, start, steps, old_ds, k) == grid_view(*map_data));
                assert forall|i: int| 1 <= i < ds.len() - 1 implies valid_cell(n, #[trigger] walk_pos(n, start, ds, i).x as int, walk_pos(n, start, ds, i).y as int) by {
                    lemma_walk_prefix(g0, n, start, steps, old_ds, current_direction, i);
                }
                assert forall|i: int| 0 <= i < ds.len() implies standard_dirs().contains(#[trigger] ds[i]) by {
                    if i < k + 1 {
                        assert(ds[i] == old_ds[i]);
                    }
                }
                assert forall|i: int| 1 <= i < ds.len() implies #[trigger] ds[i] != ds[i - 1].opposite() by {
                    if i < k + 1 {
                        assert(ds[i] == old_ds[i]);
                        assert(ds[i - 1] == old_ds[i - 1]);
                    } else {
                        assert(ds[i - 1] == old_ds[k]);
                    }
                }
            }
            let ghost before = grid_view(*map_data);
            let proceed = stepper_generator.on_step(
                map_data,
                current_pos,
                steps_left,
                last_direction_steps,
            );
            proof {
                if proceed {
                    lemma_step_effect_adds_land(before, n, current_pos, steps_left, last_direction_steps);
                }
            }
            steps_left -= 1;
            if steps_left == 0 {
                let ghost before_last = grid_view(*map_data);
                stepper_generator.on_last_step(map_data, current_pos);
                proof {
                    lemma_stamp_adds_land(before_last, n, current_pos.x as int, current_pos.y as int, FOOTPRINT_RADIUS as int);
                }
            }
            if !proceed {
                break;
            }
            proof {
                assert forall|i: int| 1 <= i < ds.len() implies valid_cell(n, #[trigger] walk_pos(n, start, ds, i).x as int, walk_pos(n, start, ds, i).y as int) by {
                    if i < k + 1 {
                        lemma_walk_prefix(g0, n, start, steps, old_ds, current_direction, i);
                    }
                }
            }
        }
        proof {
            assert(walk_ok(ds, steps, n, start));
            lemma_walk_adds_land(g0, n, start, steps, ds, ds.len() - 1);
            let k = ds.len() - 1;
            if k == steps && k >= 1 {
                let p = walk_pos(n, start, ds, k);
                let h = walk_grid(g0, n, start, steps, ds, k);
                lemma_stamp_adds_land(h, n, p.x as int, p.y as int, FOOTPRINT_RADIUS as int);
                lemma_only_land_added_trans(g0, h, grid_view(*map_data));
            }
        }
    }
}

} // verus!
