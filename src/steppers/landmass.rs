use vstd::prelude::*;

use crate::biomes::Biomes;
use crate::helper::{is_valid_cell, set_tile_type};
use crate::steppers::map_position::MapPosition;
use crate::MapData;

verus! {

use crate::helper::{grid_view, valid_cell, well_formed, with_kind, set_kind, MAX_MAP_SIZE};
use crate::biomes::Biome;

/// Half-width of the square that a walker stamps as land.
pub const FOOTPRINT_RADIUS: u32 = 4;

/// A position whose neighbourhood can be computed in `i32`.
pub open spec fn in_span(p: MapPosition) -> bool {
    -(MAX_MAP_SIZE as int) <= p.x <= 2 * MAX_MAP_SIZE && -(MAX_MAP_SIZE as int) <= p.y <= 2
        * MAX_MAP_SIZE
}

pub open spec fn abs(v: int) -> int {
    if v < 0 {
        -v
    } else {
        v
    }
}

/// The cells of the square of half-width `s` round `(cx, cy)`, less its four
/// corners.
pub open spec fn in_footprint(cx: int, cy: int, s: int, i: int, j: int) -> bool {
    &&& abs(i - cx) <= s
    &&& abs(j - cy) <= s
    &&& !(abs(i - cx) == s && abs(j - cy) == s)
}

/// The map with every cell of the footprint round `(cx, cy)` set to raw land.
pub open spec fn stamp(g: Seq<Seq<Biome>>, cx: int, cy: int, s: int) -> Seq<Seq<Biome>> {
    Seq::new(
        g.len(),
        |i: int|
            Seq::new(
                g[i].len(),
                |j: int|
                    if in_footprint(cx, cy, s, i, j) {
                        with_kind(g[i][j], Biomes::Placeholder)
                    } else {
                        g[i][j]
                    },
            ),
    )
}

/// Whether the walker stamps a footprint on this step.
pub open spec fn stamps_footprint(steps_left: u32, last_direction_steps: u32) -> bool {
    steps_left % 10 == 0 || last_direction_steps >= 4
}

/// What one step of a walker does to the map at a cell inside it.
pub open spec fn step_effect(
    g: Seq<Seq<Biome>>,
    p: MapPosition,
    steps_left: u32,
    last_direction_steps: u32,
) -> Seq<Seq<Biome>> {
    let h = if stamps_footprint(steps_left, last_direction_steps) {
        stamp(g, p.x as int, p.y as int, FOOTPRINT_RADIUS as int)
    } else {
        g
    };
    set_kind(h, p.x as int, p.y as int, Biomes::Placeholder)
}

/// Every cell of `h` is the cell of `g`, or that cell turned to raw land.
pub open spec fn only_land_added(g: Seq<Seq<Biome>>, h: Seq<Seq<Biome>>) -> bool {
    &&& g.len() == h.len()
    &&& forall|i: int| 0 <= i < g.len() ==> #[trigger] g[i].len() == h[i].len()
    &&& forall|i: int, j: int|
        0 <= i < g.len() && 0 <= j < g[i].len() ==> (#[trigger] h[i][j] == g[i][j] || h[i][j]
            == with_kind(g[i][j], Biomes::Placeholder))
}

pub proof fn lemma_only_land_added_trans(g: Seq<Seq<Biome>>, h: Seq<Seq<Biome>>, k: Seq<Seq<Biome>>)
    requires
        only_land_added(g, h),
        only_land_added(h, k),
    ensures
        only_land_added(g, k),
{
    assert forall|i: int, j: int| 0 <= i < g.len() && 0 <= j < g[i].len() implies (#[trigger] k[i][j]
        == g[i][j] || k[i][j] == with_kind(g[i][j], Biomes::Placeholder)) by {
        assert(h[i][j] == g[i][j] || h[i][j] == with_kind(g[i][j], Biomes::Placeholder));
        assert(k[i][j] == h[i][j] || k[i][j] == with_kind(h[i][j], Biomes::Placeholder));
    }
}

pub proof fn lemma_step_effect_adds_land(
    g: Seq<Seq<Biome>>,
    n: int,
    p: MapPosition,
    steps_left: u32,
    last_direction_steps: u32,
)
    requires
        well_formed(g, n),
        valid_cell(n, p.x as int, p.y as int),
    ensures
        only_land_added(g, step_effect(g, p, steps_left, last_direction_steps)),
        well_formed(step_effect(g, p, steps_left, last_direction_steps), n),
{
    lemma_stamp_adds_land(g, n, p.x as int, p.y as int, FOOTPRINT_RADIUS as int);
    let h = if stamps_footprint(steps_left, last_direction_steps) {
        stamp(g, p.x as int, p.y as int, FOOTPRINT_RADIUS as int)
    } else {
        g
    };
    let s = stamp(g, p.x as int, p.y as int, FOOTPRINT_RADIUS as int);
    assert(only_land_added(g, s));
    assert(only_land_added(g, h));
    let k = set_kind(h, p.x as int, p.y as int, Biomes::Placeholder);
    assert(only_land_added(h, k));
    lemma_only_land_added_trans(g, h, k);
}

pub proof fn lemma_stamp_adds_land(g: Seq<Seq<Biome>>, n: int, cx: int, cy: int, s: int)
    requires
        well_formed(g, n),
    ensures
        only_land_added(g, stamp(g, cx, cy, s)),
        well_formed(stamp(g, cx, cy, s), n),
{
}

pub struct Landmass {}

impl Landmass {
    pub fn create() -> (r: Self) {
        Self {}
    }

    /// Marks the walker's cell as raw land, first stamping a footprint round it
    /// on every tenth step or after four steps in one direction. Returns false,
    /// and leaves the map alone, when the position lies outside the map.
    pub fn on_step(
        &self,
        map_data: &mut MapData,
        current_pos: MapPosition,
        steps_left: u32,
        last_direction_steps: u32,
    ) -> (r: bool)
        requires
            well_formed(grid_view(*old(map_data)), old(map_data)@.len() as int),
            old(map_data)@.len() <= MAX_MAP_SIZE,
            in_span(current_pos),
        ensures
            r == valid_cell(old(map_data)@.len() as int, current_pos.x as int, current_pos.y as int),
            r ==> grid_view(*final(map_data)) == step_effect(
                grid_view(*old(map_data)),
                current_pos,
                steps_left,
                last_direction_steps,
            ),
            !r ==> *final(map_data) == *old(map_data),
    {
        if !is_valid_cell(&(map_data.len() as u32), current_pos.x, current_pos.y) {
            return false;
        }
        if steps_left % 10 == 0 || last_direction_steps >= 4 {
            self.fill_area(map_data, current_pos, FOOTPRINT_RADIUS);
        }
        set_tile_type(map_data, current_pos.x_usize(), current_pos.y_usize(), Biomes::Placeholder);
        true
    }

    /// Stamps the closing footprint round the walker's last position.
    pub fn on_last_step(&self, map_data: &mut MapData, current_pos: MapPosition)
        requires
            well_formed(grid_view(*old(map_data)), old(map_data)@.len() as int),
            old(map_data)@.len() <= MAX_MAP_SIZE,
            in_span(current_pos),
        ensures
            grid_view(*final(map_data)) == stamp(
                grid_view(*old(map_data)),
                current_pos.x as int,
                current_pos.y as int,
                FOOTPRINT_RADIUS as int,
            ),
    {
        self.fill_area(map_data, current_pos, FOOTPRINT_RADIUS);
    }

    fn fill_area(&self, map_data: &mut MapData, current_pos: MapPosition, fill_size: u32)
        requires
            well_formed(grid_view(*old(map_data)), old(map_data)@.len() as int),
            old(map_data)@.len() <= MAX_MAP_SIZE,
            in_span(current_pos),
            fill_size <= 64,
        ensures
            grid_view(*final(map_data)) == stamp(
                grid_view(*old(map_data)),
                current_pos.x as int,
                current_pos.y as int,
                fill_size as int,
            ),
    {
        let ghost g0 = grid_view(*map_data);
        let ghost n = map_data@.len() as int;
        let ghost cx = current_pos.x as int;
        let ghost cy = current_pos.y as int;
        let ghost s = fill_size as int;
        let size = map_data.len() as u32;
        let fill_neg = -(fill_size as i32);
        let fill_pos = fill_size as i32;
        let mut x_offset = fill_neg;
        while x_offset <= fill_pos
            invariant
                -s <= x_offset <= s + 1,
                fill_neg == -s,
                fill_pos == s,
                size == n,
                n == old(map_data)@.len(),
                g0 == grid_view(*old(map_data)),
                well_formed(g0, n),
                well_formed(grid_view(*map_data), n),
                n <= MAX_MAP_SIZE,
                in_span(current_pos),
                cx == current_pos.x,
                cy == current_pos.y,
                s <= 64,
                forall|i: int, j: int|
                    valid_cell(n, i, j) ==> #[trigger] grid_view(*map_data)[i][j] == if in_footprint(
                        cx,
                        cy,
                        s,
                        i,
                        j,
                    ) && i - cx < x_offset {
                        with_kind(g0[i][j], Biomes::Placeholder)
                    } else {
                        g0[i][j]
                    },
            decreases s + 1 - x_offset,
        {
            let new_x = current_pos.x + x_offset;
            let mut y_offset = fill_neg;
            while y_offset <= fill_pos
                invariant
                    -s <= x_offset <= s,
                    -s <= y_offset <= s + 1,
                    fill_neg == -s,
                    fill_pos == s,
                    new_x == cx + x_offset,
                    size == n,
                    g0 == grid_view(*old(map_data)),
                    well_formed(g0, n),
                    well_formed(grid_view(*map_data), n),
                    n == map_data@.len(),
                    n <= MAX_MAP_SIZE,
                    in_span(current_pos),
                    cx == current_pos.x,
                    cy == current_pos.y,
                    s <= 64,
                    forall|i: int, j: int|
                        valid_cell(n, i, j) ==> #[trigger] grid_view(*map_data)[i][j] == if in_footprint(
                            cx,
                            cy,
                            s,
                            i,
                            j,
                        ) && (i - cx < x_offset || (i - cx == x_offset && j - cy < y_offset)) {
                            with_kind(g0[i][j], Biomes::Placeholder)
                        } else {
                            g0[i][j]
                        },
                decreases s + 1 - y_offset,
            {
                let new_y = current_pos.y + y_offset;
                // leave the four far corners alone, to round the footprint off
                let corner = (x_offset == fill_neg || x_offset == fill_pos) && (y_offset == fill_neg
                    || y_offset == fill_pos);
                if !corner && is_valid_cell(&size, new_x, new_y) {
                    let ghost before = grid_view(*map_data);
                    set_tile_type(map_data, new_x as usize, new_y as usize, Biomes::Placeholder);
                    proof {
                        assert(in_footprint(cx, cy, s, new_x as int, new_y as int));
                    }
                }
                y_offset += 1;
            }
            x_offset += 1;
        }
        proof {
            assert(grid_view(*map_data) =~~= stamp(g0, cx, cy, s));
        }
    }
}

} // verus!
