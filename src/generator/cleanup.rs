use vstd::prelude::*;

use crate::biomes::Biomes;
use crate::helper::{get_tile, set_tile_type, tile_neighbours};
use crate::steppers::map_position::MapPosition;
use crate::MapData;

verus! {

use crate::biomes::Biome;
use crate::helper::{
    count_kind, grid_view, kind_at, land_or_void, lemma_count_kind_set, lemma_set_kind_land, near_map, neighbours_spec, on_rim,
    set_kind, sweep, sweep_row, valid_cell, well_formed, MAX_MAP_SIZE,
};
use crate::steppers::direction::{extended_dirs, standard_dirs};
use crate::steppers::move_direction::MoveDirection;

pub open spec fn pos(x: int, y: int) -> MapPosition {
    MapPosition { x: x as i32, y: y as i32 }
}

/// Reverts a raw-land cell to untouched when at most two of its eight
/// neighbours are raw land.
pub open spec fn straggler_step(g: Seq<Seq<Biome>>, x: int, y: int) -> Seq<Seq<Biome>> {
    if kind_at(g, x, y) == Biomes::Placeholder && neighbours_spec(
        g,
        pos(x, y),
        Biomes::Placeholder,
        extended_dirs(),
    ).len() <= 2 {
        set_kind(g, x, y, Biomes::Void)
    } else {
        g
    }
}

pub open spec fn straggler_fn() -> spec_fn(Seq<Seq<Biome>>, int, int) -> Seq<Seq<Biome>> {
    |g: Seq<Seq<Biome>>, x: int, y: int| straggler_step(g, x, y)
}

/// The straggler pass over the whole map, in row-major order.
pub open spec fn remove_stragglers_spec(g: Seq<Seq<Biome>>) -> Seq<Seq<Biome>> {
    sweep(g, straggler_fn(), g.len() as int, g.len() as int)
}

/// What a lone cell of kind `t` becomes: water-like cells turn to raw land,
/// anything else to untouched.
pub open spec fn flip(t: Biomes) -> Biomes {
    if t == Biomes::Void || t == Biomes::FreshWater {
        Biomes::Placeholder
    } else {
        Biomes::Void
    }
}

/// Thinning from one cell of kind `t`: a rim cell turns untouched; a cell with
/// at most one cardinal neighbour of its kind is flipped, and the thinning
/// goes on from that neighbour.
pub open spec fn clean_spec(g: Seq<Seq<Biome>>, t: Biomes, x: int, y: int) -> Seq<Seq<Biome>>
    decreases count_kind(g, t),
    via clean_spec_decreases
{
    if !well_formed(g, g.len() as int) || !valid_cell(g.len() as int, x, y) || kind_at(g, x, y)
        != t {
        g
    } else if on_rim(g.len() as int, x, y) {
        set_kind(g, x, y, Biomes::Void)
    } else {
        let nb = neighbours_spec(g, pos(x, y), t, standard_dirs());
        if nb.len() > 1 {
            g
        } else {
            let h = set_kind(g, x, y, flip(t));
            if nb.len() == 0 {
                h
            } else {
                clean_spec(h, t, nb[0].x as int, nb[0].y as int)
            }
        }
    }
}

#[via_fn]
proof fn clean_spec_decreases(g: Seq<Seq<Biome>>, t: Biomes, x: int, y: int) {
    if well_formed(g, g.len() as int) && valid_cell(g.len() as int, x, y) && kind_at(g, x, y)
        == t {
        lemma_count_kind_set(g, x, y, t, flip(t));
    }
}

pub open spec fn clean_fn() -> spec_fn(Seq<Seq<Biome>>, int, int) -> Seq<Seq<Biome>> {
    |g: Seq<Seq<Biome>>, x: int, y: int| clean_spec(g, kind_at(g, x, y), x, y)
}

/// Straggler removal, then thinning from every cell in row-major order.
pub open spec fn post_process_spec(g: Seq<Seq<Biome>>) -> Seq<Seq<Biome>> {
    let s = remove_stragglers_spec(g);
    sweep(s, clean_fn(), g.len() as int, g.len() as int)
}

/// Every rim cell of the map is untouched.
pub open spec fn rim_untouched(g: Seq<Seq<Biome>>) -> bool {
    forall|x: int, y: int|
        valid_cell(g.len() as int, x, y) && on_rim(g.len() as int, x, y) ==> #[trigger] kind_at(
            g,
            x,
            y,
        ) == Biomes::Void
}

/// The neighbours found lie on the map, have the kind asked for, and differ
/// from the centre.
pub proof fn lemma_neighbours_props(
    g: Seq<Seq<Biome>>,
    p: MapPosition,
    k: Biomes,
    dirs: Seq<MoveDirection>,
)
    requires
        forall|i: int| 0 <= i < dirs.len() ==> #[trigger] dirs[i] != (MoveDirection { x: 0, y: 0 }),
        g.len() <= MAX_MAP_SIZE,
    ensures
        forall|i: int|
            0 <= i < neighbours_spec(g, p, k, dirs).len() ==> {
                let q = #[trigger] neighbours_spec(g, p, k, dirs)[i];
                &&& valid_cell(g.len() as int, q.x as int, q.y as int)
                &&& kind_at(g, q.x as int, q.y as int) == k
                &&& q != p
            },
    decreases dirs.len(),
{
    if dirs.len() > 0 {
        let dl = dirs.drop_last();
        assert forall|i: int| 0 <= i < dl.len() implies #[trigger] dl[i] != (MoveDirection {
            x: 0,
            y: 0,
        }) by {
            assert(dl[i] == dirs[i]);
        }
        lemma_neighbours_props(g, p, k, dl);
        assert(dirs[dirs.len() - 1] != (MoveDirection { x: 0, y: 0 }));
    }
}

proof fn lemma_dirs_nonzero()
    ensures
        forall|i: int|
            0 <= i < standard_dirs().len() ==> #[trigger] standard_dirs()[i] != (MoveDirection {
                x: 0,
                y: 0,
            }),
{
}

/// Thinning leaves untouched rim cells untouched, and a rim cell it starts
/// from ends untouched.
pub proof fn lemma_clean_rim(g: Seq<Seq<Biome>>, t: Biomes, x: int, y: int)
    requires
        g.len() <= MAX_MAP_SIZE,
    ensures
        forall|a: int, b: int|
            valid_cell(g.len() as int, a, b) && on_rim(g.len() as int, a, b) && kind_at(g, a, b)
                == Biomes::Void ==> #[trigger] kind_at(clean_spec(g, t, x, y), a, b) == Biomes::Void,
        well_formed(g, g.len() as int) && valid_cell(g.len() as int, x, y) && on_rim(
            g.len() as int,
            x,
            y,
        ) && kind_at(g, x, y) == t ==> kind_at(clean_spec(g, t, x, y), x, y) == Biomes::Void,
        clean_spec(g, t, x, y).len() == g.len(),
        well_formed(g, g.len() as int) ==> well_formed(clean_spec(g, t, x, y), g.len() as int),
    decreases count_kind(g, t),
{
    if well_formed(g, g.len() as int) && valid_cell(g.len() as int, x, y) && kind_at(g, x, y) == t
        && !on_rim(g.len() as int, x, y) {
        let nb = neighbours_spec(g, pos(x, y), t, standard_dirs());
        if nb.len() <= 1 {
            let h = set_kind(g, x, y, flip(t));
            lemma_count_kind_set(g, x, y, t, flip(t));
            if nb.len() == 1 {
                lemma_clean_rim(h, t, nb[0].x as int, nb[0].y as int);
            }
        }
    }
}

/// Reverts every raw-land cell with at most two raw-land neighbours (of
/// eight) to untouched, in row-major order.
pub fn remove_stragglers(map_data: &mut MapData)
    requires
        well_formed(grid_view(*old(map_data)), old(map_data)@.len() as int),
        old(map_data)@.len() <= MAX_MAP_SIZE,
    ensures
        final(map_data)@.len() == old(map_data)@.len(),
        well_formed(grid_view(*final(map_data)), old(map_data)@.len() as int),
        grid_view(*final(map_data)) == remove_stragglers_spec(grid_view(*old(map_data))),
        land_or_void(grid_view(*old(map_data))) ==> land_or_void(grid_view(*final(map_data))),
{
    let ghost g0 = grid_view(*map_data);
    let ghost n = g0.len() as int;
    let size = map_data.len() as u32;
    let mut x: u32 = 0;
    while x < size
        invariant
            x <= size,
            size == n,
            n <= MAX_MAP_SIZE,
            map_data@.len() == n,
            well_formed(grid_view(*map_data), n),
            grid_view(*map_data) == sweep(g0, straggler_fn(), n, x as int),
            land_or_void(g0) ==> land_or_void(grid_view(*map_data)),
        decreases size - x,
    {
        let mut y: u32 = 0;
        while y < size
            invariant
                x < size,
                y <= size,
                size == n,
                n <= MAX_MAP_SIZE,
                map_data@.len() == n,
                well_formed(grid_view(*map_data), n),
                grid_view(*map_data) == sweep_row(
                    sweep(g0, straggler_fn(), n, x as int),
                    straggler_fn(),
                    x as int,
                    y as int,
                ),
                land_or_void(g0) ==> land_or_void(grid_view(*map_data)),
            decreases size - y,
        {
            let tile = get_tile(map_data, x as usize, y as usize).tile_type;
            // only land placeholders are removed
            if tile == Biomes::Placeholder {
                let current_pos = MapPosition { x: x as i32, y: y as i32 };
                let neighbours = tile_neighbours(map_data, &current_pos, &tile, true);
                if neighbours.len() <= 2 {
                    let ghost before = grid_view(*map_data);
                    set_tile_type(map_data, x as usize, y as usize, Biomes::Void);
                    proof {
                        if land_or_void(g0) {
                            lemma_set_kind_land(before, x as int, y as int, Biomes::Void);
                        }
                    }
                }
            }
            y += 1;
        }
        x += 1;
    }
}

/// Thinning from the cell at `position`, of kind `tile`.
pub fn clean_tile(map_data: &mut MapData, tile: Biomes, start: MapPosition)
    requires
        well_formed(grid_view(*old(map_data)), old(map_data)@.len() as int),
        old(map_data)@.len() <= MAX_MAP_SIZE,
        valid_cell(old(map_data)@.len() as int, start.x as int, start.y as int),
        kind_at(grid_view(*old(map_data)), start.x as int, start.y as int) == tile,
    ensures
        final(map_data)@.len() == old(map_data)@.len(),
        well_formed(grid_view(*final(map_data)), old(map_data)@.len() as int),
        grid_view(*final(map_data)) == clean_spec(
            grid_view(*old(map_data)),
            tile,
            start.x as int,
            start.y as int,
        ),
        land_or_void(grid_view(*old(map_data))) ==> land_or_void(grid_view(*final(map_data))),
{
    let ghost target = clean_spec(grid_view(*map_data), tile, start.x as int, start.y as int);
    let ghost n = map_data@.len() as int;
    let size = map_data.len() as i32;
    let mut position = start;
    proof {
        lemma_dirs_nonzero();
    }
    loop
        invariant
            n <= MAX_MAP_SIZE,
            n == old(map_data)@.len(),
            target == clean_spec(grid_view(*old(map_data)), tile, start.x as int, start.y as int),
            size == n,
            map_data@.len() == n,
            well_formed(grid_view(*map_data), n),
            valid_cell(n, position.x as int, position.y as int),
            kind_at(grid_view(*map_data), position.x as int, position.y as int) == tile,
            clean_spec(grid_view(*map_data), tile, position.x as int, position.y as int) == target,
            land_or_void(grid_view(*old(map_data))) ==> land_or_void(grid_view(*map_data)),
        decreases count_kind(grid_view(*map_data), tile),
    {
        let ghost g = grid_view(*map_data);
        // the outer rim always ends as untouched
        if position.y == 0 || position.y == size - 1 || position.x == 0 || position.x == size - 1 {
            proof {
                assert(on_rim(n, position.x as int, position.y as int));
                assert(target == set_kind(g, position.x as int, position.y as int, Biomes::Void));
                if land_or_void(grid_view(*old(map_data))) {
                    lemma_set_kind_land(g, position.x as int, position.y as int, Biomes::Void);
                }
            }
            set_tile_type(map_data, position.x_usize(), position.y_usize(), Biomes::Void);
            return;
        }
        let neighbours = tile_neighbours(map_data, &position, &tile, false);
        if neighbours.len() > 1 {
            proof {
                assert(target == g);
            }
            return;
        }
        // a lone cell is converted
        let replacement = if tile == Biomes::Void || tile == Biomes::FreshWater {
            Biomes::Placeholder
        } else {
            Biomes::Void
        };
        set_tile_type(map_data, position.x_usize(), position.y_usize(), replacement);
        proof {
            lemma_count_kind_set(g, position.x as int, position.y as int, tile, replacement);
            if land_or_void(grid_view(*old(map_data))) {
                lemma_set_kind_land(g, position.x as int, position.y as int, replacement);
            }
        }
        if neighbours.len() == 0 {
            return;
        }
        proof {
            lemma_neighbours_props(g, position, tile, standard_dirs());
        }
        position = neighbours[0];
    }
}

/// Straggler removal, then thinning from every cell in row-major order.
pub fn post_proccess(map_data: &mut MapData)
    requires
        well_formed(grid_view(*old(map_data)), old(map_data)@.len() as int),
        old(map_data)@.len() <= MAX_MAP_SIZE,
    ensures
        final(map_data)@.len() == old(map_data)@.len(),
        well_formed(grid_view(*final(map_data)), old(map_data)@.len() as int),
        grid_view(*final(map_data)) == post_process_spec(grid_view(*old(map_data))),
        rim_untouched(grid_view(*final(map_data))),
        land_or_void(grid_view(*old(map_data))) ==> land_or_void(grid_view(*final(map_data))),
{
    let ghost g0 = grid_view(*map_data);
    let ghost n = g0.len() as int;
    remove_stragglers(map_data);
    let ghost g1 = grid_view(*map_data);
    assert(land_or_void(g0) ==> land_or_void(g1));
    let size = map_data.len() as u32;
    let mut x: u32 = 0;
    while x < size
        invariant
            x <= size,
            size == n,
            n <= MAX_MAP_SIZE,
            map_data@.len() == n,
            g1 == remove_stragglers_spec(g0),
            well_formed(grid_view(*map_data), n),
            grid_view(*map_data) == sweep(g1, clean_fn(), n, x as int),
            land_or_void(g0) ==> land_or_void(g1),
            land_or_void(g0) ==> land_or_void(grid_view(*map_data)),
            forall|a: int, b: int|
                valid_cell(n, a, b) && on_rim(n, a, b) && a < x ==> #[trigger] kind_at(
                    grid_view(*map_data),
                    a,
                    b,
                ) == Biomes::Void,
        decreases size - x,
    {
        let mut y: u32 = 0;
        while y < size
            invariant
                x < size,
                y <= size,
                size == n,
                n <= MAX_MAP_SIZE,
                map_data@.len() == n,
                well_formed(grid_view(*map_data), n),
                grid_view(*map_data) == sweep_row(
                    sweep(g1, clean_fn(), n, x as int),
                    clean_fn(),
                    x as int,
                    y as int,
                ),
                g1 == remove_stragglers_spec(g0),
                land_or_void(g0) ==> land_or_void(g1),
                land_or_void(g0) ==> land_or_void(grid_view(*map_data)),
                forall|a: int, b: int|
                    valid_cell(n, a, b) && on_rim(n, a, b) && (a < x || (a == x && b < y))
                        ==> #[trigger] kind_at(grid_view(*map_data), a, b) == Biomes::Void,
            decreases size - y,
        {
            let ghost g = grid_view(*map_data);
            let tile = get_tile(map_data, x as usize, y as usize).tile_type;
            clean_tile(map_data, tile, MapPosition { x: x as i32, y: y as i32 });
            proof {
                lemma_clean_rim(g, tile, x as int, y as int);
            }
            y += 1;
        }
        x += 1;
    }
}

} // verus!
