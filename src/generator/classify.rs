use vstd::prelude::*;

use crate::biomes::Biomes;
use crate::helper::{get_tile, set_tile, set_tile_type, tile_neighbours};
use crate::steppers::map_position::MapPosition;
use crate::MapData;

verus! {

use crate::biomes::{classified, Biome};
use crate::generator::cleanup::pos;
use crate::helper::{
    grid_view, kind_at, lemma_neighbours_same_kind_set, neighbours_spec, valid_cell, well_formed,
    with_kind, MAX_MAP_SIZE,
};
use crate::steppers::direction::extended_dirs;

/// Whether find/replace changes the cell at `(x, y)`: it has kind `find` and,
/// when lone cells are spared, at least one of its eight neighbours has that
/// kind too.
pub open spec fn replaces(g: Seq<Seq<Biome>>, find: Biomes, ignore_solo_tiles: bool, x: int, y: int) -> bool {
    &&& kind_at(g, x, y) == find
    &&& (!ignore_solo_tiles || neighbours_spec(g, pos(x, y), find, extended_dirs()).len() > 0)
}

pub open spec fn replace_spec(
    g: Seq<Seq<Biome>>,
    find: Biomes,
    replace: Biomes,
    ignore_solo_tiles: bool,
) -> Seq<Seq<Biome>> {
    Seq::new(
        g.len(),
        |x: int|
            Seq::new(
                g[x].len(),
                |y: int|
                    if replaces(g, find, ignore_solo_tiles, x, y) {
                        with_kind(g[x][y], replace)
                    } else {
                        g[x][y]
                    },
            ),
    )
}

/// A raw-land cell of the lowest elevation and moisture 2 or less, next to salt
/// water along one of the eight directions.
pub open spec fn becomes_beach(g: Seq<Seq<Biome>>, x: int, y: int) -> bool {
    &&& kind_at(g, x, y) == Biomes::Placeholder
    &&& g[x][y].elevation == 1
    &&& g[x][y].moisture <= 2
    &&& neighbours_spec(g, pos(x, y), Biomes::SaltWater, extended_dirs()).len() >= 1
}

pub open spec fn beach_spec(g: Seq<Seq<Biome>>) -> Seq<Seq<Biome>> {
    Seq::new(
        g.len(),
        |x: int|
            Seq::new(
                g[x].len(),
                |y: int|
                    if becomes_beach(g, x, y) {
                        with_kind(g[x][y], Biomes::Beach)
                    } else {
                        g[x][y]
                    },
            ),
    )
}

/// Every raw-land cell takes the biome that the classification table gives it.
pub open spec fn biome_spec(g: Seq<Seq<Biome>>) -> Seq<Seq<Biome>> {
    Seq::new(
        g.len(),
        |x: int|
            Seq::new(
                g[x].len(),
                |y: int|
                    if kind_at(g, x, y) == Biomes::Placeholder {
                        classified(g[x][y])
                    } else {
                        g[x][y]
                    },
            ),
    )
}

/// Turns every cell of kind `find` into kind `replace`; with
/// `ignore_solo_tiles`, a cell none of whose eight neighbours has kind `find`
/// is left alone. The cells are chosen on the map as it was before any change.
pub fn find_replace(map_data: &mut MapData, find: Biomes, replace: Biomes, ignore_solo_tiles: bool)
    requires
        well_formed(grid_view(*old(map_data)), old(map_data)@.len() as int),
        old(map_data)@.len() <= MAX_MAP_SIZE,
    ensures
        final(map_data)@.len() == old(map_data)@.len(),
        well_formed(grid_view(*final(map_data)), old(map_data)@.len() as int),
        grid_view(*final(map_data)) == replace_spec(grid_view(*old(map_data)), find, replace, ignore_solo_tiles),
{
    let ghost g = grid_view(*map_data);
    let ghost n = g.len() as int;
    let size = map_data.len() as u32;
    let mut replacements: Vec<(usize, usize)> = Vec::new();
    let mut x: u32 = 0;
    while x < size
        invariant
            x <= size,
            size == n,
            n <= MAX_MAP_SIZE,
            g == grid_view(*map_data),
            well_formed(g, n),
            forall|i: int| 0 <= i < replacements@.len() ==> valid_cell(n, #[trigger] replacements@[i].0 as int, replacements@[i].1 as int)
                && replaces(g, find, ignore_solo_tiles, replacements@[i].0 as int, replacements@[i].1 as int),
            forall|a: int, b: int|
                valid_cell(n, a, b) && #[trigger] replaces(g, find, ignore_solo_tiles, a, b) && a < x ==> exists|i: int|
                    0 <= i < replacements@.len() && replacements@[i].0 == a && replacements@[i].1 == b,
        decreases size - x,
    {
        let mut y: u32 = 0;
        while y < size
            invariant
                x < size,
                y <= size,
                size == n,
                n <= MAX_MAP_SIZE,
                g == grid_view(*map_data),
                well_formed(g, n),
                forall|i: int| 0 <= i < replacements@.len() ==> valid_cell(n, #[trigger] replacements@[i].0 as int, replacements@[i].1 as int)
                    && replaces(g, find, ignore_solo_tiles, replacements@[i].0 as int, replacements@[i].1 as int),
                forall|a: int, b: int|
                    valid_cell(n, a, b) && #[trigger] replaces(g, find, ignore_solo_tiles, a, b) && (a < x || (a == x && b < y)) ==> exists|i: int|
                        0 <= i < replacements@.len() && replacements@[i].0 == a && replacements@[i].1 == b,
            decreases size - y,
        {
            let tile = get_tile(map_data, x as usize, y as usize).tile_type;
            if tile == find {
                let mut keep = true;
                if ignore_solo_tiles {
                    let neighbours = tile_neighbours(
                        map_data,
                        &MapPosition { x: x as i32, y: y as i32 },
                        &tile,
                        true,
                    );
                    if neighbours.len() == 0 {
                        keep = false;
                    }
                }
                if keep {
                    let ghost before = replacements@;
                    replacements.push((x as usize, y as usize));
                    proof {
                        assert forall|i: int| 0 <= i < replacements@.len() implies valid_cell(n, #[trigger] replacements@[i].0 as int, replacements@[i].1 as int)
                            && replaces(g, find, ignore_solo_tiles, replacements@[i].0 as int, replacements@[i].1 as int) by {
                            if i < before.len() {
                                assert(replacements@[i] == before[i]);
                            }
                        }
                        assert forall|a: int, b: int|
                            valid_cell(n, a, b) && #[trigger] replaces(g, find, ignore_solo_tiles, a, b) && (a < x || (a == x && b < y + 1)) implies exists|i: int|
                                0 <= i < replacements@.len() && replacements@[i].0 == a && replacements@[i].1 == b by {
                            if a == x && b == y {
                                assert(replacements@[before.len() as int] == (x as usize, y as usize));
                            } else {
                                let i = choose|i: int| 0 <= i < before.len() && before[i].0 == a && before[i].1 == b;
                                assert(replacements@[i] == before[i]);
                            }
                        }
                    }
                }
            }
            y += 1;
        }
        x += 1;
    }
    let mut i: usize = 0;
    while i < replacements.len()
        invariant
            0 <= i <= replacements@.len(),
            n == g.len(),
            n <= MAX_MAP_SIZE,
            well_formed(g, n),
            map_data@.len() == n,
            well_formed(grid_view(*map_data), n),
            forall|j: int| 0 <= j < replacements@.len() ==> valid_cell(n, #[trigger] replacements@[j].0 as int, replacements@[j].1 as int)
                && replaces(g, find, ignore_solo_tiles, replacements@[j].0 as int, replacements@[j].1 as int),
            forall|a: int, b: int|
                valid_cell(n, a, b) ==> #[trigger] grid_view(*map_data)[a][b] == if exists|j: int|
                    0 <= j < i && replacements@[j].0 == a && replacements@[j].1 == b {
                    with_kind(g[a][b], replace)
                } else {
                    g[a][b]
                },
        decreases replacements.len() - i,
    {
        let (rx, ry) = replacements[i];
        proof {
            assert(valid_cell(n, replacements@[i as int].0 as int, replacements@[i as int].1 as int));
        }
        let ghost before = grid_view(*map_data);
        set_tile_type(map_data, rx, ry, replace);
        proof {
            assert forall|a: int, b: int| valid_cell(n, a, b) implies #[trigger] grid_view(*map_data)[a][b] == if exists|j: int|
                0 <= j < i + 1 && replacements@[j].0 == a && replacements@[j].1 == b {
                with_kind(g[a][b], replace)
            } else {
                g[a][b]
            } by {
                if a == rx && b == ry {
                    assert(replacements@[i as int].0 == a && replacements@[i as int].1 == b);
                } else {
                    assert(grid_view(*map_data)[a][b] == before[a][b]);
                    if exists|j: int| 0 <= j < i + 1 && replacements@[j].0 == a && replacements@[j].1 == b {
                        let j = choose|j: int| 0 <= j < i + 1 && replacements@[j].0 == a && replacements@[j].1 == b;
                        assert(j < i);
                    }
                }
            }
        }
        i += 1;
    }
    proof {
        assert forall|a: int, b: int| valid_cell(n, a, b) implies #[trigger] grid_view(*map_data)[a][b]
            == replace_spec(g, find, replace, ignore_solo_tiles)[a][b] by {
            if replaces(g, find, ignore_solo_tiles, a, b) {
            } else {
                if exists|j: int| 0 <= j < i && replacements@[j].0 == a && replacements@[j].1 == b {
                    let j = choose|j: int| 0 <= j < i && replacements@[j].0 == a && replacements@[j].1 == b;
                    assert(replaces(g, find, ignore_solo_tiles, replacements@[j].0 as int, replacements@[j].1 as int));
                }
            }
        }
        assert(grid_view(*map_data) =~~= replace_spec(g, find, replace, ignore_solo_tiles));
    }
}

/// Turns into beach every raw-land cell of the lowest elevation and moisture
/// 2 or less that has salt water among its eight neighbours.
pub fn generate_beaches(map_data: &mut MapData)
    requires
        well_formed(grid_view(*old(map_data)), old(map_data)@.len() as int),
        old(map_data)@.len() <= MAX_MAP_SIZE,
    ensures
        final(map_data)@.len() == old(map_data)@.len(),
        well_formed(grid_view(*final(map_data)), old(map_data)@.len() as int),
        grid_view(*final(map_data)) == beach_spec(grid_view(*old(map_data))),
{
    let ghost g = grid_view(*map_data);
    let ghost n = g.len() as int;
    let size = map_data.len() as u32;
    let mut x: u32 = 0;
    while x < size
        invariant
            x <= size,
            size == n,
            n <= MAX_MAP_SIZE,
            g == grid_view(*old(map_data)),
            well_formed(g, n),
            map_data@.len() == n,
            well_formed(grid_view(*map_data), n),
            forall|a: int, b: int|
                valid_cell(n, a, b) ==> #[trigger] grid_view(*map_data)[a][b] == if a < x && becomes_beach(g, a, b) {
                    with_kind(g[a][b], Biomes::Beach)
                } else {
                    g[a][b]
                },
        decreases size - x,
    {
        let mut y: u32 = 0;
        while y < size
            invariant
                x < size,
                y <= size,
                size == n,
                n <= MAX_MAP_SIZE,
                g == grid_view(*old(map_data)),
                well_formed(g, n),
                map_data@.len() == n,
                well_formed(grid_view(*map_data), n),
                forall|a: int, b: int|
                    valid_cell(n, a, b) ==> #[trigger] grid_view(*map_data)[a][b] == if (a < x || (a == x && b < y)) && becomes_beach(g, a, b) {
                        with_kind(g[a][b], Biomes::Beach)
                    } else {
                        g[a][b]
                    },
            decreases size - y,
        {
            let tile = get_tile(map_data, x as usize, y as usize);
            if tile.tile_type == Biomes::Placeholder && tile.elevation == 1 && tile.moisture <= 2 {
                let position = MapPosition { x: x as i32, y: y as i32 };
                let neighbours = tile_neighbours(map_data, &position, &Biomes::SaltWater, true);
                proof {
                    let cur = grid_view(*map_data);
                    assert forall|i: int, j: int| valid_cell(n, i, j) implies (kind_at(cur, i, j) == Biomes::SaltWater
                        <==> #[trigger] kind_at(g, i, j) == Biomes::SaltWater) by {
                        assert(cur[i][j] == g[i][j] || cur[i][j] == with_kind(g[i][j], Biomes::Beach));
                    }
                    lemma_neighbours_same_kind_set(cur, g, position, Biomes::SaltWater, extended_dirs());
                }
                if neighbours.len() >= 1 {
                    set_tile_type(map_data, x as usize, y as usize, Biomes::Beach);
                }
            }
            y += 1;
        }
        x += 1;
    }
    proof {
        assert(grid_view(*map_data) =~~= beach_spec(g));
    }
}

/// Gives every raw-land cell its biome from the classification table.
pub fn classify_biomes(map_data: &mut MapData)
    requires
        well_formed(grid_view(*old(map_data)), old(map_data)@.len() as int),
        old(map_data)@.len() <= MAX_MAP_SIZE,
    ensures
        final(map_data)@.len() == old(map_data)@.len(),
        well_formed(grid_view(*final(map_data)), old(map_data)@.len() as int),
        grid_view(*final(map_data)) == biome_spec(grid_view(*old(map_data))),
{
    let ghost g = grid_view(*map_data);
    let ghost n = g.len() as int;
    let size = map_data.len() as u32;
    let mut x: u32 = 0;
    while x < size
        invariant
            x <= size,
            size == n,
            n <= MAX_MAP_SIZE,
            g == grid_view(*old(map_data)),
            well_formed(g, n),
            map_data@.len() == n,
            well_formed(grid_view(*map_data), n),
            forall|a: int, b: int|
                valid_cell(n, a, b) ==> #[trigger] grid_view(*map_data)[a][b] == if a < x && kind_at(g, a, b) == Biomes::Placeholder {
                    classified(g[a][b])
                } else {
                    g[a][b]
                },
        decreases size - x,
    {
        let mut y: u32 = 0;
        while y < size
            invariant
                x < size,
                y <= size,
                size == n,
                n <= MAX_MAP_SIZE,
                g == grid_view(*old(map_data)),
                well_formed(g, n),
                map_data@.len() == n,
                well_formed(grid_view(*map_data), n),
                forall|a: int, b: int|
                    valid_cell(n, a, b) ==> #[trigger] grid_view(*map_data)[a][b] == if (a < x || (a == x && b < y)) && kind_at(g, a, b) == Biomes::Placeholder {
                        classified(g[a][b])
                    } else {
                        g[a][b]
                    },
            decreases size - y,
        {
            let mut tile = get_tile(map_data, x as usize, y as usize);
            if tile.tile_type == Biomes::Placeholder {
                tile.calculate_biome();
                set_tile(map_data, x as usize, y as usize, tile);
            }
            y += 1;
        }
        x += 1;
    }
    proof {
        assert(grid_view(*map_data) =~~= biome_spec(g));
    }
}

} // verus!
