use vstd::prelude::*;

use crate::biomes::{Biome, Biomes};
use crate::steppers::direction::Direction;
use crate::steppers::map_position::MapPosition;
use crate::steppers::move_direction::MoveDirection;
use crate::MapData;

verus! {

/// Largest side length that a map may have: positions and squared distances
/// then fit comfortably in `i32` and `u64`.
pub const MAX_MAP_SIZE: u32 = 46340;

/// The map as a matrix of cells, indexed `[x][y]`.
pub open spec fn grid_view(m: MapData) -> Seq<Seq<Biome>> {
    m@.map_values(|r: Vec<Biome>| r@)
}

/// A square matrix of side `n`.
pub open spec fn well_formed(g: Seq<Seq<Biome>>, n: int) -> bool {
    &&& g.len() == n
    &&& forall|i: int| 0 <= i < n ==> #[trigger] g[i].len() == n
}

pub open spec fn valid_cell(n: int, x: int, y: int) -> bool {
    0 <= x < n && 0 <= y < n
}

/// A cell on the outer rim of a map of side `n`.
pub open spec fn on_rim(n: int, x: int, y: int) -> bool {
    x == 0 || y == 0 || x == n - 1 || y == n - 1
}

pub open spec fn kind_at(g: Seq<Seq<Biome>>, x: int, y: int) -> Biomes {
    g[x][y].tile_type
}

pub open spec fn with_kind(b: Biome, k: Biomes) -> Biome {
    Biome { tile_type: k, ..b }
}

pub open spec fn set_kind(g: Seq<Seq<Biome>>, x: int, y: int, k: Biomes) -> Seq<Seq<Biome>> {
    g.update(x, g[x].update(y, with_kind(g[x][y], k)))
}

/// Whether `(x, y)` lies inside a map of side `map_size`.
pub fn is_valid_cell(map_size: &u32, x: i32, y: i32) -> (r: bool)
    ensures
        r == valid_cell(*map_size as int, x as int, y as int),
{
    if x < 0 || y < 0 {
        return false;
    }
    if x as u32 >= *map_size || y as u32 >= *map_size {
        return false;
    }
    true
}

/// The squared Euclidean distance between two cells.
pub fn squared_distance(from_x: u32, from_y: u32, to_x: u32, to_y: u32) -> (r: u64)
    requires
        from_x <= MAX_MAP_SIZE,
        from_y <= MAX_MAP_SIZE,
        to_x <= MAX_MAP_SIZE,
        to_y <= MAX_MAP_SIZE,
    ensures
        r == sq_dist(from_x as int, from_y as int, to_x as int, to_y as int),
{
    let dx: u64 = if to_x >= from_x {
        (to_x - from_x) as u64
    } else {
        (from_x - to_x) as u64
    };
    let dy: u64 = if to_y >= from_y {
        (to_y - from_y) as u64
    } else {
        (from_y - to_y) as u64
    };
    assert(dx * dx <= MAX_MAP_SIZE * MAX_MAP_SIZE) by (nonlinear_arith)
        requires
            dx <= MAX_MAP_SIZE,
    ;
    assert(dy * dy <= MAX_MAP_SIZE * MAX_MAP_SIZE) by (nonlinear_arith)
        requires
            dy <= MAX_MAP_SIZE,
    ;
    proof {
        assert((to_x - from_x) * (to_x - from_x) == dx * dx) by (nonlinear_arith)
            requires
                dx == to_x - from_x || dx == from_x - to_x,
        ;
        assert((to_y - from_y) * (to_y - from_y) == dy * dy) by (nonlinear_arith)
            requires
                dy == to_y - from_y || dy == from_y - to_y,
        ;
    }
    dx * dx + dy * dy
}

pub open spec fn sq_dist(x0: int, y0: int, x1: int, y1: int) -> int {
    (x1 - x0) * (x1 - x0) + (y1 - y0) * (y1 - y0)
}

/// The cell at `(x, y)`.
pub fn get_tile(m: &MapData, x: usize, y: usize) -> (r: Biome)
    requires
        x < grid_view(*m).len(),
        y < grid_view(*m)[x as int].len(),
    ensures
        r == grid_view(*m)[x as int][y as int],
{
    m[x][y]
}

/// Replaces the cell at `(x, y)`.
pub fn set_tile(m: &mut MapData, x: usize, y: usize, b: Biome)
    requires
        x < grid_view(*old(m)).len(),
        y < grid_view(*old(m))[x as int].len(),
    ensures
        final(m)@.len() == old(m)@.len(),
        grid_view(*final(m)) == grid_view(*old(m)).update(
            x as int,
            grid_view(*old(m))[x as int].update(y as int, b),
        ),
{
    m[x][y] = b;
    proof {
        assert(grid_view(*m) =~~= grid_view(*old(m)).update(
            x as int,
            grid_view(*old(m))[x as int].update(y as int, b),
        ));
    }
}

/// Some cell of the map has kind `k`.
pub open spec fn any_kind(g: Seq<Seq<Biome>>, k: Biomes) -> bool {
    exists|x: int, y: int| valid_cell(g.len() as int, x, y) && #[trigger] kind_at(g, x, y) == k
}

/// Changes the kind of one cell and nothing else.
pub fn set_tile_type(m: &mut MapData, x: usize, y: usize, k: Biomes)
    requires
        x < grid_view(*old(m)).len(),
        y < grid_view(*old(m))[x as int].len(),
    ensures
        final(m)@.len() == old(m)@.len(),
        grid_view(*final(m)) == set_kind(grid_view(*old(m)), x as int, y as int, k),
{
    m[x][y].tile_type = k;
    proof {
        assert(grid_view(*m) =~~= set_kind(grid_view(*old(m)), x as int, y as int, k));
    }
}

/// The neighbours of `p` along `dirs` that lie on the map and have kind `k`,
/// in the order of `dirs`.
pub open spec fn neighbours_spec(
    g: Seq<Seq<Biome>>,
    p: MapPosition,
    k: Biomes,
    dirs: Seq<MoveDirection>,
) -> Seq<MapPosition>
    decreases dirs.len(),
{
    if dirs.len() == 0 {
        seq![]
    } else {
        let rest = neighbours_spec(g, p, k, dirs.drop_last());
        let d = dirs.last();
        let x = p.x + d.x;
        let y = p.y + d.y;
        if valid_cell(g.len() as int, x, y) && kind_at(g, x, y) == k {
            rest.push(MapPosition { x: x as i32, y: y as i32 })
        } else {
            rest
        }
    }
}

/// The neighbours of kind `k` depend only on which cells have kind `k`.
pub proof fn lemma_neighbours_same_kind_set(
    g: Seq<Seq<Biome>>,
    h: Seq<Seq<Biome>>,
    p: MapPosition,
    k: Biomes,
    dirs: Seq<MoveDirection>,
)
    requires
        g.len() == h.len(),
        forall|i: int, j: int|
            valid_cell(g.len() as int, i, j) ==> (kind_at(g, i, j) == k <==> #[trigger] kind_at(h, i, j)
                == k),
    ensures
        neighbours_spec(g, p, k, dirs) == neighbours_spec(h, p, k, dirs),
    decreases dirs.len(),
{
    if dirs.len() > 0 {
        lemma_neighbours_same_kind_set(g, h, p, k, dirs.drop_last());
        let d = dirs.last();
        if valid_cell(g.len() as int, p.x + d.x, p.y + d.y) {
            assert(kind_at(g, p.x + d.x, p.y + d.y) == k <==> kind_at(h, p.x + d.x, p.y + d.y) == k);
        }
    }
}

/// A position whose neighbours can be computed in `i32`.
pub open spec fn near_map(p: MapPosition) -> bool {
    -2 <= p.x <= MAX_MAP_SIZE + 2 && -2 <= p.y <= MAX_MAP_SIZE + 2
}

/// The neighbours of `position` that have kind `biome`: along the four
/// cardinal directions, or along all eight when `cross_direction` is set.
pub fn tile_neighbours(
    map_data: &MapData,
    position: &MapPosition,
    biome: &Biomes,
    cross_direction: bool,
) -> (r: Vec<MapPosition>)
    requires
        well_formed(grid_view(*map_data), map_data@.len() as int),
        map_data@.len() <= MAX_MAP_SIZE,
        near_map(*position),
    ensures
        r@ == neighbours_spec(
            grid_view(*map_data),
            *position,
            *biome,
            if cross_direction {
                crate::steppers::direction::extended_dirs()
            } else {
                crate::steppers::direction::standard_dirs()
            },
        ),
{
    let mut neighbours: Vec<MapPosition> = Vec::new();
    let directions = if cross_direction {
        Direction::get_extended_directions()
    } else {
        Direction::get_standard_directions()
    };
    let size = map_data.len() as u32;
    let ghost g = grid_view(*map_data);
    let mut i: usize = 0;
    while i < directions.len()
        invariant
            i <= directions@.len(),
            directions@ == if cross_direction {
                crate::steppers::direction::extended_dirs()
            } else {
                crate::steppers::direction::standard_dirs()
            },
            g == grid_view(*map_data),
            size == g.len(),
            well_formed(g, g.len() as int),
            near_map(*position),
            neighbours@ == neighbours_spec(g, *position, *biome, directions@.take(i as int)),
        decreases directions.len() - i,
    {
        let direction = directions[i];
        proof {
            assert(directions@.take(i as int + 1).drop_last() == directions@.take(i as int));
            assert(-1 <= direction.x <= 1 && -1 <= direction.y <= 1);
        }
        let n_x = position.x + direction.x;
        let n_y = position.y + direction.y;
        if is_valid_cell(&size, n_x, n_y) {
            if get_tile(map_data, n_x as usize, n_y as usize).tile_type == *biome {
                neighbours.push(MapPosition { x: n_x, y: n_y });
            }
        }
        i += 1;
    }
    proof {
        assert(directions@.take(directions@.len() as int) == directions@);
    }
    neighbours
}

/// One pass over the cells `(x, 0) .. (x, y - 1)` of row `x`, applying `step`
/// to each in turn.
pub open spec fn sweep_row(
    g: Seq<Seq<Biome>>,
    step: spec_fn(Seq<Seq<Biome>>, int, int) -> Seq<Seq<Biome>>,
    x: int,
    y: int,
) -> Seq<Seq<Biome>>
    decreases y,
{
    if y <= 0 {
        g
    } else {
        step(sweep_row(g, step, x, y - 1), x, y - 1)
    }
}

/// One pass in row-major order over the first `x` rows of a map of side `n`,
/// applying `step` to each cell in turn, each step seeing the earlier ones.
pub open spec fn sweep(
    g: Seq<Seq<Biome>>,
    step: spec_fn(Seq<Seq<Biome>>, int, int) -> Seq<Seq<Biome>>,
    n: int,
    x: int,
) -> Seq<Seq<Biome>>
    decreases x,
{
    if x <= 0 {
        g
    } else {
        sweep_row(sweep(g, step, n, x - 1), step, x - 1, n)
    }
}

/// Number of cells of kind `k` in one row.
pub open spec fn count_row(r: Seq<Biome>, k: Biomes) -> nat
    decreases r.len(),
{
    if r.len() == 0 {
        0
    } else {
        count_row(r.drop_last(), k) + if r.last().tile_type == k {
            1nat
        } else {
            0nat
        }
    }
}

/// Number of cells of kind `k` on the map.
pub open spec fn count_kind(g: Seq<Seq<Biome>>, k: Biomes) -> nat
    decreases g.len(),
{
    if g.len() == 0 {
        0
    } else {
        count_kind(g.drop_last(), k) + count_row(g.last(), k)
    }
}

pub proof fn lemma_count_row_update(r: Seq<Biome>, y: int, b: Biome, k: Biomes)
    requires
        0 <= y < r.len(),
        r[y].tile_type == k,
        b.tile_type != k,
    ensures
        count_row(r.update(y, b), k) + 1 == count_row(r, k),
    decreases r.len(),
{
    let u = r.update(y, b);
    if y < r.len() - 1 {
        lemma_count_row_update(r.drop_last(), y, b, k);
        assert(u.drop_last() == r.drop_last().update(y, b));
    } else {
        assert(u.drop_last() == r.drop_last());
    }
}

/// Turning one cell of kind `k` into another kind leaves one cell of kind `k`
/// fewer.
pub proof fn lemma_count_kind_set(g: Seq<Seq<Biome>>, x: int, y: int, k: Biomes, k2: Biomes)
    requires
        0 <= x < g.len(),
        0 <= y < g[x].len(),
        kind_at(g, x, y) == k,
        k2 != k,
    ensures
        count_kind(set_kind(g, x, y, k2), k) + 1 == count_kind(g, k),
    decreases g.len(),
{
    let u = set_kind(g, x, y, k2);
    if x < g.len() - 1 {
        lemma_count_kind_set(g.drop_last(), x, y, k, k2);
        assert(u.drop_last() == set_kind(g.drop_last(), x, y, k2));
    } else {
        assert(u.drop_last() == g.drop_last());
        lemma_count_row_update(g[x], y, with_kind(g[x][y], k2), k);
    }
}

pub proof fn lemma_count_row_gain(r: Seq<Biome>, y: int, b: Biome, k: Biomes)
    requires
        0 <= y < r.len(),
        r[y].tile_type != k,
        b.tile_type == k,
    ensures
        count_row(r.update(y, b), k) == count_row(r, k) + 1,
    decreases r.len(),
{
    let u = r.update(y, b);
    if y < r.len() - 1 {
        lemma_count_row_gain(r.drop_last(), y, b, k);
        assert(u.drop_last() == r.drop_last().update(y, b));
    } else {
        assert(u.drop_last() == r.drop_last());
    }
}

/// Turning one cell of another kind into kind `k` gives one cell of kind `k`
/// more.
pub proof fn lemma_count_kind_gain(g: Seq<Seq<Biome>>, x: int, y: int, k: Biomes)
    requires
        0 <= x < g.len(),
        0 <= y < g[x].len(),
        kind_at(g, x, y) != k,
    ensures
        count_kind(set_kind(g, x, y, k), k) == count_kind(g, k) + 1,
    decreases g.len(),
{
    let u = set_kind(g, x, y, k);
    if x < g.len() - 1 {
        lemma_count_kind_gain(g.drop_last(), x, y, k);
        assert(u.drop_last() == set_kind(g.drop_last(), x, y, k));
    } else {
        assert(u.drop_last() == g.drop_last());
        lemma_count_row_gain(g[x], y, with_kind(g[x][y], k), k);
    }
}

/// Every cell of the map is raw land or untouched.
pub open spec fn land_or_void(g: Seq<Seq<Biome>>) -> bool {
    forall|x: int, y: int|
        valid_cell(g.len() as int, x, y) ==> (#[trigger] kind_at(g, x, y) == Biomes::Void || kind_at(
            g,
            x,
            y,
        ) == Biomes::Placeholder)
}

pub proof fn lemma_set_kind_land(g: Seq<Seq<Biome>>, x: int, y: int, k: Biomes)
    requires
        land_or_void(g),
        well_formed(g, g.len() as int),
        0 <= x < g.len(),
        0 <= y < g[x].len(),
        k == Biomes::Void || k == Biomes::Placeholder,
    ensures
        land_or_void(set_kind(g, x, y, k)),
{
    let h = set_kind(g, x, y, k);
    assert forall|a: int, b: int| valid_cell(h.len() as int, a, b) implies (#[trigger] kind_at(h, a, b)
        == Biomes::Void || kind_at(h, a, b) == Biomes::Placeholder) by {
        if a != x || b != y {
            assert(kind_at(h, a, b) == kind_at(g, a, b));
        }
    }
}

pub proof fn lemma_count_row_zero(r: Seq<Biome>, k: Biomes)
    requires
        forall|j: int| 0 <= j < r.len() ==> #[trigger] r[j].tile_type != k,
    ensures
        count_row(r, k) == 0,
    decreases r.len(),
{
    if r.len() > 0 {
        let d = r.drop_last();
        assert forall|j: int| 0 <= j < d.len() implies #[trigger] d[j].tile_type != k by {
            assert(d[j] == r[j]);
        }
        lemma_count_row_zero(d, k);
        assert(r[r.len() - 1].tile_type != k);
    }
}

/// A map with no cell of kind `k` counts none.
pub proof fn lemma_count_kind_zero(g: Seq<Seq<Biome>>, k: Biomes)
    requires
        forall|x: int, y: int| 0 <= x < g.len() && 0 <= y < g[x].len() ==> #[trigger] kind_at(g, x, y) != k,
    ensures
        count_kind(g, k) == 0,
    decreases g.len(),
{
    if g.len() > 0 {
        let d = g.drop_last();
        assert forall|x: int, y: int| 0 <= x < d.len() && 0 <= y < d[x].len() implies #[trigger] kind_at(d, x, y) != k by {
            assert(d[x] == g[x]);
            assert(kind_at(g, x, y) != k);
        }
        lemma_count_kind_zero(d, k);
        let x = g.len() - 1;
        assert forall|j: int| 0 <= j < g[x].len() implies #[trigger] g[x][j].tile_type != k by {
            assert(kind_at(g, x, j) != k);
        }
        lemma_count_row_zero(g[x], k);
    }
}

pub proof fn lemma_count_row_bound(r: Seq<Biome>, k: Biomes)
    ensures
        count_row(r, k) <= r.len(),
    decreases r.len(),
{
    if r.len() > 0 {
        lemma_count_row_bound(r.drop_last(), k);
    }
}

/// A map of side `n` holds at most `n * n` cells of a kind.
pub proof fn lemma_count_kind_bound(g: Seq<Seq<Biome>>, k: Biomes, n: int)
    requires
        forall|i: int| 0 <= i < g.len() ==> #[trigger] g[i].len() == n,
    ensures
        count_kind(g, k) <= g.len() * n,
    decreases g.len(),
{
    if g.len() > 0 {
        lemma_count_kind_bound(g.drop_last(), k, n);
        lemma_count_row_bound(g.last(), k);
        assert(g.len() * n == (g.len() - 1) * n + n) by (nonlinear_arith);
    }
}

} // verus!
