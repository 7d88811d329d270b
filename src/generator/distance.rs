use vstd::prelude::*;

use crate::biomes::Biomes;
use crate::helper::{get_tile, squared_distance};
use crate::MapData;

verus! {

use crate::biomes::Biome;
use crate::helper::{grid_view, kind_at, sq_dist, valid_cell, well_formed, MAX_MAP_SIZE};
use crate::steppers::landmass::abs;

/// Chebyshev distance: the index of the square ring round `(x0, y0)` that
/// holds `(x, y)`.
pub open spec fn cheb(x0: int, y0: int, x: int, y: int) -> int {
    if abs(x - x0) >= abs(y - y0) {
        abs(x - x0)
    } else {
        abs(y - y0)
    }
}

/// A cell of kind `k` on the map, other than `(x0, y0)` itself.
pub open spec fn is_ref(g: Seq<Seq<Biome>>, k: Biomes, x0: int, y0: int, x: int, y: int) -> bool {
    &&& valid_cell(g.len() as int, x, y)
    &&& kind_at(g, x, y) == k
    &&& cheb(x0, y0, x, y) > 0
}

/// Some cell of kind `k` lies on the map, apart from `(x0, y0)`.
pub open spec fn has_ref(g: Seq<Seq<Biome>>, k: Biomes, x0: int, y0: int) -> bool {
    exists|x: int, y: int| is_ref(g, k, x0, y0, x, y)
}

/// Ring `r` is the innermost ring round `(x0, y0)` holding a cell of kind `k`.
pub open spec fn first_ring(g: Seq<Seq<Biome>>, k: Biomes, x0: int, y0: int, r: int) -> bool {
    &&& r >= 1
    &&& forall|x: int, y: int| #[trigger] is_ref(g, k, x0, y0, x, y) ==> cheb(x0, y0, x, y) >= r
    &&& exists|x: int, y: int| #[trigger] is_ref(g, k, x0, y0, x, y) && cheb(x0, y0, x, y) == r
}

/// `d` is the largest squared distance from `(x0, y0)` to a cell of kind `k`
/// on ring `r`.
pub open spec fn farthest_on_ring(
    g: Seq<Seq<Biome>>,
    k: Biomes,
    x0: int,
    y0: int,
    r: int,
    d: int,
) -> bool {
    &&& exists|x: int, y: int|
        #[trigger] is_ref(g, k, x0, y0, x, y) && cheb(x0, y0, x, y) == r && sq_dist(x0, y0, x, y) == d
    &&& forall|x: int, y: int|
        #[trigger] is_ref(g, k, x0, y0, x, y) && cheb(x0, y0, x, y) == r ==> sq_dist(x0, y0, x, y)
            <= d
}

/// `d` is the squared distance that the ring search finds: the farthest cell
/// of kind `k` on the innermost ring that holds one.
pub open spec fn is_nearest(g: Seq<Seq<Biome>>, k: Biomes, x0: int, y0: int, d: int) -> bool {
    exists|r: int| first_ring(g, k, x0, y0, r) && farthest_on_ring(g, k, x0, y0, r, d)
}

pub open spec fn nearest_sq(g: Seq<Seq<Biome>>, k: Biomes, x0: int, y0: int) -> int {
    choose|d: int| is_nearest(g, k, x0, y0, d)
}

pub proof fn lemma_nearest_unique(g: Seq<Seq<Biome>>, k: Biomes, x0: int, y0: int, d1: int, d2: int)
    requires
        is_nearest(g, k, x0, y0, d1),
        is_nearest(g, k, x0, y0, d2),
    ensures
        d1 == d2,
{
    let r1 = choose|r: int| first_ring(g, k, x0, y0, r) && farthest_on_ring(g, k, x0, y0, r, d1);
    let r2 = choose|r: int| first_ring(g, k, x0, y0, r) && farthest_on_ring(g, k, x0, y0, r, d2);
    let (a1, b1) = choose|x: int, y: int|
        #[trigger] is_ref(g, k, x0, y0, x, y) && cheb(x0, y0, x, y) == r1;
    let (a2, b2) = choose|x: int, y: int|
        #[trigger] is_ref(g, k, x0, y0, x, y) && cheb(x0, y0, x, y) == r2;
    assert(r1 == r2);
    let (c1, e1) = choose|x: int, y: int|
        #[trigger] is_ref(g, k, x0, y0, x, y) && cheb(x0, y0, x, y) == r1 && sq_dist(x0, y0, x, y)
            == d1;
    let (c2, e2) = choose|x: int, y: int|
        #[trigger] is_ref(g, k, x0, y0, x, y) && cheb(x0, y0, x, y) == r2 && sq_dist(x0, y0, x, y)
            == d2;
    assert(is_ref(g, k, x0, y0, c1, e1));
    assert(is_ref(g, k, x0, y0, c2, e2));
}

pub proof fn lemma_nearest_is_chosen(g: Seq<Seq<Biome>>, k: Biomes, x0: int, y0: int, d: int)
    requires
        is_nearest(g, k, x0, y0, d),
    ensures
        nearest_sq(g, k, x0, y0) == d,
        d >= 1,
{
    lemma_nearest_unique(g, k, x0, y0, d, nearest_sq(g, k, x0, y0));
    let r = choose|r: int| first_ring(g, k, x0, y0, r) && farthest_on_ring(g, k, x0, y0, r, d);
    let (c, e) = choose|x: int, y: int|
        #[trigger] is_ref(g, k, x0, y0, x, y) && cheb(x0, y0, x, y) == r && sq_dist(x0, y0, x, y)
            == d;
    assert(is_ref(g, k, x0, y0, c, e));
    assert(sq_dist(x0, y0, c, e) >= 1) by (nonlinear_arith)
        requires
            c != x0 || e != y0,
    ;
}

/// Searches the square rings round `(x_origin, y_origin)`, innermost first,
/// for cells of kind `find_biome`, and returns the squared distance to the
/// farthest such cell on the first ring that holds any.
pub fn find_nearest(map_data: &MapData, x_origin: u32, y_origin: u32, find_biome: Biomes) -> (r:
    Option<u64>)
    requires
        well_formed(grid_view(*map_data), map_data@.len() as int),
        map_data@.len() <= MAX_MAP_SIZE,
        x_origin < map_data@.len(),
        y_origin < map_data@.len(),
    ensures
        r is Some <==> has_ref(grid_view(*map_data), find_biome, x_origin as int, y_origin as int),
        r is Some ==> is_nearest(
            grid_view(*map_data),
            find_biome,
            x_origin as int,
            y_origin as int,
            r->0 as int,
        ),
        r is Some ==> r->0 == nearest_sq(
            grid_view(*map_data),
            find_biome,
            x_origin as int,
            y_origin as int,
        ),
{
    let ghost g = grid_view(*map_data);
    let ghost k = find_biome;
    let n = map_data.len() as i64;
    let size = map_data.len() as u32;
    let x0 = x_origin as i64;
    let y0 = y_origin as i64;
    let mut radius: i64 = 1;
    while radius < n
        invariant
            1 <= radius <= n,
            n == g.len(),
            size == n,
            n <= MAX_MAP_SIZE,
            g == grid_view(*map_data),
            well_formed(g, n as int),
            0 <= x0 < n,
            0 <= y0 < n,
            x0 == x_origin,
            y0 == y_origin,
            k == find_biome,
            forall|a: int, b: int| #[trigger]
                is_ref(g, k, x0 as int, y0 as int, a, b) ==> cheb(x0 as int, y0 as int, a, b)
                    >= radius,
        decreases n - radius,
    {
        let mut found = false;
        let mut best: u64 = 0;
        let ghost mut wa: int = 0;
        let ghost mut wb: int = 0;
        let mut i: i64 = x0 - radius;
        while i <= x0 + radius
            invariant
                1 <= radius < n,
                x0 - radius <= i <= x0 + radius + 1,
                x0 == x_origin,
                y0 == y_origin,
                n == g.len(),
                size == n,
                n <= MAX_MAP_SIZE,
                g == grid_view(*map_data),
                well_formed(g, n as int),
                0 <= x0 < n,
                0 <= y0 < n,
                k == find_biome,
                found ==> is_ref(g, k, x0 as int, y0 as int, wa, wb) && cheb(
                    x0 as int,
                    y0 as int,
                    wa,
                    wb,
                ) == radius && sq_dist(x0 as int, y0 as int, wa, wb) == best,
                forall|a: int, b: int|
                    #[trigger] is_ref(g, k, x0 as int, y0 as int, a, b) && cheb(
                        x0 as int,
                        y0 as int,
                        a,
                        b,
                    ) == radius && a < i ==> found && sq_dist(x0 as int, y0 as int, a, b) <= best,
            decreases x0 + radius + 1 - i,
        {
            let full = i == x0 - radius || i == x0 + radius;
            let mut j: i64 = y0 - radius;
            while j <= y0 + radius
                invariant
                    1 <= radius < n,
                    x0 - radius <= i <= x0 + radius,
                    y0 - radius <= j <= y0 + radius + 1,
                    full == (i == x0 - radius || i == x0 + radius),
                    !full ==> (j == y0 - radius || j >= y0 + radius),
                    x0 == x_origin,
                    y0 == y_origin,
                    n == g.len(),
                    size == n,
                    n <= MAX_MAP_SIZE,
                    g == grid_view(*map_data),
                    well_formed(g, n as int),
                    0 <= x0 < n,
                    0 <= y0 < n,
                    k == find_biome,
                    found ==> is_ref(g, k, x0 as int, y0 as int, wa, wb) && cheb(
                        x0 as int,
                        y0 as int,
                        wa,
                        wb,
                    ) == radius && sq_dist(x0 as int, y0 as int, wa, wb) == best,
                    forall|a: int, b: int|
                        #[trigger] is_ref(g, k, x0 as int, y0 as int, a, b) && cheb(
                            x0 as int,
                            y0 as int,
                            a,
                            b,
                        ) == radius && (a < i || (a == i && b < j)) ==> found && sq_dist(
                            x0 as int,
                            y0 as int,
                            a,
                            b,
                        ) <= best,
                decreases y0 + radius + 1 - j,
            {
                if 0 <= i && i < n && 0 <= j && j < n {
                    if get_tile(map_data, i as usize, j as usize).tile_type == find_biome {
                        assert(cheb(x0 as int, y0 as int, i as int, j as int) == radius);
                        let d = squared_distance(x_origin, y_origin, i as u32, j as u32);
                        if !found || d > best {
                            best = d;
                            found = true;
                            proof {
                                wa = i as int;
                                wb = j as int;
                            }
                        }
                    }
                }
                if full || j == y0 + radius {
                    j += 1;
                } else {
                    j = y0 + radius;
                }
            }
            i += 1;
        }
        if found {
            proof {
                assert(first_ring(g, k, x0 as int, y0 as int, radius as int));
                assert(farthest_on_ring(g, k, x0 as int, y0 as int, radius as int, best as int));
                lemma_nearest_is_chosen(g, k, x0 as int, y0 as int, best as int);
            }
            return Some(best);
        }
        radius += 1;
    }
    proof {
        assert forall|a: int, b: int| !is_ref(g, k, x0 as int, y0 as int, a, b) by {
            if is_ref(g, k, x0 as int, y0 as int, a, b) {
                assert(cheb(x0 as int, y0 as int, a, b) < n);
            }
        }
    }
    None
}

} // verus!

verus! {

use crate::helper::{any_kind, set_tile};

/// A cell of kind `t` on the map.
pub open spec fn is_target(g: Seq<Seq<Biome>>, t: Biomes, x: int, y: int) -> bool {
    valid_cell(g.len() as int, x, y) && kind_at(g, x, y) == t
}

/// `m` is the largest of the search distances of the cells of kind `t`.
pub open spec fn is_max_nearest(g: Seq<Seq<Biome>>, t: Biomes, k: Biomes, m: int) -> bool {
    &&& exists|x: int, y: int| #[trigger] is_target(g, t, x, y) && nearest_sq(g, k, x, y) == m
    &&& forall|x: int, y: int| #[trigger] is_target(g, t, x, y) ==> nearest_sq(g, k, x, y) <= m
}

pub open spec fn max_nearest(g: Seq<Seq<Biome>>, t: Biomes, k: Biomes) -> int {
    choose|m: int| is_max_nearest(g, t, k, m)
}

/// `r` is the integer square root of `d`.
pub open spec fn is_isqrt(d: int, r: int) -> bool {
    0 <= r && r * r <= d < (r + 1) * (r + 1)
}

pub open spec fn isqrt(d: int) -> int {
    choose|r: int| is_isqrt(d, r)
}

pub proof fn lemma_isqrt_unique(d: int, r1: int, r2: int)
    requires
        is_isqrt(d, r1),
        is_isqrt(d, r2),
    ensures
        r1 == r2,
{
    if r1 < r2 {
        assert((r1 + 1) * (r1 + 1) <= r2 * r2) by (nonlinear_arith)
            requires
                0 <= r1 < r2,
        ;
    }
    if r2 < r1 {
        assert((r2 + 1) * (r2 + 1) <= r1 * r1) by (nonlinear_arith)
            requires
                0 <= r2 < r1,
        ;
    }
}

/// The elevation band, 1 to 4, of a cell at distance `sqrt(d)` from salt water
/// where the farthest cell lies at `sqrt(m)`: `floor(4 * sqrt(d / m))`, at
/// least 1.
pub open spec fn elevation_band(d: int, m: int) -> int {
    if d >= m {
        4
    } else if 16 * d >= 9 * m {
        3
    } else if 16 * d >= 4 * m {
        2
    } else {
        1
    }
}

/// The moisture band, 1 to 6, of a cell at distance `sqrt(d)` from fresh water
/// where the farthest cell lies at `sqrt(m)`: `7 - ceil(6 * sqrt(d / m))`, at
/// least 1. Nearer water gives a wetter band.
pub open spec fn moisture_band(d: int, m: int) -> int {
    if 36 * d <= m {
        6
    } else if 36 * d <= 4 * m {
        5
    } else if 36 * d <= 9 * m {
        4
    } else if 36 * d <= 16 * m {
        3
    } else if 36 * d <= 25 * m {
        2
    } else {
        1
    }
}

/// The kind whose distance sets the elevation (salt water) or the moisture
/// (fresh water).
pub open spec fn reference_kind(for_elevation: bool) -> Biomes {
    if for_elevation {
        Biomes::SaltWater
    } else {
        Biomes::FreshWater
    }
}

/// A raw-land cell with its distance and band set.
pub open spec fn banded(b: Biome, d: int, m: int, for_elevation: bool) -> Biome {
    if for_elevation {
        Biome { distance_from_sea: isqrt(d) as u32, elevation: elevation_band(d, m) as u32, ..b }
    } else {
        Biome {
            distance_from_fresh_water: isqrt(d) as u32,
            moisture: moisture_band(d, m) as u32,
            ..b
        }
    }
}

/// Every raw-land cell banded by its search distance to the reference kind,
/// against the largest such distance on the map.
pub open spec fn band_stage(g: Seq<Seq<Biome>>, for_elevation: bool) -> Seq<Seq<Biome>> {
    let k = reference_kind(for_elevation);
    let m = max_nearest(g, Biomes::Placeholder, k);
    Seq::new(
        g.len(),
        |x: int|
            Seq::new(
                g[x].len(),
                |y: int|
                    if kind_at(g, x, y) == Biomes::Placeholder {
                        banded(g[x][y], nearest_sq(g, k, x, y), m, for_elevation)
                    } else {
                        g[x][y]
                    },
            ),
    )
}

/// The banding stage: skipped when the map holds no cell of the reference kind.
pub open spec fn band_stage_or_skip(g: Seq<Seq<Biome>>, for_elevation: bool) -> Seq<Seq<Biome>> {
    if any_kind(g, reference_kind(for_elevation)) {
        band_stage(g, for_elevation)
    } else {
        g
    }
}

pub proof fn lemma_has_ref_any_kind(g: Seq<Seq<Biome>>, k: Biomes, x0: int, y0: int)
    requires
        valid_cell(g.len() as int, x0, y0),
        kind_at(g, x0, y0) != k,
    ensures
        has_ref(g, k, x0, y0) <==> any_kind(g, k),
{
    if any_kind(g, k) {
        let (a, b) = choose|x: int, y: int|
            valid_cell(g.len() as int, x, y) && #[trigger] kind_at(g, x, y) == k;
        assert(is_ref(g, k, x0, y0, a, b));
    }
    if has_ref(g, k, x0, y0) {
        let (a, b) = choose|x: int, y: int| is_ref(g, k, x0, y0, x, y);
        assert(kind_at(g, a, b) == k);
    }
}

/// Integer square root, by bisection.
pub fn integer_sqrt(d: u64) -> (r: u32)
    requires
        d <= 2 * MAX_MAP_SIZE * MAX_MAP_SIZE,
    ensures
        is_isqrt(d as int, r as int),
        r as int == isqrt(d as int),
{
    let mut lo: u64 = 0;
    let mut hi: u64 = 65536;
    while hi - lo > 1
        invariant
            lo < hi <= 65536,
            lo * lo <= d,
            d < hi * hi,
        decreases hi - lo,
    {
        let mid = lo + (hi - lo) / 2;
        assert(mid * mid <= 65536 * 65536) by (nonlinear_arith)
            requires
                mid <= 65536,
        ;
        if mid * mid <= d {
            lo = mid;
        } else {
            hi = mid;
        }
    }
    proof {
        assert(hi == lo + 1);
        lemma_isqrt_unique(d as int, lo as int, isqrt(d as int));
    }
    lo as u32
}

pub fn elevation_from_distance(d: u64, m: u64) -> (r: u32)
    requires
        d <= 2 * MAX_MAP_SIZE * MAX_MAP_SIZE,
        m <= 2 * MAX_MAP_SIZE * MAX_MAP_SIZE,
    ensures
        r == elevation_band(d as int, m as int),
{
    if d >= m {
        4
    } else if 16 * d >= 9 * m {
        3
    } else if 16 * d >= 4 * m {
        2
    } else {
        1
    }
}

pub fn moisture_from_distance(d: u64, m: u64) -> (r: u32)
    requires
        d <= 2 * MAX_MAP_SIZE * MAX_MAP_SIZE,
        m <= 2 * MAX_MAP_SIZE * MAX_MAP_SIZE,
    ensures
        r == moisture_band(d as int, m as int),
{
    if 36 * d <= m {
        6
    } else if 36 * d <= 4 * m {
        5
    } else if 36 * d <= 9 * m {
        4
    } else if 36 * d <= 16 * m {
        3
    } else if 36 * d <= 25 * m {
        2
    } else {
        1
    }
}

proof fn lemma_sq_dist_bound(g: Seq<Seq<Biome>>, x0: int, y0: int, x: int, y: int)
    requires
        g.len() <= MAX_MAP_SIZE,
        valid_cell(g.len() as int, x0, y0),
        valid_cell(g.len() as int, x, y),
    ensures
        0 <= sq_dist(x0, y0, x, y) <= 2 * MAX_MAP_SIZE * MAX_MAP_SIZE,
{
    let n = g.len() as int;
    assert(0 <= (x - x0) * (x - x0) <= n * n) by (nonlinear_arith)
        requires
            -n <= x - x0 <= n,
    ;
    assert(0 <= (y - y0) * (y - y0) <= n * n) by (nonlinear_arith)
        requires
            -n <= y - y0 <= n,
    ;
    assert(n * n <= MAX_MAP_SIZE * MAX_MAP_SIZE) by (nonlinear_arith)
        requires
            0 <= n <= MAX_MAP_SIZE,
    ;
}

proof fn lemma_nearest_bound(g: Seq<Seq<Biome>>, k: Biomes, x0: int, y0: int, d: int)
    requires
        g.len() <= MAX_MAP_SIZE,
        valid_cell(g.len() as int, x0, y0),
        is_nearest(g, k, x0, y0, d),
    ensures
        1 <= d <= 2 * MAX_MAP_SIZE * MAX_MAP_SIZE,
{
    lemma_nearest_is_chosen(g, k, x0, y0, d);
    let r = choose|r: int| first_ring(g, k, x0, y0, r) && farthest_on_ring(g, k, x0, y0, r, d);
    let (c, e) = choose|x: int, y: int|
        #[trigger] is_ref(g, k, x0, y0, x, y) && cheb(x0, y0, x, y) == r && sq_dist(x0, y0, x, y)
            == d;
    assert(is_ref(g, k, x0, y0, c, e));
    lemma_sq_dist_bound(g, x0, y0, c, e);
}

/// The cells of kind `find_biome`, each with its search distance to the
/// nearest cell of kind `near_biome`: every such cell is listed when the map
/// holds a cell of kind `near_biome`, and none otherwise.
pub fn find_tiles_near_type(map_data: &MapData, find_biome: Biomes, near_biome: Biomes) -> (r: Vec<
    (u32, u32, u64),
>)
    requires
        well_formed(grid_view(*map_data), map_data@.len() as int),
        map_data@.len() <= MAX_MAP_SIZE,
        find_biome != near_biome,
    ensures
        forall|i: int|
            0 <= i < r@.len() ==> #[trigger] is_target(
                grid_view(*map_data),
                find_biome,
                r@[i].0 as int,
                r@[i].1 as int,
            ) && r@[i].2 as int == nearest_sq(
                grid_view(*map_data),
                near_biome,
                r@[i].0 as int,
                r@[i].1 as int,
            ) && 1 <= r@[i].2 <= 2 * MAX_MAP_SIZE * MAX_MAP_SIZE,
        forall|x: int, y: int|
            #[trigger] is_target(grid_view(*map_data), find_biome, x, y) && any_kind(
                grid_view(*map_data),
                near_biome,
            ) ==> exists|i: int|
                0 <= i < r@.len() && r@[i].0 == x && r@[i].1 == y,
        r@.len() > 0 ==> any_kind(grid_view(*map_data), near_biome),
{
    let ghost g = grid_view(*map_data);
    let mut locations: Vec<(u32, u32, u64)> = Vec::new();
    let size = map_data.len() as u32;
    let mut x: u32 = 0;
    while x < size
        invariant
            x <= size,
            size == g.len(),
            g == grid_view(*map_data),
            well_formed(g, size as int),
            size <= MAX_MAP_SIZE,
            find_biome != near_biome,
            forall|i: int|
                0 <= i < locations@.len() ==> #[trigger] is_target(
                    g,
                    find_biome,
                    locations@[i].0 as int,
                    locations@[i].1 as int,
                ) && locations@[i].2 as int == nearest_sq(
                    g,
                    near_biome,
                    locations@[i].0 as int,
                    locations@[i].1 as int,
                ) && 1 <= locations@[i].2 <= 2 * MAX_MAP_SIZE * MAX_MAP_SIZE,
            forall|a: int, b: int|
                #[trigger] is_target(g, find_biome, a, b) && any_kind(g, near_biome) && a < x
                    ==> exists|i: int|
                    0 <= i < locations@.len() && locations@[i].0 == a && locations@[i].1 == b,
            locations@.len() > 0 ==> any_kind(g, near_biome),
        decreases size - x,
    {
        let mut y: u32 = 0;
        while y < size
            invariant
                x < size,
                y <= size,
                size == g.len(),
                g == grid_view(*map_data),
                well_formed(g, size as int),
                size <= MAX_MAP_SIZE,
                find_biome != near_biome,
                forall|i: int|
                    0 <= i < locations@.len() ==> #[trigger] is_target(
                        g,
                        find_biome,
                        locations@[i].0 as int,
                        locations@[i].1 as int,
                    ) && locations@[i].2 as int == nearest_sq(
                        g,
                        near_biome,
                        locations@[i].0 as int,
                        locations@[i].1 as int,
                    ) && 1 <= locations@[i].2 <= 2 * MAX_MAP_SIZE * MAX_MAP_SIZE,
                forall|a: int, b: int|
                    #[trigger] is_target(g, find_biome, a, b) && any_kind(g, near_biome) && (a < x
                        || (a == x && b < y)) ==> exists|i: int|
                        0 <= i < locations@.len() && locations@[i].0 == a && locations@[i].1 == b,
                locations@.len() > 0 ==> any_kind(g, near_biome),
            decreases size - y,
        {
            if get_tile(map_data, x as usize, y as usize).tile_type == find_biome {
                let nearest = find_nearest(map_data, x, y, near_biome);
                proof {
                    lemma_has_ref_any_kind(g, near_biome, x as int, y as int);
                }
                match nearest {
                    Some(d) => {
                        proof {
                            lemma_nearest_bound(g, near_biome, x as int, y as int, d as int);
                        }
                        let ghost before = locations@;
                        locations.push((x, y, d));
                        proof {
                            assert forall|a: int, b: int|
                                #[trigger] is_target(g, find_biome, a, b) && any_kind(g, near_biome)
                                    && (a < x || (a == x && b < y + 1)) implies exists|i: int|
                                0 <= i < locations@.len() && locations@[i].0 == a && locations@[i].1
                                    == b by {
                                if a == x && b == y {
                                    assert(locations@[before.len() as int] == (x, y, d));
                                } else {
                                    let i = choose|i: int|
                                        0 <= i < before.len() && before[i].0 == a && before[i].1
                                            == b;
                                    assert(locations@[i] == before[i]);
                                }
                            }
                            assert forall|i: int| 0 <= i < locations@.len() implies #[trigger] is_target(
                                g,
                                find_biome,
                                locations@[i].0 as int,
                                locations@[i].1 as int,
                            ) && locations@[i].2 as int == nearest_sq(
                                g,
                                near_biome,
                                locations@[i].0 as int,
                                locations@[i].1 as int,
                            ) && 1 <= locations@[i].2 <= 2 * MAX_MAP_SIZE * MAX_MAP_SIZE by {
                                if i < before.len() {
                                    assert(locations@[i] == before[i]);
                                }
                            }
                        }
                    },
                    None => {},
                }
            }
            y += 1;
        }
        x += 1;
    }
    locations
}

} // verus!

verus! {

pub proof fn lemma_max_nearest_unique(g: Seq<Seq<Biome>>, t: Biomes, k: Biomes, m1: int, m2: int)
    requires
        is_max_nearest(g, t, k, m1),
        is_max_nearest(g, t, k, m2),
    ensures
        m1 == m2,
{
    let (a1, b1) = choose|x: int, y: int| #[trigger] is_target(g, t, x, y) && nearest_sq(g, k, x, y) == m1;
    let (a2, b2) = choose|x: int, y: int| #[trigger] is_target(g, t, x, y) && nearest_sq(g, k, x, y) == m2;
    assert(is_target(g, t, a1, b1));
    assert(is_target(g, t, a2, b2));
}

/// Sets the distance and band of every raw-land cell from its distance to the
/// reference kind (salt water for the elevation, fresh water for the
/// moisture); leaves the map alone when it holds no cell of that kind.
pub fn apply_bands(map_data: &mut MapData, for_elevation: bool)
    requires
        well_formed(grid_view(*old(map_data)), old(map_data)@.len() as int),
        old(map_data)@.len() <= MAX_MAP_SIZE,
    ensures
        final(map_data)@.len() == old(map_data)@.len(),
        grid_view(*final(map_data)) == band_stage_or_skip(grid_view(*old(map_data)), for_elevation),
{
    let ghost g = grid_view(*map_data);
    let ghost n = g.len() as int;
    let near_biome = if for_elevation {
        Biomes::SaltWater
    } else {
        Biomes::FreshWater
    };
    let locations = find_tiles_near_type(map_data, Biomes::Placeholder, near_biome);
    if locations.len() == 0 {
        proof {
            if any_kind(g, near_biome) {
                assert forall|x: int, y: int| valid_cell(n, x, y) implies kind_at(g, x, y)
                    != Biomes::Placeholder by {
                    if kind_at(g, x, y) == Biomes::Placeholder {
                        assert(is_target(g, Biomes::Placeholder, x, y));
                    }
                }
                assert(band_stage(g, for_elevation) =~~= g);
            }
        }
        return;
    }
    let mut m: u64 = locations[0].2;
    let ghost mut wi: int = 0;
    let mut i: usize = 1;
    while i < locations.len()
        invariant
            1 <= i <= locations@.len(),
            0 <= wi < i,
            locations@[wi].2 == m,
            forall|j: int| 0 <= j < i ==> locations@[j].2 <= m,
        decreases locations.len() - i,
    {
        if locations[i].2 > m {
            m = locations[i].2;
            proof {
                wi = i as int;
            }
        }
        i += 1;
    }
    proof {
        assert(is_target(g, Biomes::Placeholder, locations@[wi].0 as int, locations@[wi].1 as int));
        assert forall|x: int, y: int| #[trigger] is_target(g, Biomes::Placeholder, x, y) implies nearest_sq(
            g,
            near_biome,
            x,
            y,
        ) <= m by {
            let j = choose|j: int|
                0 <= j < locations@.len() && locations@[j].0 == x && locations@[j].1 == y;
            assert(is_target(g, Biomes::Placeholder, locations@[j].0 as int, locations@[j].1 as int));
        }
        assert(is_max_nearest(g, Biomes::Placeholder, near_biome, m as int));
        lemma_max_nearest_unique(
            g,
            Biomes::Placeholder,
            near_biome,
            m as int,
            max_nearest(g, Biomes::Placeholder, near_biome),
        );
    }
    let mut i: usize = 0;
    while i < locations.len()
        invariant
            0 <= i <= locations@.len(),
            n == g.len(),
            n <= MAX_MAP_SIZE,
            well_formed(g, n),
            well_formed(grid_view(*map_data), n),
            map_data@.len() == n,
            near_biome == reference_kind(for_elevation),
            m == max_nearest(g, Biomes::Placeholder, near_biome),
            m <= 2 * MAX_MAP_SIZE * MAX_MAP_SIZE,
            forall|j: int|
                0 <= j < locations@.len() ==> #[trigger] is_target(
                    g,
                    Biomes::Placeholder,
                    locations@[j].0 as int,
                    locations@[j].1 as int,
                ) && locations@[j].2 as int == nearest_sq(
                    g,
                    near_biome,
                    locations@[j].0 as int,
                    locations@[j].1 as int,
                ) && 1 <= locations@[j].2 <= 2 * MAX_MAP_SIZE * MAX_MAP_SIZE,
            forall|a: int, b: int|
                valid_cell(n, a, b) ==> #[trigger] grid_view(*map_data)[a][b] == if exists|j: int|
                    0 <= j < i && locations@[j].0 == a && locations@[j].1 == b {
                    banded(g[a][b], nearest_sq(g, near_biome, a, b), m as int, for_elevation)
                } else {
                    g[a][b]
                },
        decreases locations.len() - i,
    {
        let (x, y, d) = locations[i];
        proof {
            assert(is_target(g, Biomes::Placeholder, locations@[i as int].0 as int, locations@[i as int].1 as int));
        }
        let b = get_tile(map_data, x as usize, y as usize);
        let distance = integer_sqrt(d);
        let nb = if for_elevation {
            Biome { distance_from_sea: distance, elevation: elevation_from_distance(d, m), ..b }
        } else {
            Biome {
                distance_from_fresh_water: distance,
                moisture: moisture_from_distance(d, m),
                ..b
            }
        };
        let ghost before = grid_view(*map_data);
        set_tile(map_data, x as usize, y as usize, nb);
        proof {
            assert(nb == banded(g[x as int][y as int], d as int, m as int, for_elevation));
            assert forall|a: int, b: int| valid_cell(n, a, b) implies #[trigger] grid_view(
                *map_data,
            )[a][b] == if exists|j: int|
                0 <= j < i + 1 && locations@[j].0 == a && locations@[j].1 == b {
                banded(g[a][b], nearest_sq(g, near_biome, a, b), m as int, for_elevation)
            } else {
                g[a][b]
            } by {
                if a == x && b == y {
                    assert(locations@[i as int].0 == a && locations@[i as int].1 == b);
                } else {
                    assert(grid_view(*map_data)[a][b] == before[a][b]);
                    if exists|j: int| 0 <= j < i + 1 && locations@[j].0 == a && locations@[j].1 == b {
                        let j = choose|j: int|
                            0 <= j < i + 1 && locations@[j].0 == a && locations@[j].1 == b;
                        assert(j < i);
                    }
                }
            }
        }
        i += 1;
    }
    proof {
        assert forall|a: int, b: int| valid_cell(n, a, b) implies #[trigger] grid_view(*map_data)[a][b]
            == band_stage(g, for_elevation)[a][b] by {
            if kind_at(g, a, b) == Biomes::Placeholder {
                assert(is_target(g, Biomes::Placeholder, a, b));
            } else {
                if exists|j: int| 0 <= j < i && locations@[j].0 == a && locations@[j].1 == b {
                    let j = choose|j: int| 0 <= j < i && locations@[j].0 == a && locations@[j].1 == b;
                    assert(is_target(g, Biomes::Placeholder, locations@[j].0 as int, locations@[j].1 as int));
                }
            }
        }
        assert(grid_view(*map_data) =~~= band_stage(g, for_elevation));
    }
}

} // verus!
