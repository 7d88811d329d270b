use vstd::prelude::*;

use crate::biomes::{Biome, Biomes};
use crate::errors::{MapGenError, MapGenErrorKind};
use crate::steppers::map_position::MapPosition;
use crate::steppers::rng::seeded_rng;
use crate::steppers::seed::walker_seed;
use crate::steppers::{Generators, Stepper};
use crate::MapData;

pub mod classify;
pub mod cleanup;
pub mod distance;
pub mod hydrology;
pub mod render;

verus! {

use crate::biomes::{classified, clamp_band, is_terminal, lemma_whittaker_total};
use crate::helper::{
    any_kind, grid_view, kind_at, land_or_void, lemma_count_kind_zero, on_rim, valid_cell,
    well_formed, MAX_MAP_SIZE,
};
use crate::steppers::landmass::only_land_added;
use crate::steppers::move_direction::MoveDirection;
use crate::steppers::{walk_ok, walk_result};
use self::classify::{
    beach_spec, becomes_beach, biome_spec, classify_biomes, find_replace, generate_beaches,
    replace_spec,
};
use self::cleanup::{post_proccess, post_process_spec, rim_untouched};
use self::distance::{apply_bands, band_stage, band_stage_or_skip, banded, moisture_band};
use self::hydrology::{connected, flood_fill, flood_spec, reach};

/// A freshly allocated map of side `n`: every cell untouched.
pub open spec fn empty_grid(n: int) -> Seq<Seq<Biome>> {
    Seq::new(n as nat, |i: int| Seq::new(n as nat, |j: int| Biome::empty()))
}

/// A map that walkers may leave behind: the empty map with some cells turned
/// to raw land.
pub open spec fn is_walked(w: Seq<Seq<Biome>>, n: int) -> bool {
    well_formed(w, n) && only_land_added(empty_grid(n), w)
}

/// The cell that every walker starts from: the middle of the map.
pub open spec fn centre_spec(n: int) -> MapPosition {
    MapPosition { x: (n / 2) as i32, y: (n / 2) as i32 }
}

/// The map after the first `k` walkers, each from the middle of the empty
/// map, walker `i` having taken the steps of `dss[i]`.
pub open spec fn walkers_spec(n: int, steps: u32, dss: Seq<Seq<MoveDirection>>, k: int) -> Seq<Seq<Biome>>
    decreases k,
{
    if k <= 0 {
        empty_grid(n)
    } else {
        walk_result(walkers_spec(n, steps, dss, k - 1), n, centre_spec(n), steps, dss[k - 1])
    }
}

proof fn lemma_walkers_prefix(n: int, steps: u32, dss: Seq<Seq<MoveDirection>>, ds: Seq<MoveDirection>, k: int)
    requires
        0 <= k <= dss.len(),
    ensures
        walkers_spec(n, steps, dss.push(ds), k) == walkers_spec(n, steps, dss, k),
    decreases k,
{
    if k > 0 {
        lemma_walkers_prefix(n, steps, dss, ds, k - 1);
        assert(dss.push(ds)[k - 1] == dss[k - 1]);
    }
}

/// Everything after the walkers: post-processing, salt and fresh water,
/// elevation, moisture, beaches and biomes.
pub open spec fn finish_spec(w: Seq<Seq<Biome>>) -> Seq<Seq<Biome>> {
    let a = post_process_spec(w);
    let b = flood_spec(a, Biomes::SaltWater);
    let c = replace_spec(b, Biomes::Void, Biomes::FreshWater, true);
    let d = replace_spec(c, Biomes::Void, Biomes::Placeholder, false);
    let e = band_stage_or_skip(d, true);
    let f = band_stage_or_skip(e, false);
    biome_spec(beach_spec(f))
}

/// What holds of every generated map: no cell is left untouched or raw; the
/// rim is water; every salt-water cell is joined to the corner `(0, 0)`
/// through salt water; biome cells have their bands in range; beach cells lie
/// at the lowest elevation and are dry.
pub open spec fn is_finished(g: Seq<Seq<Biome>>) -> bool {
    let n = g.len() as int;
    &&& forall|x: int, y: int|
        valid_cell(n, x, y) ==> #[trigger] kind_at(g, x, y) != Biomes::Void && kind_at(g, x, y)
            != Biomes::Placeholder
    &&& forall|x: int, y: int|
        valid_cell(n, x, y) && on_rim(n, x, y) ==> (#[trigger] kind_at(g, x, y) == Biomes::SaltWater
            || kind_at(g, x, y) == Biomes::FreshWater)
    &&& forall|x: int, y: int|
        valid_cell(n, x, y) && #[trigger] kind_at(g, x, y) == Biomes::SaltWater ==> connected(
            g,
            Biomes::SaltWater,
            x,
            y,
        )
    &&& forall|x: int, y: int|
        valid_cell(n, x, y) && is_terminal(#[trigger] kind_at(g, x, y)) ==> 1 <= g[x][y].elevation
            <= 4 && 1 <= g[x][y].moisture <= 6
    &&& forall|x: int, y: int|
        valid_cell(n, x, y) && #[trigger] kind_at(g, x, y) == Biomes::Beach ==> g[x][y].elevation
            == 1 && g[x][y].moisture <= 2 && (any_kind(g, Biomes::FreshWater) ==> 1
            <= g[x][y].moisture)
}

/// The map generator: its settings and the map it grows.
pub struct Generator {
    debug: bool,
    seed: String,
    map_size: u32,
    rivers: u32,
    steppers: u32,
    steps: u32,
    map_data: MapData,
}

impl Generator {
    pub closed spec fn wf(&self) -> bool {
        &&& 1 <= self.map_size <= MAX_MAP_SIZE
        &&& self.steppers >= 1
        &&& self.steps >= 1
        &&& self.map_data@.len() == self.map_size
        &&& well_formed(grid_view(self.map_data), self.map_size as int)
    }

    pub closed spec fn grid(&self) -> Seq<Seq<Biome>> {
        grid_view(self.map_data)
    }

    pub closed spec fn size(&self) -> int {
        self.map_size as int
    }

    pub closed spec fn seed_spec(&self) -> Seq<char> {
        self.seed@
    }

    pub closed spec fn config(&self) -> (bool, u32, u32, u32) {
        (self.debug, self.rivers, self.steppers, self.steps)
    }

    /// A generator for a map of side `map_size`, grown by `steppers` walkers of
    /// `steps` steps each from `seed`. A map of side 0, no walkers or no steps
    /// are refused.
    pub fn new(
        debug: bool,
        seed: String,
        map_size: u32,
        rivers: u32,
        steppers: u32,
        steps: u32,
    ) -> (r: Result<Generator, MapGenError>)
        requires
            map_size <= MAX_MAP_SIZE,
        ensures
            map_size == 0 <==> r == Err::<Generator, MapGenError>(
                MapGenError { kind: MapGenErrorKind::EmptyMap },
            ),
            map_size != 0 && steppers == 0 <==> r == Err::<Generator, MapGenError>(
                MapGenError { kind: MapGenErrorKind::NoWalkers },
            ),
            map_size != 0 && steppers != 0 && steps == 0 <==> r == Err::<Generator, MapGenError>(
                MapGenError { kind: MapGenErrorKind::NoSteps },
            ),
            r is Ok ==> {
                let g = r->Ok_0;
                &&& g.wf()
                &&& g.size() == map_size
                &&& g.grid() == empty_grid(map_size as int)
                &&& g.seed_spec() == seed@
                &&& g.config() == (debug, rivers, steppers, steps)
            },
    {
        if map_size == 0 {
            return Err(MapGenError { kind: MapGenErrorKind::EmptyMap });
        }
        if steppers == 0 {
            return Err(MapGenError { kind: MapGenErrorKind::NoWalkers });
        }
        if steps == 0 {
            return Err(MapGenError { kind: MapGenErrorKind::NoSteps });
        }
        let size = map_size as usize;
        let mut map_data: MapData = Vec::new();
        let mut x: usize = 0;
        while x < size
            invariant
                x <= size,
                size == map_size,
                map_data@.len() == x,
                forall|i: int| 0 <= i < x ==> #[trigger] grid_view(map_data)[i] == Seq::new(
                    map_size as nat,
                    |j: int| Biome::empty(),
                ),
            decreases size - x,
        {
            let mut row: Vec<Biome> = Vec::new();
            let mut y: usize = 0;
            while y < size
                invariant
                    y <= size,
                    row@.len() == y,
                    forall|j: int| 0 <= j < y ==> #[trigger] row@[j] == Biome::empty(),
                decreases size - y,
            {
                row.push(Biome::new_empty());
                y += 1;
            }
            proof {
                assert(row@ =~= Seq::new(map_size as nat, |j: int| Biome::empty()));
            }
            let ghost before = grid_view(map_data);
            map_data.push(row);
            proof {
                assert forall|i: int| 0 <= i < x + 1 implies #[trigger] grid_view(map_data)[i]
                    == Seq::new(map_size as nat, |j: int| Biome::empty()) by {
                    if i < x {
                        assert(grid_view(map_data)[i] == before[i]);
                    }
                }
            }
            x += 1;
        }
        proof {
            assert(grid_view(map_data) =~~= empty_grid(map_size as int));
        }
        Ok(Self { debug, seed, map_size, rivers, steppers, steps, map_data })
    }

    /// Runs the whole pipeline once: the walkers grow raw land, then the map is
    /// cleaned, watered, banded and classified.
    pub fn generate(&mut self)
        requires
            old(self).wf(),
            old(self).grid() == empty_grid(old(self).size()),
        ensures
            final(self).wf(),
            final(self).size() == old(self).size(),
            final(self).seed_spec() == old(self).seed_spec(),
            final(self).config() == old(self).config(),
            is_finished(final(self).grid()),
            exists|dss: Seq<Seq<MoveDirection>>|
                dss.len() == old(self).config().2 && (forall|i: int|
                    0 <= i < dss.len() ==> walk_ok(
                        #[trigger] dss[i],
                        old(self).config().3,
                        old(self).size(),
                        centre_spec(old(self).size()),
                    )) && final(self).grid() == finish_spec(
                    #[trigger] walkers_spec(old(self).size(), old(self).config().3, dss, dss.len() as int),
                ),
    {
        self.run();
    }

    fn run(&mut self)
        requires
            old(self).wf(),
            old(self).grid() == empty_grid(old(self).size()),
        ensures
            final(self).wf(),
            final(self).size() == old(self).size(),
            final(self).seed_spec() == old(self).seed_spec(),
            final(self).config() == old(self).config(),
            is_finished(final(self).grid()),
            exists|dss: Seq<Seq<MoveDirection>>|
                dss.len() == old(self).config().2 && (forall|i: int|
                    0 <= i < dss.len() ==> walk_ok(
                        #[trigger] dss[i],
                        old(self).config().3,
                        old(self).size(),
                        centre_spec(old(self).size()),
                    )) && final(self).grid() == finish_spec(
                    #[trigger] walkers_spec(old(self).size(), old(self).config().3, dss, dss.len() as int),
                ),
    {
        let ghost n = self.map_size as int;
        let land_stepper = Generators::LandGenerator;
        let centre = (self.map_size / 2) as i32;
        assert(centre_spec(n) == MapPosition { x: centre, y: centre });
        let mut index: u32 = 0;
        let ghost mut dss: Seq<Seq<MoveDirection>> = seq![];
        while index < self.steppers
            invariant
                self.wf(),
                n == self.map_size,
                self.seed == old(self).seed,
                self.config() == old(self).config(),
                is_walked(grid_view(self.map_data), n),
                0 <= centre < n,
                centre == n / 2,
                dss.len() == index,
                index <= self.steppers,
                forall|i: int| 0 <= i < dss.len() ==> walk_ok(#[trigger] dss[i], self.steps, n, centre_spec(n)),
                grid_view(self.map_data) == walkers_spec(n, self.steps, dss, dss.len() as int),
            decreases self.steppers - index,
        {
            let seed = walker_seed(&self.seed, index);
            let rng = seeded_rng(&seed);
            let mut stepper = Stepper::create(
                rng,
                self.map_size,
                self.steps,
                MapPosition { x: centre, y: centre },
            );
            let ghost before = grid_view(self.map_data);
            stepper.run(&mut self.map_data, land_stepper);
            proof {
                crate::steppers::landmass::lemma_only_land_added_trans(
                    empty_grid(n),
                    before,
                    grid_view(self.map_data),
                );
                let ds = choose|ds: Seq<MoveDirection>|
                    walk_ok(ds, self.steps, n, centre_spec(n)) && #[trigger] walk_result(
                        before,
                        n,
                        centre_spec(n),
                        self.steps,
                        ds,
                    ) == grid_view(self.map_data);
                let old_dss = dss;
                dss = dss.push(ds);
                lemma_walkers_prefix(n, self.steps, old_dss, ds, old_dss.len() as int);
                assert forall|i: int| 0 <= i < dss.len() implies walk_ok(#[trigger] dss[i], self.steps, n, centre_spec(n)) by {
                    if i < old_dss.len() {
                        assert(dss[i] == old_dss[i]);
                    }
                }
            }
            index += 1;
        }
        let ghost w = grid_view(self.map_data);
        proof {
            lemma_walked_land_or_void(w, n);
        }
        self.finish();
        proof {
            assert(w == walkers_spec(n, self.steps, dss, dss.len() as int));
            assert(dss.len() == self.config().2);
            assert(self.grid() == finish_spec(walkers_spec(n, self.config().3, dss, dss.len() as int)));
        }
    }
}

impl Generator {
    /// The stages after the walkers.
    fn finish(&mut self)
        requires
            old(self).wf(),
            land_or_void(old(self).grid()),
        ensures
            final(self).wf(),
            final(self).size() == old(self).size(),
            final(self).seed == old(self).seed,
            final(self).config() == old(self).config(),
            final(self).grid() == finish_spec(old(self).grid()),
            is_finished(final(self).grid()),
    {
        let ghost n = self.map_size as int;
        let ghost w = grid_view(self.map_data);
        // post process the raw map
        post_proccess(&mut self.map_data);
        let ghost a = grid_view(self.map_data);
        proof {
            assert forall|x: int, y: int| 0 <= x < a.len() && 0 <= y < a[x].len() implies #[trigger] kind_at(a, x, y) != Biomes::SaltWater by {
                assert(valid_cell(n, x, y));
            }
            lemma_count_kind_zero(a, Biomes::SaltWater);
        }
        // open water joined to the map's corner is salt water
        flood_fill(&mut self.map_data, Biomes::SaltWater);
        let ghost b = grid_view(self.map_data);
        // enclosed pockets become fresh water, lone untouched cells land
        find_replace(&mut self.map_data, Biomes::Void, Biomes::FreshWater, true);
        let ghost c = grid_view(self.map_data);
        find_replace(&mut self.map_data, Biomes::Void, Biomes::Placeholder, false);
        let ghost d = grid_view(self.map_data);
        // elevation from the distance to salt water, moisture from fresh water
        apply_bands(&mut self.map_data, true);
        let ghost e = grid_view(self.map_data);
        apply_bands(&mut self.map_data, false);
        let ghost f = grid_view(self.map_data);
        generate_beaches(&mut self.map_data);
        let ghost h = grid_view(self.map_data);
        classify_biomes(&mut self.map_data);
        proof {
            lemma_finished(a, b, c, d, e, f, h, grid_view(self.map_data), n);
        }
    }
}

/// The stages after post-processing, cell by cell.
proof fn lemma_cell(
    a: Seq<Seq<Biome>>,
    b: Seq<Seq<Biome>>,
    c: Seq<Seq<Biome>>,
    d: Seq<Seq<Biome>>,
    e: Seq<Seq<Biome>>,
    f: Seq<Seq<Biome>>,
    h: Seq<Seq<Biome>>,
    fin: Seq<Seq<Biome>>,
    n: int,
    x: int,
    y: int,
)
    requires
        well_formed(a, n),
        land_or_void(a),
        b == flood_spec(a, Biomes::SaltWater),
        c == replace_spec(b, Biomes::Void, Biomes::FreshWater, true),
        d == replace_spec(c, Biomes::Void, Biomes::Placeholder, false),
        e == band_stage_or_skip(d, true),
        f == band_stage_or_skip(e, false),
        h == beach_spec(f),
        fin == biome_spec(h),
        valid_cell(n, x, y),
    ensures
        kind_at(b, x, y) == Biomes::SaltWater <==> connected(a, Biomes::Void, x, y),
        kind_at(fin, x, y) == Biomes::SaltWater <==> kind_at(b, x, y) == Biomes::SaltWater,
        kind_at(fin, x, y) == Biomes::FreshWater <==> kind_at(c, x, y) == Biomes::FreshWater,
        kind_at(e, x, y) == Biomes::FreshWater <==> kind_at(c, x, y) == Biomes::FreshWater,
        kind_at(fin, x, y) != Biomes::Void,
        kind_at(fin, x, y) != Biomes::Placeholder,
        is_terminal(kind_at(fin, x, y)) ==> 1 <= fin[x][y].elevation <= 4 && 1 <= fin[x][y].moisture <= 6,
        kind_at(fin, x, y) == Biomes::Beach ==> fin[x][y].elevation == 1 && fin[x][y].moisture <= 2
            && (any_kind(e, Biomes::FreshWater) ==> 1 <= fin[x][y].moisture),
        well_formed(fin, n),
{
    assert(kind_at(a, x, y) == Biomes::Void || kind_at(a, x, y) == Biomes::Placeholder);
    if connected(a, Biomes::Void, x, y) {
        let s = choose|s: nat| #[trigger] reach(a, Biomes::Void, s, x, y);
        assert(kind_at(a, x, y) == Biomes::Void);
    }
    assert(b[x][y] == if connected(a, Biomes::Void, x, y) {
        crate::helper::with_kind(a[x][y], Biomes::SaltWater)
    } else {
        a[x][y]
    });
    assert(kind_at(d, x, y) != Biomes::Void);
    assert(kind_at(e, x, y) == kind_at(d, x, y));
    assert(kind_at(f, x, y) == kind_at(d, x, y));
    if kind_at(h, x, y) == Biomes::Placeholder {
        let b0 = h[x][y];
        lemma_whittaker_total(clamp_band(b0.elevation as int, 1, 4), clamp_band(b0.moisture as int, 1, 6));
    }
    if kind_at(h, x, y) == Biomes::Beach {
        assert(becomes_beach(f, x, y));
        if any_kind(e, Biomes::FreshWater) {
            assert(kind_at(e, x, y) == Biomes::Placeholder);
            assert(f == band_stage(e, false));
            assert(moisture_band(
                crate::generator::distance::nearest_sq(e, Biomes::FreshWater, x, y),
                crate::generator::distance::max_nearest(e, Biomes::Placeholder, Biomes::FreshWater),
            ) >= 1);
        }
    }
}

/// Through the stages after post-processing, the salt-water cells and the
/// map-wide facts of a finished map.
proof fn lemma_finished(
    a: Seq<Seq<Biome>>,
    b: Seq<Seq<Biome>>,
    c: Seq<Seq<Biome>>,
    d: Seq<Seq<Biome>>,
    e: Seq<Seq<Biome>>,
    f: Seq<Seq<Biome>>,
    h: Seq<Seq<Biome>>,
    fin: Seq<Seq<Biome>>,
    n: int,
)
    requires
        1 <= n,
        well_formed(a, n),
        land_or_void(a),
        rim_untouched(a),
        b == flood_spec(a, Biomes::SaltWater),
        c == replace_spec(b, Biomes::Void, Biomes::FreshWater, true),
        d == replace_spec(c, Biomes::Void, Biomes::Placeholder, false),
        e == band_stage_or_skip(d, true),
        f == band_stage_or_skip(e, false),
        h == beach_spec(f),
        fin == biome_spec(h),
    ensures
        is_finished(fin),
{
    assert forall|x: int, y: int| valid_cell(n, x, y) implies #[trigger] kind_at(fin, x, y) != Biomes::Void
        && kind_at(fin, x, y) != Biomes::Placeholder by {
        lemma_cell(a, b, c, d, e, f, h, fin, n, x, y);
    }
    assert forall|x: int, y: int| valid_cell(n, x, y) && is_terminal(#[trigger] kind_at(fin, x, y)) implies 1
        <= fin[x][y].elevation <= 4 && 1 <= fin[x][y].moisture <= 6 by {
        lemma_cell(a, b, c, d, e, f, h, fin, n, x, y);
    }
    assert(any_kind(fin, Biomes::FreshWater) ==> any_kind(e, Biomes::FreshWater)) by {
        if any_kind(fin, Biomes::FreshWater) {
            let (x, y) = choose|x: int, y: int| valid_cell(fin.len() as int, x, y) && #[trigger] kind_at(fin, x, y) == Biomes::FreshWater;
            lemma_cell(a, b, c, d, e, f, h, fin, n, x, y);
        }
    }
    assert forall|x: int, y: int| valid_cell(n, x, y) && #[trigger] kind_at(fin, x, y) == Biomes::Beach implies fin[x][y].elevation
        == 1 && fin[x][y].moisture <= 2 && (any_kind(fin, Biomes::FreshWater) ==> 1 <= fin[x][y].moisture) by {
        lemma_cell(a, b, c, d, e, f, h, fin, n, x, y);
    }
    assert forall|x: int, y: int| valid_cell(n, x, y) && connected(a, Biomes::Void, x, y) implies #[trigger] kind_at(fin, x, y) == Biomes::SaltWater by {
        lemma_cell(a, b, c, d, e, f, h, fin, n, x, y);
    }
    assert forall|x: int, y: int| valid_cell(n, x, y) && #[trigger] kind_at(fin, x, y) == Biomes::SaltWater implies connected(
        fin,
        Biomes::SaltWater,
        x,
        y,
    ) by {
        lemma_cell(a, b, c, d, e, f, h, fin, n, x, y);
        let s = choose|s: nat| #[trigger] reach(a, Biomes::Void, s, x, y);
        lemma_reach_transfer(a, fin, n, s, x, y);
    }
    assert forall|x: int, y: int| valid_cell(n, x, y) && on_rim(n, x, y) implies (#[trigger] kind_at(fin, x, y)
        == Biomes::SaltWater || kind_at(fin, x, y) == Biomes::FreshWater) by {
        lemma_rim_connected(a, n, x, y);
        lemma_cell(a, b, c, d, e, f, h, fin, n, x, y);
    }
    lemma_cell(a, b, c, d, e, f, h, fin, n, 0, 0);
}

/// A path of untouched cells in one map is a path of salt water in another
/// where every cell joined to the corner through untouched cells is salt
/// water.
proof fn lemma_reach_transfer(a: Seq<Seq<Biome>>, g: Seq<Seq<Biome>>, n: int, s: nat, x: int, y: int)
    requires
        a.len() == n,
        g.len() == n,
        forall|i: int, j: int| valid_cell(n, i, j) && connected(a, Biomes::Void, i, j) ==> #[trigger] kind_at(g, i, j) == Biomes::SaltWater,
        reach(a, Biomes::Void, s, x, y),
    ensures
        reach(g, Biomes::SaltWater, s, x, y),
    decreases s,
{
    assert(connected(a, Biomes::Void, x, y));
    assert(kind_at(g, x, y) == Biomes::SaltWater);
    if !(x == 0 && y == 0) {
        let t = (s - 1) as nat;
        if reach(a, Biomes::Void, t, x - 1, y) {
            lemma_reach_transfer(a, g, n, t, x - 1, y);
        } else if reach(a, Biomes::Void, t, x + 1, y) {
            lemma_reach_transfer(a, g, n, t, x + 1, y);
        } else if reach(a, Biomes::Void, t, x, y - 1) {
            lemma_reach_transfer(a, g, n, t, x, y - 1);
        } else {
            lemma_reach_transfer(a, g, n, t, x, y + 1);
        }
    }
}

proof fn lemma_rim_row(a: Seq<Seq<Biome>>, n: int, x: int)
    requires
        well_formed(a, n),
        rim_untouched(a),
        0 <= x < n,
    ensures
        reach(a, Biomes::Void, x as nat, x, 0),
    decreases x,
{
    assert(kind_at(a, x, 0) == Biomes::Void);
    if x > 0 {
        lemma_rim_row(a, n, x - 1);
    }
}

proof fn lemma_rim_col(a: Seq<Seq<Biome>>, n: int, y: int)
    requires
        well_formed(a, n),
        rim_untouched(a),
        0 <= y < n,
    ensures
        reach(a, Biomes::Void, y as nat, 0, y),
    decreases y,
{
    assert(kind_at(a, 0, y) == Biomes::Void);
    if y > 0 {
        lemma_rim_col(a, n, y - 1);
    }
}

proof fn lemma_rim_far_row(a: Seq<Seq<Biome>>, n: int, x: int)
    requires
        well_formed(a, n),
        rim_untouched(a),
        0 <= x < n,
    ensures
        reach(a, Biomes::Void, (n - 1 + x) as nat, x, n - 1),
    decreases x,
{
    assert(kind_at(a, x, n - 1) == Biomes::Void);
    if x > 0 {
        lemma_rim_far_row(a, n, x - 1);
    } else {
        lemma_rim_col(a, n, n - 1);
    }
}

proof fn lemma_rim_far_col(a: Seq<Seq<Biome>>, n: int, y: int)
    requires
        well_formed(a, n),
        rim_untouched(a),
        0 <= y < n,
    ensures
        reach(a, Biomes::Void, (n - 1 + y) as nat, n - 1, y),
    decreases y,
{
    assert(kind_at(a, n - 1, y) == Biomes::Void);
    if y > 0 {
        lemma_rim_far_col(a, n, y - 1);
    } else {
        lemma_rim_row(a, n, n - 1);
    }
}

/// An untouched rim is joined to the corner along the rim itself.
proof fn lemma_rim_connected(a: Seq<Seq<Biome>>, n: int, x: int, y: int)
    requires
        well_formed(a, n),
        rim_untouched(a),
        valid_cell(n, x, y),
        on_rim(n, x, y),
    ensures
        connected(a, Biomes::Void, x, y),
{
    if y == 0 {
        lemma_rim_row(a, n, x);
    } else if x == 0 {
        lemma_rim_col(a, n, y);
    } else if y == n - 1 {
        lemma_rim_far_row(a, n, x);
    } else {
        lemma_rim_far_col(a, n, y);
    }
}

impl Generator {
    pub fn map_size(&self) -> (r: u32)
        ensures
            r == self.size(),
    {
        self.map_size
    }

    pub fn seed(&self) -> (r: &String)
        ensures
            r@ == self.seed_spec(),
    {
        &self.seed
    }

    pub fn debug(&self) -> (r: bool)
        ensures
            r == self.config().0,
    {
        self.debug
    }

    /// The map, indexed `[x][y]`.
    pub fn map_data(&self) -> (r: &MapData)
        ensures
            grid_view(*r) == self.grid(),
    {
        &self.map_data
    }

    /// The cell at `(x, y)`.
    pub fn cell(&self, x: usize, y: usize) -> (r: Biome)
        requires
            self.wf(),
            x < self.size(),
            y < self.size(),
        ensures
            r == self.grid()[x as int][y as int],
    {
        crate::helper::get_tile(&self.map_data, x, y)
    }
}

/// Generation is deterministic: the finished map is fixed by the map's side,
/// the steps per walker and the directions that each walker drew. Two runs
/// whose walkers drew the same directions end with the same map; for the same
/// seed the walkers' generators give the same numbers on every run.
pub proof fn lemma_generation_deterministic(
    n: int,
    steps: u32,
    dss1: Seq<Seq<MoveDirection>>,
    dss2: Seq<Seq<MoveDirection>>,
    g1: Seq<Seq<Biome>>,
    g2: Seq<Seq<Biome>>,
)
    requires
        dss1 == dss2,
        g1 == finish_spec(walkers_spec(n, steps, dss1, dss1.len() as int)),
        g2 == finish_spec(walkers_spec(n, steps, dss2, dss2.len() as int)),
    ensures
        g1 == g2,
{
}

proof fn lemma_walked_land_or_void(w: Seq<Seq<Biome>>, n: int)
    requires
        is_walked(w, n),
    ensures
        land_or_void(w),
{
    assert forall|x: int, y: int| valid_cell(w.len() as int, x, y) implies (#[trigger] kind_at(w, x, y)
        == Biomes::Void || kind_at(w, x, y) == Biomes::Placeholder) by {
        assert(empty_grid(n)[x][y] == Biome::empty());
    }
}

} // verus!
