use vstd::prelude::*;

use crate::helper::get_tile;
use crate::steppers::seed::decimal_string;
use crate::MapData;

use super::Generator;

verus! {

use vstd::string::StringExecFns;
use crate::biomes::{colour_of, elevation_colour_of, moisture_colour_of, symbol_of, Biome};
use crate::helper::{grid_view, well_formed, MAX_MAP_SIZE};
use crate::steppers::seed::decimal_digits;

/// Which figure of a cell a text block shows.
#[derive(Clone, Copy, Debug, PartialEq, Eq, Structural)]
pub enum Layer {
    Elevation,
    Moisture,
    Symbol,
}

/// The text of one cell in a block.
pub open spec fn cell_text(b: Biome, layer: Layer) -> Seq<char> {
    match layer {
        Layer::Elevation => decimal_digits(b.elevation as nat),
        Layer::Moisture => decimal_digits(b.moisture as nat),
        Layer::Symbol => symbol_of(b.tile_type),
    }
}

/// The first `k` cells of a row, side by side.
pub open spec fn row_text(r: Seq<Biome>, layer: Layer, k: int) -> Seq<char>
    decreases k,
{
    if k <= 0 {
        seq![]
    } else {
        row_text(r, layer, k - 1) + cell_text(r[k - 1], layer)
    }
}

/// The first `k` rows of the map, each on a line of its own.
pub open spec fn block_text(g: Seq<Seq<Biome>>, layer: Layer, k: int) -> Seq<char>
    decreases k,
{
    if k <= 0 {
        seq![]
    } else {
        block_text(g, layer, k - 1) + row_text(g[k - 1], layer, g[k - 1].len() as int) + seq!['\n']
    }
}

/// The text report of a map: its seed, then its elevation, moisture and
/// symbol blocks, then its seed again.
pub open spec fn report_text(seed: Seq<char>, g: Seq<Seq<Biome>>) -> Seq<char> {
    let n = g.len() as int;
    "Seed: "@ + seed + "\n\nElevation:\n"@ + block_text(g, Layer::Elevation, n)
        + "\n\nmoisture:\n"@ + block_text(g, Layer::Moisture, n) + "\n\nsymbols:\n"@
        + block_text(g, Layer::Symbol, n) + "\n\nSeed: "@ + seed
}

/// One block of the report: a line per row of the map.
pub fn block(map_data: &MapData, layer: Layer) -> (r: String)
    requires
        well_formed(grid_view(*map_data), map_data@.len() as int),
    ensures
        r@ == block_text(grid_view(*map_data), layer, map_data@.len() as int),
{
    let ghost g = grid_view(*map_data);
    let size = map_data.len();
    let mut text = String::from_str("");
    proof {
        reveal_strlit("");
    }
    let mut x: usize = 0;
    while x < size
        invariant
            x <= size,
            size == g.len(),
            g == grid_view(*map_data),
            well_formed(g, size as int),
            text@ == block_text(g, layer, x as int),
        decreases size - x,
    {
        let mut y: usize = 0;
        while y < size
            invariant
                x < size,
                y <= size,
                size == g.len(),
                g == grid_view(*map_data),
                well_formed(g, size as int),
                text@ == block_text(g, layer, x as int) + row_text(g[x as int], layer, y as int),
            decreases size - y,
        {
            let tile = get_tile(map_data, x, y);
            match layer {
                Layer::Elevation => {
                    let digits = decimal_string(tile.elevation);
                    text.append(digits.as_str());
                },
                Layer::Moisture => {
                    let digits = decimal_string(tile.moisture);
                    text.append(digits.as_str());
                },
                Layer::Symbol => {
                    text.append(tile.get_tile_symbol());
                },
            }
            proof {
                assert(text@ =~= block_text(g, layer, x as int) + row_text(g[x as int], layer, y + 1));
            }
            y += 1;
        }
        text.append("\n");
        proof {
            reveal_strlit("\n");
            assert(text@ =~= block_text(g, layer, x + 1));
        }
        x += 1;
    }
    text
}

/// The colour of pixel `(px, py)` of the picture of a map of side `n` drawn
/// with each cell as a square of `m` pixels: the biomes, and below them the
/// moisture and then the elevation.
pub open spec fn pixel_colour_spec(g: Seq<Seq<Biome>>, n: int, m: int, px: int, py: int) -> (u8, u8, u8) {
    let side = n * m;
    let panel = py / side;
    let b = g[px / m][(py % side) / m];
    if panel == 0 {
        colour_of(b.tile_type)
    } else if panel == 1 {
        moisture_colour_of(b)
    } else {
        elevation_colour_of(b)
    }
}

impl Generator {
    /// The text report of the map.
    pub fn report(&self) -> (r: String)
        requires
            self.wf(),
        ensures
            r@ == report_text(self.seed_spec(), self.grid()),
    {
        let mut text = String::from_str("Seed: ");
        text.append(self.seed.as_str());
        text.append("\n\nElevation:\n");
        let elevation = block(&self.map_data, Layer::Elevation);
        text.append(elevation.as_str());
        text.append("\n\nmoisture:\n");
        let moisture = block(&self.map_data, Layer::Moisture);
        text.append(moisture.as_str());
        text.append("\n\nsymbols:\n");
        let symbols = block(&self.map_data, Layer::Symbol);
        text.append(symbols.as_str());
        text.append("\n\nSeed: ");
        text.append(self.seed.as_str());
        proof {
            reveal_strlit("Seed: ");
            reveal_strlit("\n\nElevation:\n");
            reveal_strlit("\n\nmoisture:\n");
            reveal_strlit("\n\nsymbols:\n");
            reveal_strlit("\n\nSeed: ");
            assert(text@ =~= report_text(self.seed_spec(), self.grid()));
        }
        text
    }

    /// Width and height of the picture drawn with each cell as a square of
    /// `draw_multiplier` pixels: the biome map alone, or in debug mode the
    /// moisture and elevation maps below it.
    pub fn image_size(&self, draw_multiplier: u32) -> (r: (u32, u32))
        requires
            self.wf(),
            self.size() * draw_multiplier * 3 <= u32::MAX,
        ensures
            r.0 == self.size() * draw_multiplier,
            r.1 == if self.config().0 {
                3 * r.0
            } else {
                r.0 as int
            },
    {
        let side = self.map_size * draw_multiplier;
        if self.debug {
            (side, side * 3)
        } else {
            (side, side)
        }
    }

    /// The colour of one pixel of the picture.
    pub fn pixel_colour(&self, px: u32, py: u32, draw_multiplier: u32) -> (r: (u8, u8, u8))
        requires
            self.wf(),
            draw_multiplier >= 1,
            self.size() * draw_multiplier * 3 <= u32::MAX,
            px < self.size() * draw_multiplier,
            py < self.size() * draw_multiplier * 3,
        ensures
            r == pixel_colour_spec(self.grid(), self.size(), draw_multiplier as int, px as int, py as int),
    {
        let side = self.map_size * draw_multiplier;
        let panel = py / side;
        let x = px / draw_multiplier;
        let y = (py % side) / draw_multiplier;
        proof {
            let n = self.size();
            let m = draw_multiplier as int;
            assert(side == n * m);
            let xi = x as int;
            let yi = y as int;
            let pxi = px as int;
            let pyi = py as int;
            assert(xi == pxi / m);
            assert(yi == (pyi % (n * m)) / m);
            assert(xi < n) by (nonlinear_arith)
                requires
                    xi == pxi / m,
                    0 <= pxi < n * m,
                    m >= 1,
            ;
            assert(yi < n) by (nonlinear_arith)
                requires
                    yi == (pyi % (n * m)) / m,
                    n * m >= 1,
                    m >= 1,
            ;
        }
        let tile = get_tile(&self.map_data, x as usize, y as usize);
        if panel == 0 {
            tile.get_tile_colour()
        } else if panel == 1 {
            tile.get_moisture_colour()
        } else {
            tile.get_elevation_colour()
        }
    }
}

} // verus!
