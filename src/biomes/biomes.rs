use vstd::prelude::*;

verus! {

/// The kind of a map cell: untouched, raw land, water, beach, or one of the
/// terminal biomes of the elevation/moisture table.
#[derive(Debug, Copy, Clone, PartialEq, Eq, Structural)]
pub enum Biomes {
    Void,
    Placeholder,
    FreshWater,
    SaltWater,
    Land,
    Beach,
    // terminal biomes
    SubtropicalDesert,
    Grassland,
    TropicalSeasonalForest,
    TropicalRainForest,
    TemperateDesert,
    TemperateDeciduousForest,
    TemperateRainForest,
    Shrubland,
    Taiga,
    Scorched,
    Bare,
    Tundra,
    Snow,
}

/// The single printable character that stands for a kind (empty for untouched cells).
pub open spec fn symbol_of(b: Biomes) -> Seq<char> {
    match b {
        Biomes::Void => ""@,
        Biomes::Placeholder => " "@,
        Biomes::FreshWater => "="@,
        Biomes::SaltWater => "~"@,
        Biomes::Land => ""@,
        Biomes::Beach => "B"@,
        Biomes::SubtropicalDesert => "2"@,
        Biomes::Grassland => "3"@,
        Biomes::TropicalSeasonalForest => "4"@,
        Biomes::TropicalRainForest => "5"@,
        Biomes::TemperateDesert => "6"@,
        Biomes::TemperateDeciduousForest => "7"@,
        Biomes::TemperateRainForest => "8"@,
        Biomes::Shrubland => "9"@,
        Biomes::Taiga => "1"@,
        Biomes::Scorched => "0"@,
        Biomes::Bare => "."@,
        Biomes::Tundra => "t"@,
        Biomes::Snow => "s"@,
    }
}

/// The human-readable name of a kind.
pub open spec fn name_of(b: Biomes) -> Seq<char> {
    match b {
        Biomes::Void => "Void"@,
        Biomes::Placeholder => "Placeholder"@,
        Biomes::FreshWater => "Fresh Water"@,
        Biomes::SaltWater => "Salt Water"@,
        Biomes::Land => "Land"@,
        Biomes::Beach => "Beach"@,
        Biomes::SubtropicalDesert => "SubtropicalDesert"@,
        Biomes::Grassland => "Grassland"@,
        Biomes::TropicalSeasonalForest => "TropicalSeasonalForest"@,
        Biomes::TropicalRainForest => "TropicalRainForest"@,
        Biomes::TemperateDesert => "TemperateDesert"@,
        Biomes::TemperateDeciduousForest => "TemperateDeciduousForest"@,
        Biomes::TemperateRainForest => "TemperateRainForest"@,
        Biomes::Shrubland => "Shrubland"@,
        Biomes::Taiga => "Taiga"@,
        Biomes::Scorched => "Scorched"@,
        Biomes::Bare => "Bare"@,
        Biomes::Tundra => "Tundra"@,
        Biomes::Snow => "Snow"@,
    }
}

/// The RGB colour in which a kind is drawn.
pub open spec fn colour_of(b: Biomes) -> (u8, u8, u8) {
    match b {
        Biomes::Void => (255, 0, 0),
        Biomes::Placeholder => (0, 0, 0),
        Biomes::FreshWater => (41, 95, 255),
        Biomes::SaltWater => (0, 5, 206),
        Biomes::Land => (64, 171, 0),
        Biomes::Beach => (255, 195, 0),
        Biomes::SubtropicalDesert => (233, 220, 198),
        Biomes::Grassland => (196, 211, 170),
        Biomes::TropicalSeasonalForest => (169, 204, 163),
        Biomes::TropicalRainForest => (156, 187, 169),
        Biomes::TemperateDesert => (228, 232, 202),
        Biomes::TemperateDeciduousForest => (180, 200, 169),
        Biomes::TemperateRainForest => (163, 196, 168),
        Biomes::Shrubland => (195, 204, 186),
        Biomes::Taiga => (203, 212, 187),
        Biomes::Scorched => (153, 153, 153),
        Biomes::Bare => (187, 187, 187),
        Biomes::Tundra => (221, 221, 186),
        Biomes::Snow => (255, 255, 255),
    }
}

/// A kind that the pipeline leaves on a land cell once classification is over.
pub open spec fn is_terminal(b: Biomes) -> bool {
    match b {
        Biomes::Void | Biomes::Placeholder | Biomes::FreshWater | Biomes::SaltWater | Biomes::Land
        | Biomes::Beach => false,
        _ => true,
    }
}

/// The elevation (1..=4) by moisture (1..=6) classification table.
pub open spec fn whittaker_spec(elevation: int, moisture: int) -> Biomes {
    if elevation == 1 && moisture == 1 {
        Biomes::SubtropicalDesert
    } else if elevation == 1 && moisture == 2 {
        Biomes::Grassland
    } else if elevation == 1 && moisture == 3 {
        Biomes::TropicalSeasonalForest
    } else if elevation == 1 && moisture == 4 {
        Biomes::TropicalSeasonalForest
    } else if elevation == 1 && moisture == 5 {
        Biomes::TropicalRainForest
    } else if elevation == 1 && moisture == 6 {
        Biomes::TropicalRainForest
    } else if elevation == 2 && moisture == 1 {
        Biomes::TemperateDesert
    } else if elevation == 2 && moisture == 2 {
        Biomes::Grassland
    } else if elevation == 2 && moisture == 3 {
        Biomes::Grassland
    } else if elevation == 2 && moisture == 4 {
        Biomes::TemperateDeciduousForest
    } else if elevation == 2 && moisture == 5 {
        Biomes::TemperateDeciduousForest
    } else if elevation == 2 && moisture == 6 {
        Biomes::TemperateRainForest
    } else if elevation == 3 && moisture == 1 {
        Biomes::TemperateDesert
    } else if elevation == 3 && moisture == 2 {
        Biomes::TemperateDesert
    } else if elevation == 3 && moisture == 3 {
        Biomes::Shrubland
    } else if elevation == 3 && moisture == 4 {
        Biomes::Shrubland
    } else if elevation == 3 && moisture == 5 {
        Biomes::Taiga
    } else if elevation == 3 && moisture == 6 {
        Biomes::Taiga
    } else if elevation == 4 && moisture == 1 {
        Biomes::Scorched
    } else if elevation == 4 && moisture == 2 {
        Biomes::Bare
    } else if elevation == 4 && moisture == 3 {
        Biomes::Tundra
    } else if elevation == 4 && moisture == 4 {
        Biomes::Snow
    } else if elevation == 4 && moisture == 5 {
        Biomes::Snow
    } else {
        Biomes::Snow
    }
}

/// Every elevation band 1..=4 and moisture band 1..=6 has a terminal biome in
/// the classification table.
pub proof fn lemma_whittaker_total(elevation: int, moisture: int)
    requires
        1 <= elevation <= 4,
        1 <= moisture <= 6,
    ensures
        is_terminal(whittaker_spec(elevation, moisture)),
{
}

impl Biomes {
    pub fn get_symbol(&self) -> (r: &'static str)
        ensures
            r@ == symbol_of(*self),
    {
        match self {
            Biomes::Void => "",
            Biomes::Placeholder => " ",
            Biomes::FreshWater => "=",
            Biomes::SaltWater => "~",
            Biomes::Land => "",
            Biomes::Beach => "B",
            Biomes::SubtropicalDesert => "2",
            Biomes::Grassland => "3",
            Biomes::TropicalSeasonalForest => "4",
            Biomes::TropicalRainForest => "5",
            Biomes::TemperateDesert => "6",
            Biomes::TemperateDeciduousForest => "7",
            Biomes::TemperateRainForest => "8",
            Biomes::Shrubland => "9",
            Biomes::Taiga => "1",
            Biomes::Scorched => "0",
            Biomes::Bare => ".",
            Biomes::Tundra => "t",
            Biomes::Snow => "s",
        }
    }

    pub fn get_name(&self) -> (r: &'static str)
        ensures
            r@ == name_of(*self),
    {
        match self {
            Biomes::Void => "Void",
            Biomes::Placeholder => "Placeholder",
            Biomes::FreshWater => "Fresh Water",
            Biomes::SaltWater => "Salt Water",
            Biomes::Land => "Land",
            Biomes::Beach => "Beach",
            Biomes::SubtropicalDesert => "SubtropicalDesert",
            Biomes::Grassland => "Grassland",
            Biomes::TropicalSeasonalForest => "TropicalSeasonalForest",
            Biomes::TropicalRainForest => "TropicalRainForest",
            Biomes::TemperateDesert => "TemperateDesert",
            Biomes::TemperateDeciduousForest => "TemperateDeciduousForest",
            Biomes::TemperateRainForest => "TemperateRainForest",
            Biomes::Shrubland => "Shrubland",
            Biomes::Taiga => "Taiga",
            Biomes::Scorched => "Scorched",
            Biomes::Bare => "Bare",
            Biomes::Tundra => "Tundra",
            Biomes::Snow => "Snow",
        }
    }

    pub fn get_colour(&self) -> (r: (u8, u8, u8))
        ensures
            r == colour_of(*self),
    {
        match self {
            Biomes::Void => (255, 0, 0),
            Biomes::Placeholder => (0, 0, 0),
            Biomes::FreshWater => (41, 95, 255),
            Biomes::SaltWater => (0, 5, 206),
            Biomes::Land => (64, 171, 0),
            Biomes::Beach => (255, 195, 0),
            Biomes::SubtropicalDesert => (233, 220, 198),
            Biomes::Grassland => (196, 211, 170),
            Biomes::TropicalSeasonalForest => (169, 204, 163),
            Biomes::TropicalRainForest => (156, 187, 169),
            Biomes::TemperateDesert => (228, 232, 202),
            Biomes::TemperateDeciduousForest => (180, 200, 169),
            Biomes::TemperateRainForest => (163, 196, 168),
            Biomes::Shrubland => (195, 204, 186),
            Biomes::Taiga => (203, 212, 187),
            Biomes::Scorched => (153, 153, 153),
            Biomes::Bare => (187, 187, 187),
            Biomes::Tundra => (221, 221, 186),
            Biomes::Snow => (255, 255, 255),
        }
    }

}

/// Looks up the biome of a land cell from its elevation and moisture bands.
pub fn whittaker(elevation: u32, moisture: u32) -> (r: Biomes)
    requires
        1 <= elevation <= 4,
        1 <= moisture <= 6,
    ensures
        r == whittaker_spec(elevation as int, moisture as int),
        is_terminal(r),
{
    match (elevation, moisture) {
        (1, 1) => Biomes::SubtropicalDesert,
        (1, 2) => Biomes::Grassland,
        (1, 3) => Biomes::TropicalSeasonalForest,
        (1, 4) => Biomes::TropicalSeasonalForest,
        (1, 5) => Biomes::TropicalRainForest,
        (1, 6) => Biomes::TropicalRainForest,
        (2, 1) => Biomes::TemperateDesert,
        (2, 2) => Biomes::Grassland,
        (2, 3) => Biomes::Grassland,
        (2, 4) => Biomes::TemperateDeciduousForest,
        (2, 5) => Biomes::TemperateDeciduousForest,
        (2, 6) => Biomes::TemperateRainForest,
        (3, 1) => Biomes::TemperateDesert,
        (3, 2) => Biomes::TemperateDesert,
        (3, 3) => Biomes::Shrubland,
        (3, 4) => Biomes::Shrubland,
        (3, 5) => Biomes::Taiga,
        (3, 6) => Biomes::Taiga,
        (4, 1) => Biomes::Scorched,
        (4, 2) => Biomes::Bare,
        (4, 3) => Biomes::Tundra,
        (4, 4) => Biomes::Snow,
        (4, 5) => Biomes::Snow,
        _ => Biomes::Snow,
    }
}

} // verus!
