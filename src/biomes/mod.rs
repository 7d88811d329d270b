use vstd::prelude::*;

pub mod biomes;

pub use self::biomes::{Biomes, whittaker};

verus! {

pub use self::biomes::{colour_of, is_terminal, lemma_whittaker_total, name_of, symbol_of, whittaker_spec};

/// One cell of the map: its kind, the raw distances to the nearest salt and
/// fresh water, and the elevation (1..=4) and moisture (1..=6) bands.
#[derive(Debug, Copy, Clone, PartialEq, Eq, Structural)]
pub struct Biome {
    pub tile_type: Biomes,
    pub distance_from_sea: u32,
    pub distance_from_fresh_water: u32,
    pub elevation: u32,
    pub moisture: u32,
}

/// Clamps a band value into `lo..=hi`.
pub open spec fn clamp_band(v: int, lo: int, hi: int) -> int {
    if v < lo {
        lo
    } else if v > hi {
        hi
    } else {
        v
    }
}

/// The kind that the classification table gives a cell, its bands clamped first.
pub open spec fn classified_kind(b: Biome) -> Biomes {
    whittaker_spec(clamp_band(b.elevation as int, 1, 4), clamp_band(b.moisture as int, 1, 6))
}

/// A cell after classification: bands clamped into range, kind from the table.
pub open spec fn classified(b: Biome) -> Biome {
    Biome {
        tile_type: classified_kind(b),
        elevation: clamp_band(b.elevation as int, 1, 4) as u32,
        moisture: clamp_band(b.moisture as int, 1, 6) as u32,
        ..b
    }
}

/// Colour of the elevation band; salt water keeps its own colour.
pub open spec fn elevation_colour_of(b: Biome) -> (u8, u8, u8) {
    if b.tile_type == Biomes::SaltWater {
        colour_of(b.tile_type)
    } else if b.elevation == 1 {
        (0, 0, 0)
    } else if b.elevation == 2 {
        (89, 89, 89)
    } else if b.elevation == 3 {
        (184, 184, 184)
    } else if b.elevation == 4 {
        (255, 255, 255)
    } else {
        (199, 0, 57)
    }
}

/// Colour of the moisture band; salt water has a colour of its own.
pub open spec fn moisture_colour_of(b: Biome) -> (u8, u8, u8) {
    if b.tile_type == Biomes::SaltWater {
        (199, 0, 57)
    } else if b.moisture == 1 {
        (224, 224, 224)
    } else if b.moisture == 2 {
        (112, 112, 112)
    } else if b.moisture == 3 {
        (234, 242, 255)
    } else if b.moisture == 4 {
        (125, 174, 254)
    } else if b.moisture == 5 {
        (16, 106, 255)
    } else if b.moisture == 6 {
        (0, 11, 213)
    } else {
        (0, 0, 0)
    }
}

impl Biome {
    pub fn new(biome: Biomes) -> (r: Self)
        ensures
            r == (Biome {
                tile_type: biome,
                distance_from_sea: 0,
                distance_from_fresh_water: 0,
                elevation: 1,
                moisture: 0,
            }),
    {
        Self {
            tile_type: biome,
            distance_from_sea: 0,
            distance_from_fresh_water: 0,
            elevation: 1,
            moisture: 0,
        }
    }

    pub fn new_empty() -> (r: Self)
        ensures
            r == Biome::empty(),
    {
        Self {
            tile_type: Biomes::Void,
            distance_from_sea: 0,
            distance_from_fresh_water: 0,
            elevation: 1,
            moisture: 0,
        }
    }

    /// The cell that a freshly allocated map holds.
    pub open spec fn empty() -> Biome {
        Biome {
            tile_type: Biomes::Void,
            distance_from_sea: 0,
            distance_from_fresh_water: 0,
            elevation: 1,
            moisture: 0,
        }
    }

    pub fn get_tile_symbol(&self) -> (r: &'static str)
        ensures
            r@ == symbol_of(self.tile_type),
    {
        self.tile_type.get_symbol()
    }

    pub fn get_tile_name(&self) -> (r: &'static str)
        ensures
            r@ == name_of(self.tile_type),
    {
        self.tile_type.get_name()
    }

    pub fn get_tile_colour(&self) -> (r: (u8, u8, u8))
        ensures
            r == colour_of(self.tile_type),
    {
        self.tile_type.get_colour()
    }

    pub fn get_elevation_colour(&self) -> (r: (u8, u8, u8))
        ensures
            r == elevation_colour_of(*self),
    {
        if self.tile_type == Biomes::SaltWater {
            return self.get_tile_colour();
        }
        match self.elevation {
            1 => (0, 0, 0),
            2 => (89, 89, 89),
            3 => (184, 184, 184),
            4 => (255, 255, 255),
            _ => (199, 0, 57),
        }
    }

    pub fn get_moisture_colour(&self) -> (r: (u8, u8, u8))
        ensures
            r == moisture_colour_of(*self),
    {
        if self.tile_type == Biomes::SaltWater {
            return (199, 0, 57);
        }
        match self.moisture {
            1 => (224, 224, 224),
            2 => (112, 112, 112),
            3 => (234, 242, 255),
            4 => (125, 174, 254),
            5 => (16, 106, 255),
            6 => (0, 11, 213),
            _ => (0, 0, 0),
        }
    }

    /// Clamps the elevation into 1..=4 and the moisture into 1..=6, then sets
    /// the kind from the classification table.
    pub fn calculate_biome(&mut self)
        ensures
            *final(self) == classified(*old(self)),
            is_terminal(final(self).tile_type),
            1 <= final(self).elevation <= 4,
            1 <= final(self).moisture <= 6,
    {
        let mut moisture = self.moisture;
        let mut elevation = self.elevation;
        if elevation < 1 {
            elevation = 1;
        }
        if elevation > 4 {
            elevation = 4;
        }
        if moisture < 1 {
            moisture = 1;
        }
        if moisture > 6 {
            moisture = 6;
        }
        self.elevation = elevation;
        self.moisture = moisture;
        self.tile_type = whittaker(elevation, moisture);
    }
}

} // verus!
