use whittaker_map_generator::biomes::{whittaker, Biome, Biomes};

#[test]
fn whittaker_table_rows() {
    assert_eq!(whittaker(1, 1), Biomes::SubtropicalDesert);
    assert_eq!(whittaker(1, 2), Biomes::Grassland);
    assert_eq!(whittaker(1, 6), Biomes::TropicalRainForest);
    assert_eq!(whittaker(2, 3), Biomes::Grassland);
    assert_eq!(whittaker(2, 6), Biomes::TemperateRainForest);
    assert_eq!(whittaker(3, 3), Biomes::Shrubland);
    assert_eq!(whittaker(3, 5), Biomes::Taiga);
    assert_eq!(whittaker(4, 1), Biomes::Scorched);
    assert_eq!(whittaker(4, 2), Biomes::Bare);
    assert_eq!(whittaker(4, 3), Biomes::Tundra);
    assert_eq!(whittaker(4, 6), Biomes::Snow);
}

#[test]
fn whittaker_table_has_no_gaps() {
    for e in 1..=4u32 {
        for m in 1..=6u32 {
            let b = whittaker(e, m);
            assert!(!matches!(
                b,
                Biomes::Void
                    | Biomes::Placeholder
                    | Biomes::FreshWater
                    | Biomes::SaltWater
                    | Biomes::Land
                    | Biomes::Beach
            ));
        }
    }
}

#[test]
fn symbols_and_names() {
    assert_eq!(Biomes::Void.get_symbol(), "");
    assert_eq!(Biomes::SaltWater.get_symbol(), "~");
    assert_eq!(Biomes::FreshWater.get_symbol(), "=");
    assert_eq!(Biomes::Beach.get_symbol(), "B");
    assert_eq!(Biomes::Snow.get_symbol(), "s");
    assert_eq!(Biomes::SaltWater.get_name(), "Salt Water");
    assert_eq!(Biomes::FreshWater.get_name(), "Fresh Water");
    assert_eq!(Biomes::TemperateDeciduousForest.get_name(), "TemperateDeciduousForest");
}

#[test]
fn colours() {
    assert_eq!(Biomes::SaltWater.get_colour(), (0, 5, 206));
    assert_eq!(Biomes::Grassland.get_colour(), (196, 211, 170));
    let mut b = Biome::new(Biomes::Grassland);
    b.elevation = 3;
    b.moisture = 5;
    assert_eq!(b.get_tile_colour(), (196, 211, 170));
    assert_eq!(b.get_elevation_colour(), (184, 184, 184));
    assert_eq!(b.get_moisture_colour(), (16, 106, 255));
    let sea = Biome::new(Biomes::SaltWater);
    assert_eq!(sea.get_elevation_colour(), (0, 5, 206));
    assert_eq!(sea.get_moisture_colour(), (199, 0, 57));
    b.elevation = 9;
    b.moisture = 0;
    assert_eq!(b.get_elevation_colour(), (199, 0, 57));
    assert_eq!(b.get_moisture_colour(), (0, 0, 0));
}

#[test]
fn new_cells() {
    let e = Biome::new_empty();
    assert_eq!(e.tile_type, Biomes::Void);
    assert_eq!(e.elevation, 1);
    assert_eq!(e.moisture, 0);
    assert_eq!(e.distance_from_sea, 0);
    let p = Biome::new(Biomes::Placeholder);
    assert_eq!(p.get_tile_name(), "Placeholder");
    assert_eq!(p.get_tile_symbol(), " ");
}

#[test]
fn calculate_biome_uses_table() {
    let mut b = Biome::new(Biomes::Placeholder);
    b.elevation = 2;
    b.moisture = 3;
    b.calculate_biome();
    assert_eq!(b.tile_type, Biomes::Grassland);
}

#[test]
fn calculate_biome_clamps_bands() {
    let mut b = Biome::new(Biomes::Placeholder);
    b.elevation = 0;
    b.moisture = 0;
    b.calculate_biome();
    assert_eq!(b.tile_type, Biomes::SubtropicalDesert);
    assert_eq!(b.elevation, 1);
    assert_eq!(b.moisture, 1);
    let mut c = Biome::new(Biomes::Placeholder);
    c.elevation = 9;
    c.moisture = 11;
    c.calculate_biome();
    assert_eq!(c.tile_type, Biomes::Snow);
    assert_eq!(c.elevation, 4);
    assert_eq!(c.moisture, 6);
}
