use whittaker_map_generator::biomes::{whittaker, Biome, Biomes};
use whittaker_map_generator::errors::{MapGenError, MapGenErrorKind};
use whittaker_map_generator::generator::classify::{classify_biomes, find_replace, generate_beaches};
use whittaker_map_generator::generator::cleanup::{clean_tile, post_proccess, remove_stragglers};
use whittaker_map_generator::generator::distance::{
    apply_bands, elevation_from_distance, find_nearest, find_tiles_near_type, integer_sqrt,
    moisture_from_distance,
};
use whittaker_map_generator::generator::hydrology::flood_fill;
use whittaker_map_generator::generator::Generator;
use whittaker_map_generator::helper::{squared_distance, tile_neighbours};
use whittaker_map_generator::steppers::MapPosition;
use whittaker_map_generator::MapData;

/// Builds a map from rows of characters: '.' untouched, '#' raw land,
/// '~' salt water, '=' fresh water. Row `i` of the text is `map[i]`.
fn map_of(rows: &[&str]) -> MapData {
    rows.iter()
        .map(|r| {
            r.chars()
                .map(|c| {
                    Biome::new(match c {
                        '#' => Biomes::Placeholder,
                        '~' => Biomes::SaltWater,
                        '=' => Biomes::FreshWater,
                        _ => Biomes::Void,
                    })
                })
                .collect()
        })
        .collect()
}

fn kinds(map: &MapData) -> Vec<String> {
    map.iter()
        .map(|r| {
            r.iter()
                .map(|b| match b.tile_type {
                    Biomes::Placeholder => '#',
                    Biomes::SaltWater => '~',
                    Biomes::FreshWater => '=',
                    Biomes::Void => '.',
                    Biomes::Beach => 'B',
                    _ => 'T',
                })
                .collect()
        })
        .collect()
}

#[test]
fn squared_distances() {
    assert_eq!(squared_distance(0, 0, 3, 4), 25);
    assert_eq!(squared_distance(5, 5, 2, 1), 25);
    assert_eq!(squared_distance(7, 7, 7, 7), 0);
}

#[test]
fn integer_square_roots() {
    assert_eq!(integer_sqrt(0), 0);
    assert_eq!(integer_sqrt(1), 1);
    assert_eq!(integer_sqrt(8), 2);
    assert_eq!(integer_sqrt(9), 3);
    assert_eq!(integer_sqrt(4_294_791_200), 65_534);
}

#[test]
fn elevation_bands() {
    // floor(4 * sqrt(d / m)), at least 1
    assert_eq!(elevation_from_distance(100, 100), 4);
    assert_eq!(elevation_from_distance(57, 100), 3);
    assert_eq!(elevation_from_distance(56, 100), 2);
    assert_eq!(elevation_from_distance(25, 100), 2);
    assert_eq!(elevation_from_distance(24, 100), 1);
    assert_eq!(elevation_from_distance(1, 100), 1);
}

#[test]
fn moisture_bands() {
    // 7 - ceil(6 * sqrt(d / m)), at least 1
    assert_eq!(moisture_from_distance(1, 36), 6);
    assert_eq!(moisture_from_distance(2, 36), 5);
    assert_eq!(moisture_from_distance(9, 36), 4);
    assert_eq!(moisture_from_distance(16, 36), 3);
    assert_eq!(moisture_from_distance(25, 36), 2);
    assert_eq!(moisture_from_distance(26, 36), 1);
    assert_eq!(moisture_from_distance(36, 36), 1);
}

#[test]
fn neighbours_in_four_and_eight_directions() {
    let map = map_of(&["#.#", ".##", "#.."]);
    let centre = MapPosition { x: 1, y: 1 };
    let four = tile_neighbours(&map, &centre, &Biomes::Placeholder, false);
    assert_eq!(four, vec![MapPosition { x: 1, y: 2 }]);
    let eight = tile_neighbours(&map, &centre, &Biomes::Placeholder, true);
    assert_eq!(eight.len(), 4);
}

#[test]
fn nearest_on_first_ring_takes_farthest() {
    // salt water at Chebyshev distance 2: (0, 2) at distance 2 and (0, 4) at sqrt(8)
    let map = map_of(&["..~.~", ".....", ".....", ".....", "....."]);
    assert_eq!(find_nearest(&map, 2, 2, Biomes::SaltWater), Some(8));
}

#[test]
fn nearest_prefers_inner_ring() {
    let map = map_of(&["~....", ".....", "..#..", "...~.", "....."]);
    assert_eq!(find_nearest(&map, 2, 2, Biomes::SaltWater), Some(2));
}

#[test]
fn nearest_none_without_reference() {
    let map = map_of(&["...", ".#.", "..."]);
    assert_eq!(find_nearest(&map, 1, 1, Biomes::FreshWater), None);
}

#[test]
fn tiles_near_type_lists_every_target() {
    let map = map_of(&["~~~~", "~##~", "~#.~", "~~~~"]);
    let found = find_tiles_near_type(&map, Biomes::Placeholder, Biomes::SaltWater);
    assert_eq!(found, vec![(1, 1, 2), (1, 2, 2), (2, 1, 2)]);
    assert!(find_tiles_near_type(&map, Biomes::Placeholder, Biomes::FreshWater).is_empty());
}

#[test]
fn bands_set_from_distances() {
    let mut map = map_of(&["~~~~~~", "~####~", "~####~", "~####~", "~####~", "~~~~~~"]);
    apply_bands(&mut map, true);
    // the inner cells are farthest from the sea
    assert_eq!(map[2][2].elevation, 4);
    assert_eq!(map[2][2].distance_from_sea, 2);
    assert_eq!(map[1][1].elevation, 2);
    assert_eq!(map[1][1].distance_from_sea, 1);
    assert_eq!(map[0][0].elevation, 1);
}

#[test]
fn bands_skipped_without_reference() {
    let mut map = map_of(&["~~~", "~#~", "~~~"]);
    let before = map.clone();
    apply_bands(&mut map, false);
    assert_eq!(map, before);
}

#[test]
fn moisture_bands_applied() {
    let mut map = map_of(&["#####", "#####", "##=##", "#####", "#####"]);
    apply_bands(&mut map, false);
    assert_eq!(map[1][2].moisture, 4);
    assert_eq!(map[1][2].distance_from_fresh_water, 1);
    assert_eq!(map[0][0].moisture, 1);
    assert_eq!(map[0][0].distance_from_fresh_water, 2);
}

#[test]
fn flood_fill_marks_open_water_only() {
    let mut map = map_of(&[".....", ".###.", ".#.#.", ".###.", "....."]);
    flood_fill(&mut map, Biomes::SaltWater);
    assert_eq!(kinds(&map), vec!["~~~~~", "~###~", "~#.#~", "~###~", "~~~~~"]);
}

#[test]
fn flood_fill_blocked_corner() {
    let mut map = map_of(&["#..", "...", "..."]);
    flood_fill(&mut map, Biomes::SaltWater);
    assert_eq!(kinds(&map), vec!["#..", "...", "..."]);
}

#[test]
fn find_replace_spares_lone_cells() {
    let mut map = map_of(&["~~~~~~", "~####~", "~#..#~", "~####~", "~#.#~~", "~~~~~~"]);
    find_replace(&mut map, Biomes::Void, Biomes::FreshWater, true);
    assert_eq!(kinds(&map)[2], "~#==#~");
    assert_eq!(kinds(&map)[4], "~#.#~~");
    find_replace(&mut map, Biomes::Void, Biomes::Placeholder, false);
    assert_eq!(kinds(&map)[4], "~###~~");
}

#[test]
fn stragglers_removed() {
    let mut map = map_of(&[".....", ".###.", ".###.", ".###.", "....#"]);
    remove_stragglers(&mut map);
    // the lone corner cell has one raw-land neighbour
    assert_eq!(map[4][4].tile_type, Biomes::Void);
    assert_eq!(map[2][2].tile_type, Biomes::Placeholder);
}

#[test]
fn clean_tile_rim_turns_untouched() {
    let mut map = map_of(&["###", "###", "###"]);
    clean_tile(&mut map, Biomes::Placeholder, MapPosition { x: 0, y: 1 });
    assert_eq!(map[0][1].tile_type, Biomes::Void);
}

#[test]
fn clean_tile_follows_a_chain() {
    // a one-cell-wide spur of land: thinning runs along it
    let mut map = map_of(&["......", ".#....", ".#....", ".####.", ".####.", "......"]);
    clean_tile(&mut map, Biomes::Placeholder, MapPosition { x: 1, y: 1 });
    assert_eq!(map[1][1].tile_type, Biomes::Void);
    assert_eq!(map[2][1].tile_type, Biomes::Void);
    assert_eq!(map[3][1].tile_type, Biomes::Placeholder);
}

#[test]
fn clean_tile_lone_hole_filled() {
    let mut map = map_of(&["#####", "#####", "##.##", "#####", "#####"]);
    clean_tile(&mut map, Biomes::Void, MapPosition { x: 2, y: 2 });
    assert_eq!(map[2][2].tile_type, Biomes::Placeholder);
}

#[test]
fn post_process_clears_rim() {
    let mut map = map_of(&["######", "######", "######", "######", "######", "######"]);
    post_proccess(&mut map);
    let k = kinds(&map);
    assert_eq!(k[0], "......");
    assert_eq!(k[5], "......");
    assert_eq!(k[2], ".####.");
}

#[test]
fn beaches_next_to_salt_water() {
    let mut map = map_of(&["~~~~", "~##~", "~##~", "~~~~"]);
    for row in map.iter_mut() {
        for b in row.iter_mut() {
            b.moisture = 1;
        }
    }
    map[2][2].elevation = 2;
    map[1][2].moisture = 3;
    generate_beaches(&mut map);
    assert_eq!(map[1][1].tile_type, Biomes::Beach);
    assert_eq!(map[2][1].tile_type, Biomes::Beach);
    assert_eq!(map[2][2].tile_type, Biomes::Placeholder);
    assert_eq!(map[1][2].tile_type, Biomes::Placeholder);
}

#[test]
fn biomes_classified() {
    let mut map = map_of(&["~#", "#="]);
    map[0][1].elevation = 2;
    map[0][1].moisture = 3;
    map[1][0].elevation = 4;
    map[1][0].moisture = 1;
    classify_biomes(&mut map);
    assert_eq!(map[0][1].tile_type, Biomes::Grassland);
    assert_eq!(map[1][0].tile_type, Biomes::Scorched);
    assert_eq!(map[0][0].tile_type, Biomes::SaltWater);
    assert_eq!(map[1][1].tile_type, Biomes::FreshWater);
}

#[test]
fn configuration_errors() {
    assert_eq!(
        Generator::new(false, "s".to_string(), 0, 0, 1, 1).err(),
        Some(MapGenError { kind: MapGenErrorKind::EmptyMap })
    );
    assert_eq!(
        Generator::new(false, "s".to_string(), 5, 0, 0, 1).err(),
        Some(MapGenError { kind: MapGenErrorKind::NoWalkers })
    );
    assert_eq!(
        Generator::new(false, "s".to_string(), 5, 0, 1, 0).err(),
        Some(MapGenError { kind: MapGenErrorKind::NoSteps })
    );
    let g = Generator::new(true, "s".to_string(), 5, 2, 1, 1).ok().unwrap();
    assert_eq!(g.map_size(), 5);
    assert_eq!(g.seed(), "s");
    assert!(g.debug());
    assert_eq!(g.cell(4, 4), Biome::new_empty());
    assert_eq!(MapGenError { kind: MapGenErrorKind::NoSteps }.message(), "Map generator failed.");
}

fn generated(seed: &str, size: u32, walkers: u32, steps: u32) -> Generator {
    let mut g = Generator::new(false, seed.to_string(), size, 0, walkers, steps).ok().unwrap();
    g.generate();
    g
}

/// Every salt-water cell is reached from the corner through salt water.
fn salt_connected(g: &Generator) -> bool {
    let n = g.map_size() as usize;
    let salt = |x: usize, y: usize| g.cell(x, y).tile_type == Biomes::SaltWater;
    let mut seen = vec![vec![false; n]; n];
    let mut queue = Vec::new();
    if salt(0, 0) {
        seen[0][0] = true;
        queue.push((0usize, 0usize));
    }
    while let Some((x, y)) = queue.pop() {
        let mut next = Vec::new();
        if x > 0 {
            next.push((x - 1, y));
        }
        if y > 0 {
            next.push((x, y - 1));
        }
        if x + 1 < n {
            next.push((x + 1, y));
        }
        if y + 1 < n {
            next.push((x, y + 1));
        }
        for (a, b) in next {
            if salt(a, b) && !seen[a][b] {
                seen[a][b] = true;
                queue.push((a, b));
            }
        }
    }
    (0..n).all(|x| (0..n).all(|y| !salt(x, y) || seen[x][y]))
}

fn check_finished(g: &Generator) {
    assert!(salt_connected(g));
    let n = g.map_size() as usize;
    for x in 0..n {
        for y in 0..n {
            let b = g.cell(x, y);
            assert!(b.tile_type != Biomes::Void && b.tile_type != Biomes::Placeholder);
            if x == 0 || y == 0 || x == n - 1 || y == n - 1 {
                assert!(b.tile_type == Biomes::SaltWater || b.tile_type == Biomes::FreshWater);
            }
            if b.tile_type == Biomes::Beach {
                assert_eq!(b.elevation, 1);
                assert!(b.moisture <= 2);
            }
            if !matches!(b.tile_type, Biomes::SaltWater | Biomes::FreshWater | Biomes::Beach) {
                assert!(1 <= b.elevation && b.elevation <= 4);
                assert!(1 <= b.moisture && b.moisture <= 6);
            }
        }
    }
}

#[test]
fn scenario_small_map() {
    let g = generated("test", 10, 1, 20);
    assert_eq!(g.cell(0, 0).tile_type, Biomes::SaltWater);
    let map = g.map_data();
    assert!(map.iter().flatten().all(|b| b.tile_type != Biomes::Void));
    for b in map.iter().flatten() {
        if b.tile_type == Biomes::Beach {
            assert_eq!(b.elevation, 1);
        }
    }
    assert_eq!(whittaker(2, 3), Biomes::Grassland);
    check_finished(&g);
}

#[test]
fn generation_is_deterministic() {
    let a = generated("same seed", 40, 3, 60);
    let b = generated("same seed", 40, 3, 60);
    assert_eq!(a.map_data(), b.map_data());
    check_finished(&a);
}

#[test]
fn different_seeds_differ() {
    let a = generated("first", 40, 3, 60);
    let b = generated("second", 40, 3, 60);
    assert_ne!(a.map_data(), b.map_data());
}

#[test]
fn larger_map_is_finished() {
    let g = generated("larger", 60, 8, 120);
    check_finished(&g);
    let land = g
        .map_data()
        .iter()
        .flatten()
        .filter(|b| !matches!(b.tile_type, Biomes::SaltWater | Biomes::FreshWater))
        .count();
    assert!(land > 0);
}

#[test]
fn one_cell_map() {
    let g = generated("tiny", 1, 1, 1);
    assert_eq!(g.cell(0, 0).tile_type, Biomes::SaltWater);
}

#[test]
fn very_small_maps() {
    for size in 2..=4u32 {
        let g = generated("small", size, 2, 15);
        check_finished(&g);
    }
}

#[test]
fn report_of_fresh_map() {
    let g = Generator::new(false, "s".to_string(), 2, 0, 1, 1).ok().unwrap();
    assert_eq!(
        g.report(),
        "Seed: s\n\nElevation:\n11\n11\n\n\nmoisture:\n00\n00\n\n\nsymbols:\n\n\n\n\nSeed: s"
    );
}

#[test]
fn report_of_generated_map() {
    let g = generated("report", 10, 1, 20);
    let text = g.report();
    assert!(text.starts_with("Seed: report\n\nElevation:\n"));
    assert!(text.ends_with("\n\nSeed: report"));
    let symbols: Vec<&str> = text.split("\n\nsymbols:\n").collect();
    let first_row: String = (0..10).map(|y| g.cell(0, y).get_tile_symbol().to_string()).collect();
    assert!(symbols[1].starts_with(&format!("{}\n", first_row)));
    assert_eq!(first_row, "~~~~~~~~~~");
}

#[test]
fn picture_layout() {
    let plain = Generator::new(false, "p".to_string(), 3, 0, 1, 1).ok().unwrap();
    assert_eq!(plain.image_size(4), (12, 12));
    let mut debug = Generator::new(true, "p".to_string(), 3, 0, 1, 1).ok().unwrap();
    assert_eq!(debug.image_size(4), (12, 36));
    debug.generate();
    // the corner cell is salt water in every panel
    assert_eq!(debug.pixel_colour(0, 0, 4), (0, 5, 206));
    assert_eq!(debug.pixel_colour(3, 3, 4), (0, 5, 206));
    assert_eq!(debug.pixel_colour(0, 12, 4), (199, 0, 57));
    assert_eq!(debug.pixel_colour(0, 24, 4), (0, 5, 206));
    let centre = debug.cell(1, 1);
    assert_eq!(debug.pixel_colour(5, 5, 4), centre.get_tile_colour());
    assert_eq!(debug.pixel_colour(5, 17, 4), centre.get_moisture_colour());
    assert_eq!(debug.pixel_colour(5, 29, 4), centre.get_elevation_colour());
}
