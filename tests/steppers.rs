use rand_seeder::Seeder;
use whittaker_map_generator::biomes::{Biome, Biomes};
use whittaker_map_generator::helper::is_valid_cell;
use whittaker_map_generator::steppers::direction::{
    candidate_directions, pick_random_direction, Direction, MoveDirection,
};
use whittaker_map_generator::steppers::landmass::Landmass;
use whittaker_map_generator::steppers::seed::walker_seed;
use whittaker_map_generator::steppers::{Generators, MapPosition, Stepper};
use whittaker_map_generator::MapData;

fn empty_map(n: usize) -> MapData {
    vec![vec![Biome::new_empty(); n]; n]
}

fn count(map: &MapData, kind: Biomes) -> usize {
    map.iter().flatten().filter(|b| b.tile_type == kind).count()
}

#[test]
fn opposite_directions() {
    let d = MoveDirection { x: 1, y: 0 };
    assert_eq!(d.opposite_direction(), MoveDirection { x: -1, y: 0 });
    let n = Direction::North.get_move_direction();
    assert_eq!(n, MoveDirection { x: 0, y: -1 });
    assert_eq!(n.opposite_direction(), Direction::South.get_move_direction());
    assert_eq!(Direction::SouthWest.get_move_direction(), MoveDirection { x: -1, y: 1 });
}

#[test]
fn direction_sets() {
    let s = Direction::get_standard_directions();
    assert_eq!(
        s,
        vec![
            MoveDirection { x: 0, y: -1 },
            MoveDirection { x: 0, y: 1 },
            MoveDirection { x: 1, y: 0 },
            MoveDirection { x: -1, y: 0 }
        ]
    );
    let e = Direction::get_extended_directions();
    assert_eq!(e.len(), 8);
    assert_eq!(&e[..4], &s[..]);
    assert_eq!(e[4], MoveDirection { x: -1, y: -1 });
    assert_eq!(e[7], MoveDirection { x: -1, y: 1 });
}

#[test]
fn candidates_leave_out_exclusions() {
    let c = candidate_directions(&vec![MoveDirection { x: 0, y: 1 }]);
    assert_eq!(
        c,
        vec![MoveDirection { x: 0, y: -1 }, MoveDirection { x: 1, y: 0 }, MoveDirection { x: -1, y: 0 }]
    );
    assert_eq!(candidate_directions(&Vec::new()).len(), 4);
}

#[test]
fn random_direction_never_goes_back() {
    let mut rng: rand_pcg::Pcg64 = Seeder::from("directions").make_rng();
    let back = MoveDirection { x: 1, y: 0 };
    let mut seen = Vec::new();
    for _ in 0..200 {
        let d = pick_random_direction(&mut rng, vec![back]);
        assert_ne!(d, back);
        assert!(Direction::get_standard_directions().contains(&d));
        if !seen.contains(&d) {
            seen.push(d);
        }
    }
    assert_eq!(seen.len(), 3);
}

#[test]
fn valid_cells() {
    assert!(is_valid_cell(&10, 0, 0));
    assert!(is_valid_cell(&10, 9, 9));
    assert!(!is_valid_cell(&10, 10, 0));
    assert!(!is_valid_cell(&10, -1, 3));
    assert!(!is_valid_cell(&0, 0, 0));
}

#[test]
fn positions_as_indices() {
    let p = MapPosition { x: 3, y: 7 };
    assert_eq!(p.x_usize(), 3);
    assert_eq!(p.y_usize(), 7);
}

#[test]
fn footprint_is_rounded_square() {
    let mut map = empty_map(12);
    Landmass::create().on_last_step(&mut map, MapPosition { x: 6, y: 6 });
    // 9 x 9 square less its four corners
    assert_eq!(count(&map, Biomes::Placeholder), 81 - 4);
    assert_eq!(map[2][2].tile_type, Biomes::Void);
    assert_eq!(map[10][10].tile_type, Biomes::Void);
    assert_eq!(map[2][3].tile_type, Biomes::Placeholder);
    assert_eq!(map[6][10].tile_type, Biomes::Placeholder);
    assert_eq!(map[6][11].tile_type, Biomes::Void);
}

#[test]
fn footprint_clipped_at_edge() {
    let mut map = empty_map(5);
    Landmass::create().on_last_step(&mut map, MapPosition { x: 0, y: 0 });
    assert_eq!(count(&map, Biomes::Placeholder), 25 - 1);
    assert_eq!(map[4][4].tile_type, Biomes::Void);
}

#[test]
fn on_step_marks_cell_only_between_stamps() {
    let mut map = empty_map(12);
    let ok = Landmass::create().on_step(&mut map, MapPosition { x: 5, y: 5 }, 7, 1);
    assert!(ok);
    assert_eq!(count(&map, Biomes::Placeholder), 1);
    assert_eq!(map[5][5].tile_type, Biomes::Placeholder);
}

#[test]
fn on_step_stamps_every_tenth_step() {
    let mut map = empty_map(12);
    assert!(Landmass::create().on_step(&mut map, MapPosition { x: 6, y: 6 }, 20, 1));
    assert_eq!(count(&map, Biomes::Placeholder), 77);
}

#[test]
fn on_step_stamps_after_long_straight_run() {
    let mut map = empty_map(12);
    assert!(Landmass::create().on_step(&mut map, MapPosition { x: 6, y: 6 }, 7, 4));
    assert_eq!(count(&map, Biomes::Placeholder), 77);
}

#[test]
fn on_step_outside_map_stops() {
    let mut map = empty_map(4);
    assert!(!Landmass::create().on_step(&mut map, MapPosition { x: -1, y: 2 }, 10, 0));
    assert_eq!(count(&map, Biomes::Placeholder), 0);
}

#[test]
fn walker_only_adds_land() {
    let rng: rand_pcg::Pcg64 = Seeder::from("walk").make_rng();
    let mut map = empty_map(20);
    let mut stepper = Stepper::create(rng, 20, 30, MapPosition { x: 10, y: 10 });
    stepper.run(&mut map, Generators::LandGenerator);
    let land = count(&map, Biomes::Placeholder);
    assert!(land >= 77);
    assert_eq!(land + count(&map, Biomes::Void), 400);
}

#[test]
fn generator_kinds() {
    assert!(Generators::LandGenerator == Generators::LandGenerator);
    let _landmass: Landmass = Generators::LandGenerator.get_generator();
}

#[test]
fn walker_seeds_append_index() {
    assert_eq!(walker_seed(&"abc".to_string(), 12), "abc12");
    assert_eq!(walker_seed(&"".to_string(), 0), "0");
    assert_eq!(walker_seed(&"x".to_string(), 4_294_967_295), "x4294967295");
}
