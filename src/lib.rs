use vstd::prelude::*;

pub mod biomes;
pub mod errors;
pub mod generator;
pub mod helper;
pub mod steppers;

verus! {

/// The map: a square matrix of cells, indexed `[x][y]`.
pub type MapData = Vec<Vec<biomes::Biome>>;

} // verus!
