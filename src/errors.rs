use vstd::prelude::*;

verus! {

/// Why a generator could not be set up.
#[derive(Debug, Clone, Copy, PartialEq, Eq, Structural)]
pub enum MapGenErrorKind {
    /// The map must be at least one cell wide.
    EmptyMap,
    /// At least one walker must grow land.
    NoWalkers,
    /// Each walker must take at least one step.
    NoSteps,
}

/// The error of map generation.
#[derive(Debug, Clone, Copy, PartialEq, Eq, Structural)]
pub struct MapGenError {
    pub kind: MapGenErrorKind,
}

impl MapGenError {
    pub fn message(&self) -> (r: &'static str)
        ensures
            r@ == "Map generator failed."@,
    {
        "Map generator failed."
    }
}

} // verus!
