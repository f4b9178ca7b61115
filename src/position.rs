use vstd::prelude::*;

verus! {

/// Number of coordinate units in one degree: coordinates are held as
/// signed ten-millionths of a degree.
pub const UNITS_PER_DEGREE: i32 = 10_000_000;

/// A location with both coordinates known, in ten-millionths of a degree.
#[derive(Clone, Copy, Debug, PartialEq, Eq, Structural)]
pub struct Position {
    pub latitude: i32,
    pub longitude: i32,
}

/// A decoded reading. Not every decoded sentence carries a position, so
/// either coordinate may be missing.
#[derive(Clone, Copy, Debug, PartialEq, Eq, Structural)]
pub struct Fix {
    pub latitude: Option<i32>,
    pub longitude: Option<i32>,
}

/// The position a fix carries, when it has both coordinates.
pub open spec fn position_of(fix: Fix) -> Option<Position> {
    match (fix.latitude, fix.longitude) {
        (Some(latitude), Some(longitude)) => Some(Position { latitude, longitude }),
        _ => None,
    }
}

impl Position {
    pub fn new(latitude: i32, longitude: i32) -> (r: Position)
        ensures
            r.latitude == latitude,
            r.longitude == longitude,
    {
        Position { latitude, longitude }
    }
}

impl Fix {
    pub fn new(latitude: Option<i32>, longitude: Option<i32>) -> (r: Fix)
        ensures
            r.latitude == latitude,
            r.longitude == longitude,
    {
        Fix { latitude, longitude }
    }

    /// A fix that carries the given position.
    pub fn at(p: Position) -> (r: Fix)
        ensures
            position_of(r) == Some(p),
    {
        Fix { latitude: Some(p.latitude), longitude: Some(p.longitude) }
    }

    /// The position this fix carries, or `None` when a coordinate is missing.
    pub fn position(&self) -> (r: Option<Position>)
        ensures
            r == position_of(*self),
    {
        match (self.latitude, self.longitude) {
            (Some(latitude), Some(longitude)) => Some(Position { latitude, longitude }),
            _ => None,
        }
    }
}

} // verus!
