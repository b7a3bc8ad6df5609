use vstd::prelude::*;

verus! {

/// A two-dimensional integer coordinate addressing at most one grid cell.
///
/// For a position `Vector { x, y }`, `x` selects the column and `y` selects
/// the row. The grid treats negative or out-of-range coordinates as "not
/// addressable", never as a fault of the coordinate itself.
#[derive(Clone, Copy, PartialEq, Eq, Structural, Hash, Debug)]
pub struct Vector {
    pub x: i64,
    pub y: i64,
}

impl Vector {
    /// Builds the coordinate pair `(x, y)`.
    pub fn new(x: i64, y: i64) -> (r: Vector)
        ensures
            r.x == x,
            r.y == y,
    {
        Vector { x, y }
    }
}

} // verus!
