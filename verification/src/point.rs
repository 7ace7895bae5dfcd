//! Grid coordinates.

use vstd::prelude::*;

verus! {

/// A position on the grid: a row and a column.
///
/// A point is a transient lookup key. The operations of a world that take a
/// point expect one that lies on its grid, as `World::point` returns.
#[derive(Clone, Copy, Debug, PartialEq, Eq, Structural)]
pub struct Point {
    pub row: u32,
    pub col: u32,
}

} // verus!
