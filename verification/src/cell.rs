//! The state of a single grid cell.

use vstd::prelude::*;

verus! {

/// A cell is either dead or alive.
///
/// The numeric encoding is stable: `Dead` is `0` and `Alive` is `1`, so the
/// number of live cells among a set of cells is the sum of their encodings.
#[derive(Clone, Copy, Debug, PartialEq, Eq, Structural)]
pub enum Cell {
    Dead,
    Alive,
}

impl Cell {
    /// The numeric encoding of a cell: `0` for `Dead`, `1` for `Alive`.
    pub open spec fn spec_value(self) -> u8 {
        match self {
            Cell::Dead => 0u8,
            Cell::Alive => 1u8,
        }
    }

    /// The opposite state.
    pub open spec fn toggled(self) -> Cell {
        match self {
            Cell::Dead => Cell::Alive,
            Cell::Alive => Cell::Dead,
        }
    }

    /// The state of a cell in the next generation, given its current state
    /// and the number of its live neighbors: a live cell survives with two or
    /// three live neighbors, a dead cell is born with exactly three, and every
    /// other cell is dead.
    pub open spec fn evolved(self, live_neighbors: int) -> Cell {
        if live_neighbors == 3 || (self == Cell::Alive && live_neighbors == 2) {
            Cell::Alive
        } else {
            Cell::Dead
        }
    }

    /// Returns the numeric encoding of the cell.
    #[verifier::when_used_as_spec(spec_value)]
    pub fn value(self) -> (r: u8)
        ensures
            r == self.spec_value(),
    {
        match self {
            Cell::Dead => 0,
            Cell::Alive => 1,
        }
    }

    /// Flips the cell in place: alive becomes dead, dead becomes alive.
    pub fn toggle(&mut self)
        ensures
            *final(self) == old(self).toggled(),
    {
        *self = match *self {
            Cell::Dead => Cell::Alive,
            Cell::Alive => Cell::Dead,
        };
    }
}

} // verus!
