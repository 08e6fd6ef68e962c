//! The state of a single position of the universe.

use vstd::prelude::*;

verus! {

/// One position of the universe: either dead or alive.
#[derive(Clone, Copy, Debug, PartialEq, Eq, Structural)]
pub enum Cell {
    /// Dead cell.
    Dead,
    /// Alive cell.
    Alive,
}

impl Cell {
    /// The number a cell contributes to a neighbor count: 0 when dead, 1 when alive.
    pub open spec fn value(self) -> int {
        match self {
            Cell::Dead => 0,
            Cell::Alive => 1,
        }
    }

    /// The state of a cell in the next generation, given how many of its
    /// neighbors are alive now: a live cell survives with two or three live
    /// neighbors, a dead cell comes to life with exactly three.
    pub open spec fn next_state(self, live_neighbors: int) -> Cell {
        match self {
            Cell::Alive => if live_neighbors == 2 || live_neighbors == 3 {
                Cell::Alive
            } else {
                Cell::Dead
            },
            Cell::Dead => if live_neighbors == 3 {
                Cell::Alive
            } else {
                Cell::Dead
            },
        }
    }

    /// The character that stands for the cell in a rendered universe.
    pub open spec fn glyph(self) -> char {
        match self {
            Cell::Dead => '◻',
            Cell::Alive => '◼',
        }
    }

    /// The cell as a byte: 0 when dead, 1 when alive.
    pub fn to_u8(self) -> (byte: u8)
        ensures
            byte == self.value(),
    {
        match self {
            Cell::Dead => 0,
            Cell::Alive => 1,
        }
    }
}

} // verus!
