//! Shapes drawn on a grid: what it means for a pattern of live cells to lie
//! at a position of the torus, and the two patterns of which the laws speak.

use crate::cells::Cell;
use crate::grid::Grid;
use vstd::prelude::*;

verus! {

/// The coordinate `x` as seen from `origin` along a dimension of size `n`:
/// the number of steps forward from `origin` to `x`, going around the edge
/// where `x` lies before `origin`.
pub open spec fn relative(x: int, origin: int, n: int) -> int {
    (x - origin) % n
}

/// The shape of a block: two rows of two live cells. A shape says of a row
/// and a column, counted from the corner of the shape, whether the cell
/// there is alive.
pub open spec fn block_shape() -> spec_fn(int, int) -> bool {
    |a: int, b: int| 0 <= a <= 1 && 0 <= b <= 1
}

/// The shape of a glider that heads down and to the right, in each of its
/// four phases and, as phase four, in its first phase again, one row down
/// and one column to the right.
pub open spec fn glider_shape(phase: int) -> spec_fn(int, int) -> bool {
    if phase == 0 {
        |a: int, b: int| (a == 0 && b == 1) || (a == 1 && b == 2) || (a == 2 && 0 <= b <= 2)
    } else if phase == 1 {
        |a: int, b: int|
            (a == 1 && (b == 0 || b == 2)) || (a == 2 && (b == 1 || b == 2)) || (a == 3 && b == 1)
    } else if phase == 2 {
        |a: int, b: int|
            (a == 1 && b == 2) || (a == 2 && (b == 0 || b == 2)) || (a == 3 && (b == 1 || b == 2))
    } else if phase == 3 {
        |a: int, b: int|
            (a == 1 && b == 1) || (a == 2 && (b == 2 || b == 3)) || (a == 3 && (b == 1 || b == 2))
    } else {
        |a: int, b: int| (a == 1 && b == 2) || (a == 2 && b == 3) || (a == 3 && 1 <= b <= 3)
    }
}

impl Grid {
    /// The grid of the given dimensions on which `shape` is drawn with its
    /// corner at `(top, left)`: the cell at a position is alive exactly if
    /// `shape` holds of the position's row and column as seen from that
    /// corner.
    pub open spec fn drawn(
        width: nat,
        height: nat,
        top: int,
        left: int,
        shape: spec_fn(int, int) -> bool,
    ) -> Grid {
        Grid {
            width,
            height,
            cells: Seq::new(
                width * height,
                |i: int|
                    if shape(
                        relative(i / (width as int), top, height as int),
                        relative(i % (width as int), left, width as int),
                    ) {
                        Cell::Alive
                    } else {
                        Cell::Dead
                    },
            ),
        }
    }

    /// The grid of the given dimensions whose only live cells form a block
    /// of two by two: rows `top` and `top + 1`, columns `left` and
    /// `left + 1`, around the edges where the block reaches them.
    pub open spec fn block(width: nat, height: nat, top: int, left: int) -> Grid {
        Grid::drawn(width, height, top, left, block_shape())
    }

    /// The grid of the given dimensions whose only live cells are the five
    /// of a glider in its first phase: seen from `(top, left)` they are at
    /// `(0, 1)`, `(1, 2)`, `(2, 0)`, `(2, 1)` and `(2, 2)`.
    pub open spec fn glider(width: nat, height: nat, top: int, left: int) -> Grid {
        Grid::drawn(width, height, top, left, glider_shape(0))
    }
}

} // verus!
