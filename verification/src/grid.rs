//! The mathematical model of the universe: a torus of cells, flattened row
//! by row, together with the rules that take it from one generation to the
//! next.

use crate::cells::Cell;
use vstd::arithmetic::div_mod::{
    lemma_div_pos_is_pos, lemma_fundamental_div_mod, lemma_fundamental_div_mod_converse,
    lemma_mod_bound,
};
use vstd::prelude::*;

verus! {

/// A rectangular arrangement of cells in row-major order: the cell in row
/// `row` and column `col` is `cells[row * width + col]`.
pub struct Grid {
    /// Number of columns.
    pub width: nat,
    /// Number of rows.
    pub height: nat,
    /// The cells, row after row.
    pub cells: Seq<Cell>,
}

/// The state of the cell at flat index `i` of a freshly created universe:
/// alive exactly at the multiples of two and of seven.
pub open spec fn seed_cell(i: int) -> Cell {
    if i % 2 == 0 || i % 7 == 0 {
        Cell::Alive
    } else {
        Cell::Dead
    }
}

impl Grid {
    /// Both dimensions are positive and there is exactly one cell per position.
    pub open spec fn wf(self) -> bool {
        &&& self.width > 0
        &&& self.height > 0
        &&& self.cells.len() == self.width * self.height
    }

    /// The grid of the given dimensions in its initial pattern.
    pub open spec fn seeded(width: nat, height: nat) -> Grid {
        Grid { width, height, cells: Seq::new(width * height, |i: int| seed_cell(i)) }
    }

    /// The grid of the given dimensions in which every cell is dead.
    pub open spec fn dead(width: nat, height: nat) -> Grid {
        Grid { width, height, cells: Seq::new(width * height, |i: int| Cell::Dead) }
    }

    /// Whether `(row, col)` names a position of the grid.
    pub open spec fn contains(self, row: int, col: int) -> bool {
        0 <= row < self.height && 0 <= col < self.width
    }

    /// The flat index of the position in row `row` and column `col`.
    pub open spec fn index(self, row: int, col: int) -> int {
        row * self.width + col
    }

    /// The cell in row `row` and column `col`.
    pub open spec fn cell(self, row: int, col: int) -> Cell {
        self.cells[self.index(row, col)]
    }

    /// What the position `delta_row` rows below and `delta_col` columns to
    /// the right of `(row, col)` adds to the neighbor count of `(row, col)`.
    /// Both coordinates wrap around the edges. The offset `(0, 0)` is the
    /// cell itself and adds nothing.
    pub open spec fn neighbor_value(self, row: int, col: int, delta_row: int, delta_col: int) -> int {
        if delta_row == 0 && delta_col == 0 {
            0
        } else {
            self.cell(
                (row + delta_row) % (self.height as int),
                (col + delta_col) % (self.width as int),
            ).value()
        }
    }

    /// The number of live neighbors of the cell at `(row, col)`.
    ///
    /// The neighbors are reached by the row offsets `height - 1`, `0`, `1`
    /// crossed with the column offsets `width - 1`, `0`, `1`: once wrapped,
    /// `height - 1` is the row above and `width - 1` the column to the left.
    /// Each pair of offsets counts once, except `(0, 0)`. On a grid with a
    /// single row or a single column the offset for "above" or "left" is
    /// itself `0`, so there the pairs that coincide with `(0, 0)` add nothing
    /// either.
    pub open spec fn live_neighbor_count(self, row: int, col: int) -> int {
        let up = self.height - 1;
        let left = self.width - 1;
        self.neighbor_value(row, col, up, left) + self.neighbor_value(row, col, up, 0)
            + self.neighbor_value(row, col, up, 1) + self.neighbor_value(row, col, 0, left)
            + self.neighbor_value(row, col, 0, 1) + self.neighbor_value(row, col, 1, left)
            + self.neighbor_value(row, col, 1, 0) + self.neighbor_value(row, col, 1, 1)
    }

    /// The state of the cell at `(row, col)` one generation later.
    pub open spec fn next_cell(self, row: int, col: int) -> Cell {
        self.cell(row, col).next_state(self.live_neighbor_count(row, col))
    }

    /// The grid one generation later: every cell is replaced, at once, by
    /// its next state as computed from this grid.
    pub open spec fn step(self) -> Grid {
        Grid {
            width: self.width,
            height: self.height,
            cells: Seq::new(
                self.cells.len(),
                |i: int| self.next_cell(i / (self.width as int), i % (self.width as int)),
            ),
        }
    }

    /// The grid `n` generations later.
    pub open spec fn steps(self, n: nat) -> Grid
        decreases n,
    {
        if n == 0 {
            self
        } else {
            self.step().steps((n - 1) as nat)
        }
    }

    /// The text of one row: a glyph for each cell, then a newline.
    pub open spec fn line(self, row: int) -> Seq<char> {
        Seq::new(self.width, |col: int| self.cell(row, col).glyph()).push('\n')
    }

    /// The text of the first `rows` rows, one after the other.
    pub open spec fn lines(self, rows: nat) -> Seq<char>
        decreases rows,
    {
        if rows == 0 {
            Seq::empty()
        } else {
            self.lines((rows - 1) as nat) + self.line(rows - 1)
        }
    }

    /// The text of the whole grid: one line per row, from the first row to
    /// the last, each ended by a newline.
    pub open spec fn render(self) -> Seq<char> {
        self.lines(self.height)
    }

    /// Whether every pair of `coordinates`, read as `(row, column)`, names a
    /// position of the grid.
    pub open spec fn contains_all(self, coordinates: Seq<(u32, u32)>) -> bool {
        forall|k: int|
            0 <= k < coordinates.len() ==> self.contains(
                (#[trigger] coordinates[k]).0 as int,
                coordinates[k].1 as int,
            )
    }

    /// Whether one of the pairs of `coordinates`, read as `(row, column)`,
    /// names the position with flat index `i`.
    pub open spec fn selects(self, coordinates: Seq<(u32, u32)>, i: int) -> bool {
        exists|k: int|
            0 <= k < coordinates.len() && self.index(
                (#[trigger] coordinates[k]).0 as int,
                coordinates[k].1 as int,
            ) == i
    }

    /// The grid in which the cells that `coordinates` names are alive and
    /// every other cell is as in this grid.
    pub open spec fn with_alive(self, coordinates: Seq<(u32, u32)>) -> Grid {
        Grid {
            width: self.width,
            height: self.height,
            cells: Seq::new(
                self.cells.len(),
                |i: int|
                    if self.selects(coordinates, i) {
                        Cell::Alive
                    } else {
                        self.cells[i]
                    },
            ),
        }
    }
}

/// A position inside the grid has a flat index inside the cell sequence.
pub proof fn lemma_index_in_bounds(width: int, height: int, row: int, col: int)
    by (nonlinear_arith)
    requires
        0 <= row < height,
        0 <= col < width,
    ensures
        0 <= row * width + col < width * height,
{
}

/// The flat index of a position gives the position back: its quotient by
/// the width is the row, its remainder the column.
pub proof fn lemma_index_gives_position(width: int, row: int, col: int)
    requires
        0 <= col < width,
    ensures
        (row * width + col) / width == row,
        (row * width + col) % width == col,
{
    lemma_fundamental_div_mod_converse(row * width + col, width, row, col);
}

/// Every flat index inside the cell sequence is the index of a position
/// inside the grid: the one in the row and column that its quotient and
/// remainder by the width name.
pub proof fn lemma_index_has_position(width: int, height: int, i: int)
    requires
        0 < width,
        0 <= i < width * height,
    ensures
        0 <= i / width < height,
        0 <= i % width < width,
        (i / width) * width + i % width == i,
{
    lemma_fundamental_div_mod(i, width);
    lemma_mod_bound(i, width);
    lemma_div_pos_is_pos(i, width);
    let q = i / width;
    assert(q < height && q * width == width * q) by (nonlinear_arith)
        requires
            0 < width,
            width * q <= i,
            i < width * height,
    ;
}

} // verus!
