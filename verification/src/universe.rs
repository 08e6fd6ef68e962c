//! The universe: grid dimensions, the cell buffer, and the operations that
//! create it, advance it by one generation, edit it and render it.

use crate::cells::Cell;
use crate::error::{dimension_error, UniverseError};
use crate::grid::{lemma_index_gives_position, lemma_index_in_bounds, seed_cell, Grid};
use vstd::arithmetic::div_mod::lemma_mod_bound;
use vstd::prelude::*;

verus! {

/// The `k`-th of the three offsets that are tried along a dimension of size `n`.
spec fn offset(n: nat, k: int) -> int {
    if k == 0 {
        n - 1
    } else if k == 1 {
        0
    } else {
        1
    }
}

/// What the `k`-th of the nine pairs of offsets, taken row by row, adds to
/// the neighbor count of `(row, col)`.
spec fn term(grid: Grid, row: int, col: int, k: int) -> int {
    grid.neighbor_value(row, col, offset(grid.height, k / 3), offset(grid.width, k % 3))
}

/// The sum of what the first `k` pairs of offsets add.
spec fn partial_count(grid: Grid, row: int, col: int, k: int) -> int
    decreases k,
{
    if k <= 0 {
        0
    } else {
        partial_count(grid, row, col, k - 1) + term(grid, row, col, k - 1)
    }
}

/// All nine pairs together give the neighbor count.
proof fn lemma_partial_count_full(grid: Grid, row: int, col: int)
    ensures
        partial_count(grid, row, col, 9) == grid.live_neighbor_count(row, col),
{
    reveal_with_fuel(partial_count, 10);
}

/// The Game of Life universe.
pub struct Universe {
    /// The width of the universe.
    width: u32,
    /// The height of the universe.
    height: u32,
    /// The cells of the universe of length `width * height`.
    cells: Vec<Cell>,
}

impl View for Universe {
    type V = Grid;

    closed spec fn view(&self) -> Grid {
        Grid { width: self.width as nat, height: self.height as nat, cells: self.cells@ }
    }
}

impl Universe {
    /// The universe holds a well-formed grid whose number of cells fits in 32 bits.
    #[verifier::type_invariant]
    pub open spec fn wf(&self) -> bool {
        &&& self@.wf()
        &&& self@.width * self@.height <= u32::MAX
    }

    /// Create a new universe with the given width and height, in its
    /// initial pattern.
    ///
    /// Both dimensions must be positive and the number of cells must fit in
    /// 32 bits; [`Universe::try_new`] tests that for the caller.
    pub fn new(width: u32, height: u32) -> (universe: Universe)
        requires
            width > 0,
            height > 0,
            width * height <= u32::MAX,
        ensures
            universe.wf(),
            universe@.cells.len() == width * height,
            universe@ == Grid::seeded(width as nat, height as nat),
    {
        let len: u32 = width * height;
        let mut cells: Vec<Cell> = Vec::new();
        let mut i: u32 = 0;
        while i < len
            invariant
                i <= len,
                cells@.len() == i,
                forall|k: int| 0 <= k < i ==> cells@[k] == seed_cell(k),
            decreases len - i,
        {
            let cell = if i % 2 == 0 || i % 7 == 0 {
                Cell::Alive
            } else {
                Cell::Dead
            };
            cells.push(cell);
            i += 1;
        }
        let universe = Universe { width, height, cells };
        assert(universe@.cells =~= Grid::seeded(width as nat, height as nat).cells);
        universe
    }

    /// The index into the cells vector of the cell at a given row and
    /// column.
    fn get_index(&self, row: u32, column: u32) -> (idx: usize)
        requires
            self@.contains(row as int, column as int),
        ensures
            idx == self@.index(row as int, column as int),
            idx < self@.cells.len(),
    {
        proof {
            use_type_invariant(self);
            lemma_index_in_bounds(
                self.width as int,
                self.height as int,
                row as int,
                column as int,
            );
        }
        (row * self.width + column) as usize
    }

    /// Get the count of how many neighbors of the cell at a given row and
    /// column are alive, to determine the next state of the cell.
    ///
    /// The neighbors are found by adding `height - 1`, `0` or `1` to the
    /// row and `width - 1`, `0` or `1` to the column, and wrapping the sums
    /// around the edges. The sums are formed in 64 bits, where they cannot
    /// overflow.
    pub fn live_neighbor_count(&self, row: u32, column: u32) -> (count: u8)
        requires
            self@.contains(row as int, column as int),
        ensures
            count == self@.live_neighbor_count(row as int, column as int),
            count <= 8,
    {
        proof {
            use_type_invariant(self);
        }
        let delta_rows: [u32; 3] = [self.height - 1, 0, 1];
        let delta_cols: [u32; 3] = [self.width - 1, 0, 1];
        let mut count: u8 = 0;
        let mut i: usize = 0;
        while i < 3
            invariant
                self.wf(),
                self@.contains(row as int, column as int),
                i <= 3,
                forall|k: int| 0 <= k < 3 ==> delta_rows[k] == offset(self@.height, k),
                forall|k: int| 0 <= k < 3 ==> delta_cols[k] == offset(self@.width, k),
                count == partial_count(self@, row as int, column as int, 3 * i),
                count <= 3 * i,
            decreases 3 - i,
        {
            let delta_row = delta_rows[i];
            let mut j: usize = 0;
            while j < 3
                invariant
                    self.wf(),
                    self@.contains(row as int, column as int),
                    i < 3,
                    j <= 3,
                    delta_row == offset(self@.height, i as int),
                    forall|k: int| 0 <= k < 3 ==> delta_cols[k] == offset(self@.width, k),
                    count == partial_count(self@, row as int, column as int, 3 * i + j),
                    count <= 3 * i + j,
                decreases 3 - j,
            {
                let delta_col = delta_cols[j];
                if !(delta_row == 0 && delta_col == 0) {
                    let neighbor_row = ((row as u64 + delta_row as u64) % (self.height as u64)) as u32;
                    let neighbor_col = ((column as u64 + delta_col as u64) % (self.width as u64)) as u32;
                    proof {
                        lemma_mod_bound(row + delta_row, self.height as int);
                        lemma_mod_bound(column + delta_col, self.width as int);
                    }
                    let idx = self.get_index(neighbor_row, neighbor_col);
                    count += self.cells[idx].to_u8();
                }
                assert(term(self@, row as int, column as int, 3 * i + j) == partial_count(
                    self@,
                    row as int,
                    column as int,
                    3 * i + j + 1,
                ) - partial_count(self@, row as int, column as int, 3 * i + j));
                j += 1;
            }
            i += 1;
        }
        proof {
            lemma_partial_count_full(self@, row as int, column as int);
        }
        count
    }

    /// Advance the universe by one generation.
    ///
    /// The rules are:
    ///
    /// - Any live cell with fewer than two live neighbours dies, as if
    ///   caused by underpopulation.
    /// - Any live cell with two or three live neighbours lives on to the
    ///   next generation.
    /// - Any live cell with more than three live neighbours dies, as if by
    ///   overpopulation.
    /// - Any dead cell with exactly three live neighbours becomes a live
    ///   cell, as if by reproduction.
    /// - All other cells remain in the same state.
    ///
    /// Every next state is computed from the current generation: the new
    /// cells are collected in a second buffer that replaces the old one at
    /// the end.
    pub fn tick(&mut self)
        ensures
            final(self).wf(),
            final(self)@ == old(self)@.step(),
    {
        proof {
            use_type_invariant(&*self);
        }
        let mut next = self.cells.clone();

        let mut row: u32 = 0;
        while row < self.height
            invariant
                *self == *old(self),
                self.wf(),
                row <= self.height,
                next@.len() == self@.cells.len(),
                forall|i: int|
                    0 <= i < next@.len() && i < row * self.width ==> next@[i]
                        == self@.step().cells[i],
            decreases self.height - row,
        {
            let mut col: u32 = 0;
            while col < self.width
                invariant
                    *self == *old(self),
                    self.wf(),
                    row < self.height,
                    col <= self.width,
                    next@.len() == self@.cells.len(),
                    forall|i: int|
                        0 <= i < next@.len() && i < row * self.width + col ==> next@[i]
                            == self@.step().cells[i],
                decreases self.width - col,
            {
                let idx = self.get_index(row, col);
                let cell = self.cells[idx];
                let live_neighbors = self.live_neighbor_count(row, col);

                let next_cell = match (cell, live_neighbors) {
                    // Any live cell with fewer than two live neighbours
                    // dies, as if caused by underpopulation.
                    (Cell::Alive, x) if x < 2 => Cell::Dead,
                    // Any live cell with two or three live neighbours
                    // lives on to the next generation.
                    (Cell::Alive, 2) | (Cell::Alive, 3) => Cell::Alive,
                    // Any live cell with more than three live
                    // neighbours dies, as if by overpopulation.
                    (Cell::Alive, x) if x > 3 => Cell::Dead,
                    // Any dead cell with exactly three live neighbours
                    // becomes a live cell, as if by reproduction.
                    (Cell::Dead, 3) => Cell::Alive,
                    // All other cells remain in the same state.
                    (otherwise, _) => otherwise,
                };
                proof {
                    lemma_index_gives_position(self.width as int, row as int, col as int);
                }
                next[idx] = next_cell;
                col += 1;
            }
            assert((row + 1) * self.width == row * self.width + self.width) by (nonlinear_arith);
            row += 1;
        }
        assert(row * self.width == self.width * self.height) by (nonlinear_arith)
            requires
                row == self.height,
        ;
        assert(next@ =~= self@.step().cells);
        self.cells = next;
    }

    /// Render the universe as a string: one line per row, `◻` for a dead
    /// cell and `◼` for a live one.
    pub fn render(&self) -> (text: String)
        ensures
            text@ == self@.render(),
    {
        proof {
            use_type_invariant(self);
        }
        let mut text = String::new();
        let mut row: u32 = 0;
        while row < self.height
            invariant
                self.wf(),
                row <= self.height,
                text@ == self@.lines(row as nat),
            decreases self.height - row,
        {
            let mut col: u32 = 0;
            while col < self.width
                invariant
                    self.wf(),
                    row < self.height,
                    col <= self.width,
                    text@ == self@.lines(row as nat) + Seq::new(
                        col as nat,
                        |c: int| self@.cell(row as int, c).glyph(),
                    ),
                decreases self.width - col,
            {
                let idx = self.get_index(row, col);
                let symbol = if self.cells[idx] == Cell::Dead {
                    "◻"
                } else {
                    "◼"
                };
                proof {
                    reveal_strlit("◻");
                    reveal_strlit("◼");
                    assert(symbol@ =~= seq![self@.cell(row as int, col as int).glyph()]);
                    assert(Seq::new(col as nat, |c: int| self@.cell(row as int, c).glyph())
                        + symbol@ =~= Seq::new(
                        (col + 1) as nat,
                        |c: int| self@.cell(row as int, c).glyph(),
                    ));
                }
                text.append(symbol);
                col += 1;
            }
            proof {
                reveal_strlit("\n");
                assert(Seq::new(self@.width, |c: int| self@.cell(row as int, c).glyph()) + "\n"@
                    =~= self@.line(row as int));
            }
            text.append("\n");
            row += 1;
        }
        text
    }

    /// Get the width of the universe.
    pub fn width(&self) -> (width: u32)
        ensures
            width == self@.width,
    {
        self.width
    }

    /// Set the width of the universe.
    ///
    /// Resets all cells to dead state, also those of rows and columns that
    /// the universe had before and still has.
    ///
    /// The new width must be positive and the new number of cells must fit
    /// in 32 bits; [`Universe::try_set_width`] tests that for the caller.
    pub fn set_width(&mut self, width: u32)
        requires
            width > 0,
            width * old(self)@.height <= u32::MAX,
        ensures
            final(self).wf(),
            final(self)@.cells.len() == width * old(self)@.height,
            forall|i: int|
                0 <= i < final(self)@.cells.len() ==> final(self)@.cells[i] == Cell::Dead,
            final(self)@ == Grid::dead(width as nat, old(self)@.height),
    {
        proof {
            use_type_invariant(&*self);
        }
        let cells = vec![Cell::Dead; (width * self.height) as usize];
        *self = Universe { width, height: self.height, cells };
        assert(self@.cells =~= Grid::dead(width as nat, old(self)@.height).cells);
    }

    /// Get the height of the universe.
    pub fn height(&self) -> (height: u32)
        ensures
            height == self@.height,
    {
        self.height
    }

    /// Set the height of the universe.
    ///
    /// Resets all cells to dead state, also those of rows and columns that
    /// the universe had before and still has.
    ///
    /// The new height must be positive and the new number of cells must fit
    /// in 32 bits; [`Universe::try_set_height`] tests that for the caller.
    pub fn set_height(&mut self, height: u32)
        requires
            height > 0,
            old(self)@.width * height <= u32::MAX,
        ensures
            final(self).wf(),
            final(self)@.cells.len() == old(self)@.width * height,
            forall|i: int|
                0 <= i < final(self)@.cells.len() ==> final(self)@.cells[i] == Cell::Dead,
            final(self)@ == Grid::dead(old(self)@.width, height as nat),
    {
        proof {
            use_type_invariant(&*self);
        }
        let cells = vec![Cell::Dead; (self.width * height) as usize];
        *self = Universe { width: self.width, height, cells };
        assert(self@.cells =~= Grid::dead(old(self)@.width, height as nat).cells);
    }

    /// Get the entire cells in the universe, row after row, without
    /// copying them.
    pub fn cells(&self) -> (cells: &[Cell])
        ensures
            cells@ == self@.cells,
    {
        self.cells.as_slice()
    }

    /// Get the dead and alive cells in the entire universe.
    pub fn get_cells(&self) -> (cells: &[Cell])
        ensures
            cells@ == self@.cells,
    {
        self.cells.as_slice()
    }

    /// Set cells to be alive in a universe by passing the row and column
    /// of each cell as an array. No other cell changes.
    ///
    /// Every pair must name a position of the universe;
    /// [`Universe::try_set_cells`] tests that for the caller.
    pub fn set_cells(&mut self, cells: &[(u32, u32)])
        requires
            old(self)@.contains_all(cells@),
        ensures
            final(self).wf(),
            final(self)@ == old(self)@.with_alive(cells@),
    {
        proof {
            use_type_invariant(&*self);
        }
        let mut n: usize = 0;
        while n < cells.len()
            invariant
                self.wf(),
                n <= cells.len(),
                self@.contains_all(cells@),
                self@.width == old(self)@.width,
                self@.height == old(self)@.height,
                self@.cells == old(self)@.with_alive(cells@.take(n as int)).cells,
            decreases cells.len() - n,
        {
            let (row, col) = cells[n];
            let idx = self.get_index(row, col);
            self.cells[idx] = Cell::Alive;
            proof {
                let before = cells@.take(n as int);
                let after = cells@.take(n + 1);
                assert(after[n as int] == cells@[n as int]);
                assert forall|i: int| 0 <= i < self@.cells.len() implies (old(self)@.selects(
                    after,
                    i,
                ) <==> old(self)@.selects(before, i) || i == idx) by {
                    if old(self)@.selects(before, i) {
                        let k = choose|k: int|
                            0 <= k < before.len() && old(self)@.index(
                                (#[trigger] before[k]).0 as int,
                                before[k].1 as int,
                            ) == i;
                        assert(after[k] == before[k]);
                    }
                    if old(self)@.selects(after, i) && i != idx {
                        let k = choose|k: int|
                            0 <= k < after.len() && old(self)@.index(
                                (#[trigger] after[k]).0 as int,
                                after[k].1 as int,
                            ) == i;
                        assert(before[k] == after[k]);
                    }
                }
                assert(self@.cells =~= old(self)@.with_alive(after).cells);
            }
            n += 1;
        }
        assert(cells@.take(n as int) =~= cells@);
    }

    /// Create a new universe with the given width and height, in its
    /// initial pattern, unless a dimension is zero or there would be more
    /// cells than fit in 32 bits.
    pub fn try_new(width: u32, height: u32) -> (result: Result<Universe, UniverseError>)
        ensures
            result is Ok <==> dimension_error(width as int, height as int) is None,
            match result {
                Ok(universe) => {
                    &&& universe.wf()
                    &&& universe@ == Grid::seeded(width as nat, height as nat)
                },
                Err(error) => dimension_error(width as int, height as int) == Some(error),
            },
    {
        if width == 0 || height == 0 {
            return Err(UniverseError::ZeroDimension);
        }
        match width.checked_mul(height) {
            Some(_) => Ok(Universe::new(width, height)),
            None => Err(UniverseError::TooLarge),
        }
    }

    /// Set the width of the universe and reset all cells to dead state,
    /// unless the new width is zero or there would be more cells than fit in
    /// 32 bits: then the universe stays as it is.
    pub fn try_set_width(&mut self, width: u32) -> (result: Result<(), UniverseError>)
        ensures
            final(self).wf(),
            result is Ok <==> dimension_error(width as int, old(self)@.height as int) is None,
            match result {
                Ok(()) => final(self)@ == Grid::dead(width as nat, old(self)@.height),
                Err(error) => {
                    &&& dimension_error(width as int, old(self)@.height as int) == Some(error)
                    &&& final(self)@ == old(self)@
                },
            },
    {
        proof {
            use_type_invariant(&*self);
        }
        if width == 0 {
            return Err(UniverseError::ZeroDimension);
        }
        match width.checked_mul(self.height) {
            Some(_) => {
                self.set_width(width);
                Ok(())
            },
            None => Err(UniverseError::TooLarge),
        }
    }

    /// Set the height of the universe and reset all cells to dead state,
    /// unless the new height is zero or there would be more cells than fit
    /// in 32 bits: then the universe stays as it is.
    pub fn try_set_height(&mut self, height: u32) -> (result: Result<(), UniverseError>)
        ensures
            final(self).wf(),
            result is Ok <==> dimension_error(old(self)@.width as int, height as int) is None,
            match result {
                Ok(()) => final(self)@ == Grid::dead(old(self)@.width, height as nat),
                Err(error) => {
                    &&& dimension_error(old(self)@.width as int, height as int) == Some(error)
                    &&& final(self)@ == old(self)@
                },
            },
    {
        proof {
            use_type_invariant(&*self);
        }
        if height == 0 {
            return Err(UniverseError::ZeroDimension);
        }
        match self.width.checked_mul(height) {
            Some(_) => {
                self.set_height(height);
                Ok(())
            },
            None => Err(UniverseError::TooLarge),
        }
    }

    /// Set cells to be alive by passing the row and column of each, unless
    /// one of the pairs lies outside the universe: then no cell is changed.
    pub fn try_set_cells(&mut self, cells: &[(u32, u32)]) -> (result: Result<(), UniverseError>)
        ensures
            final(self).wf(),
            result is Ok <==> old(self)@.contains_all(cells@),
            match result {
                Ok(()) => final(self)@ == old(self)@.with_alive(cells@),
                Err(error) => {
                    &&& error == UniverseError::IndexOutOfRange
                    &&& final(self)@ == old(self)@
                },
            },
    {
        proof {
            use_type_invariant(&*self);
        }
        let mut n: usize = 0;
        while n < cells.len()
            invariant
                *self == *old(self),
                self.wf(),
                n <= cells.len(),
                self@.contains_all(cells@.take(n as int)),
            decreases cells.len() - n,
        {
            let (row, col) = cells[n];
            if row >= self.height || col >= self.width {
                assert(!self@.contains(cells@[n as int].0 as int, cells@[n as int].1 as int));
                return Err(UniverseError::IndexOutOfRange);
            }
            assert forall|k: int| 0 <= k < n + 1 implies self@.contains(
                (#[trigger] cells@.take(n + 1)[k]).0 as int,
                cells@.take(n + 1)[k].1 as int,
            ) by {
                if k < n {
                    assert(cells@.take(n + 1)[k] == cells@.take(n as int)[k]);
                }
            }
            n += 1;
        }
        assert(cells@.take(n as int) =~= cells@);
        self.set_cells(cells);
        Ok(())
    }
}

} // verus!
