//! What holds of every universe: facts about the step from one generation
//! to the next, proved over the grid that a universe stands for.

use crate::cells::Cell;
use crate::grid::{
    lemma_index_gives_position, lemma_index_has_position, lemma_index_in_bounds, Grid,
};
use crate::patterns::{block_shape, glider_shape, relative};
use vstd::arithmetic::div_mod::{
    lemma_add_mod_noop, lemma_fundamental_div_mod_converse, lemma_mod_add_multiples_vanish,
    lemma_mod_bound, lemma_mod_multiples_vanish, lemma_small_mod,
};
use vstd::prelude::*;

verus! {

/// One if the condition holds, zero if not.
spec fn count_if(condition: bool) -> int {
    if condition {
        1
    } else {
        0
    }
}

/// The cell for which a shape holds is alive, any other dead.
spec fn cell_if(alive: bool) -> Cell {
    if alive {
        Cell::Alive
    } else {
        Cell::Dead
    }
}

/// One step back along a dimension of size `n`, around the edge from the
/// first coordinate to the last.
spec fn back(a: int, n: int) -> int {
    if a == 0 {
        n - 1
    } else {
        a - 1
    }
}

/// One step forth along a dimension of size `n`, around the edge from the
/// last coordinate to the first.
spec fn forth(a: int, n: int) -> int {
    if a == n - 1 {
        0
    } else {
        a + 1
    }
}

/// At how many of the eight positions around `(a, b)`, on a torus of `h`
/// rows and `w` columns, `shape` holds.
spec fn around(shape: spec_fn(int, int) -> bool, a: int, b: int, h: int, w: int) -> int {
    count_if(shape(back(a, h), back(b, w))) + count_if(shape(back(a, h), b)) + count_if(
        shape(back(a, h), forth(b, w)),
    ) + count_if(shape(a, back(b, w))) + count_if(shape(a, forth(b, w))) + count_if(
        shape(forth(a, h), back(b, w)),
    ) + count_if(shape(forth(a, h), b)) + count_if(shape(forth(a, h), forth(b, w)))
}

/// Whether `next_shape` is what the rules make of `shape` at `(a, b)` on a
/// torus of `h` rows and `w` columns.
spec fn follows(
    shape: spec_fn(int, int) -> bool,
    next_shape: spec_fn(int, int) -> bool,
    a: int,
    b: int,
    h: int,
    w: int,
) -> bool {
    next_shape(a, b) == (cell_if(shape(a, b)).next_state(around(shape, a, b, h, w)) == Cell::Alive)
}

/// Wrapping a coordinate that is less than one turn off: below `n` it stays,
/// from `n` on it comes back by `n`.
proof fn lemma_wrap(x: int, n: int)
    requires
        0 < n,
        0 <= x < 2 * n,
    ensures
        x % n == if x < n {
            x
        } else {
            x - n
        },
{
    if x < n {
        lemma_fundamental_div_mod_converse(x, n, 0, x);
    } else {
        lemma_fundamental_div_mod_converse(x, n, 1, x - n);
    }
}

/// A coordinate as seen from an origin, both inside the dimension: the
/// difference, made up by `n` where the coordinate lies before the origin.
proof fn lemma_relative(x: int, origin: int, n: int)
    requires
        0 <= x < n,
        0 <= origin < n,
    ensures
        relative(x, origin, n) == if x >= origin {
            x - origin
        } else {
            x - origin + n
        },
{
    if x >= origin {
        lemma_fundamental_div_mod_converse(x - origin, n, 0, x - origin);
    } else {
        lemma_fundamental_div_mod_converse(x - origin, n, -1, x - origin + n);
    }
}

/// Seen from any origin, the coordinate before `x` is one step back and the
/// coordinate after `x` one step forth.
proof fn lemma_relative_neighbors(x: int, origin: int, n: int)
    requires
        2 <= n,
        0 <= x < n,
        0 <= origin < n,
    ensures
        0 <= (x + (n - 1)) % n < n,
        0 <= (x + 1) % n < n,
        (x + 0) % n == x,
        0 <= relative(x, origin, n) < n,
        relative((x + (n - 1)) % n, origin, n) == back(relative(x, origin, n), n),
        relative((x + 1) % n, origin, n) == forth(relative(x, origin, n), n),
{
    lemma_wrap(x + (n - 1), n);
    lemma_wrap(x + 1, n);
    lemma_wrap(x, n);
    lemma_relative(x, origin, n);
    lemma_relative((x + (n - 1)) % n, origin, n);
    lemma_relative((x + 1) % n, origin, n);
}

/// On a grid with a shape drawn on it, the cell at a position inside the
/// grid is alive exactly if the shape holds of the position as seen from
/// the corner.
proof fn lemma_drawn_cell(
    width: nat,
    height: nat,
    top: int,
    left: int,
    shape: spec_fn(int, int) -> bool,
    row: int,
    col: int,
)
    requires
        0 <= row < height,
        0 <= col < width,
    ensures
        Grid::drawn(width, height, top, left, shape).cell(row, col) == cell_if(
            shape(relative(row, top, height as int), relative(col, left, width as int)),
        ),
{
    lemma_index_in_bounds(width as int, height as int, row, col);
    lemma_index_gives_position(width as int, row, col);
}

/// The rules do not depend on where a shape lies: if `next_shape` follows
/// from `shape` by the rules, position by position on the torus, then a
/// step takes the grid with `shape` drawn at a corner to the grid with
/// `next_shape` drawn at the same corner.
proof fn lemma_step_of_drawn(
    width: nat,
    height: nat,
    top: int,
    left: int,
    shape: spec_fn(int, int) -> bool,
    next_shape: spec_fn(int, int) -> bool,
)
    requires
        width >= 2,
        height >= 2,
        0 <= top < height,
        0 <= left < width,
        forall|a: int, b: int|
            0 <= a < height && 0 <= b < width ==> #[trigger] follows(
                shape,
                next_shape,
                a,
                b,
                height as int,
                width as int,
            ),
    ensures
        Grid::drawn(width, height, top, left, shape).step() == Grid::drawn(
            width,
            height,
            top,
            left,
            next_shape,
        ),
{
    let grid = Grid::drawn(width, height, top, left, shape);
    let next = Grid::drawn(width, height, top, left, next_shape);
    let w = width as int;
    let h = height as int;
    assert forall|i: int| 0 <= i < grid.cells.len() implies grid.step().cells[i]
        == next.cells[i] by {
        lemma_index_has_position(w, h, i);
        let row = i / w;
        let col = i % w;
        lemma_relative_neighbors(row, top, h);
        lemma_relative_neighbors(col, left, w);
        let up = (row + (h - 1)) % h;
        let down = (row + 1) % h;
        let before = (col + (w - 1)) % w;
        let after = (col + 1) % w;
        lemma_drawn_cell(width, height, top, left, shape, up, before);
        lemma_drawn_cell(width, height, top, left, shape, up, col);
        lemma_drawn_cell(width, height, top, left, shape, up, after);
        lemma_drawn_cell(width, height, top, left, shape, row, before);
        lemma_drawn_cell(width, height, top, left, shape, row, col);
        lemma_drawn_cell(width, height, top, left, shape, row, after);
        lemma_drawn_cell(width, height, top, left, shape, down, before);
        lemma_drawn_cell(width, height, top, left, shape, down, col);
        lemma_drawn_cell(width, height, top, left, shape, down, after);
        let a = relative(row, top, h);
        let b = relative(col, left, w);
        assert(grid.cell(row, col) == grid.cells[i]);
        assert(grid.live_neighbor_count(row, col) == around(shape, a, b, h, w));
        assert(follows(shape, next_shape, a, b, h, w));
    }
    assert(grid.step().cells =~= next.cells);
}

/// An all-dead universe stays all dead: a step takes the dead grid of any
/// width and height to itself.
pub proof fn lemma_dead_grid_stays_dead(width: nat, height: nat)
    ensures
        Grid::dead(width, height).step() == Grid::dead(width, height),
{
    let grid = Grid::dead(width, height);
    assert forall|i: int| 0 <= i < grid.cells.len() implies grid.step().cells[i]
        == Cell::Dead by {
        let w = width as int;
        let h = height as int;
        assert(w > 0) by (nonlinear_arith)
            requires
                0 <= i < w * h,
                w >= 0,
        ;
        lemma_index_has_position(w, h, i);
        let row = i / w;
        let col = i % w;
        assert forall|delta_row: int, delta_col: int|
            0 <= delta_row && 0 <= delta_col implies #[trigger] grid.neighbor_value(
            row,
            col,
            delta_row,
            delta_col,
        ) == 0 by {
            lemma_mod_bound(row + delta_row, h);
            lemma_mod_bound(col + delta_col, w);
            lemma_index_in_bounds(w, h, (row + delta_row) % h, (col + delta_col) % w);
        }
        assert(grid.live_neighbor_count(row, col) == 0);
    }
    assert(grid.step().cells =~= grid.cells);
}

/// On a grid with at least two rows and two columns the live neighbor count
/// of a cell is the number of live cells among the eight positions around
/// it: one row up or down, one column left or right, or both, each
/// coordinate taken modulo the height or the width.
pub proof fn lemma_neighbors_surround(grid: Grid, row: int, col: int)
    requires
        grid.wf(),
        grid.width >= 2,
        grid.height >= 2,
        grid.contains(row, col),
    ensures
        grid.live_neighbor_count(row, col) == {
            let h = grid.height as int;
            let w = grid.width as int;
            grid.cell((row - 1) % h, (col - 1) % w).value() + grid.cell(
                (row - 1) % h,
                col,
            ).value() + grid.cell((row - 1) % h, (col + 1) % w).value() + grid.cell(
                row,
                (col - 1) % w,
            ).value() + grid.cell(row, (col + 1) % w).value() + grid.cell(
                (row + 1) % h,
                (col - 1) % w,
            ).value() + grid.cell((row + 1) % h, col).value() + grid.cell(
                (row + 1) % h,
                (col + 1) % w,
            ).value()
        },
{
    let h = grid.height as int;
    let w = grid.width as int;
    lemma_mod_add_multiples_vanish(row - 1, h);
    lemma_mod_add_multiples_vanish(col - 1, w);
    assert((row + (h - 1)) % h == (row - 1) % h);
    assert((col + (w - 1)) % w == (col - 1) % w);
    lemma_small_mod(row as nat, h as nat);
    lemma_small_mod(col as nat, w as nat);
}

/// A block of two by two live cells in an otherwise dead universe is a
/// still life: wherever the block lies, also across an edge, a step leaves
/// the grid as it is, provided that the grid has at least three rows and
/// three columns. With only two, the row above a cell is also the row below
/// it, and the cells of the block would count each other twice.
pub proof fn lemma_block_is_still(width: nat, height: nat, top: int, left: int)
    requires
        width >= 3,
        height >= 3,
        0 <= top < height,
        0 <= left < width,
    ensures
        Grid::block(width, height, top, left).step() == Grid::block(width, height, top, left),
{
    assert forall|a: int, b: int| 0 <= a < height && 0 <= b < width implies #[trigger] follows(
        block_shape(),
        block_shape(),
        a,
        b,
        height as int,
        width as int,
    ) by {}
    lemma_step_of_drawn(width, height, top, left, block_shape(), block_shape());
}

/// Each phase of the glider follows from the one before by the rules, on
/// every torus with at least five rows and five columns.
proof fn lemma_glider_phase(phase: int, a: int, b: int, h: int, w: int)
    requires
        0 <= phase < 4,
        h >= 5,
        w >= 5,
        0 <= a < h,
        0 <= b < w,
    ensures
        follows(glider_shape(phase), glider_shape(phase + 1), a, b, h, w),
{
}

/// A step takes the grid with a glider in one phase to the grid with the
/// glider in the next phase, at the same corner.
proof fn lemma_glider_step(width: nat, height: nat, top: int, left: int, phase: int)
    requires
        width >= 5,
        height >= 5,
        0 <= top < height,
        0 <= left < width,
        0 <= phase < 4,
    ensures
        Grid::drawn(width, height, top, left, glider_shape(phase)).step() == Grid::drawn(
            width,
            height,
            top,
            left,
            glider_shape(phase + 1),
        ),
{
    assert forall|a: int, b: int| 0 <= a < height && 0 <= b < width implies #[trigger] follows(
        glider_shape(phase),
        glider_shape(phase + 1),
        a,
        b,
        height as int,
        width as int,
    ) by {
        lemma_glider_phase(phase, a, b, height as int, width as int);
    }
    lemma_step_of_drawn(width, height, top, left, glider_shape(phase), glider_shape(phase + 1));
}

/// The glider in its first phase, one row down and one column to the right
/// of a corner, is the glider in phase four at that corner.
proof fn lemma_glider_moved(width: nat, height: nat, top: int, left: int)
    requires
        width >= 5,
        height >= 5,
        0 <= top < height,
        0 <= left < width,
    ensures
        Grid::drawn(width, height, top, left, glider_shape(4)) == Grid::glider(
            width,
            height,
            (top + 1) % (height as int),
            (left + 1) % (width as int),
        ),
{
    let w = width as int;
    let h = height as int;
    let moved = Grid::drawn(width, height, top, left, glider_shape(4));
    let shifted = Grid::glider(width, height, (top + 1) % h, (left + 1) % w);
    lemma_wrap(top + 1, h);
    lemma_wrap(left + 1, w);
    assert forall|i: int| 0 <= i < moved.cells.len() implies moved.cells[i]
        == shifted.cells[i] by {
        lemma_index_has_position(w, h, i);
        lemma_relative(i / w, top, h);
        lemma_relative(i % w, left, w);
        lemma_relative(i / w, (top + 1) % h, h);
        lemma_relative(i % w, (left + 1) % w, w);
    }
    assert(moved.cells =~= shifted.cells);
}

/// A glider moves one cell diagonally every four generations: four steps
/// take the grid with a glider at `(top, left)` to the grid with the same
/// glider one row down and one column to the right, around the edges where
/// it reaches them. This holds wherever the glider lies on a grid with at
/// least five rows and five columns, on which the glider does not meet
/// itself.
pub proof fn lemma_glider_moves_diagonally(width: nat, height: nat, top: int, left: int)
    requires
        width >= 5,
        height >= 5,
        0 <= top < height,
        0 <= left < width,
    ensures
        Grid::glider(width, height, top, left).step().step().step().step() == Grid::glider(
            width,
            height,
            (top + 1) % (height as int),
            (left + 1) % (width as int),
        ),
{
    lemma_glider_step(width, height, top, left, 0);
    lemma_glider_step(width, height, top, left, 1);
    lemma_glider_step(width, height, top, left, 2);
    lemma_glider_step(width, height, top, left, 3);
    lemma_glider_moved(width, height, top, left);
}

/// A glider keeps going around the torus: after `4 * k` generations the
/// glider that started at `(top, left)` lies `k` rows further down and `k`
/// columns further to the right, each taken modulo the height or the width.
pub proof fn lemma_glider_travels(width: nat, height: nat, top: int, left: int, k: nat)
    requires
        width >= 5,
        height >= 5,
        0 <= top < height,
        0 <= left < width,
    ensures
        Grid::glider(width, height, top, left).steps(4 * k) == Grid::glider(
            width,
            height,
            (top + k) % (height as int),
            (left + k) % (width as int),
        ),
    decreases k,
{
    let w = width as int;
    let h = height as int;
    let start = Grid::glider(width, height, top, left);
    if k == 0 {
        lemma_small_mod(top as nat, height);
        lemma_small_mod(left as nat, width);
    } else {
        let down = (top + 1) % h;
        let right = (left + 1) % w;
        lemma_glider_moves_diagonally(width, height, top, left);
        lemma_mod_bound(top + 1, h);
        lemma_mod_bound(left + 1, w);
        lemma_glider_travels(width, height, down, right, (k - 1) as nat);
        assert(start.steps(4 * k) == start.step().step().step().step().steps(
            (4 * (k - 1)) as nat,
        )) by {
            reveal_with_fuel(Grid::steps, 5);
        }
        assert((down + (k - 1)) % h == (top + k) % h) by {
            lemma_add_mod_noop(top + 1, k - 1, h);
            lemma_mod_bound(k - 1, h);
            lemma_add_mod_noop(down, k - 1, h);
            lemma_small_mod(down as nat, height);
        }
        assert((right + (k - 1)) % w == (left + k) % w) by {
            lemma_add_mod_noop(left + 1, k - 1, w);
            lemma_mod_bound(k - 1, w);
            lemma_add_mod_noop(right, k - 1, w);
            lemma_small_mod(right as nat, width);
        }
    }
}

/// A glider comes back to where it started: after four generations for
/// every position of the torus, it is the glider it was.
pub proof fn lemma_glider_returns(width: nat, height: nat, top: int, left: int)
    requires
        width >= 5,
        height >= 5,
        0 <= top < height,
        0 <= left < width,
    ensures
        Grid::glider(width, height, top, left).steps(4 * (width * height)) == Grid::glider(
            width,
            height,
            top,
            left,
        ),
{
    let w = width as int;
    let h = height as int;
    lemma_glider_travels(width, height, top, left, width * height);
    assert((top + width * height) % h == top) by {
        lemma_mod_multiples_vanish(w, top, h);
        lemma_small_mod(top as nat, height);
        assert(h * w + top == top + width * height) by (nonlinear_arith)
            requires
                w == width,
                h == height,
        ;
    }
    assert((left + width * height) % w == left) by {
        lemma_mod_multiples_vanish(h, left, w);
        lemma_small_mod(left as nat, width);
    }
}

} // verus!
