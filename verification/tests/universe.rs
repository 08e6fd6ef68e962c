use game_of_life::{Cell, Universe, UniverseError};

/// A universe of the given size in which every cell is dead.
fn dead_universe(width: u32, height: u32) -> Universe {
    let mut universe = Universe::new(width, height);
    universe.set_width(width);
    universe
}

/// A universe of the given size in which exactly the given cells are alive.
fn universe_with(width: u32, height: u32, alive: &[(u32, u32)]) -> Universe {
    let mut universe = dead_universe(width, height);
    universe.set_cells(alive);
    universe
}

/// The `(row, column)` pairs of the live cells, in row-major order.
fn live_cells(universe: &Universe) -> Vec<(u32, u32)> {
    let width = universe.width();
    let mut alive = Vec::new();
    for (i, cell) in universe.get_cells().iter().enumerate() {
        if *cell == Cell::Alive {
            alive.push((i as u32 / width, i as u32 % width));
        }
    }
    alive
}

#[test]
fn cell_to_u8_is_zero_or_one() {
    assert_eq!(Cell::Dead.to_u8(), 0);
    assert_eq!(Cell::Alive.to_u8(), 1);
}

#[test]
fn new_has_one_cell_per_position() {
    for (width, height) in [(1u32, 1u32), (1, 9), (9, 1), (4, 3), (5, 5), (64, 64), (7, 13)] {
        let universe = Universe::new(width, height);
        assert_eq!(universe.width(), width);
        assert_eq!(universe.height(), height);
        assert_eq!(universe.get_cells().len(), (width * height) as usize);
        assert_eq!(universe.cells().len(), (width * height) as usize);
    }
}

#[test]
fn new_seeds_multiples_of_two_and_seven() {
    let universe = Universe::new(5, 5);
    let cells = universe.get_cells();
    for i in 0..25usize {
        let expected = if i % 2 == 0 || i % 7 == 0 { Cell::Alive } else { Cell::Dead };
        assert_eq!(cells[i], expected, "cell {}", i);
    }
    assert_eq!(cells[0], Cell::Alive);
    assert_eq!(cells[1], Cell::Dead);
    assert_eq!(cells[7], Cell::Alive);
    assert_eq!(cells[9], Cell::Dead);
    assert_eq!(cells[21], Cell::Alive);
    assert_eq!(cells[23], Cell::Dead);
}

#[test]
fn new_is_deterministic() {
    let first = Universe::new(16, 9);
    let second = Universe::new(16, 9);
    assert_eq!(first.get_cells(), second.get_cells());
    assert_eq!(first.render(), second.render());
}

#[test]
fn cells_and_get_cells_show_the_same_buffer() {
    let universe = Universe::new(6, 4);
    assert_eq!(universe.cells(), universe.get_cells());
    assert_eq!(universe.cells().as_ptr(), universe.get_cells().as_ptr());
}

#[test]
fn tick_keeps_an_all_dead_universe_dead() {
    for (width, height) in [(1u32, 1u32), (1, 4), (4, 1), (2, 2), (3, 3), (8, 8), (13, 5)] {
        let mut universe = dead_universe(width, height);
        universe.tick();
        assert_eq!(universe.width(), width);
        assert_eq!(universe.height(), height);
        assert_eq!(universe.get_cells().len(), (width * height) as usize);
        assert!(universe.get_cells().iter().all(|cell| *cell == Cell::Dead));
    }
}

#[test]
fn block_is_a_still_life() {
    let block = [(1, 1), (1, 2), (2, 1), (2, 2)];
    let mut universe = universe_with(6, 6, &block);
    let before = universe.get_cells().to_vec();
    universe.tick();
    assert_eq!(universe.get_cells(), &before[..]);
    assert_eq!(live_cells(&universe), block.to_vec());
    universe.tick();
    assert_eq!(universe.get_cells(), &before[..]);
}

#[test]
fn block_across_the_edges_is_a_still_life() {
    let block = [(0, 0), (0, 4), (3, 0), (3, 4)];
    let mut universe = universe_with(5, 4, &block);
    let before = universe.get_cells().to_vec();
    universe.tick();
    assert_eq!(universe.get_cells(), &before[..]);
}

#[test]
fn block_on_a_three_by_three_universe_is_a_still_life() {
    for top in 0..3u32 {
        for left in 0..3u32 {
            let block =
                [(top, left), (top, (left + 1) % 3), ((top + 1) % 3, left), ((top + 1) % 3, (left + 1) % 3)];
            let mut universe = universe_with(3, 3, &block);
            let before = universe.get_cells().to_vec();
            universe.tick();
            assert_eq!(universe.get_cells(), &before[..], "block at ({}, {})", top, left);
        }
    }
}

#[test]
fn block_on_a_two_wide_universe_dies() {
    // Two columns are too few: each column meets the other on both sides,
    // so every live cell counts five live neighbors.
    let mut universe = universe_with(2, 4, &[(1, 0), (1, 1), (2, 0), (2, 1)]);
    assert_eq!(universe.live_neighbor_count(1, 0), 5);
    universe.tick();
    assert_eq!(universe.get_cells()[1 * 2 + 0], Cell::Dead);
}

#[test]
fn block_neighbor_counts_follow_the_rule_table() {
    let universe = universe_with(6, 6, &[(1, 1), (1, 2), (2, 1), (2, 2)]);
    // every live cell of the block sees the three others
    for (row, col) in [(1, 1), (1, 2), (2, 1), (2, 2)] {
        assert_eq!(universe.live_neighbor_count(row, col), 3);
    }
    // dead cells at a corner of the block see one, those along a side two
    assert_eq!(universe.live_neighbor_count(0, 0), 1);
    assert_eq!(universe.live_neighbor_count(0, 3), 1);
    assert_eq!(universe.live_neighbor_count(3, 0), 1);
    assert_eq!(universe.live_neighbor_count(3, 3), 1);
    assert_eq!(universe.live_neighbor_count(0, 1), 2);
    assert_eq!(universe.live_neighbor_count(1, 0), 2);
    assert_eq!(universe.live_neighbor_count(3, 2), 2);
    assert_eq!(universe.live_neighbor_count(2, 3), 2);
    // cells far from the block see none
    assert_eq!(universe.live_neighbor_count(4, 4), 0);
    assert_eq!(universe.live_neighbor_count(5, 5), 0);
}

#[test]
fn glider_moves_one_cell_diagonally_in_four_ticks() {
    let glider = [(0, 1), (1, 2), (2, 0), (2, 1), (2, 2)];
    let mut universe = universe_with(8, 8, &glider);
    for _ in 0..4 {
        universe.tick();
    }
    let shifted: Vec<(u32, u32)> = glider.iter().map(|&(row, col)| (row + 1, col + 1)).collect();
    assert_eq!(live_cells(&universe), shifted);
}

#[test]
fn glider_comes_back_around_the_torus() {
    let glider = [(0, 1), (1, 2), (2, 0), (2, 1), (2, 2)];
    let mut universe = universe_with(8, 8, &glider);
    let start = universe.get_cells().to_vec();
    for shift in 1..=8u32 {
        for _ in 0..4 {
            universe.tick();
        }
        let mut expected: Vec<(u32, u32)> =
            glider.iter().map(|&(row, col)| ((row + shift) % 8, (col + shift) % 8)).collect();
        expected.sort();
        assert_eq!(live_cells(&universe), expected, "after {} ticks", 4 * shift);
    }
    assert_eq!(universe.get_cells(), &start[..]);
}

#[test]
fn glider_moves_on_the_smallest_universe_that_holds_it() {
    let glider = [(0u32, 1u32), (1, 2), (2, 0), (2, 1), (2, 2)];
    for top in 0..5u32 {
        for left in 0..5u32 {
            let placed: Vec<(u32, u32)> =
                glider.iter().map(|&(row, col)| ((row + top) % 5, (col + left) % 5)).collect();
            let mut universe = universe_with(5, 5, &placed);
            for _ in 0..4 {
                universe.tick();
            }
            let mut expected: Vec<(u32, u32)> = glider
                .iter()
                .map(|&(row, col)| ((row + top + 1) % 5, (col + left + 1) % 5))
                .collect();
            expected.sort();
            assert_eq!(live_cells(&universe), expected, "glider at ({}, {})", top, left);
        }
    }
}

#[test]
fn glider_passes_through_its_four_phases() {
    let mut universe = universe_with(6, 7, &[(0, 1), (1, 2), (2, 0), (2, 1), (2, 2)]);
    universe.tick();
    assert_eq!(live_cells(&universe), vec![(1, 0), (1, 2), (2, 1), (2, 2), (3, 1)]);
    universe.tick();
    assert_eq!(live_cells(&universe), vec![(1, 2), (2, 0), (2, 2), (3, 1), (3, 2)]);
    universe.tick();
    assert_eq!(live_cells(&universe), vec![(1, 1), (2, 2), (2, 3), (3, 1), (3, 2)]);
    universe.tick();
    assert_eq!(live_cells(&universe), vec![(1, 2), (2, 3), (3, 1), (3, 2), (3, 3)]);
}

#[test]
fn glider_returns_on_a_universe_that_is_not_square() {
    // 5 columns, 6 rows: the glider is back after 4 * 30 generations, and
    // after 4 * k generations it lies k rows down and k columns right.
    let glider = [(0u32, 1u32), (1, 2), (2, 0), (2, 1), (2, 2)];
    let mut universe = universe_with(5, 6, &glider);
    let start = universe.get_cells().to_vec();
    for k in 1..=30u32 {
        for _ in 0..4 {
            universe.tick();
        }
        let mut expected: Vec<(u32, u32)> =
            glider.iter().map(|&(row, col)| ((row + k) % 6, (col + k) % 5)).collect();
        expected.sort();
        assert_eq!(live_cells(&universe), expected, "after {} generations", 4 * k);
    }
    assert_eq!(universe.get_cells(), &start[..]);
}

#[test]
fn glider_on_a_four_wide_universe_meets_itself() {
    // Four columns are too few: after four generations the glider is not
    // the glider it was, one cell further.
    let glider = [(0u32, 1u32), (1, 2), (2, 0), (2, 1), (2, 2)];
    let mut universe = universe_with(4, 8, &glider);
    for _ in 0..4 {
        universe.tick();
    }
    let mut shifted: Vec<(u32, u32)> =
        glider.iter().map(|&(row, col)| ((row + 1) % 8, (col + 1) % 4)).collect();
    shifted.sort();
    assert_ne!(live_cells(&universe), shifted);
}

#[test]
fn blinker_oscillates_with_period_two() {
    let mut universe = universe_with(5, 5, &[(2, 1), (2, 2), (2, 3)]);
    universe.tick();
    assert_eq!(live_cells(&universe), vec![(1, 2), (2, 2), (3, 2)]);
    universe.tick();
    assert_eq!(live_cells(&universe), vec![(2, 1), (2, 2), (2, 3)]);
}

#[test]
fn live_cell_with_fewer_than_two_neighbors_dies() {
    let mut alone = universe_with(5, 5, &[(2, 2)]);
    assert_eq!(alone.live_neighbor_count(2, 2), 0);
    alone.tick();
    assert_eq!(live_cells(&alone), vec![]);

    let mut pair = universe_with(5, 5, &[(2, 2), (2, 3)]);
    assert_eq!(pair.live_neighbor_count(2, 2), 1);
    pair.tick();
    assert_eq!(live_cells(&pair), vec![]);
}

#[test]
fn live_cell_with_two_or_three_neighbors_lives_on() {
    // the middle of a diagonal of three has two live neighbors
    let mut diagonal = universe_with(6, 6, &[(1, 1), (2, 2), (3, 3)]);
    assert_eq!(diagonal.live_neighbor_count(2, 2), 2);
    diagonal.tick();
    assert_eq!(diagonal.get_cells()[2 * 6 + 2], Cell::Alive);
    assert_eq!(live_cells(&diagonal), vec![(2, 2)]);

    let mut three = universe_with(6, 6, &[(1, 1), (1, 3), (2, 2), (3, 2)]);
    assert_eq!(three.live_neighbor_count(2, 2), 3);
    three.tick();
    assert_eq!(three.get_cells()[2 * 6 + 2], Cell::Alive);
}

#[test]
fn live_cell_with_more_than_three_neighbors_dies() {
    let mut plus = universe_with(7, 7, &[(2, 3), (3, 2), (3, 3), (3, 4), (4, 3)]);
    assert_eq!(plus.live_neighbor_count(3, 3), 4);
    plus.tick();
    assert_eq!(plus.get_cells()[3 * 7 + 3], Cell::Dead);

    let mut full = universe_with(
        7,
        7,
        &[(2, 2), (2, 3), (2, 4), (3, 2), (3, 3), (3, 4), (4, 2), (4, 3), (4, 4)],
    );
    assert_eq!(full.live_neighbor_count(3, 3), 8);
    full.tick();
    assert_eq!(full.get_cells()[3 * 7 + 3], Cell::Dead);
}

#[test]
fn dead_cell_with_exactly_three_neighbors_comes_alive() {
    let mut corner = universe_with(6, 6, &[(1, 1), (1, 2), (2, 1)]);
    assert_eq!(corner.live_neighbor_count(2, 2), 3);
    corner.tick();
    assert_eq!(live_cells(&corner), vec![(1, 1), (1, 2), (2, 1), (2, 2)]);
}

#[test]
fn dead_cell_with_two_or_four_neighbors_stays_dead() {
    let mut two = universe_with(6, 6, &[(1, 1), (3, 3)]);
    assert_eq!(two.live_neighbor_count(2, 2), 2);
    two.tick();
    assert_eq!(two.get_cells()[2 * 6 + 2], Cell::Dead);

    let mut four = universe_with(6, 6, &[(1, 1), (1, 3), (3, 1), (3, 3)]);
    assert_eq!(four.live_neighbor_count(2, 2), 4);
    four.tick();
    assert_eq!(four.get_cells()[2 * 6 + 2], Cell::Dead);
}

#[test]
fn tick_reads_only_the_current_generation() {
    // A row of three turns into a column of three. Updating in place while
    // scanning would let the cell above the middle, born first, be counted
    // as a neighbor of the left end and keep it alive.
    let mut universe = universe_with(5, 5, &[(2, 1), (2, 2), (2, 3)]);
    universe.tick();
    assert_eq!(universe.get_cells()[2 * 5 + 1], Cell::Dead);
    assert_eq!(universe.get_cells()[2 * 5 + 3], Cell::Dead);
    assert_eq!(universe.get_cells()[1 * 5 + 2], Cell::Alive);
    assert_eq!(universe.get_cells()[3 * 5 + 2], Cell::Alive);
}

#[test]
fn tick_of_the_seeded_universe() {
    // 3 x 3 seed: indices 0, 2, 4, 6, 7, 8 are alive.
    let mut universe = Universe::new(3, 3);
    assert_eq!(live_cells(&universe), vec![(0, 0), (0, 2), (1, 1), (2, 0), (2, 1), (2, 2)]);
    // On a 3 x 3 torus every cell neighbors all eight others.
    assert_eq!(universe.live_neighbor_count(0, 0), 5);
    assert_eq!(universe.live_neighbor_count(0, 1), 6);
    assert_eq!(universe.live_neighbor_count(1, 1), 5);
    universe.tick();
    assert_eq!(live_cells(&universe), vec![]);
}

#[test]
fn set_width_resets_every_cell() {
    let mut universe = Universe::new(4, 3);
    universe.set_width(7);
    assert_eq!(universe.width(), 7);
    assert_eq!(universe.height(), 3);
    assert_eq!(universe.get_cells().len(), 21);
    assert!(universe.get_cells().iter().all(|cell| *cell == Cell::Dead));
}

#[test]
fn set_height_resets_every_cell() {
    let mut universe = Universe::new(4, 3);
    universe.set_height(6);
    assert_eq!(universe.width(), 4);
    assert_eq!(universe.height(), 6);
    assert_eq!(universe.get_cells().len(), 24);
    assert!(universe.get_cells().iter().all(|cell| *cell == Cell::Dead));
}

#[test]
fn set_width_to_the_same_width_still_resets() {
    let mut universe = Universe::new(4, 3);
    assert!(universe.get_cells().iter().any(|cell| *cell == Cell::Alive));
    universe.set_width(4);
    assert_eq!(universe.get_cells().len(), 12);
    assert!(universe.get_cells().iter().all(|cell| *cell == Cell::Dead));
}

#[test]
fn set_cells_sets_exactly_the_addressed_cell() {
    let mut universe = dead_universe(5, 5);
    universe.set_cells(&[(1, 2)]);
    let cells = universe.get_cells();
    assert_eq!(cells.len(), 25);
    for i in 0..25usize {
        let expected = if i == 7 { Cell::Alive } else { Cell::Dead };
        assert_eq!(cells[i], expected, "cell {}", i);
    }
}

#[test]
fn set_cells_leaves_other_cells_as_they_are() {
    let mut universe = Universe::new(5, 5);
    let before = universe.get_cells().to_vec();
    universe.set_cells(&[(1, 2), (2, 3), (3, 4), (1, 2), (0, 1)]);
    let cells = universe.get_cells();
    for i in 0..25usize {
        let expected = if i == 7 || i == 13 || i == 19 || i == 1 { Cell::Alive } else { before[i] };
        assert_eq!(cells[i], expected, "cell {}", i);
    }
}

#[test]
fn set_cells_with_no_coordinates_changes_nothing() {
    let mut universe = Universe::new(5, 4);
    let before = universe.get_cells().to_vec();
    universe.set_cells(&[]);
    assert_eq!(universe.get_cells(), &before[..]);
}

#[test]
fn neighbor_count_wraps_around_the_corner() {
    let universe = universe_with(3, 3, &[(0, 0)]);
    assert_eq!(universe.live_neighbor_count(2, 2), 1);
    assert_eq!(universe.live_neighbor_count(0, 0), 0);
    for (row, col) in [(0, 1), (0, 2), (1, 0), (1, 1), (1, 2), (2, 0), (2, 1)] {
        assert_eq!(universe.live_neighbor_count(row, col), 1);
    }
}

#[test]
fn neighbor_count_wraps_around_each_edge() {
    // bottom row sees the top row
    let top = universe_with(5, 4, &[(0, 2)]);
    assert_eq!(top.live_neighbor_count(3, 1), 1);
    assert_eq!(top.live_neighbor_count(3, 2), 1);
    assert_eq!(top.live_neighbor_count(3, 3), 1);
    assert_eq!(top.live_neighbor_count(3, 0), 0);
    assert_eq!(top.live_neighbor_count(2, 2), 0);
    // rightmost column sees the leftmost column
    let left = universe_with(5, 4, &[(2, 0)]);
    assert_eq!(left.live_neighbor_count(1, 4), 1);
    assert_eq!(left.live_neighbor_count(2, 4), 1);
    assert_eq!(left.live_neighbor_count(3, 4), 1);
    assert_eq!(left.live_neighbor_count(0, 4), 0);
    assert_eq!(left.live_neighbor_count(2, 3), 0);
    // and the other way round
    let bottom_right = universe_with(5, 4, &[(3, 4)]);
    assert_eq!(bottom_right.live_neighbor_count(0, 0), 1);
    assert_eq!(bottom_right.live_neighbor_count(0, 4), 1);
    assert_eq!(bottom_right.live_neighbor_count(3, 0), 1);
    assert_eq!(bottom_right.live_neighbor_count(1, 0), 0);
}

#[test]
fn neighbor_count_on_a_single_cell_universe() {
    // With one row and one column every offset leads back to the cell
    // itself; the five pairs of offsets that are not (0, 0) count it.
    let alive = Universe::new(1, 1);
    assert_eq!(alive.get_cells(), &[Cell::Alive]);
    assert_eq!(alive.live_neighbor_count(0, 0), 5);
    let dead = dead_universe(1, 1);
    assert_eq!(dead.live_neighbor_count(0, 0), 0);
}

#[test]
fn neighbor_count_on_a_single_row() {
    // One row, four columns, all alive: left and right count three times
    // each (above, level, below), the cell itself once (below).
    let mut universe = dead_universe(4, 1);
    universe.set_cells(&[(0, 0), (0, 1), (0, 2), (0, 3)]);
    assert_eq!(universe.live_neighbor_count(0, 1), 7);
    let single = universe_with(4, 1, &[(0, 1)]);
    assert_eq!(single.live_neighbor_count(0, 1), 1);
    assert_eq!(single.live_neighbor_count(0, 0), 3);
    assert_eq!(single.live_neighbor_count(0, 2), 3);
    assert_eq!(single.live_neighbor_count(0, 3), 0);
}

#[test]
fn neighbor_count_on_a_two_by_two_universe() {
    // Both offsets along a dimension of size two lead to the same place, so
    // every other cell is counted more than once.
    let universe = universe_with(2, 2, &[(0, 0)]);
    assert_eq!(universe.live_neighbor_count(0, 0), 0);
    assert_eq!(universe.live_neighbor_count(0, 1), 2);
    assert_eq!(universe.live_neighbor_count(1, 0), 2);
    assert_eq!(universe.live_neighbor_count(1, 1), 4);
}

#[test]
fn render_of_a_dead_two_by_two_universe() {
    let universe = dead_universe(2, 2);
    assert_eq!(universe.render(), "◻◻\n◻◻\n");
}

#[test]
fn render_shows_live_cells_row_by_row() {
    let universe = universe_with(3, 2, &[(0, 1), (1, 0), (1, 2)]);
    assert_eq!(universe.render(), "◻◼◻\n◼◻◼\n");
    let seeded = Universe::new(4, 3);
    assert_eq!(seeded.render(), "◼◻◼◻\n◼◻◼◼\n◼◻◼◻\n");
}

#[test]
fn render_of_a_single_cell() {
    assert_eq!(Universe::new(1, 1).render(), "◼\n");
    assert_eq!(dead_universe(1, 1).render(), "◻\n");
}

#[test]
fn try_new_accepts_valid_dimensions() {
    let universe = Universe::try_new(5, 4).unwrap();
    assert_eq!(universe.width(), 5);
    assert_eq!(universe.height(), 4);
    assert_eq!(universe.get_cells(), Universe::new(5, 4).get_cells());
}

#[test]
fn try_new_rejects_a_zero_dimension() {
    assert_eq!(Universe::try_new(0, 5).err(), Some(UniverseError::ZeroDimension));
    assert_eq!(Universe::try_new(5, 0).err(), Some(UniverseError::ZeroDimension));
    assert_eq!(Universe::try_new(0, 0).err(), Some(UniverseError::ZeroDimension));
    assert_eq!(Universe::try_new(0, u32::MAX).err(), Some(UniverseError::ZeroDimension));
}

#[test]
fn try_new_rejects_too_many_cells() {
    assert_eq!(Universe::try_new(65536, 65536).err(), Some(UniverseError::TooLarge));
    assert_eq!(Universe::try_new(u32::MAX, 2).err(), Some(UniverseError::TooLarge));
    assert_eq!(Universe::try_new(u32::MAX, u32::MAX).err(), Some(UniverseError::TooLarge));
}

#[test]
fn try_set_width_resets_or_refuses() {
    let mut universe = Universe::new(4, 3);
    assert_eq!(universe.try_set_width(6), Ok(()));
    assert_eq!(universe.width(), 6);
    assert_eq!(universe.get_cells(), &[Cell::Dead; 18][..]);

    let mut universe = Universe::new(4, 3);
    let before = universe.get_cells().to_vec();
    assert_eq!(universe.try_set_width(0), Err(UniverseError::ZeroDimension));
    assert_eq!(universe.try_set_width(u32::MAX), Err(UniverseError::TooLarge));
    assert_eq!(universe.width(), 4);
    assert_eq!(universe.height(), 3);
    assert_eq!(universe.get_cells(), &before[..]);
}

#[test]
fn try_set_height_resets_or_refuses() {
    let mut universe = Universe::new(4, 3);
    assert_eq!(universe.try_set_height(5), Ok(()));
    assert_eq!(universe.height(), 5);
    assert_eq!(universe.get_cells(), &[Cell::Dead; 20][..]);

    let mut universe = Universe::new(4, 3);
    let before = universe.get_cells().to_vec();
    assert_eq!(universe.try_set_height(0), Err(UniverseError::ZeroDimension));
    assert_eq!(universe.try_set_height(u32::MAX), Err(UniverseError::TooLarge));
    assert_eq!(universe.width(), 4);
    assert_eq!(universe.height(), 3);
    assert_eq!(universe.get_cells(), &before[..]);
}

#[test]
fn try_set_cells_sets_cells_in_range() {
    let mut universe = dead_universe(5, 5);
    assert_eq!(universe.try_set_cells(&[(1, 2), (4, 4)]), Ok(()));
    assert_eq!(live_cells(&universe), vec![(1, 2), (4, 4)]);
}

#[test]
fn try_set_cells_refuses_coordinates_out_of_range() {
    let mut universe = dead_universe(5, 5);
    // the last pair names row 4, column 5 of a 5 x 5 universe
    assert_eq!(
        universe.try_set_cells(&[(1, 2), (2, 3), (3, 4), (4, 5)]),
        Err(UniverseError::IndexOutOfRange)
    );
    assert_eq!(live_cells(&universe), vec![]);
    assert_eq!(universe.try_set_cells(&[(5, 0)]), Err(UniverseError::IndexOutOfRange));
    // column 7 is out of range although 0 * 5 + 7 is an index of the buffer
    assert_eq!(universe.try_set_cells(&[(0, 7)]), Err(UniverseError::IndexOutOfRange));
    assert_eq!(universe.try_set_cells(&[(u32::MAX, u32::MAX)]), Err(UniverseError::IndexOutOfRange));
    assert_eq!(live_cells(&universe), vec![]);
}
