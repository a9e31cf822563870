use game_of_life::cell::{Cell, State};
use game_of_life::cell_buffer::{CellBuffer, ENTROPY_DENOMINATOR, ENTROPY_NUMERATOR};

fn grid_with(size: usize, alive: &[(usize, usize)]) -> CellBuffer {
    let mut grid = CellBuffer::with_size(size);
    for &(x, y) in alive {
        grid.set(x, y, State::Alive);
    }
    grid
}

fn states(grid: &CellBuffer) -> Vec<State> {
    grid.iter().into_iter().map(|cell| cell.state).collect()
}

#[test]
fn with_size_is_all_dead() {
    let grid = CellBuffer::with_size(4);
    assert_eq!(grid.size(), 4);
    let cells = grid.iter();
    assert_eq!(cells.len(), 16);
    for cell in cells {
        assert_eq!(cell.state, State::Dead);
        assert_eq!(cell.live_neighbors, 0);
    }
}

#[test]
fn with_size_zero_is_an_empty_grid() {
    let mut grid = CellBuffer::with_size(0);
    assert_eq!(grid.size(), 0);
    assert!(grid.iter().is_empty());
    assert_eq!(grid.get(0, 0), State::Dead);
    grid.set(0, 0, State::Alive);
    assert_eq!(grid.get(0, 0), State::Dead);
    assert_eq!(grid.get_alive_neighbours(0, 0), 0);
}

#[test]
fn set_then_get_reads_the_written_state() {
    let mut grid = CellBuffer::with_size(3);
    grid.set(2, 1, State::Alive);
    assert_eq!(grid.get(2, 1), State::Alive);
    assert_eq!(grid.get(1, 2), State::Dead);
    assert_eq!(
        states(&grid),
        vec![
            State::Dead,
            State::Dead,
            State::Dead,
            State::Dead,
            State::Dead,
            State::Alive,
            State::Dead,
            State::Dead,
            State::Dead,
        ]
    );
    grid.set(2, 1, State::Dead);
    assert_eq!(grid.get(2, 1), State::Dead);
}

#[test]
fn get_outside_the_grid_is_dead() {
    let grid = grid_with(3, &[(0, 0), (1, 0), (2, 0), (0, 1), (1, 1), (2, 1), (0, 2), (1, 2), (2, 2)]);
    assert_eq!(grid.get(3, 0), State::Dead);
    assert_eq!(grid.get(0, 3), State::Dead);
    assert_eq!(grid.get(3, 3), State::Dead);
    assert_eq!(grid.get(usize::MAX, 0), State::Dead);
    assert_eq!(grid.get(0, usize::MAX), State::Dead);
    assert_eq!(grid.get(usize::MAX, usize::MAX), State::Dead);
}

#[test]
fn set_outside_the_grid_changes_nothing() {
    let mut grid = grid_with(3, &[(1, 1)]);
    let before = grid.iter();
    grid.set(3, 0, State::Alive);
    grid.set(0, 3, State::Alive);
    grid.set(3, 1, State::Alive);
    grid.set(usize::MAX, usize::MAX, State::Alive);
    grid.set(usize::MAX, 1, State::Alive);
    assert_eq!(grid.iter(), before);
}

#[test]
fn a_column_past_the_edge_does_not_wrap_into_the_next_row() {
    let mut grid = CellBuffer::with_size(3);
    grid.set(3, 0, State::Alive);
    assert_eq!(grid.get(0, 1), State::Dead);
    grid.set(0, 1, State::Alive);
    assert_eq!(grid.get(3, 0), State::Dead);
}

#[test]
fn neighbours_of_two_live_cells_on_a_diagonal() {
    let grid = grid_with(3, &[(0, 0), (1, 1)]);
    assert_eq!(grid.get_alive_neighbours(0, 0), 1);
    assert_eq!(grid.get_alive_neighbours(1, 1), 1);
    assert_eq!(grid.get_alive_neighbours(2, 2), 1);
    assert_eq!(grid.get_alive_neighbours(1, 0), 2);
}

#[test]
fn neighbour_count_reaches_eight_and_skips_the_centre() {
    let mut grid = grid_with(3, &[(0, 0), (1, 0), (2, 0), (0, 1), (1, 1), (2, 1), (0, 2), (1, 2), (2, 2)]);
    assert_eq!(grid.get_alive_neighbours(1, 1), 8);
    grid.set(1, 1, State::Dead);
    assert_eq!(grid.get_alive_neighbours(1, 1), 8);
    assert_eq!(grid.get_alive_neighbours(0, 0), 2);
    assert_eq!(grid.get_alive_neighbours(1, 0), 4);
}

#[test]
fn neighbour_count_sees_both_sides_of_an_inner_cell() {
    let grid = grid_with(5, &[(1, 1), (3, 3), (1, 3), (3, 1)]);
    assert_eq!(grid.get_alive_neighbours(2, 2), 4);
    let grid = grid_with(5, &[(1, 2), (3, 2), (2, 1), (2, 3)]);
    assert_eq!(grid.get_alive_neighbours(2, 2), 4);
}

#[test]
fn neighbour_count_far_outside_the_grid_is_zero() {
    let grid = grid_with(2, &[(0, 0), (1, 0), (0, 1), (1, 1)]);
    assert_eq!(grid.get_alive_neighbours(usize::MAX, usize::MAX), 0);
    assert_eq!(grid.get_alive_neighbours(usize::MAX, 0), 0);
    assert_eq!(grid.get_alive_neighbours(0, usize::MAX), 0);
    assert_eq!(grid.get_alive_neighbours(2, 2), 1);
    assert_eq!(grid.get_alive_neighbours(2, 0), 2);
    assert_eq!(grid.get_alive_neighbours(3, 0), 0);
}

#[test]
fn iter_is_row_major_with_neighbour_counts() {
    let grid = grid_with(2, &[(1, 0)]);
    assert_eq!(
        grid.iter(),
        vec![
            Cell { x: 0, y: 0, state: State::Dead, live_neighbors: 1 },
            Cell { x: 1, y: 0, state: State::Alive, live_neighbors: 0 },
            Cell { x: 0, y: 1, state: State::Dead, live_neighbors: 1 },
            Cell { x: 1, y: 1, state: State::Dead, live_neighbors: 1 },
        ]
    );
}

#[test]
fn iter_twice_gives_the_same_cells() {
    let grid = grid_with(4, &[(0, 0), (1, 2), (3, 3), (2, 2)]);
    let first = grid.iter();
    let second = grid.iter();
    assert_eq!(first, second);
    assert_eq!(first.len(), 16);
}

#[test]
fn copy_into_duplicates_the_contents() {
    let source = grid_with(3, &[(0, 0), (2, 1)]);
    let mut destination = grid_with(3, &[(1, 1), (2, 2)]);
    source.copy_into(&mut destination);
    assert_eq!(destination.iter(), source.iter());
    assert_eq!(destination.get(1, 1), State::Dead);
    assert_eq!(destination.get(2, 1), State::Alive);
}

#[test]
fn copy_into_is_deep() {
    let mut source = grid_with(3, &[(0, 0), (2, 1)]);
    let mut destination = CellBuffer::with_size(3);
    source.copy_into(&mut destination);
    let copied = destination.iter();
    source.set(1, 1, State::Alive);
    source.set(0, 0, State::Dead);
    assert_eq!(destination.iter(), copied);
    assert_eq!(destination.get(1, 1), State::Dead);
    assert_eq!(destination.get(0, 0), State::Alive);
    assert_eq!(source.get(1, 1), State::Alive);
    assert_eq!(source.get(0, 0), State::Dead);
}

#[test]
fn from_draws_fills_in_row_major_order() {
    let grid = CellBuffer::from_draws(2, &vec![true, false, false, true]);
    assert_eq!(states(&grid), vec![State::Alive, State::Dead, State::Dead, State::Alive]);
    assert_eq!(grid.get(0, 0), State::Alive);
    assert_eq!(grid.get(1, 1), State::Alive);
    assert_eq!(grid.get(1, 0), State::Dead);
}

#[test]
fn from_draws_takes_missing_draws_as_dead_and_drops_the_rest() {
    let short = CellBuffer::from_draws(2, &vec![true, true]);
    assert_eq!(states(&short), vec![State::Alive, State::Alive, State::Dead, State::Dead]);
    let long = CellBuffer::from_draws(1, &vec![false, true, true]);
    assert_eq!(states(&long), vec![State::Dead]);
    let none = CellBuffer::from_draws(2, &Vec::new());
    assert_eq!(states(&none), vec![State::Dead; 4]);
}

#[test]
fn with_density_zero_is_all_dead() {
    let grid = CellBuffer::with_density(6, 0, 60);
    assert_eq!(grid.size(), 6);
    assert_eq!(states(&grid), vec![State::Dead; 36]);
}

#[test]
fn with_density_one_is_all_alive() {
    let grid = CellBuffer::with_density(6, 60, 60);
    assert_eq!(grid.size(), 6);
    assert_eq!(states(&grid), vec![State::Alive; 36]);
}

#[test]
fn with_density_draws_every_cell_on_its_own() {
    let grid = CellBuffer::with_density(40, 1, 2);
    let alive = states(&grid).into_iter().filter(|state| *state == State::Alive).count();
    assert_eq!(grid.iter().len(), 1600);
    assert!(alive > 0);
    assert!(alive < 1600);
}

#[test]
fn with_entropy_has_the_given_size() {
    assert_eq!(ENTROPY_NUMERATOR, 7);
    assert_eq!(ENTROPY_DENOMINATOR, 60);
    let grid = CellBuffer::with_entropy(50);
    assert_eq!(grid.size(), 50);
    let cells = grid.iter();
    assert_eq!(cells.len(), 2500);
    let alive = cells.iter().filter(|cell| cell.state == State::Alive).count();
    assert!(alive > 0);
    assert!(alive < 2500);
}
