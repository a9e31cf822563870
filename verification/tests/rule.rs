use game_of_life::cell::{Cell, State};

#[test]
fn live_cell_with_fewer_than_two_neighbours_dies() {
    assert_eq!(State::Alive.update(0), Some(State::Dead));
    assert_eq!(State::Alive.update(1), Some(State::Dead));
}

#[test]
fn live_cell_with_two_or_three_neighbours_stays() {
    assert_eq!(State::Alive.update(2), None);
    assert_eq!(State::Alive.update(3), None);
}

#[test]
fn live_cell_with_more_than_three_neighbours_dies() {
    for n in 4..=8u8 {
        assert_eq!(State::Alive.update(n), Some(State::Dead));
    }
    assert_eq!(State::Alive.update(255), Some(State::Dead));
}

#[test]
fn dead_cell_with_three_neighbours_is_born() {
    assert_eq!(State::Dead.update(3), Some(State::Alive));
}

#[test]
fn dead_cell_without_three_neighbours_stays() {
    for n in [0u8, 1, 2, 4, 5, 6, 7, 8, 255] {
        assert_eq!(State::Dead.update(n), None);
    }
}

#[test]
fn cells_compare_by_all_fields() {
    let cell = Cell { x: 1, y: 2, state: State::Alive, live_neighbors: 3 };
    assert_eq!(cell, Cell { x: 1, y: 2, state: State::Alive, live_neighbors: 3 });
    assert_ne!(cell, Cell { x: 1, y: 2, state: State::Dead, live_neighbors: 3 });
    assert_ne!(cell, Cell { x: 1, y: 2, state: State::Alive, live_neighbors: 2 });
    assert_ne!(cell, Cell { x: 2, y: 1, state: State::Alive, live_neighbors: 3 });
}
