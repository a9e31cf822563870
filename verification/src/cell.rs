//! Cell states and the transition rule.

use vstd::prelude::*;

verus! {

/// What a grid position holds.
#[derive(Copy, Clone, Debug, PartialEq, Eq, Structural)]
pub enum State {
    Dead,
    Alive,
}

/// One grid position at a point in time. The neighbour count is derived from
/// the grid whenever a `Cell` is produced; it is never stored in the grid.
#[derive(Copy, Clone, Debug, PartialEq, Eq, Structural)]
pub struct Cell {
    pub x: usize,
    pub y: usize,
    pub state: State,
    pub live_neighbors: u8,
}

/// Conway's rule: a live cell survives with two or three live neighbours, a
/// dead cell comes alive with exactly three, and every other cell is dead in
/// the next generation.
pub open spec fn next_state(state: State, live_neighbors: int) -> State {
    match state {
        State::Alive => if live_neighbors == 2 || live_neighbors == 3 {
            State::Alive
        } else {
            State::Dead
        },
        State::Dead => if live_neighbors == 3 {
            State::Alive
        } else {
            State::Dead
        },
    }
}

impl State {
    /// The state this cell changes to in the next generation, or `None` when
    /// it keeps its state.
    pub fn update(&self, live_neighbors: u8) -> (change: Option<State>)
        ensures
            change == if next_state(*self, live_neighbors as int) == *self {
                None
            } else {
                Some(next_state(*self, live_neighbors as int))
            },
    {
        match *self {
            State::Alive => if live_neighbors < 2 || live_neighbors > 3 {
                Some(State::Dead)
            } else {
                None
            },
            State::Dead => if live_neighbors == 3 {
                Some(State::Alive)
            } else {
                None
            },
        }
    }
}

} // verus!
