//! The executable grid: a flat vector of cell states with bounds-checked
//! access and neighbour counting.

use vstd::prelude::*;
use crate::cell::{Cell, State};
use crate::entropy::gen_ratio;
use crate::grid::{lemma_index_of_position, lemma_position_of_index, Grid};
use crate::picture::{
    picture, row_state, row_state_of, rows_of, side, side_of, spans_row, split_rows,
};
use vstd::string::*;

verus! {

/// `with_entropy` draws every cell alive with probability
/// `ENTROPY_NUMERATOR / ENTROPY_DENOMINATOR`. This is the numerator.
pub const ENTROPY_NUMERATOR: u32 = 7;

/// The denominator of the probability that `with_entropy` draws with.
pub const ENTROPY_DENOMINATOR: u32 = 60;

/// A square grid of cells. A grid of size 0 is a valid grid with no cells.
#[derive(Clone)]
pub struct CellBuffer {
    size: usize,
    cells: Vec<State>,
}

impl View for CellBuffer {
    type V = Grid;

    closed spec fn view(&self) -> Grid {
        Grid { size: self.size as nat, cells: self.cells@ }
    }
}

impl CellBuffer {
    /// The invariant of the type: one stored state per position.
    pub open spec fn wf(&self) -> bool {
        self@.wf()
    }

    /// An all-dead grid of `size` by `size` cells.
    pub fn with_size(size: usize) -> (buffer: Self)
        requires
            size * size <= usize::MAX,
        ensures
            buffer.wf(),
            buffer@ == Grid::dead(size as nat),
    {
        let mut cells: Vec<State> = Vec::new();
        let len: usize = size * size;
        while cells.len() < len
            invariant
                cells.len() <= len,
                forall|i: int| 0 <= i < cells.len() ==> cells[i] == State::Dead,
            decreases len - cells.len(),
        {
            cells.push(State::Dead);
        }
        assert(cells@ =~= Grid::dead(size as nat).cells);
        Self { size, cells }
    }

    /// The grid filled from a run of draws, one per cell in row-major order.
    /// A cell is alive exactly when its draw is `true`; a cell without a
    /// draw is dead, and draws beyond the last cell are ignored.
    pub fn from_draws(size: usize, draws: &Vec<bool>) -> (buffer: Self)
        requires
            size * size <= usize::MAX,
        ensures
            buffer.wf(),
            buffer@ == Grid::drawn(size as nat, draws@),
    {
        let mut cells: Vec<State> = Vec::new();
        let len: usize = size * size;
        while cells.len() < len
            invariant
                cells.len() <= len,
                forall|i: int|
                    0 <= i < cells.len() ==> cells[i] == if i < draws.len() && draws[i] {
                        State::Alive
                    } else {
                        State::Dead
                    },
            decreases len - cells.len(),
        {
            let i: usize = cells.len();
            let state: State = if i < draws.len() && draws[i] {
                State::Alive
            } else {
                State::Dead
            };
            cells.push(state);
        }
        assert(cells@ =~= Grid::drawn(size as nat, draws@).cells);
        Self { size, cells }
    }

    /// A grid in which every cell is alive with probability
    /// `numerator / denominator`, each cell drawn on its own.
    pub fn with_density(size: usize, numerator: u32, denominator: u32) -> (buffer: Self)
        requires
            size * size <= usize::MAX,
            denominator != 0,
            numerator <= denominator,
        ensures
            buffer.wf(),
            buffer@.size == size,
            numerator == 0 ==> buffer@ == Grid::dead(size as nat),
            numerator == denominator ==> forall|x: int, y: int|
                buffer@.contains(x, y) ==> #[trigger] buffer@.get(x, y) == State::Alive,
    {
        let mut rng = rand::thread_rng();
        let mut draws: Vec<bool> = Vec::new();
        let len: usize = size * size;
        while draws.len() < len
            invariant
                draws.len() <= len,
                denominator != 0,
                numerator <= denominator,
                numerator == 0 ==> forall|i: int| 0 <= i < draws.len() ==> !draws[i],
                numerator == denominator ==> forall|i: int| 0 <= i < draws.len() ==> draws[i],
            decreases len - draws.len(),
        {
            let hit: bool = gen_ratio(&mut rng, numerator, denominator);
            draws.push(hit);
        }
        let buffer = Self::from_draws(size, &draws);
        proof {
            if numerator == 0 {
                assert(buffer@.cells =~= Grid::dead(size as nat).cells);
            }
            if numerator == denominator {
                assert forall|x: int, y: int| buffer@.contains(x, y) implies #[trigger] buffer@.get(
                    x,
                    y,
                ) == State::Alive by {
                    lemma_index_of_position(size as nat, x, y);
                }
            }
        }
        buffer
    }

    /// A grid in which every cell is alive with probability
    /// `ENTROPY_NUMERATOR / ENTROPY_DENOMINATOR`, each cell drawn on its own.
    pub fn with_entropy(size: usize) -> (buffer: Self)
        requires
            size * size <= usize::MAX,
        ensures
            buffer.wf(),
            buffer@.size == size,
    {
        Self::with_density(size, ENTROPY_NUMERATOR, ENTROPY_DENOMINATOR)
    }

    /// The grid that a picture stands for. The picture is cut into rows at
    /// every separator; the grid is as wide as the longest row or the number
    /// of rows, whichever is larger; and row `y` of the grid is alive
    /// throughout when the `y`-th row of the picture has `*` as its `y`-th
    /// byte, and dead throughout otherwise.
    pub fn from_bytes(bytes: &[u8]) -> (buffer: Self)
        requires
            side(rows_of(bytes@)) * side(rows_of(bytes@)) <= usize::MAX,
        ensures
            buffer.wf(),
            buffer@ == picture(bytes@),
    {
        let spans = split_rows(bytes);
        let size: usize = side_of(bytes, &spans);
        let len: usize = size * size;
        let mut cells: Vec<State> = Vec::new();
        while cells.len() < len
            invariant
                len == size * size,
                size == side(rows_of(bytes@)),
                cells.len() <= len,
                spans.len() == rows_of(bytes@).len(),
                forall|k: int|
                    0 <= k < spans.len() ==> spans_row(
                        bytes@,
                        #[trigger] spans[k],
                        rows_of(bytes@)[k],
                    ),
                forall|i: int|
                    0 <= i < cells.len() ==> cells[i] == row_state(
                        rows_of(bytes@),
                        i / (size as int),
                    ),
            decreases len - cells.len(),
        {
            let i: usize = cells.len();
            proof {
                lemma_position_of_index(size as nat, i as int);
            }
            let state: State = row_state_of(bytes, &spans, i / size);
            cells.push(state);
        }
        assert(cells@ =~= picture(bytes@).cells);
        Self { size, cells }
    }

    /// The grid that a picture given as text stands for: `from_bytes` on the
    /// bytes of the text.
    pub fn from_string(map: &str) -> (buffer: Self)
        requires
            side(rows_of(map.spec_bytes())) * side(rows_of(map.spec_bytes())) <= usize::MAX,
        ensures
            buffer.wf(),
            buffer@ == picture(map.spec_bytes()),
    {
        Self::from_bytes(map.as_bytes())
    }

    /// The side length of the grid.
    pub fn size(&self) -> (size: usize)
        ensures
            size == self@.size,
    {
        self.size
    }

    /// The cells of a grid can be counted in a machine word.
    pub proof fn lemma_cell_count_fits(&self)
        requires
            self.wf(),
        ensures
            self@.size * self@.size <= usize::MAX,
    {
        assert(self.cells@.len() == self.cells.len());
    }

    /// The linear index of a position inside the grid.
    fn get_index(&self, x: usize, y: usize) -> (index: usize)
        requires
            self.wf(),
            self@.contains(x as int, y as int),
        ensures
            index == self@.index(x as int, y as int),
            index < self.cells.len(),
    {
        proof {
            lemma_index_of_position(self.size as nat, x as int, y as int);
            assert(self.cells.len() == self.size * self.size);
        }
        y * self.size + x
    }

    /// The position that a linear index stands for.
    fn reverse_index(&self, i: usize) -> (position: (usize, usize))
        requires
            self.wf(),
            i < self.cells.len(),
        ensures
            position.0 == (i as int) % (self@.size as int),
            position.1 == (i as int) / (self@.size as int),
            self@.contains(position.0 as int, position.1 as int),
            self@.index(position.0 as int, position.1 as int) == i,
    {
        proof {
            lemma_position_of_index(self.size as nat, i as int);
        }
        (i % self.size, i / self.size)
    }

    /// The state at `(x, y)`. A position outside the grid reads as dead.
    pub fn get(&self, x: usize, y: usize) -> (state: State)
        requires
            self.wf(),
        ensures
            state == self@.get(x as int, y as int),
            !self@.contains(x as int, y as int) ==> state == State::Dead,
    {
        if x < self.size && y < self.size {
            let index: usize = self.get_index(x, y);
            self.cells[index]
        } else {
            State::Dead
        }
    }

    /// Overwrites the state at `(x, y)`. A position outside the grid is left
    /// alone and nothing changes.
    pub fn set(&mut self, x: usize, y: usize, state: State)
        requires
            old(self).wf(),
        ensures
            final(self).wf(),
            final(self)@ == old(self)@.set(x as int, y as int, state),
            !old(self)@.contains(x as int, y as int) ==> final(self)@ == old(self)@,
    {
        if x < self.size && y < self.size {
            let index: usize = self.get_index(x, y);
            self.cells.set(index, state);
        }
    }

    /// 1 if both coordinates are present and the position is alive, else 0.
    fn alive_at(&self, x: Option<usize>, y: Option<usize>) -> (n: u8)
        requires
            self.wf(),
        ensures
            n == match (x, y) {
                (Some(a), Some(b)) => self@.alive(a as int, b as int),
                _ => 0,
            },
    {
        match (x, y) {
            (Some(a), Some(b)) => match self.get(a, b) {
                State::Alive => 1,
                State::Dead => 0,
            },
            _ => 0,
        }
    }

    /// The number of live cells among the eight positions around `(x, y)`.
    /// The position itself is not counted, and positions outside the grid
    /// count as dead.
    pub fn get_alive_neighbours(&self, x: usize, y: usize) -> (count: u8)
        requires
            self.wf(),
        ensures
            count == self@.live_neighbors(x as int, y as int),
            count <= 8,
    {
        let left: Option<usize> = x.checked_sub(1);
        let right: Option<usize> = x.checked_add(1);
        let above: Option<usize> = y.checked_sub(1);
        let below: Option<usize> = y.checked_add(1);
        let here_x: Option<usize> = Some(x);
        let here_y: Option<usize> = Some(y);
        let top: u8 = self.alive_at(left, above) + self.alive_at(here_x, above) + self.alive_at(
            right,
            above,
        );
        let middle: u8 = self.alive_at(left, here_y) + self.alive_at(right, here_y);
        let bottom: u8 = self.alive_at(left, below) + self.alive_at(here_x, below) + self.alive_at(
            right,
            below,
        );
        top + middle + bottom
    }

    /// Every cell of the grid in row-major order, each with the number of
    /// live neighbours it has in this grid.
    pub fn iter(&self) -> (cells: Vec<Cell>)
        requires
            self.wf(),
        ensures
            cells@ == self@.snapshot(),
    {
        let mut cells: Vec<Cell> = Vec::new();
        let len: usize = self.cells.len();
        let mut i: usize = 0;
        while i < len
            invariant
                self.wf(),
                len == self.cells.len(),
                i <= len,
                cells.len() == i,
                forall|k: int| 0 <= k < i ==> cells[k] == self@.cell(k),
            decreases len - i,
        {
            let (x, y) = self.reverse_index(i);
            let live_neighbors: u8 = self.get_alive_neighbours(x, y);
            cells.push(Cell { x, y, state: self.cells[i], live_neighbors });
            i += 1;
        }
        assert(cells@ =~= self@.snapshot());
        cells
    }

    /// Copies the contents of this grid into `other`, which has the same
    /// size. Afterwards the two grids hold equal contents and share nothing.
    pub fn copy_into(&self, other: &mut CellBuffer)
        requires
            self.wf(),
            old(other).wf(),
            old(other)@.size == self@.size,
        ensures
            final(other).wf(),
            final(other)@ == self@,
    {
        let len: usize = self.cells.len();
        let mut i: usize = 0;
        while i < len
            invariant
                len == self.cells.len(),
                other.cells.len() == len,
                other.size == self.size,
                i <= len,
                forall|k: int| 0 <= k < i ==> other.cells[k] == self.cells[k],
            decreases len - i,
        {
            other.cells.set(i, self.cells[i]);
            i += 1;
        }
        assert(other.cells@ =~= self.cells@);
    }
}

} // verus!
