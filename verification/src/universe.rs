//! The universe: two grids of equal size, one current and one scratch, and
//! the generation step that moves from one to the other.

use vstd::prelude::*;
use crate::cell::{next_state, Cell, State};
use crate::cell_buffer::CellBuffer;
use crate::grid::{
    lemma_get_revive, lemma_get_set, lemma_get_step, lemma_grids_equal, lemma_revive_by_members,
    Grid,
};
use crate::runs::{dedup, lemma_without_repeats_keeps_members, without_repeats};
use crate::picture::{picture, rows_of, side};
use vstd::string::*;

verus! {

/// A grid that evolves by Conway's rule. Of its two buffers one holds the
/// current generation; the other is scratch space between steps.
pub struct Universe {
    front: CellBuffer,
    back: CellBuffer,
    front_is_current: bool,
}

impl View for Universe {
    type V = Grid;

    /// The current generation.
    closed spec fn view(&self) -> Grid {
        if self.front_is_current {
            self.front@
        } else {
            self.back@
        }
    }
}

/// Writes the generation after `current` into `next`: first a full copy, then
/// every cell that the rule changes, each decided on `current` alone.
fn advance(current: &CellBuffer, next: &mut CellBuffer)
    requires
        current.wf(),
        old(next).wf(),
        old(next)@.size == current@.size,
    ensures
        final(next).wf(),
        final(next)@ == current@.step(),
{
    current.copy_into(next);
    let size: usize = current.size();
    let mut y: usize = 0;
    while y < size
        invariant
            current.wf(),
            next.wf(),
            next@.size == current@.size,
            size == current@.size,
            y <= size,
            forall|a: int, b: int|
                current@.contains(a, b) ==> #[trigger] next@.get(a, b) == if b < y {
                    next_state(current@.get(a, b), current@.live_neighbors(a, b))
                } else {
                    current@.get(a, b)
                },
        decreases size - y,
    {
        let mut x: usize = 0;
        while x < size
            invariant
                current.wf(),
                next.wf(),
                next@.size == current@.size,
                size == current@.size,
                y < size,
                x <= size,
                forall|a: int, b: int|
                    current@.contains(a, b) ==> #[trigger] next@.get(a, b) == if b < y || (b == y
                        && a < x) {
                        next_state(current@.get(a, b), current@.live_neighbors(a, b))
                    } else {
                        current@.get(a, b)
                    },
            decreases size - x,
        {
            let state: State = current.get(x, y);
            let live_neighbors: u8 = current.get_alive_neighbours(x, y);
            let ghost before = next@;
            if let Some(changed) = state.update(live_neighbors) {
                next.set(x, y, changed);
            }
            proof {
                assert forall|a: int, b: int| current@.contains(a, b) implies #[trigger] next@.get(
                    a,
                    b,
                ) == if b < y || (b == y && a < x + 1) {
                    next_state(current@.get(a, b), current@.live_neighbors(a, b))
                } else {
                    current@.get(a, b)
                } by {
                    lemma_get_set(
                        before,
                        x as int,
                        y as int,
                        next_state(state, live_neighbors as int),
                        a,
                        b,
                    );
                }
            }
            x += 1;
        }
        y += 1;
    }
    proof {
        assert forall|a: int, b: int|
            current@.step().contains(a, b) implies #[trigger] current@.step().get(a, b)
            == next@.get(a, b) by {
            lemma_get_step(current@, a, b);
        }
        lemma_get_step(current@, 0, 0);
        lemma_grids_equal(current@.step(), next@);
    }
}

impl Universe {
    /// The invariant of the type: both buffers are grids of one size.
    pub closed spec fn wf(&self) -> bool {
        self.front.wf() && self.back.wf() && self.front@.size == self.back@.size
    }

    /// What the buffer that is not current holds. No read goes to it; a step
    /// overwrites it and then makes it the current one.
    pub closed spec fn scratch(&self) -> Grid {
        if self.front_is_current {
            self.back@
        } else {
            self.front@
        }
    }

    /// Both buffers of a universe are grids with one state per position,
    /// and of one size.
    pub proof fn lemma_view_wf(&self)
        requires
            self.wf(),
        ensures
            self@.wf(),
            self.scratch().wf(),
            self.scratch().size == self@.size,
    {
    }

    /// A universe whose current generation is `grid`. The second buffer
    /// starts as a copy of it.
    pub fn from_grid(grid: CellBuffer) -> (universe: Self)
        requires
            grid.wf(),
        ensures
            universe.wf(),
            universe@ == grid@,
            universe.scratch() == universe@,
    {
        proof {
            grid.lemma_cell_count_fits();
        }
        let mut back = CellBuffer::with_size(grid.size());
        grid.copy_into(&mut back);
        Universe { front: grid, back, front_is_current: true }
    }

    /// An all-dead universe of `size` by `size` cells, in both buffers.
    pub fn with_size(size: usize) -> (universe: Self)
        requires
            size * size <= usize::MAX,
        ensures
            universe.wf(),
            universe@ == Grid::dead(size as nat),
            universe.scratch() == universe@,
    {
        Self::from_grid(CellBuffer::with_size(size))
    }

    /// The universe filled from a run of draws, one per cell in row-major
    /// order, as `CellBuffer::from_draws` fills a grid. Both buffers start
    /// from this one configuration.
    pub fn from_draws(size: usize, draws: &Vec<bool>) -> (universe: Self)
        requires
            size * size <= usize::MAX,
        ensures
            universe.wf(),
            universe@ == Grid::drawn(size as nat, draws@),
            universe.scratch() == universe@,
    {
        Self::from_grid(CellBuffer::from_draws(size, draws))
    }

    /// A universe in which every cell is alive with probability
    /// `numerator / denominator`, each cell drawn on its own. Both buffers
    /// start from the one drawn configuration.
    pub fn with_density(size: usize, numerator: u32, denominator: u32) -> (universe: Self)
        requires
            size * size <= usize::MAX,
            denominator != 0,
            numerator <= denominator,
        ensures
            universe.wf(),
            universe@.size == size,
            universe.scratch() == universe@,
            numerator == 0 ==> universe@ == Grid::dead(size as nat),
            numerator == denominator ==> forall|x: int, y: int|
                universe@.contains(x, y) ==> #[trigger] universe@.get(x, y) == State::Alive,
    {
        Self::from_grid(CellBuffer::with_density(size, numerator, denominator))
    }

    /// A universe seeded at the density that `CellBuffer::with_entropy`
    /// uses. Both buffers start from the one drawn configuration.
    pub fn with_entropy(size: usize) -> (universe: Self)
        requires
            size * size <= usize::MAX,
        ensures
            universe.wf(),
            universe@.size == size,
            universe.scratch() == universe@,
    {
        Self::from_grid(CellBuffer::with_entropy(size))
    }

    /// The universe whose current generation is the grid that a picture
    /// given as text stands for.
    pub fn from_string(map: &str) -> (universe: Self)
        requires
            side(rows_of(map.spec_bytes())) * side(rows_of(map.spec_bytes())) <= usize::MAX,
        ensures
            universe.wf(),
            universe@ == picture(map.spec_bytes()),
            universe.scratch() == universe@,
    {
        Self::from_grid(CellBuffer::from_string(map))
    }

    /// The side length of the universe.
    pub fn size(&self) -> (size: usize)
        requires
            self.wf(),
        ensures
            size == self@.size,
    {
        if self.front_is_current {
            self.front.size()
        } else {
            self.back.size()
        }
    }

    /// The state at `(x, y)` in the current generation; dead outside the
    /// grid.
    pub fn get(&self, x: usize, y: usize) -> (state: State)
        requires
            self.wf(),
        ensures
            state == self@.get(x as int, y as int),
            !self@.contains(x as int, y as int) ==> state == State::Dead,
    {
        if self.front_is_current {
            self.front.get(x, y)
        } else {
            self.back.get(x, y)
        }
    }

    /// Every cell of the current generation in row-major order, each with
    /// its number of live neighbours. Nothing is changed.
    pub fn iter(&self) -> (cells: Vec<Cell>)
        requires
            self.wf(),
        ensures
            cells@ == self@.snapshot(),
    {
        if self.front_is_current {
            self.front.iter()
        } else {
            self.back.iter()
        }
    }

    /// Overwrites the state at `(x, y)` in the current generation, so that
    /// the next read and the next step see it. The other buffer is not
    /// touched. A position outside the grid is left alone and nothing
    /// changes.
    pub fn set(&mut self, x: usize, y: usize, state: State)
        requires
            old(self).wf(),
        ensures
            final(self).wf(),
            final(self)@ == old(self)@.set(x as int, y as int, state),
            final(self).scratch() == old(self).scratch(),
            !old(self)@.contains(x as int, y as int) ==> final(self)@ == old(self)@,
    {
        proof {
            lemma_get_set(self@, x as int, y as int, state, 0, 0);
        }
        if self.front_is_current {
            self.front.set(x, y, state);
        } else {
            self.back.set(x, y, state);
        }
    }

    /// Brings every listed position of the current generation to life, as
    /// `set` would one by one, and leaves the other buffer as it was. A
    /// position that repeats the one listed just before it is skipped; the
    /// number of positions that were written is returned.
    pub fn spawn(&mut self, positions: Vec<(usize, usize)>) -> (written: usize)
        requires
            old(self).wf(),
        ensures
            final(self).wf(),
            final(self)@ == old(self)@.revive(positions@),
            final(self).scratch() == old(self).scratch(),
            written == without_repeats(positions@).len(),
    {
        let ghost start = self@;
        let ghost untouched = self.scratch();
        let ghost listed = positions@;
        let runs = dedup(positions);
        let mut i: usize = 0;
        while i < runs.len()
            invariant
                self.wf(),
                start.wf(),
                i <= runs.len(),
                self@ == start.revive(runs@.take(i as int)),
                self.scratch() == untouched,
            decreases runs.len() - i,
        {
            let (x, y) = runs[i];
            proof {
                assert(runs@.take(i + 1).drop_last() =~= runs@.take(i as int));
                lemma_get_revive(start, runs@.take(i as int), 0, 0);
            }
            self.set(x, y, State::Alive);
            i += 1;
        }
        proof {
            assert(runs@.take(i as int) =~= runs@);
            assert forall|p: (usize, usize)| runs@.contains(p) <==> listed.contains(p) by {
                lemma_without_repeats_keeps_members(listed, p);
            }
            lemma_revive_by_members(start, runs@, listed);
        }
        runs.len()
    }

    /// Moves the universe one generation forward. Every cell follows the
    /// rule on the state and the neighbour count that it had before the
    /// step; afterwards the freshly written buffer is the current one, and
    /// the other still holds the generation before.
    pub fn update_life(&mut self)
        requires
            old(self).wf(),
        ensures
            final(self).wf(),
            final(self)@ == old(self)@.step(),
            final(self).scratch() == old(self)@,
    {
        proof {
            lemma_get_step(self@, 0, 0);
        }
        if self.front_is_current {
            advance(&self.front, &mut self.back);
        } else {
            advance(&self.back, &mut self.front);
        }
        self.front_is_current = !self.front_is_current;
    }
}

} // verus!
