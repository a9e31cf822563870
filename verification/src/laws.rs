//! What holds of every grid: facts about neighbour counts, and the classic
//! patterns wherever they fit on a grid.

use vstd::prelude::*;
use crate::cell::State;
use crate::grid::{lemma_get_set, lemma_get_step, lemma_grids_equal, lemma_index_of_position, Grid};

verus! {

/// A position has between zero and eight live neighbours.
pub proof fn lemma_live_neighbors_bounds(g: Grid, x: int, y: int)
    ensures
        0 <= g.live_neighbors(x, y) <= 8,
{
}

/// The neighbour count of a position does not depend on the state of the
/// position itself.
pub proof fn lemma_center_not_counted(g: Grid, x: int, y: int, state: State)
    requires
        g.wf(),
    ensures
        g.set(x, y, state).live_neighbors(x, y) == g.live_neighbors(x, y),
{
    lemma_get_set(g, x, y, state, x - 1, y - 1);
    lemma_get_set(g, x, y, state, x, y - 1);
    lemma_get_set(g, x, y, state, x + 1, y - 1);
    lemma_get_set(g, x, y, state, x - 1, y);
    lemma_get_set(g, x, y, state, x + 1, y);
    lemma_get_set(g, x, y, state, x - 1, y + 1);
    lemma_get_set(g, x, y, state, x, y + 1);
    lemma_get_set(g, x, y, state, x + 1, y + 1);
}

/// Outside the grid every position reads as dead, and a write there changes
/// nothing.
pub proof fn lemma_outside_is_dead(g: Grid, x: int, y: int, state: State)
    requires
        !g.contains(x, y),
    ensures
        g.get(x, y) == State::Dead,
        g.set(x, y, state) == g,
{
}

/// In a grid filled from draws, the cell at `(x, y)` is alive exactly when
/// the draw at its linear index exists and is `true`.
pub proof fn lemma_get_drawn(size: nat, draws: Seq<bool>, x: int, y: int)
    ensures
        Grid::drawn(size, draws).wf(),
        Grid::drawn(size, draws).size == size,
        Grid::drawn(size, draws).get(x, y) == State::Alive <==> {
            &&& 0 <= x < size
            &&& 0 <= y < size
            &&& y * size + x < draws.len()
            &&& draws[y * size + x]
        },
{
    if 0 <= x < size && 0 <= y < size {
        lemma_index_of_position(size, x, y);
    }
}

/// A copy is a grid of its own. Let `copy` hold what the source held when it
/// was copied, and let the source then be written at `(x, y)`. The copy
/// still reads everywhere what the source read before the write, so where
/// the write changed the source, source and copy now differ.
pub proof fn lemma_copy_outlives_write(source: Grid, copy: Grid, x: int, y: int, state: State)
    requires
        source.wf(),
        copy == source,
    ensures
        forall|a: int, b: int| copy.get(a, b) == source.get(a, b),
        source.contains(x, y) && state != source.get(x, y) ==> source.set(x, y, state).get(x, y)
            != copy.get(x, y),
{
    lemma_get_set(source, x, y, state, x, y);
}

/// The snapshot of a grid lists each position once, at its linear index,
/// with the state and the neighbour count that the position has in the
/// grid.
pub proof fn lemma_snapshot_at(g: Grid, x: int, y: int)
    requires
        g.wf(),
        g.contains(x, y),
        g.size <= usize::MAX,
    ensures
        g.snapshot().len() == g.size * g.size,
        g.snapshot()[g.index(x, y)].x == x,
        g.snapshot()[g.index(x, y)].y == y,
        g.snapshot()[g.index(x, y)].state == g.get(x, y),
        g.snapshot()[g.index(x, y)].live_neighbors == g.live_neighbors(x, y),
{
    lemma_index_of_position(g.size, x, y);
}

/// A live cell with no other live cell on the grid dies of underpopulation,
/// and nothing is born around it: the next generation is all dead.
pub proof fn lemma_lone_cell_dies(g: Grid, x: int, y: int)
    requires
        g.wf(),
        g.contains(x, y),
        forall|a: int, b: int| #[trigger] g.get(a, b) == State::Alive <==> a == x && b == y,
    ensures
        g.step() == Grid::dead(g.size),
{
    let dead = Grid::dead(g.size);
    assert forall|a: int, b: int| g.step().contains(a, b) implies #[trigger] g.step().get(a, b)
        == dead.get(a, b) by {
        lemma_get_step(g, a, b);
        lemma_index_of_position(g.size, a, b);
    }
    lemma_get_step(g, x, y);
    lemma_grids_equal(g.step(), dead);
}

/// The block, two by two live cells with `(x, y)` as its first corner and no
/// other live cell on the grid, is a still life: a step leaves the grid as
/// it is.
pub proof fn lemma_block_is_still(g: Grid, x: int, y: int)
    requires
        g.wf(),
        g.contains(x, y),
        g.contains(x + 1, y + 1),
        forall|a: int, b: int|
            #[trigger] g.get(a, b) == State::Alive <==> x <= a <= x + 1 && y <= b <= y + 1,
    ensures
        g.step() == g,
{
    assert forall|a: int, b: int| g.step().contains(a, b) implies #[trigger] g.step().get(a, b)
        == g.get(a, b) by {
        lemma_get_step(g, a, b);
    }
    lemma_get_step(g, x, y);
    lemma_grids_equal(g.step(), g);
}

/// The blinker lying flat, three live cells in row `y` centred on `(x, y)`
/// and no other live cell on the grid, stands upright after a step: the
/// three live cells are then those of column `x` centred on `(x, y)`.
pub proof fn lemma_flat_blinker_turns(g: Grid, x: int, y: int)
    requires
        g.wf(),
        g.contains(x - 1, y - 1),
        g.contains(x + 1, y + 1),
        forall|a: int, b: int|
            #[trigger] g.get(a, b) == State::Alive <==> b == y && x - 1 <= a <= x + 1,
    ensures
        g.step().wf(),
        g.step().size == g.size,
        forall|a: int, b: int|
            #[trigger] g.step().get(a, b) == State::Alive <==> a == x && y - 1 <= b <= y + 1,
{
    assert forall|a: int, b: int|
        #[trigger] g.step().get(a, b) == State::Alive <==> a == x && y - 1 <= b <= y + 1 by {
        lemma_get_step(g, a, b);
    }
    lemma_get_step(g, x, y);
}

/// The blinker standing upright, three live cells in column `x` centred on
/// `(x, y)` and no other live cell on the grid, lies flat after a step.
pub proof fn lemma_upright_blinker_turns(g: Grid, x: int, y: int)
    requires
        g.wf(),
        g.contains(x - 1, y - 1),
        g.contains(x + 1, y + 1),
        forall|a: int, b: int|
            #[trigger] g.get(a, b) == State::Alive <==> a == x && y - 1 <= b <= y + 1,
    ensures
        g.step().wf(),
        g.step().size == g.size,
        forall|a: int, b: int|
            #[trigger] g.step().get(a, b) == State::Alive <==> b == y && x - 1 <= a <= x + 1,
{
    assert forall|a: int, b: int|
        #[trigger] g.step().get(a, b) == State::Alive <==> b == y && x - 1 <= a <= x + 1 by {
        lemma_get_step(g, a, b);
    }
    lemma_get_step(g, x, y);
}

/// The blinker has period two: after two steps the grid is exactly what it
/// was.
pub proof fn lemma_blinker_period_two(g: Grid, x: int, y: int)
    requires
        g.wf(),
        g.contains(x - 1, y - 1),
        g.contains(x + 1, y + 1),
        forall|a: int, b: int|
            #[trigger] g.get(a, b) == State::Alive <==> b == y && x - 1 <= a <= x + 1,
    ensures
        g.step().step() == g,
{
    lemma_flat_blinker_turns(g, x, y);
    let upright = g.step();
    lemma_upright_blinker_turns(upright, x, y);
    let back = upright.step();
    assert forall|a: int, b: int| back.contains(a, b) implies #[trigger] back.get(a, b) == g.get(
        a,
        b,
    ) by {
        assert(back.get(a, b) == State::Alive <==> g.get(a, b) == State::Alive);
    }
    lemma_grids_equal(back, g);
}

} // verus!
