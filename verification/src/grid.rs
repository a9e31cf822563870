//! The mathematical model of a grid, over which every contract is stated.

use vstd::prelude::*;
use vstd::arithmetic::div_mod::{lemma_fundamental_div_mod, lemma_fundamental_div_mod_converse};
use vstd::arithmetic::mul::{
    lemma_mul_inequality, lemma_mul_is_commutative, lemma_mul_is_distributive_add_other_way,
};
use crate::cell::{next_state, Cell, State};

verus! {

/// A square grid of `size` by `size` cells in row-major order: the cell at
/// column `x` of row `y` is `cells[y * size + x]`.
pub struct Grid {
    pub size: nat,
    pub cells: Seq<State>,
}

impl Grid {
    /// The backing sequence has exactly one entry per position.
    pub open spec fn wf(self) -> bool {
        self.cells.len() == self.size * self.size
    }

    /// Whether `(x, y)` is a position of the grid.
    pub open spec fn contains(self, x: int, y: int) -> bool {
        0 <= x < self.size && 0 <= y < self.size
    }

    /// The linear index of `(x, y)`.
    pub open spec fn index(self, x: int, y: int) -> int {
        y * self.size + x
    }

    /// The state at `(x, y)`; every position outside the grid is dead.
    pub open spec fn get(self, x: int, y: int) -> State {
        if self.contains(x, y) {
            self.cells[self.index(x, y)]
        } else {
            State::Dead
        }
    }

    /// The grid with `(x, y)` overwritten; the grid itself when `(x, y)` lies
    /// outside it.
    pub open spec fn set(self, x: int, y: int, state: State) -> Grid {
        if self.contains(x, y) {
            Grid { size: self.size, cells: self.cells.update(self.index(x, y), state) }
        } else {
            self
        }
    }

    /// The grid after every listed position, taken in order, has been
    /// written alive. Positions outside the grid change nothing.
    pub open spec fn revive(self, positions: Seq<(usize, usize)>) -> Grid
        decreases positions.len(),
    {
        if positions.len() == 0 {
            self
        } else {
            self.revive(positions.drop_last()).set(
                positions.last().0 as int,
                positions.last().1 as int,
                State::Alive,
            )
        }
    }

    /// 1 if `(x, y)` is alive, else 0.
    pub open spec fn alive(self, x: int, y: int) -> int {
        if self.get(x, y) == State::Alive {
            1
        } else {
            0
        }
    }

    /// The number of live cells among the eight positions around `(x, y)`.
    /// The position itself is not among them.
    pub open spec fn live_neighbors(self, x: int, y: int) -> int {
        self.alive(x - 1, y - 1) + self.alive(x, y - 1) + self.alive(x + 1, y - 1)
            + self.alive(x - 1, y) + self.alive(x + 1, y)
            + self.alive(x - 1, y + 1) + self.alive(x, y + 1) + self.alive(x + 1, y + 1)
    }

    /// The cell stored at linear index `i`, with its neighbour count.
    pub open spec fn cell(self, i: int) -> Cell {
        let x = i % (self.size as int);
        let y = i / (self.size as int);
        Cell {
            x: x as usize,
            y: y as usize,
            state: self.cells[i],
            live_neighbors: self.live_neighbors(x, y) as u8,
        }
    }

    /// Every cell of the grid in row-major order.
    pub open spec fn snapshot(self) -> Seq<Cell> {
        Seq::new(self.cells.len(), |i: int| self.cell(i))
    }

    /// The next generation: every cell follows the rule on its own state and
    /// the neighbour count it has in `self`.
    pub open spec fn step(self) -> Grid {
        Grid {
            size: self.size,
            cells: Seq::new(
                self.cells.len(),
                |i: int|
                    next_state(
                        self.cells[i],
                        self.live_neighbors(i % (self.size as int), i / (self.size as int)),
                    ),
            ),
        }
    }

    /// The grid filled from a run of draws, one per cell in row-major order:
    /// a cell is alive exactly when its draw exists and is `true`.
    pub open spec fn drawn(size: nat, draws: Seq<bool>) -> Grid {
        Grid {
            size,
            cells: Seq::new(
                size * size,
                |i: int|
                    if i < draws.len() && draws[i] {
                        State::Alive
                    } else {
                        State::Dead
                    },
            ),
        }
    }

    /// The grid of the given size with no live cell.
    pub open spec fn dead(size: nat) -> Grid {
        Grid { size, cells: Seq::new(size * size, |i: int| State::Dead) }
    }
}

/// A position inside the grid has a linear index inside the backing
/// sequence, and the index determines the position.
pub proof fn lemma_index_of_position(size: nat, x: int, y: int)
    requires
        0 <= x < size,
        0 <= y < size,
    ensures
        0 <= y * size + x < size * size,
        (y * size + x) % (size as int) == x,
        (y * size + x) / (size as int) == y,
{
    let n = size as int;
    assert(y * n + x < n * n) by {
        lemma_mul_inequality(y + 1, n, n);
        lemma_mul_is_distributive_add_other_way(n, y, 1);
    }
    assert(0 <= y * n) by {
        lemma_mul_inequality(0, y, n);
    }
    lemma_mul_is_commutative(y, n);
    lemma_fundamental_div_mod_converse(y * n + x, n, y, x);
}

/// A linear index inside the backing sequence names a position inside the
/// grid, and that position has this index.
pub proof fn lemma_position_of_index(size: nat, i: int)
    requires
        0 <= i < size * size,
    ensures
        size > 0,
        0 <= i % (size as int) < size,
        0 <= i / (size as int) < size,
        (i / (size as int)) * size + i % (size as int) == i,
{
    let n = size as int;
    if n == 0 {
        assert(n * n == 0);
    }
    lemma_fundamental_div_mod(i, n);
    let q = i / n;
    lemma_mul_is_commutative(q, n);
    if q >= n {
        lemma_mul_inequality(n, q, n);
    }
    if q < 0 {
        lemma_mul_inequality(q, -1, n);
    }
}

/// Reading a position after a write: the written state at the written
/// position, the earlier state everywhere else.
pub proof fn lemma_get_set(g: Grid, x: int, y: int, state: State, a: int, b: int)
    requires
        g.wf(),
    ensures
        g.set(x, y, state).wf(),
        g.set(x, y, state).size == g.size,
        g.set(x, y, state).get(a, b) == if a == x && b == y && g.contains(x, y) {
            state
        } else {
            g.get(a, b)
        },
{
    if g.contains(x, y) {
        lemma_index_of_position(g.size, x, y);
        if g.contains(a, b) {
            lemma_index_of_position(g.size, a, b);
        }
    }
}

/// Reading a position after a list of positions was written alive: alive
/// where the position is listed and lies inside the grid, the earlier state
/// everywhere else.
pub proof fn lemma_get_revive(g: Grid, positions: Seq<(usize, usize)>, a: int, b: int)
    requires
        g.wf(),
    ensures
        g.revive(positions).wf(),
        g.revive(positions).size == g.size,
        g.revive(positions).get(a, b) == if g.contains(a, b) && exists|k: int|
            0 <= k < positions.len() && positions[k].0 == a && positions[k].1 == b {
            State::Alive
        } else {
            g.get(a, b)
        },
    decreases positions.len(),
{
    if positions.len() > 0 {
        let front = positions.drop_last();
        let last = positions.last();
        lemma_get_revive(g, front, a, b);
        lemma_get_set(g.revive(front), last.0 as int, last.1 as int, State::Alive, a, b);
        if exists|k: int| 0 <= k < positions.len() && positions[k].0 == a && positions[k].1 == b {
            let k = choose|k: int|
                0 <= k < positions.len() && positions[k].0 == a && positions[k].1 == b;
            if k < front.len() {
                assert(front[k].0 == a && front[k].1 == b);
            }
        }
        if exists|k: int| 0 <= k < front.len() && front[k].0 == a && front[k].1 == b {
            let k = choose|k: int| 0 <= k < front.len() && front[k].0 == a && front[k].1 == b;
            assert(positions[k].0 == a && positions[k].1 == b);
        }
    }
}

/// Which grid comes of writing a list of positions alive depends only on
/// which positions are listed, not on their order or on how often each
/// occurs.
pub proof fn lemma_revive_by_members(
    g: Grid,
    first: Seq<(usize, usize)>,
    second: Seq<(usize, usize)>,
)
    requires
        g.wf(),
        forall|p: (usize, usize)| first.contains(p) <==> second.contains(p),
    ensures
        g.revive(first) == g.revive(second),
{
    assert forall|a: int, b: int| g.revive(first).contains(a, b) implies #[trigger] g.revive(
        first,
    ).get(a, b) == g.revive(second).get(a, b) by {
        lemma_get_revive(g, first, a, b);
        lemma_get_revive(g, second, a, b);
        let p = (a as usize, b as usize);
        if exists|k: int| 0 <= k < first.len() && first[k].0 == a && first[k].1 == b {
            let k = choose|k: int| 0 <= k < first.len() && first[k].0 == a && first[k].1 == b;
            assert(first[k] == p);
            assert(first.contains(p));
            let j = choose|j: int| 0 <= j < second.len() && second[j] == p;
            assert(second[j].0 == a && second[j].1 == b);
        }
        if exists|k: int| 0 <= k < second.len() && second[k].0 == a && second[k].1 == b {
            let k = choose|k: int| 0 <= k < second.len() && second[k].0 == a && second[k].1 == b;
            assert(second[k] == p);
            assert(second.contains(p));
            let j = choose|j: int| 0 <= j < first.len() && first[j] == p;
            assert(first[j].0 == a && first[j].1 == b);
        }
    }
    lemma_get_revive(g, first, 0, 0);
    lemma_get_revive(g, second, 0, 0);
    lemma_grids_equal(g.revive(first), g.revive(second));
}

/// Reading a position of the next generation: the rule applied to the state
/// and the neighbour count that the position has now.
pub proof fn lemma_get_step(g: Grid, x: int, y: int)
    requires
        g.wf(),
    ensures
        g.step().wf(),
        g.step().size == g.size,
        g.step().get(x, y) == if g.contains(x, y) {
            next_state(g.get(x, y), g.live_neighbors(x, y))
        } else {
            State::Dead
        },
{
    if g.contains(x, y) {
        lemma_index_of_position(g.size, x, y);
    }
}

/// Two grids of one size that agree at every position are the same grid.
pub proof fn lemma_grids_equal(g: Grid, h: Grid)
    requires
        g.wf(),
        h.wf(),
        g.size == h.size,
        forall|x: int, y: int| g.contains(x, y) ==> #[trigger] g.get(x, y) == h.get(x, y),
    ensures
        g == h,
{
    assert forall|i: int| 0 <= i < g.cells.len() implies g.cells[i] == h.cells[i] by {
        lemma_position_of_index(g.size, i);
        let x = i % (g.size as int);
        let y = i / (g.size as int);
        assert(g.contains(x, y));
        assert(g.get(x, y) == h.get(x, y));
    }
    assert(g.cells =~= h.cells);
}

} // verus!
