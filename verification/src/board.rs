//! Conway's Game of Life on a fixed-size toroidal grid.
//!
//! A [`Board`] holds a `BOARD_SIZE` x `BOARD_SIZE` grid of [`Cell`]s, stored
//! row-major. Generation advance is a pure function of the current grid:
//! [`Board::update_board`] reads the whole receiver and builds a brand-new
//! board, so no position's update can observe another position's
//! next-generation value.

use rand::RngExt;
use vstd::prelude::*;

verus! {

/// Width and height of the square grid.
pub const BOARD_SIZE: usize = 10;

/// The two states of a cell.
#[derive(Clone, Copy, PartialEq, Eq, Structural, Debug)]
pub enum Cell {
    Alive,
    Dead,
}

/// A fixed-size square grid of cells, stored row-major: the cell at row `r`,
/// column `c` sits at index `r * BOARD_SIZE + c`.
pub struct Board {
    gamestate: Vec<Cell>,
}

/// Wraps an index onto the grid: the representative of `i` modulo
/// `BOARD_SIZE` that lies in `[0, BOARD_SIZE)`.
pub open spec fn wrap(i: int) -> int {
    i % (BOARD_SIZE as int)
}

/// 1 for a live cell, 0 for a dead one: the weight a cell contributes to a
/// neighbour count.
pub open spec fn cell_weight(alive: bool) -> int {
    if alive { 1 } else { 0 }
}

/// The number of live cells in a grid.
pub open spec fn live_count(g: Seq<Cell>) -> int
    decreases g.len(),
{
    if g.len() == 0 {
        0
    } else {
        live_count(g.drop_last()) + cell_weight(g.last() is Alive)
    }
}

/// The number of dead cells in a grid.
pub open spec fn dead_count(g: Seq<Cell>) -> int {
    g.len() - live_count(g)
}

/// Overwriting one cell changes the live count by the difference of the
/// weights of the new and old cell at that position.
proof fn lemma_live_count_update(g: Seq<Cell>, i: int, v: Cell)
    requires
        0 <= i < g.len(),
    ensures
        live_count(g.update(i, v)) == live_count(g) - cell_weight(g[i] is Alive)
            + cell_weight(v is Alive),
    decreases g.len(),
{
    let u = g.update(i, v);
    if i == g.len() - 1 {
        assert(u.drop_last() =~= g.drop_last());
    } else {
        assert(u.drop_last() =~= g.drop_last().update(i, v));
        lemma_live_count_update(g.drop_last(), i, v);
    }
}

impl Board {
    /// The grid as a row-major sequence of cells.
    pub closed spec fn grid(self) -> Seq<Cell> {
        self.gamestate@
    }

    /// A board is well formed when it holds exactly `BOARD_SIZE * BOARD_SIZE` cells.
    pub open spec fn wf(self) -> bool {
        self.grid().len() == BOARD_SIZE * BOARD_SIZE
    }

    /// Whether the cell at row `r`, column `c` is alive.
    pub open spec fn alive(self, r: int, c: int) -> bool {
        self.grid()[r * BOARD_SIZE + c] is Alive
    }

    /// Constructs a board with every cell dead.
    pub fn new() -> (b: Board)
        ensures
            b.wf(),
            forall|r: int, c: int|
                0 <= r < BOARD_SIZE && 0 <= c < BOARD_SIZE ==> !b.alive(r, c),
            live_count(b.grid()) == 0,
    {
        let mut cells: Vec<Cell> = Vec::new();
        let mut i: usize = 0;
        while i < BOARD_SIZE * BOARD_SIZE
            invariant
                i <= BOARD_SIZE * BOARD_SIZE,
                cells@.len() == i,
                forall|j: int| 0 <= j < i ==> cells@[j] is Dead,
                live_count(cells@) == 0,
            decreases BOARD_SIZE * BOARD_SIZE - i,
        {
            proof {
                assert(cells@.push(Cell::Dead).drop_last() =~= cells@);
            }
            cells.push(Cell::Dead);
            i += 1;
        }
        Board { gamestate: cells }
    }

    /// Read access to the full grid, row-major, for a renderer.
    pub fn gamestate(&self) -> (g: &Vec<Cell>)
        ensures
            g@ == self.grid(),
    {
        &self.gamestate
    }

    /// Sets the cell at row `x`, column `y`, for seeding specific patterns.
    pub fn mut_gamestate(&mut self, x: usize, y: usize, cell: Cell)
        requires
            old(self).wf(),
            x < BOARD_SIZE,
            y < BOARD_SIZE,
        ensures
            final(self).wf(),
            final(self).grid() == old(self).grid().update(x * BOARD_SIZE + y, cell),
            forall|r: int, c: int|
                0 <= r < BOARD_SIZE && 0 <= c < BOARD_SIZE ==> final(self).alive(r, c)
                    == (if r == x && c == y { cell is Alive } else { old(self).alive(r, c) }),
            live_count(final(self).grid()) == live_count(old(self).grid()) - cell_weight(
                old(self).alive(x as int, y as int),
            ) + cell_weight(cell is Alive),
    {
        proof {
            lemma_live_count_update(self.grid(), (x * BOARD_SIZE + y) as int, cell);
        }
        self.gamestate[x * BOARD_SIZE + y] = cell;
    }

    /// Whether the cell at row `wrap(r)`, column `wrap(c)` is alive: the
    /// toroidal reading of an out-of-range coordinate.
    pub open spec fn alive_wrapped(self, r: int, c: int) -> bool {
        self.alive(wrap(r), wrap(c))
    }

    /// The number of live cells among the 8 positions of the Moore
    /// neighbourhood of `(r, c)`, each coordinate wrapped toroidally into
    /// `[0, BOARD_SIZE)`. The cell `(r, c)` itself contributes nothing.
    pub open spec fn neighbour_count(self, r: int, c: int) -> int {
        cell_weight(self.alive_wrapped(r - 1, c - 1))
            + cell_weight(self.alive_wrapped(r - 1, c))
            + cell_weight(self.alive_wrapped(r - 1, c + 1))
            + cell_weight(self.alive_wrapped(r, c - 1))
            + cell_weight(self.alive_wrapped(r, c + 1))
            + cell_weight(self.alive_wrapped(r + 1, c - 1))
            + cell_weight(self.alive_wrapped(r + 1, c))
            + cell_weight(self.alive_wrapped(r + 1, c + 1))
    }

    /// The Game of Life rule, applied to the cell at `(r, c)`: with 3 live
    /// neighbours the cell is alive in the next generation, with 2 it keeps
    /// its state, and with any other count it is dead.
    pub open spec fn next_alive(self, r: int, c: int) -> bool {
        let n = self.neighbour_count(r, c);
        if n == 3 {
            true
        } else if n == 2 {
            self.alive(r, c)
        } else {
            false
        }
    }

    /// Returns true if the cell at row `x`, column `y` is alive.
    pub fn state(&self, x: usize, y: usize) -> (r: bool)
        requires
            self.wf(),
            x < BOARD_SIZE,
            y < BOARD_SIZE,
        ensures
            r == self.alive(x as int, y as int),
    {
        match self.gamestate[x * BOARD_SIZE + y] {
            Cell::Alive => true,
            Cell::Dead => false,
        }
    }

    /// Counts the live cells among the 8 toroidal neighbours of the cell at
    /// row `x`, column `y`. The queried cell itself is never counted.
    pub fn count_live_neighbours(&self, x: i8, y: i8) -> (n: u8)
        requires
            self.wf(),
            0 <= x < BOARD_SIZE,
            0 <= y < BOARD_SIZE,
        ensures
            n == self.neighbour_count(x as int, y as int),
            n <= 8,
    {
        let row_up = wrap_index(x - 1);
        let row_mid = x as usize;
        let row_down = wrap_index(x + 1);
        let col_left = wrap_index(y - 1);
        let col_mid = y as usize;
        let col_right = wrap_index(y + 1);
        let mut counter: u8 = 0;
        if self.state(row_up, col_left) { counter += 1; }
        if self.state(row_up, col_mid) { counter += 1; }
        if self.state(row_up, col_right) { counter += 1; }
        if self.state(row_mid, col_left) { counter += 1; }
        if self.state(row_mid, col_right) { counter += 1; }
        if self.state(row_down, col_left) { counter += 1; }
        if self.state(row_down, col_mid) { counter += 1; }
        if self.state(row_down, col_right) { counter += 1; }
        counter
    }

    /// Sets `cells` distinct currently-dead positions, chosen uniformly at
    /// random, to alive. Live cells are never touched, so exactly `cells`
    /// positions flip from dead to alive and no position is picked twice.
    /// The request must fit in the dead cells the board still has.
    pub fn randomize(&mut self, cells: u8)
        requires
            old(self).wf(),
            cells as int <= dead_count(old(self).grid()),
        ensures
            final(self).wf(),
            live_count(final(self).grid()) == live_count(old(self).grid()) + cells,
            forall|r: int, c: int|
                0 <= r < BOARD_SIZE && 0 <= c < BOARD_SIZE && old(self).alive(r, c)
                    ==> final(self).alive(r, c),
    {
        let mut dead: Vec<usize> = Vec::new();
        let mut i: usize = 0;
        while i < BOARD_SIZE * BOARD_SIZE
            invariant
                old(self).wf(),
                self.grid() == old(self).grid(),
                i <= BOARD_SIZE * BOARD_SIZE,
                dead@.len() + live_count(self.grid().take(i as int)) == i,
                forall|t: int|
                    0 <= t < dead@.len() ==> #[trigger] dead@[t] < i
                        && self.grid()[dead@[t] as int] is Dead,
                forall|t1: int, t2: int|
                    0 <= t1 < t2 < dead@.len() ==> dead@[t1] != dead@[t2],
            decreases BOARD_SIZE * BOARD_SIZE - i,
        {
            proof {
                assert(self.grid().take(i as int + 1).drop_last() =~= self.grid().take(
                    i as int,
                ));
            }
            match self.gamestate[i] {
                Cell::Dead => {
                    dead.push(i);
                },
                Cell::Alive => {},
            }
            i += 1;
        }
        proof {
            assert(self.grid().take(self.grid().len() as int) =~= self.grid());
        }
        let mut counter: u8 = 0;
        while counter < cells
            invariant
                old(self).wf(),
                self.wf(),
                counter <= cells,
                cells as int <= dead_count(old(self).grid()),
                live_count(self.grid()) == live_count(old(self).grid()) + counter,
                dead@.len() == dead_count(self.grid()),
                forall|t: int|
                    0 <= t < dead@.len() ==> #[trigger] dead@[t] < BOARD_SIZE * BOARD_SIZE
                        && self.grid()[dead@[t] as int] is Dead,
                forall|t1: int, t2: int|
                    0 <= t1 < t2 < dead@.len() ==> dead@[t1] != dead@[t2],
                forall|j: int|
                    0 <= j < old(self).grid().len() && old(self).grid()[j] is Alive
                        ==> #[trigger] self.grid()[j] is Alive,
            decreases cells - counter,
        {
            let j = random_below(dead.len());
            let idx = dead[j];
            proof {
                lemma_live_count_update(self.grid(), idx as int, Cell::Alive);
            }
            self.gamestate[idx] = Cell::Alive;
            let ghost removed = dead@;
            dead.remove(j);
            proof {
                assert(dead@ =~= removed.subrange(0, j as int) + removed.subrange(
                    j as int + 1,
                    removed.len() as int,
                ));
            }
            counter += 1;
        }
    }

    /// Computes the next generation as a brand-new board, leaving the
    /// receiver unmodified. Every position's neighbour count is taken
    /// against the receiver, so the result is a pure function of the
    /// current grid snapshot.
    pub fn update_board(&self) -> (next: Board)
        requires
            self.wf(),
        ensures
            next.wf(),
            forall|r: int, c: int|
                0 <= r < BOARD_SIZE && 0 <= c < BOARD_SIZE ==> next.alive(r, c)
                    == self.next_alive(r, c),
    {
        let mut cells: Vec<Cell> = Vec::new();
        let mut row: usize = 0;
        while row < BOARD_SIZE
            invariant
                self.wf(),
                row <= BOARD_SIZE,
                cells@.len() == row * BOARD_SIZE,
                forall|r: int, c: int|
                    0 <= r < row && 0 <= c < BOARD_SIZE ==> (cells@[r * BOARD_SIZE + c]
                        is Alive) == #[trigger] self.next_alive(r, c),
            decreases BOARD_SIZE - row,
        {
            let mut col: usize = 0;
            while col < BOARD_SIZE
                invariant
                    self.wf(),
                    row < BOARD_SIZE,
                    col <= BOARD_SIZE,
                    cells@.len() == row * BOARD_SIZE + col,
                    forall|r: int, c: int|
                        0 <= r < row && 0 <= c < BOARD_SIZE ==> (cells@[r * BOARD_SIZE + c]
                            is Alive) == #[trigger] self.next_alive(r, c),
                    forall|c: int|
                        0 <= c < col ==> (cells@[row * BOARD_SIZE + c] is Alive)
                            == #[trigger] self.next_alive(row as int, c),
                decreases BOARD_SIZE - col,
            {
                let neighbours = self.count_live_neighbours(row as i8, col as i8);
                let cell = match neighbours {
                    2 => if self.state(row, col) { Cell::Alive } else { Cell::Dead },
                    3 => Cell::Alive,
                    _ => Cell::Dead,
                };
                cells.push(cell);
                col += 1;
            }
            row += 1;
        }
        Board { gamestate: cells }
    }
}

/// A neighbour offset never lands on the queried cell: for any in-range
/// `(r, c)` and any of the 8 Moore offsets `(dr, dc)`, the wrapped neighbour
/// position lies inside `[0, BOARD_SIZE)` on both axes and differs from
/// `(r, c)` itself.
pub proof fn lemma_neighbour_positions(r: int, c: int, dr: int, dc: int)
    requires
        0 <= r < BOARD_SIZE,
        0 <= c < BOARD_SIZE,
        -1 <= dr <= 1,
        -1 <= dc <= 1,
        !(dr == 0 && dc == 0),
    ensures
        0 <= wrap(r + dr) < BOARD_SIZE,
        0 <= wrap(c + dc) < BOARD_SIZE,
        !(wrap(r + dr) == r && wrap(c + dc) == c),
{
}

/// A neighbour count sums the weights of exactly 8 positions, so it lies
/// between 0 and 8.
pub proof fn lemma_neighbour_count_bounds(b: Board, r: int, c: int)
    ensures
        0 <= b.neighbour_count(r, c) <= 8,
{
}

/// Toroidal wraparound acts on both axes and both directions at once: on a
/// board whose only live cell is `(0, 0)`, that cell is counted as the one
/// live neighbour of the three opposite corners.
pub proof fn lemma_toroidal_corner(b: Board)
    requires
        b.wf(),
        b.alive(0, 0),
        forall|r: int, c: int|
            0 <= r < BOARD_SIZE && 0 <= c < BOARD_SIZE && !(r == 0 && c == 0)
                ==> !b.alive(r, c),
    ensures
        b.neighbour_count(BOARD_SIZE - 1, BOARD_SIZE - 1) == 1,
        b.neighbour_count(BOARD_SIZE - 1, 0) == 1,
        b.neighbour_count(0, BOARD_SIZE - 1) == 1,
{
}

/// The rule table, spelled out per neighbour count: 3 births or keeps a
/// cell, 2 keeps the current state, and 0, 1 or anything from 4 up kills.
pub proof fn lemma_rule_table(b: Board, r: int, c: int)
    ensures
        b.neighbour_count(r, c) == 3 ==> b.next_alive(r, c),
        b.neighbour_count(r, c) == 2 ==> b.next_alive(r, c) == b.alive(r, c),
        b.neighbour_count(r, c) <= 1 ==> !b.next_alive(r, c),
        b.neighbour_count(r, c) >= 4 ==> !b.next_alive(r, c),
{
}

/// Generation advance is deterministic: any two boards that both satisfy
/// the contract of `update_board` for the same predecessor hold identical
/// grids. Together with `update_board` taking `&self`, this is purity:
/// advancing the same unmodified board twice yields structurally equal
/// successors.
pub proof fn lemma_update_deterministic(b: Board, u1: Board, u2: Board)
    requires
        u1.wf(),
        u2.wf(),
        forall|r: int, c: int|
            0 <= r < BOARD_SIZE && 0 <= c < BOARD_SIZE ==> u1.alive(r, c) == b.next_alive(
                r,
                c,
            ),
        forall|r: int, c: int|
            0 <= r < BOARD_SIZE && 0 <= c < BOARD_SIZE ==> u2.alive(r, c) == b.next_alive(
                r,
                c,
            ),
    ensures
        u1.grid() == u2.grid(),
{
    assert forall|i: int| 0 <= i < u1.grid().len() implies u1.grid()[i] == u2.grid()[i] by {
        let r = i / (BOARD_SIZE as int);
        let c = i % (BOARD_SIZE as int);
        assert(u1.alive(r, c) == b.next_alive(r, c));
        assert(u2.alive(r, c) == b.next_alive(r, c));
        match u1.grid()[i] {
            Cell::Alive => {
                assert(u2.grid()[i] is Alive);
            },
            Cell::Dead => {
                assert(!(u2.grid()[i] is Alive));
            },
        }
    }
    assert(u1.grid() =~= u2.grid());
}

/// An all-dead board stays all dead: every cell of the successor of an
/// all-dead board is dead.
pub proof fn lemma_empty_board_stays_empty(b: Board, r: int, c: int)
    requires
        b.wf(),
        forall|i: int, j: int|
            0 <= i < BOARD_SIZE && 0 <= j < BOARD_SIZE ==> !b.alive(i, j),
        0 <= r < BOARD_SIZE,
        0 <= c < BOARD_SIZE,
    ensures
        !b.next_alive(r, c),
{
}

/// Relies on rand's thread-local generator and `RngExt::random_range`:
/// returns a uniformly chosen value in `0..bound`, and panics only when the
/// range is empty.
#[verifier::external_body]
fn random_below(bound: usize) -> (r: usize)
    requires
        0 < bound,
    ensures
        r < bound,
{
    rand::rng().random_range(0..bound)
}

/// Wraps a coordinate one step off either edge back onto the grid.
fn wrap_index(i: i8) -> (r: usize)
    requires
        -1 <= i,
        i <= BOARD_SIZE as i8,
    ensures
        r < BOARD_SIZE,
        r == wrap(i as int),
{
    if i < 0 {
        (i + BOARD_SIZE as i8) as usize
    } else if i >= BOARD_SIZE as i8 {
        (i - BOARD_SIZE as i8) as usize
    } else {
        i as usize
    }
}

} // verus!
