use vstd::arithmetic::div_mod::{lemma_fundamental_div_mod, lemma_fundamental_div_mod_converse};
use vstd::prelude::*;

verus! {

/// Why a board operation was refused.
#[derive(Debug, Clone, Copy, PartialEq, Eq, Structural)]
pub enum BoardError {
    /// A board needs at least one row and one column.
    InvalidDimensions,
    /// The addressed cell lies outside the board.
    OutOfBounds,
}

/// ASCII `G`, guanine.
pub const GUANINE: u8 = 71;

/// ASCII `C`, cytosine.
pub const CYTOSINE: u8 = 67;

/// The bases that seed a live cell: guanine and cytosine.
pub open spec fn is_gc(base: u8) -> bool {
    base == GUANINE || base == CYTOSINE
}

/// The initial cells of a board with `n` cells: cell `i` is alive exactly when
/// the seed has a `G` or `C` at position `i`; cells past the seed are dead.
pub open spec fn seeded_cells(n: nat, dna: Seq<u8>) -> Seq<bool> {
    Seq::new(n, |i: int| i < dna.len() && is_gc(dna[i]))
}

/// Row-major position of `(row, col)` on a board with `cols` columns.
pub open spec fn cell_index(cols: nat, row: int, col: int) -> int {
    row * cols + col
}

/// The board after flipping `(row, col)`; a position off the board changes nothing.
pub open spec fn toggled(cells: Seq<bool>, rows: nat, cols: nat, row: int, col: int) -> Seq<bool> {
    if 0 <= row < rows && 0 <= col < cols {
        cells.update(cell_index(cols, row, col), !cells[cell_index(cols, row, col)])
    } else {
        cells
    }
}

/// The offset added to a coordinate for the `k`-th neighbour step along an
/// axis of length `n`: one back (`n - 1`, modulo `n`), none, one forward.
pub open spec fn wrap_offset(n: nat, k: int) -> int {
    if k == 0 {
        n - 1
    } else if k == 1 {
        0
    } else {
        1
    }
}

/// Whether the `k`-th of the nine offset pairs (row offset `k / 3`, column
/// offset `k % 3`) reaches a live cell. The pair whose two offsets are both
/// zero is the cell itself and never counts.
pub open spec fn neighbor_term(cells: Seq<bool>, rows: nat, cols: nat, row: int, col: int, k: int) -> nat {
    let dr = wrap_offset(rows, k / 3);
    let dc = wrap_offset(cols, k % 3);
    if dr == 0 && dc == 0 {
        0
    } else if cells[cell_index(cols, (row + dr) % (rows as int), (col + dc) % (cols as int))] {
        1
    } else {
        0
    }
}

/// The sum of the first `k` neighbour terms.
pub open spec fn neighbor_prefix(cells: Seq<bool>, rows: nat, cols: nat, row: int, col: int, k: nat) -> nat
    decreases k,
{
    if k == 0 {
        0
    } else {
        neighbor_prefix(cells, rows, cols, row, col, (k - 1) as nat)
            + neighbor_term(cells, rows, cols, row, col, k - 1)
    }
}

/// Live cells among the eight toroidally wrapped neighbours of `(row, col)`.
pub open spec fn live_neighbors(cells: Seq<bool>, rows: nat, cols: nat, row: int, col: int) -> nat {
    neighbor_prefix(cells, rows, cols, row, col, 9)
}

/// The rule: a live cell survives with two or three live neighbours, a dead
/// cell is born with exactly three; every other cell is dead next.
pub open spec fn next_state(alive: bool, neighbors: nat) -> bool {
    if alive {
        neighbors == 2 || neighbors == 3
    } else {
        neighbors == 3
    }
}

/// The next generation, every cell computed from the current one.
pub open spec fn stepped(cells: Seq<bool>, rows: nat, cols: nat) -> Seq<bool> {
    Seq::new(
        cells.len(),
        |i: int| next_state(cells[i], live_neighbors(cells, rows, cols, i / (cols as int), i % (cols as int))),
    )
}

/// A board of `rows × cols` cells, stored row-major, whose edges wrap around.
pub struct Universe {
    cells: Vec<bool>,
    rows: u32,
    cols: u32,
}

impl View for Universe {
    type V = Seq<bool>;

    closed spec fn view(&self) -> Seq<bool> {
        self.cells@
    }
}

impl Universe {
    pub closed spec fn num_rows(&self) -> nat {
        self.rows as nat
    }

    pub closed spec fn num_cols(&self) -> nat {
        self.cols as nat
    }

    /// At least one row and one column, and one cell for each position.
    pub closed spec fn well_formed(&self) -> bool {
        &&& self.rows > 0
        &&& self.cols > 0
        &&& self.cells@.len() == self.rows * self.cols
        &&& self.rows * self.cols <= usize::MAX
    }
}

/// A position on the board lands inside the row-major cell sequence.
proof fn lemma_index_in_bounds(rows: nat, cols: nat, row: int, col: int)
    requires
        0 <= row < rows,
        0 <= col < cols,
    ensures
        0 <= cell_index(cols, row, col) < rows * cols,
        (row + 1) * cols == row * cols + cols,
        (row + 1) * cols <= rows * cols,
{
    assert(0 <= row * cols) by (nonlinear_arith)
        requires 0 <= row, 0 <= cols;
    assert((row + 1) * cols <= rows * cols) by (nonlinear_arith)
        requires row + 1 <= rows, 0 <= cols;
    assert((row + 1) * cols == row * cols + cols) by (nonlinear_arith);
}

/// Every index of a `rows × cols` board is the position of one cell.
pub proof fn lemma_position_of_index(rows: nat, cols: nat, i: int)
    requires
        cols > 0,
        0 <= i < rows * cols,
    ensures
        0 <= i / (cols as int) < rows,
        0 <= i % (cols as int) < cols,
        i == cell_index(cols, i / (cols as int), i % (cols as int)),
{
    let c = cols as int;
    lemma_fundamental_div_mod(i, c);
    let q = i / c;
    let r = i % c;
    assert(0 <= r < c);
    assert(i == q * c + r);
    assert(0 <= q < rows) by (nonlinear_arith)
        requires i == q * c + r, 0 <= r < c, 0 <= i < rows * c, c > 0;
}

/// On a board with no live cell, every prefix of the neighbour sum is zero.
proof fn lemma_dead_neighbor_prefix(cells: Seq<bool>, rows: nat, cols: nat, row: int, col: int, k: nat)
    requires
        rows > 0,
        cols > 0,
        cells.len() == rows * cols,
        forall|j: int| 0 <= j < cells.len() ==> !cells[j],
        0 <= row < rows,
        0 <= col < cols,
    ensures
        neighbor_prefix(cells, rows, cols, row, col, k) == 0,
    decreases k,
{
    if k > 0 {
        lemma_dead_neighbor_prefix(cells, rows, cols, row, col, (k - 1) as nat);
        let dr = wrap_offset(rows, (k - 1) / 3);
        let dc = wrap_offset(cols, (k - 1) % 3);
        let nr = (row + dr) % (rows as int);
        let nc = (col + dc) % (cols as int);
        if !(dr == 0 && dc == 0) {
            lemma_index_in_bounds(rows, cols, nr, nc);
        }
    }
}

/// A board with no live cell stays without one: the empty board is a fixed
/// point of the rule, whatever its size.
pub proof fn lemma_dead_board_is_fixed(rows: nat, cols: nat)
    requires
        rows > 0,
        cols > 0,
    ensures
        stepped(Seq::new(rows * cols, |i: int| false), rows, cols) == Seq::new(rows * cols, |i: int| false),
{
    let dead = Seq::new(rows * cols, |i: int| false);
    assert forall|i: int| 0 <= i < dead.len() implies !stepped(dead, rows, cols)[i] by {
        lemma_position_of_index(rows, cols, i);
        lemma_dead_neighbor_prefix(dead, rows, cols, i / (cols as int), i % (cols as int), 9);
    }
    assert(stepped(dead, rows, cols) =~= dead);
}

/// Flipping the same position twice gives back the board it started from,
/// for every position, on or off the board.
pub proof fn lemma_toggle_twice(cells: Seq<bool>, rows: nat, cols: nat, row: int, col: int)
    requires
        cells.len() == rows * cols,
    ensures
        toggled(toggled(cells, rows, cols, row, col), rows, cols, row, col) == cells,
{
    if 0 <= row < rows && 0 <= col < cols {
        lemma_index_in_bounds(rows, cols, row, col);
        assert(toggled(toggled(cells, rows, cols, row, col), rows, cols, row, col) =~= cells);
    }
}

/// A board that was built or stepped holds exactly one cell per position.
pub proof fn lemma_well_formed_shape(u: &Universe)
    requires
        u.well_formed(),
    ensures
        u.num_rows() > 0,
        u.num_cols() > 0,
        u@.len() == u.num_rows() * u.num_cols(),
{
}

impl Universe {
    /// Builds a `rows × cols` board whose cell `i` is alive exactly when the
    /// seed holds `G` or `C` at position `i`; seed past the last cell is ignored.
    pub fn new(rows: u32, cols: u32, dna: &[u8]) -> (r: Result<Universe, BoardError>)
        requires
            rows * cols <= usize::MAX,
        ensures
            r is Ok <==> (rows > 0 && cols > 0),
            r is Err ==> r == Err::<Universe, BoardError>(BoardError::InvalidDimensions),
            r is Ok ==> ({
                let u = r->Ok_0;
                &&& u.well_formed()
                &&& u.num_rows() == rows
                &&& u.num_cols() == cols
                &&& u@ == seeded_cells((rows * cols) as nat, dna@)
            }),
    {
        if rows == 0 || cols == 0 {
            return Err(BoardError::InvalidDimensions);
        }
        let n: usize = rows as usize * cols as usize;
        let mut cells: Vec<bool> = Vec::with_capacity(n);
        let mut i: usize = 0;
        while i < n
            invariant
                i <= n,
                n == rows * cols,
                cells@ == seeded_cells(i as nat, dna@),
            decreases n - i,
        {
            let alive = i < dna.len() && (dna[i] == GUANINE || dna[i] == CYTOSINE);
            cells.push(alive);
            i = i + 1;
            assert(cells@ =~= seeded_cells(i as nat, dna@));
        }
        Ok(Universe { cells, rows, cols })
    }

    /// Flips the cell at `(row, col)`.
    pub fn toggle(&mut self, row: u32, col: u32) -> (r: Result<(), BoardError>)
        requires
            old(self).well_formed(),
        ensures
            final(self).well_formed(),
            final(self).num_rows() == old(self).num_rows(),
            final(self).num_cols() == old(self).num_cols(),
            final(self)@ == toggled(old(self)@, old(self).num_rows(), old(self).num_cols(), row as int, col as int),
            row < old(self).num_rows() && col < old(self).num_cols() <==> r is Ok,
            r is Err ==> r == Err::<(), BoardError>(BoardError::OutOfBounds),
    {
        if row >= self.rows || col >= self.cols {
            return Err(BoardError::OutOfBounds);
        }
        proof {
            lemma_index_in_bounds(self.rows as nat, self.cols as nat, row as int, col as int);
        }
        let idx: usize = row as usize * self.cols as usize + col as usize;
        let flipped = !self.cells[idx];
        self.cells.set(idx, flipped);
        Ok(())
    }

    /// Number of rows.
    pub fn rows(&self) -> (r: u32)
        ensures
            r == self.num_rows(),
    {
        self.rows
    }

    /// Number of columns.
    pub fn cols(&self) -> (r: u32)
        ensures
            r == self.num_cols(),
    {
        self.cols
    }

    /// Whether the cell at `(row, col)` is alive.
    pub fn is_alive(&self, row: u32, col: u32) -> (r: bool)
        requires
            self.well_formed(),
            row < self.num_rows(),
            col < self.num_cols(),
        ensures
            r == self@[cell_index(self.num_cols(), row as int, col as int)],
    {
        proof {
            lemma_index_in_bounds(self.rows as nat, self.cols as nat, row as int, col as int);
        }
        self.cells[row as usize * self.cols as usize + col as usize]
    }

    /// All cells, row by row.
    pub fn cells(&self) -> (r: &[bool])
        ensures
            r@ == self@,
    {
        self.cells.as_slice()
    }

    /// Counts the live cells among the eight wrapped neighbours of `(row, col)`.
    fn live_neighbor_count(&self, row: u32, col: u32) -> (count: u8)
        requires
            self.well_formed(),
            row < self.rows,
            col < self.cols,
        ensures
            count == live_neighbors(self@, self.rows as nat, self.cols as nat, row as int, col as int),
    {
        let deltas_row: [u32; 3] = [self.rows - 1, 0, 1];
        let deltas_col: [u32; 3] = [self.cols - 1, 0, 1];
        let ghost rows = self.rows as nat;
        let ghost cols = self.cols as nat;
        let mut count: u8 = 0;
        let mut i: usize = 0;
        while i < 3
            invariant
                self.well_formed(),
                row < self.rows,
                col < self.cols,
                rows == self.rows,
                cols == self.cols,
                deltas_row@ == seq![(self.rows - 1) as u32, 0u32, 1u32],
                deltas_col@ == seq![(self.cols - 1) as u32, 0u32, 1u32],
                i <= 3,
                count == neighbor_prefix(self@, rows, cols, row as int, col as int, (3 * i) as nat),
                count <= 3 * i,
            decreases 3 - i,
        {
            let mut j: usize = 0;
            while j < 3
                invariant
                    self.well_formed(),
                    row < self.rows,
                    col < self.cols,
                    rows == self.rows,
                    cols == self.cols,
                    deltas_row@ == seq![(self.rows - 1) as u32, 0u32, 1u32],
                    deltas_col@ == seq![(self.cols - 1) as u32, 0u32, 1u32],
                    i < 3,
                    j <= 3,
                    count == neighbor_prefix(self@, rows, cols, row as int, col as int, (3 * i + j) as nat),
                    count <= 3 * i + j,
                decreases 3 - j,
            {
                let delta_row = deltas_row[i];
                let delta_col = deltas_col[j];
                let ghost k: int = (3 * i + j) as int;
                assert(k / 3 == i as int && k % 3 == j as int) by {
                    lemma_fundamental_div_mod_converse(k, 3, i as int, j as int);
                }
                assert(delta_row as int == wrap_offset(rows, i as int));
                assert(delta_col as int == wrap_offset(cols, j as int));
                if !(delta_row == 0 && delta_col == 0) {
                    let neighbor_row = ((row as u64 + delta_row as u64) % self.rows as u64) as u32;
                    let neighbor_col = ((col as u64 + delta_col as u64) % self.cols as u64) as u32;
                    proof {
                        lemma_index_in_bounds(rows, cols, neighbor_row as int, neighbor_col as int);
                    }
                    let idx: usize = neighbor_row as usize * self.cols as usize + neighbor_col as usize;
                    if self.cells[idx] {
                        count = count + 1;
                    }
                }
                j = j + 1;
            }
            i = i + 1;
        }
        count
    }

    /// Advances the board by one generation: every cell's next state comes
    /// from the current generation alone.
    pub fn tick(&mut self)
        requires
            old(self).well_formed(),
        ensures
            final(self).well_formed(),
            final(self).num_rows() == old(self).num_rows(),
            final(self).num_cols() == old(self).num_cols(),
            final(self)@ == stepped(old(self)@, old(self).num_rows(), old(self).num_cols()),
    {
        let ghost rows = self.rows as nat;
        let ghost cols = self.cols as nat;
        let ghost target = stepped(self@, rows, cols);
        let mut next: Vec<bool> = Vec::with_capacity(self.cells.len());
        let mut row: u32 = 0;
        while row < self.rows
            invariant
                self.well_formed(),
                rows == self.rows,
                cols == self.cols,
                target == stepped(self@, rows, cols),
                row <= self.rows,
                next@ == target.take(row * cols),
            decreases self.rows - row,
        {
            let mut col: u32 = 0;
            while col < self.cols
                invariant
                    self.well_formed(),
                    rows == self.rows,
                    cols == self.cols,
                    target == stepped(self@, rows, cols),
                    row < self.rows,
                    col <= self.cols,
                    next@ == target.take(row * cols + col),
                decreases self.cols - col,
            {
                let live_neighbors = self.live_neighbor_count(row, col);
                proof {
                    lemma_index_in_bounds(rows, cols, row as int, col as int);
                }
                let idx: usize = row as usize * self.cols as usize + col as usize;
                let alive = self.cells[idx];
                let next_alive = if alive {
                    live_neighbors == 2 || live_neighbors == 3
                } else {
                    live_neighbors == 3
                };
                proof {
                    lemma_fundamental_div_mod_converse(idx as int, cols as int, row as int, col as int);
                }
                next.push(next_alive);
                col = col + 1;
                assert(next@ =~= target.take(row * cols + col));
            }
            proof {
                lemma_index_in_bounds(rows, cols, row as int, 0);
            }
            row = row + 1;
        }
        self.cells = next;
        assert(self.cells@ =~= target);
    }
}

} // verus!
