use vstd::prelude::*;

use crate::geometry::{create_grid_vertices, grid_geometry, GridVertex};
use crate::input::{click_target, resolve_click};
use crate::universe::{seeded_cells, stepped, toggled, BoardError, Universe};

verus! {

/// How long a frame waits, in milliseconds, before the board advances.
pub const TICK_INTERVAL_MS: u64 = 200;

/// Owns the board and the drawing last derived from it, and reacts to the
/// events of the window around it: timer ticks, clicks and key presses.
pub struct Simulation {
    universe: Universe,
    cell_size: u16,
    padding: u16,
    vertices: Vec<GridVertex>,
    alternate_background: bool,
}

impl Simulation {
    pub closed spec fn board(&self) -> Universe {
        self.universe
    }

    pub closed spec fn layout_cell_size(&self) -> int {
        self.cell_size as int
    }

    pub closed spec fn layout_padding(&self) -> int {
        self.padding as int
    }

    pub closed spec fn drawing(&self) -> Seq<GridVertex> {
        self.vertices@
    }

    pub closed spec fn background_flag(&self) -> bool {
        self.alternate_background
    }

    /// The board is well formed and the drawing is the one derived from it.
    pub open spec fn well_formed(&self) -> bool {
        &&& self.board().well_formed()
        &&& self.drawing() == grid_geometry(
            self.board()@,
            self.board().num_cols(),
            self.layout_cell_size(),
            self.layout_padding(),
        )
    }

    /// Seeds a `rows × cols` board from `dna` and draws it with the given
    /// layout; the background starts in its first colour.
    pub fn new(rows: u32, cols: u32, dna: &[u8], cell_size: u16, padding: u16) -> (r: Result<Simulation, BoardError>)
        requires
            rows * cols <= usize::MAX,
        ensures
            r is Ok <==> (rows > 0 && cols > 0),
            r is Err ==> r == Err::<Simulation, BoardError>(BoardError::InvalidDimensions),
            r is Ok ==> ({
                let s = r->Ok_0;
                &&& s.well_formed()
                &&& s.board().num_rows() == rows
                &&& s.board().num_cols() == cols
                &&& s.board()@ == seeded_cells((rows * cols) as nat, dna@)
                &&& s.layout_cell_size() == cell_size
                &&& s.layout_padding() == padding
                &&& !s.background_flag()
            }),
    {
        match Universe::new(rows, cols, dna) {
            Ok(universe) => {
                let vertices = create_grid_vertices(&universe, cell_size, padding);
                Ok(Simulation { universe, cell_size, padding, vertices, alternate_background: false })
            },
            Err(e) => Err(e),
        }
    }

    /// Advances the board one generation and redraws it.
    pub fn on_tick(&mut self)
        requires
            old(self).well_formed(),
        ensures
            final(self).well_formed(),
            final(self).board().num_rows() == old(self).board().num_rows(),
            final(self).board().num_cols() == old(self).board().num_cols(),
            final(self).board()@ == stepped(
                old(self).board()@,
                old(self).board().num_rows(),
                old(self).board().num_cols(),
            ),
            final(self).layout_cell_size() == old(self).layout_cell_size(),
            final(self).layout_padding() == old(self).layout_padding(),
            final(self).background_flag() == old(self).background_flag(),
    {
        self.universe.tick();
        self.vertices = create_grid_vertices(&self.universe, self.cell_size, self.padding);
    }

    /// Called once per frame with the milliseconds since the board last
    /// advanced: advances it when a full interval has passed, and says whether
    /// it did.
    pub fn on_frame(&mut self, elapsed_ms: u64) -> (advanced: bool)
        requires
            old(self).well_formed(),
        ensures
            advanced == (elapsed_ms >= TICK_INTERVAL_MS),
            final(self).well_formed(),
            final(self).board().num_rows() == old(self).board().num_rows(),
            final(self).board().num_cols() == old(self).board().num_cols(),
            final(self).board()@ == if advanced {
                stepped(old(self).board()@, old(self).board().num_rows(), old(self).board().num_cols())
            } else {
                old(self).board()@
            },
            final(self).layout_cell_size() == old(self).layout_cell_size(),
            final(self).layout_padding() == old(self).layout_padding(),
            final(self).background_flag() == old(self).background_flag(),
    {
        if elapsed_ms >= TICK_INTERVAL_MS {
            self.on_tick();
            true
        } else {
            false
        }
    }

    /// Handles a click at `(x, y)` in grid units: flips the cell under it, if
    /// any, redraws, and returns that cell.
    pub fn on_click(&mut self, x: i64, y: i64) -> (hit: Option<(u32, u32)>)
        requires
            old(self).well_formed(),
        ensures
            hit == click_target(
                x as int,
                y as int,
                old(self).board().num_rows(),
                old(self).board().num_cols(),
                old(self).layout_cell_size(),
                old(self).layout_padding(),
            ),
            final(self).well_formed(),
            final(self).board().num_rows() == old(self).board().num_rows(),
            final(self).board().num_cols() == old(self).board().num_cols(),
            final(self).board()@ == match hit {
                Some((row, col)) => toggled(
                    old(self).board()@,
                    old(self).board().num_rows(),
                    old(self).board().num_cols(),
                    row as int,
                    col as int,
                ),
                None => old(self).board()@,
            },
            final(self).layout_cell_size() == old(self).layout_cell_size(),
            final(self).layout_padding() == old(self).layout_padding(),
            final(self).background_flag() == old(self).background_flag(),
    {
        let hit = resolve_click(x, y, self.universe.rows(), self.universe.cols(), self.cell_size, self.padding);
        if let Some((row, col)) = hit {
            let _ = self.universe.toggle(row, col);
            self.vertices = create_grid_vertices(&self.universe, self.cell_size, self.padding);
        }
        hit
    }

    /// Handles a key press: switches the background to its other colour.
    pub fn on_key(&mut self)
        requires
            old(self).well_formed(),
        ensures
            final(self).well_formed(),
            final(self).board() == old(self).board(),
            final(self).layout_cell_size() == old(self).layout_cell_size(),
            final(self).layout_padding() == old(self).layout_padding(),
            final(self).background_flag() == !old(self).background_flag(),
    {
        self.alternate_background = !self.alternate_background;
    }

    /// The board.
    pub fn universe(&self) -> (r: &Universe)
        ensures
            *r == self.board(),
    {
        &self.universe
    }

    /// The vertices last derived from the board.
    pub fn vertices(&self) -> (r: &[GridVertex])
        ensures
            r@ == self.drawing(),
    {
        self.vertices.as_slice()
    }

    /// Whether the background shows its second colour.
    pub fn alternate_background(&self) -> (r: bool)
        ensures
            r == self.background_flag(),
    {
        self.alternate_background
    }
}

} // verus!
