use vstd::arithmetic::div_mod::lemma_fundamental_div_mod_converse;
use vstd::prelude::*;

use crate::universe::{cell_index, lemma_well_formed_shape, Universe};

verus! {

/// Coordinates are fixed-point: this many units make one unit of the
/// normalised viewport, which spans `[-1, 1]` on each axis.
pub const UNITS_PER_VIEWPORT: i64 = 10000;

/// Where the first row and column start on each axis: `-0.6` of the viewport,
/// which centres a small grid.
pub const GRID_ORIGIN: i64 = -6000;

/// One corner of a cell's square, with the state that colours it.
#[derive(Debug, Clone, Copy, PartialEq, Eq, Structural)]
pub struct GridVertex {
    pub x: i64,
    pub y: i64,
    pub alive: bool,
}

/// Where the square of the cell with row or column `index` starts on that axis.
pub open spec fn cell_start(index: int, cell_size: int, padding: int) -> int {
    index * (cell_size + padding) + GRID_ORIGIN
}

/// Horizontal step, in cell sizes, of the `k`-th of a cell's six vertices:
/// top-left, bottom-left, bottom-right, then top-left, bottom-right, top-right.
pub open spec fn corner_dx(k: int) -> int {
    if k == 2 || k == 4 || k == 5 {
        1
    } else {
        0
    }
}

/// Vertical step, in cell sizes, of the `k`-th of a cell's six vertices.
pub open spec fn corner_dy(k: int) -> int {
    if k == 0 || k == 3 || k == 5 {
        1
    } else {
        0
    }
}

/// The `k`-th vertex of the cell at `(row, col)`.
pub open spec fn cell_vertex(row: int, col: int, alive: bool, cell_size: int, padding: int, k: int) -> GridVertex {
    GridVertex {
        x: (cell_start(col, cell_size, padding) + corner_dx(k) * cell_size) as i64,
        y: (cell_start(row, cell_size, padding) + corner_dy(k) * cell_size) as i64,
        alive: alive,
    }
}

/// The whole drawing of a board: six vertices, two triangles, for each cell
/// in row-major order.
pub open spec fn grid_geometry(cells: Seq<bool>, cols: nat, cell_size: int, padding: int) -> Seq<GridVertex> {
    Seq::new(
        cells.len() * 6,
        |v: int|
            {
                let i = v / 6;
                cell_vertex(i / (cols as int), i % (cols as int), cells[i], cell_size, padding, v % 6)
            },
    )
}

/// A cell's start and far edge on one axis stay well inside `i64`.
proof fn lemma_start_bounds(index: int, cell_size: int, padding: int)
    requires
        0 <= index <= u32::MAX,
        0 <= cell_size <= u16::MAX,
        0 <= padding <= u16::MAX,
    ensures
        GRID_ORIGIN <= cell_start(index, cell_size, padding),
        cell_start(index, cell_size, padding) + cell_size <= 0x4_0000_0000_0000,
{
    assert(0 <= index * (cell_size + padding) <= 0xffff_ffff * 0x1_fffe) by (nonlinear_arith)
        requires
            0 <= index <= 0xffff_ffff,
            0 <= cell_size + padding <= 0x1_fffe,
    ;
}

/// The `k`-th vertex pushed for `(row, col)` is the one the drawing places there.
proof fn lemma_vertex_position(cells: Seq<bool>, rows: nat, cols: nat, cell_size: int, padding: int, row: int, col: int, k: int)
    requires
        cols > 0,
        cells.len() == rows * cols,
        0 <= row < rows,
        0 <= col < cols,
        0 <= k < 6,
    ensures
        0 <= 6 * cell_index(cols, row, col) + k < cells.len() * 6,
        grid_geometry(cells, cols, cell_size, padding)[6 * cell_index(cols, row, col) + k]
            == cell_vertex(row, col, cells[cell_index(cols, row, col)], cell_size, padding, k),
{
    let i = cell_index(cols, row, col);
    assert(0 <= row * cols <= (rows - 1) * cols) by (nonlinear_arith)
        requires 0 <= row <= rows - 1, cols > 0;
    assert((rows - 1) * cols + cols == rows * cols) by (nonlinear_arith);
    lemma_fundamental_div_mod_converse(i, cols as int, row, col);
    lemma_fundamental_div_mod_converse(6 * i + k, 6, i, k);
}

/// The drawing depends on the board and the layout alone: two derivations
/// from one unmodified board are identical, and each holds exactly six
/// vertices per cell.
pub proof fn lemma_geometry_deterministic(
    u: &Universe,
    cell_size: int,
    padding: int,
    first: Seq<GridVertex>,
    second: Seq<GridVertex>,
)
    requires
        u.well_formed(),
        first == grid_geometry(u@, u.num_cols(), cell_size, padding),
        second == grid_geometry(u@, u.num_cols(), cell_size, padding),
    ensures
        first == second,
        first.len() == u.num_rows() * u.num_cols() * 6,
{
    lemma_well_formed_shape(u);
}

/// Lays out every cell of the board as two triangles, in row-major order.
/// Cell `(row, col)` covers `cell_size` units from `cell_start(col)` across and
/// from `cell_start(row)` up; neighbouring squares are `padding` units apart.
pub fn create_grid_vertices(universe: &Universe, cell_size: u16, padding: u16) -> (r: Vec<GridVertex>)
    requires
        universe.well_formed(),
    ensures
        r@ == grid_geometry(universe@, universe.num_cols(), cell_size as int, padding as int),
        r@.len() == universe.num_rows() * universe.num_cols() * 6,
{
    proof {
        lemma_well_formed_shape(universe);
    }
    let ghost cells = universe@;
    let ghost rows = universe.num_rows();
    let ghost cols = universe.num_cols();
    let ghost target = grid_geometry(cells, cols, cell_size as int, padding as int);
    let rows_count = universe.rows();
    let cols_count = universe.cols();
    let pitch: i64 = cell_size as i64 + padding as i64;
    let size: i64 = cell_size as i64;
    let mut vertices: Vec<GridVertex> = Vec::new();
    let mut row: u32 = 0;
    while row < rows_count
        invariant
            universe.well_formed(),
            cells == universe@,
            rows == rows_count,
            cols == cols_count,
            rows == universe.num_rows(),
            cols == universe.num_cols(),
            rows > 0,
            cols > 0,
            cells.len() == rows * cols,
            target == grid_geometry(cells, cols, cell_size as int, padding as int),
            pitch == cell_size + padding,
            size == cell_size,
            row <= rows_count,
            vertices@ == target.take(6 * (row * cols)),
        decreases rows_count - row,
    {
        let mut col: u32 = 0;
        while col < cols_count
            invariant
                universe.well_formed(),
                cells == universe@,
                rows == rows_count,
                cols == cols_count,
                rows == universe.num_rows(),
                cols == universe.num_cols(),
                rows > 0,
                cols > 0,
                cells.len() == rows * cols,
                target == grid_geometry(cells, cols, cell_size as int, padding as int),
                pitch == cell_size + padding,
                size == cell_size,
                row < rows_count,
                col <= cols_count,
                vertices@ == target.take(6 * (row * cols + col)),
            decreases cols_count - col,
        {
            let alive = universe.is_alive(row, col);
            proof {
                lemma_start_bounds(col as int, cell_size as int, padding as int);
                lemma_start_bounds(row as int, cell_size as int, padding as int);
            }
            let x_offset: i64 = col as i64 * pitch + GRID_ORIGIN;
            let y_offset: i64 = row as i64 * pitch + GRID_ORIGIN;
            let ghost start = vertices@.len();
            vertices.push(GridVertex { x: x_offset, y: y_offset + size, alive });
            vertices.push(GridVertex { x: x_offset, y: y_offset, alive });
            vertices.push(GridVertex { x: x_offset + size, y: y_offset, alive });
            vertices.push(GridVertex { x: x_offset, y: y_offset + size, alive });
            vertices.push(GridVertex { x: x_offset + size, y: y_offset, alive });
            vertices.push(GridVertex { x: x_offset + size, y: y_offset + size, alive });
            proof {
                assert forall|k: int| 0 <= k < 6 implies #[trigger] vertices@[start + k] == target[6 * cell_index(
                    cols,
                    row as int,
                    col as int,
                ) + k] by {
                    lemma_vertex_position(cells, rows, cols, cell_size as int, padding as int, row as int, col as int, k);
                }
                lemma_vertex_position(cells, rows, cols, cell_size as int, padding as int, row as int, col as int, 5);
            }
            col = col + 1;
            assert(6 * (row * cols + col) <= target.len());
            assert forall|j: int| 0 <= j < vertices@.len() implies #[trigger] vertices@[j] == target[j] by {
                if j >= start {
                    assert(vertices@[start + (j - start)] == target[6 * cell_index(cols, row as int, (col - 1) as int) + (j - start)]);
                }
            }
            assert(vertices@ =~= target.take(6 * (row * cols + col)));
        }
        proof {
            assert((row + 1) * cols == row * cols + cols) by (nonlinear_arith);
        }
        row = row + 1;
    }
    proof {
        assert(row * cols == rows * cols);
    }
    assert(vertices@ =~= target);
    vertices
}

} // verus!
