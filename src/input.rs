use vstd::prelude::*;

use crate::geometry::{cell_start, GRID_ORIGIN};

verus! {

/// Whether the square of cell `(row, col)`, edges included, holds `(x, y)`.
pub open spec fn cell_contains(x: int, y: int, row: int, col: int, cell_size: int, padding: int) -> bool {
    &&& cell_start(col, cell_size, padding) <= x <= cell_start(col, cell_size, padding) + cell_size
    &&& cell_start(row, cell_size, padding) <= y <= cell_start(row, cell_size, padding) + cell_size
}

/// `(row, col)` is on the board, holds the point, and no cell before it in
/// row-major order does.
pub open spec fn is_first_hit(
    x: int,
    y: int,
    rows: nat,
    cols: nat,
    cell_size: int,
    padding: int,
    row: int,
    col: int,
) -> bool {
    &&& 0 <= row < rows
    &&& 0 <= col < cols
    &&& cell_contains(x, y, row, col, cell_size, padding)
    &&& forall|r: int, c: int|
        0 <= r < rows && 0 <= c < cols && (r < row || (r == row && c < col))
            ==> !#[trigger] cell_contains(x, y, r, c, cell_size, padding)
}

/// The cell a click at `(x, y)` selects: the first in row-major order whose
/// square holds the point, or none when the point is in a gap or off the grid.
pub open spec fn click_target(
    x: int,
    y: int,
    rows: nat,
    cols: nat,
    cell_size: int,
    padding: int,
) -> Option<(u32, u32)> {
    if exists|row: int, col: int| is_first_hit(x, y, rows, cols, cell_size, padding, row, col) {
        let (row, col) = choose|row: int, col: int| is_first_hit(x, y, rows, cols, cell_size, padding, row, col);
        Some((row as u32, col as u32))
    } else {
        None
    }
}

/// `v` lies strictly between the squares of two neighbouring rows or columns.
pub open spec fn in_gap(v: int, count: nat, cell_size: int, padding: int) -> bool {
    exists|i: int|
        0 <= i && i + 1 < count && cell_start(i, cell_size, padding) + cell_size < v < #[trigger] cell_start(
            i + 1,
            cell_size,
            padding,
        )
}

/// Squares further along an axis start further along it.
proof fn lemma_start_monotone(a: int, b: int, cell_size: int, padding: int)
    requires
        a <= b,
        0 <= cell_size,
        0 <= padding,
    ensures
        cell_start(a, cell_size, padding) <= cell_start(b, cell_size, padding),
        a < b ==> cell_start(a, cell_size, padding) + cell_size + padding <= cell_start(b, cell_size, padding),
{
    assert(a * (cell_size + padding) <= b * (cell_size + padding)) by (nonlinear_arith)
        requires a <= b, 0 <= cell_size + padding;
    if a < b {
        assert((a + 1) * (cell_size + padding) <= b * (cell_size + padding)) by (nonlinear_arith)
            requires a + 1 <= b, 0 <= cell_size + padding;
        assert((a + 1) * (cell_size + padding) == a * (cell_size + padding) + cell_size + padding)
            by (nonlinear_arith);
    }
}

/// At most one cell is the first hit of a point.
proof fn lemma_first_hit_unique(
    x: int,
    y: int,
    rows: nat,
    cols: nat,
    cell_size: int,
    padding: int,
    row: int,
    col: int,
)
    requires
        is_first_hit(x, y, rows, cols, cell_size, padding, row, col),
    ensures
        click_target(x, y, rows, cols, cell_size, padding) == Some((row as u32, col as u32)),
{
    let (r, c) = choose|r: int, c: int| is_first_hit(x, y, rows, cols, cell_size, padding, r, c);
    assert(is_first_hit(x, y, rows, cols, cell_size, padding, r, c));
    if r < row || (r == row && c < col) {
        assert(!cell_contains(x, y, r, c, cell_size, padding));
    } else if row < r || (row == r && col < c) {
        assert(!cell_contains(x, y, row, col, cell_size, padding));
    }
}

/// A point strictly inside a gap between two rows or two columns selects no
/// cell.
pub proof fn lemma_gap_selects_nothing(x: int, y: int, rows: nat, cols: nat, cell_size: int, padding: int)
    requires
        0 <= cell_size,
        0 <= padding,
        in_gap(x, cols, cell_size, padding) || in_gap(y, rows, cell_size, padding),
    ensures
        click_target(x, y, rows, cols, cell_size, padding) is None,
{
    assert forall|r: int, c: int| 0 <= r < rows && 0 <= c < cols implies !cell_contains(
        x,
        y,
        r,
        c,
        cell_size,
        padding,
    ) by {
        if in_gap(x, cols, cell_size, padding) {
            let i = choose|i: int|
                0 <= i && i + 1 < cols && cell_start(i, cell_size, padding) + cell_size < x
                    < #[trigger] cell_start(i + 1, cell_size, padding);
            if c <= i {
                lemma_start_monotone(c, i, cell_size, padding);
            } else {
                lemma_start_monotone(i + 1, c, cell_size, padding);
            }
        } else {
            let i = choose|i: int|
                0 <= i && i + 1 < rows && cell_start(i, cell_size, padding) + cell_size < y
                    < #[trigger] cell_start(i + 1, cell_size, padding);
            if r <= i {
                lemma_start_monotone(r, i, cell_size, padding);
            } else {
                lemma_start_monotone(i + 1, r, cell_size, padding);
            }
        }
    }
    if exists|row: int, col: int| is_first_hit(x, y, rows, cols, cell_size, padding, row, col) {
        let (row, col) = choose|row: int, col: int| is_first_hit(x, y, rows, cols, cell_size, padding, row, col);
        assert(!cell_contains(x, y, row, col, cell_size, padding));
    }
}

/// The centre of every cell's square selects that cell, provided squares are
/// not so small and so close that a centre lies on a neighbour's edge.
pub proof fn lemma_center_selects_cell(rows: nat, cols: nat, cell_size: int, padding: int, row: int, col: int)
    requires
        0 <= cell_size,
        0 <= padding,
        padding > 0 || cell_size >= 2,
        0 <= row < rows,
        0 <= col < cols,
    ensures
        click_target(
            cell_start(col, cell_size, padding) + cell_size / 2,
            cell_start(row, cell_size, padding) + cell_size / 2,
            rows,
            cols,
            cell_size,
            padding,
        ) == Some((row as u32, col as u32)),
{
    let x = cell_start(col, cell_size, padding) + cell_size / 2;
    let y = cell_start(row, cell_size, padding) + cell_size / 2;
    assert forall|r: int, c: int|
        0 <= r < rows && 0 <= c < cols && (r < row || (r == row && c < col)) implies !#[trigger] cell_contains(
        x,
        y,
        r,
        c,
        cell_size,
        padding,
    ) by {
        if r < row {
            lemma_start_monotone(r, row, cell_size, padding);
        } else {
            lemma_start_monotone(c, col, cell_size, padding);
        }
    }
    lemma_first_hit_unique(x, y, rows, cols, cell_size, padding, row, col);
}

/// Finds the cell under a click at `(x, y)`, in the fixed-point units of the
/// grid geometry: the first cell in row-major order whose square holds the
/// point, or `None` when the point is in a gap or off the grid.
pub fn resolve_click(x: i64, y: i64, rows: u32, cols: u32, cell_size: u16, padding: u16) -> (r: Option<(u32, u32)>)
    ensures
        r == click_target(x as int, y as int, rows as nat, cols as nat, cell_size as int, padding as int),
{
    let ghost s = cell_size as int;
    let ghost p = padding as int;
    let pitch: i64 = cell_size as i64 + padding as i64;
    let size: i64 = cell_size as i64;
    let mut row: u32 = 0;
    while row < rows
        invariant
            pitch == s + p,
            size == s,
            s == cell_size,
            p == padding,
            row <= rows,
            forall|r: int, c: int|
                0 <= r < row && 0 <= c < cols ==> !#[trigger] cell_contains(x as int, y as int, r, c, s, p),
        decreases rows - row,
    {
        let mut col: u32 = 0;
        while col < cols
            invariant
                pitch == s + p,
                size == s,
                s == cell_size,
                p == padding,
                row < rows,
                col <= cols,
                forall|r: int, c: int|
                    0 <= r < rows && 0 <= c < cols && (r < row || (r == row && c < col))
                        ==> !#[trigger] cell_contains(x as int, y as int, r, c, s, p),
            decreases cols - col,
        {
            assert(0 <= col as int * pitch <= 0xffff_ffff * 0x1_fffe) by (nonlinear_arith)
                requires 0 <= col <= 0xffff_ffff, 0 <= pitch <= 0x1_fffe;
            assert(0 <= row as int * pitch <= 0xffff_ffff * 0x1_fffe) by (nonlinear_arith)
                requires 0 <= row <= 0xffff_ffff, 0 <= pitch <= 0x1_fffe;
            let x_offset: i64 = col as i64 * pitch + GRID_ORIGIN;
            let y_offset: i64 = row as i64 * pitch + GRID_ORIGIN;
            if x >= x_offset && x <= x_offset + size && y >= y_offset && y <= y_offset + size {
                proof {
                    lemma_first_hit_unique(x as int, y as int, rows as nat, cols as nat, s, p, row as int, col as int);
                }
                return Some((row, col));
            }
            col = col + 1;
        }
        row = row + 1;
    }
    proof {
        if exists|r: int, c: int| is_first_hit(x as int, y as int, rows as nat, cols as nat, s, p, r, c) {
            let (r, c) = choose|r: int, c: int| is_first_hit(x as int, y as int, rows as nat, cols as nat, s, p, r, c);
            assert(!cell_contains(x as int, y as int, r, c, s, p));
        }
    }
    None
}

} // verus!
