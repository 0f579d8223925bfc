//! Grid geometry: cell coordinates, the row-major index, and the cell under
//! a pointer.
//!
//! A grid has `rows × cols` cells and is passed as the pair `(rows, cols)`.
//! A cell size is passed as `(width, height)` in pointer units. The cell
//! under a pointer is found by floor division, column from `x` and width, row
//! from `y` and height, and is then clamped to the grid.

use vstd::prelude::*;
use vstd::arithmetic::div_mod::{
    lemma_fundamental_div_mod,
    lemma_fundamental_div_mod_converse,
    lemma_mod_bound,
};

verus! {

/// A cell coordinate as a pair of mathematical integers.
pub struct Pos {
    pub row: int,
    pub col: int,
}

/// A cell coordinate of a grid.
#[derive(Clone, Copy, Debug, PartialEq, Eq, Structural)]
pub struct Cell {
    pub row: usize,
    pub col: usize,
}

impl View for Cell {
    type V = Pos;

    open spec fn view(&self) -> Pos {
        Pos { row: self.row as int, col: self.col as int }
    }
}

/// A pointer event: where the pointer is, in whole pointer units. Positions
/// left of or above the canvas are negative.
#[derive(Clone, Copy, Debug, PartialEq, Eq, Structural)]
pub struct PointerEvent {
    pub x: i64,
    pub y: i64,
}

/// The distance between two coordinates.
pub open spec fn gap(u: int, v: int) -> int {
    if u <= v {
        v - u
    } else {
        u - v
    }
}

/// The coordinate in `[0, n)` that is nearest to `v`; 0 where the range is
/// empty.
pub open spec fn nearest_index(v: int, n: int) -> int {
    if v < 0 || n <= 0 {
        0
    } else if v >= n {
        n - 1
    } else {
        v
    }
}

/// `p / size` rounded down. A size of zero has no quotient and gives 0.
pub open spec fn quotient(p: int, size: int) -> int {
    if size > 0 {
        p / size
    } else {
        0
    }
}

/// The cell of the grid that is nearest to `p`, coordinate by coordinate.
pub open spec fn nearest_cell(p: Pos, grid: (usize, usize)) -> Pos {
    Pos {
        row: nearest_index(p.row, grid.0 as int),
        col: nearest_index(p.col, grid.1 as int),
    }
}

/// The cell that a pointer event falls on: the quotient of its position by
/// the cell size, clamped to the grid.
pub open spec fn cell_under(
    event: PointerEvent,
    cell_size: (u64, u64),
    grid: (usize, usize),
) -> Pos {
    nearest_cell(
        Pos {
            row: quotient(event.y as int, cell_size.1 as int),
            col: quotient(event.x as int, cell_size.0 as int),
        },
        grid,
    )
}

/// Whether `p` is a cell of the grid.
pub open spec fn in_grid(p: Pos, grid: (usize, usize)) -> bool {
    0 <= p.row < grid.0 && 0 <= p.col < grid.1
}

/// The place of cell `p` in a row-major buffer with `cols` columns.
pub open spec fn cell_index(p: Pos, cols: int) -> int {
    p.row * cols + p.col
}

/// The cell that place `i` of a row-major buffer with `cols` columns holds.
pub open spec fn index_cell(i: int, cols: int) -> Pos {
    Pos { row: i / cols, col: i % cols }
}

/// Clamping lands in the range, keeps what is in it, and sends everything
/// else to the nearer end.
pub proof fn lemma_nearest_index_in_range(v: int, n: int)
    requires
        n > 0,
    ensures
        0 <= nearest_index(v, n) < n,
        0 <= v < n ==> nearest_index(v, n) == v,
        v < 0 ==> nearest_index(v, n) == 0,
        v >= n ==> nearest_index(v, n) == n - 1,
{
}

/// No coordinate of the range is closer to `v` than the clamped one.
pub proof fn lemma_nearest_index_is_nearest(v: int, n: int, j: int)
    requires
        0 <= j < n,
    ensures
        gap(nearest_index(v, n), v) <= gap(j, v),
{
}

/// A pointer event falls on a cell of the grid, whatever its position, as
/// soon as the grid has a cell.
pub proof fn lemma_cell_under_in_grid(
    event: PointerEvent,
    cell_size: (u64, u64),
    grid: (usize, usize),
)
    requires
        grid.0 > 0,
        grid.1 > 0,
    ensures
        in_grid(cell_under(event, cell_size, grid), grid),
{
}

/// A pointer inside the canvas falls on the cell given by the two quotients.
pub proof fn lemma_cell_under_inside(
    event: PointerEvent,
    cell_size: (u64, u64),
    grid: (usize, usize),
)
    requires
        cell_size.0 > 0,
        cell_size.1 > 0,
        0 <= event.x < grid.1 * cell_size.0,
        0 <= event.y < grid.0 * cell_size.1,
    ensures
        cell_under(event, cell_size, grid) == (Pos {
            row: event.y as int / cell_size.1 as int,
            col: event.x as int / cell_size.0 as int,
        }),
{
    lemma_quotient_bounds(event.x as int, cell_size.0 as int, grid.1 as int);
    lemma_quotient_bounds(event.y as int, cell_size.1 as int, grid.0 as int);
}

/// Floor division keeps `0 <= p < n * size` within `0 <= p / size < n`.
proof fn lemma_quotient_bounds(p: int, size: int, n: int)
    requires
        size > 0,
        0 <= p < n * size,
    ensures
        0 <= p / size < n,
{
    lemma_fundamental_div_mod(p, size);
    lemma_mod_bound(p, size);
    let q = p / size;
    assert(0 <= q < n) by (nonlinear_arith)
        requires
            size > 0,
            0 <= p < n * size,
            p == size * q + p % size,
            0 <= p % size < size,
    ;
}

/// Floor division sends a negative position to a negative quotient.
proof fn lemma_quotient_negative(p: int, size: int)
    requires
        size > 0,
        p < 0,
    ensures
        p / size < 0,
{
    lemma_fundamental_div_mod(p, size);
    lemma_mod_bound(p, size);
    let q = p / size;
    assert(q < 0) by (nonlinear_arith)
        requires
            size > 0,
            p < 0,
            p == size * q + p % size,
            0 <= p % size < size,
    ;
}

/// Cells of the grid and places of its row-major buffer correspond one to
/// one.
pub proof fn lemma_cell_index_roundtrip(p: Pos, grid: (usize, usize))
    requires
        in_grid(p, grid),
    ensures
        0 <= cell_index(p, grid.1 as int) < grid.0 * grid.1,
        index_cell(cell_index(p, grid.1 as int), grid.1 as int) == p,
{
    let cols = grid.1 as int;
    let rows = grid.0 as int;
    lemma_fundamental_div_mod_converse(p.row * cols + p.col, cols, p.row, p.col);
    assert(0 <= p.row * cols + p.col < rows * cols) by (nonlinear_arith)
        requires
            0 <= p.row < rows,
            0 <= p.col < cols,
    ;
}

/// Every place of the buffer holds a cell of the grid, and that cell's place
/// is the place one started from.
pub proof fn lemma_index_cell_roundtrip(i: int, grid: (usize, usize))
    requires
        0 <= i < grid.0 * grid.1,
    ensures
        in_grid(index_cell(i, grid.1 as int), grid),
        cell_index(index_cell(i, grid.1 as int), grid.1 as int) == i,
{
    let cols = grid.1 as int;
    let rows = grid.0 as int;
    assert(cols > 0) by (nonlinear_arith)
        requires
            0 <= i < rows * cols,
            rows >= 0,
            cols >= 0,
    ;
    lemma_fundamental_div_mod(i, cols);
    lemma_mod_bound(i, cols);
    lemma_quotient_bounds(i, cols, rows);
    assert(cols * (i / cols) == (i / cols) * cols) by (nonlinear_arith);
}

/// Clamps `v` to `[0, n)`.
pub fn clamp_index(v: usize, n: usize) -> (i: usize)
    ensures
        i == nearest_index(v as int, n as int),
{
    if n == 0 {
        0
    } else if v >= n {
        n - 1
    } else {
        v
    }
}

/// Clamps a cell to the grid, coordinate by coordinate.
pub fn clamp_cell(cell: Cell, grid: (usize, usize)) -> (c: Cell)
    ensures
        c@ == nearest_cell(cell@, grid),
        grid.0 > 0 && grid.1 > 0 ==> in_grid(c@, grid),
        in_grid(cell@, grid) ==> c == cell,
{
    Cell { row: clamp_index(cell.row, grid.0), col: clamp_index(cell.col, grid.1) }
}

/// The index along one axis of a grid with `n` cells of size `size` that a
/// pointer at `p` falls on.
pub fn axis_index(p: i64, size: u64, n: usize) -> (i: usize)
    ensures
        i == nearest_index(quotient(p as int, size as int), n as int),
        n > 0 ==> i < n,
{
    if size == 0 || n == 0 {
        0
    } else if p < 0 {
        proof {
            lemma_quotient_negative(p as int, size as int);
        }
        0
    } else {
        let q: u64 = (p as u64) / size;
        if q >= n as u64 {
            n - 1
        } else {
            q as usize
        }
    }
}

/// The cell that a pointer event falls on. A pointer outside the canvas falls
/// on the nearest cell of the edge.
pub fn cell_at(event: &PointerEvent, cell_size: (u64, u64), grid: (usize, usize)) -> (c: Cell)
    ensures
        c@ == cell_under(*event, cell_size, grid),
        grid.0 > 0 && grid.1 > 0 ==> in_grid(c@, grid),
{
    Cell {
        row: axis_index(event.y, cell_size.1, grid.0),
        col: axis_index(event.x, cell_size.0, grid.1),
    }
}

/// The place of a cell of the grid in the row-major buffer.
pub fn index_of(cell: Cell, grid: (usize, usize)) -> (i: usize)
    requires
        in_grid(cell@, grid),
        grid.0 * grid.1 <= usize::MAX,
    ensures
        i == cell_index(cell@, grid.1 as int),
        i < grid.0 * grid.1,
{
    proof {
        lemma_cell_index_roundtrip(cell@, grid);
        assert(0 <= cell.row * grid.1 <= cell.row * grid.1 + cell.col) by (nonlinear_arith)
            requires
                cell.row >= 0,
                grid.1 >= 0,
                cell.col >= 0,
        ;
    }
    cell.row * grid.1 + cell.col
}

} // verus!
